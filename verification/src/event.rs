//! Input-event value types that carry no device or backend state.

use vstd::prelude::*;

verus! {

/// Mouse buttons that can appear in mouse events.
#[derive(Debug, Clone, Copy, PartialEq, Eq, Hash)]
pub enum MouseButton {
    /// The left mouse button.
    Left,
    /// The right mouse button.
    Right,
    /// The middle mouse button (usually the scroll wheel).
    Middle,
    /// Any other mouse button, given by its numeric code.
    Other(u8),
}

/// Clipboard access for copy and paste operations, implemented by the
/// embedding environment.
pub trait Clipboard {
    /// Gets the current contents of the clipboard, if any.
    fn get(&self) -> Option<String>;

    /// Sets the contents of the clipboard.
    fn set(&mut self, contents: &str);
}

} // verus!
