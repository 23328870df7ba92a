//! The drawing interface widgets render through.

use vstd::prelude::*;

verus! {

/// An interface for drawing operations, implemented by backend adapters
/// so that widgets can render without depending on a particular GUI
/// toolkit.
pub trait DrawContext {
    /// Draws the given text using the current drawing context.
    fn draw_text(&mut self, text: &str);
}

} // verus!
