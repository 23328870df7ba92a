//! Layout direction for arranging UI elements.

use vstd::prelude::*;

verus! {

/// The direction in which child elements are laid out.
#[derive(Debug, Clone, Copy, PartialEq, Eq)]
pub enum Direction {
    /// Lay out elements from left to right.
    Horizontal,
    /// Lay out elements from top to bottom.
    Vertical,
}

} // verus!
