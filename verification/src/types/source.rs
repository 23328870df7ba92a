//! Source buffer identifiers for pieces.

use vstd::prelude::*;

verus! {

/// Identifies the backing buffer a piece slices: the read-only original
/// text or the append-only add buffer that holds inserted text.
#[derive(Debug, Clone, Copy, PartialEq, Eq, Structural)]
pub enum ID {
    /// The original buffer.
    Original,
    /// The add buffer (for inserted text).
    Add,
}

} // verus!
