//! Entries of the line-offset cache.

use vstd::prelude::*;

verus! {

/// A checkpoint of the line-offset cache: where a line starts, in which
/// piece, and at which absolute offset.  The cache is a pure optimization
/// aid; no read operation depends on it.
#[derive(Debug, Clone)]
pub struct Info {
    /// Index of the piece containing this line.
    pub(crate) piece_idx: usize,
    /// Offset within the piece where the line starts.
    pub(crate) offset_in_piece: usize,
    /// Absolute offset in the document.
    pub(crate) abs_offset: usize,
    /// Line number in the document.
    pub(crate) line_number: usize,
}

} // verus!
