//! The piece table: the document as an ordered list of slices over two
//! backing buffers, with verified insert, delete, read, and position
//! conversion operations.

use vstd::prelude::*;

pub mod line;
pub mod piece;

verus! {

/// Errors the piece table operations can report.
///
/// Only the first two are ever produced: the internal-consistency cases
/// are ruled out by the table's invariant, which every operation is
/// verified to preserve.
#[derive(Debug, Clone, Copy, PartialEq, Eq, Structural)]
pub enum TableError {
    /// An insert offset lay beyond the end of the document.
    OffsetOutOfBounds,
    /// A delete range reached beyond the end of the document.
    RangeOutOfBounds,
    /// A piece index did not name a piece (internal, never produced).
    PieceIndexOutOfBounds,
    /// The table's cached totals disagreed with its pieces (internal,
    /// never produced).
    InvariantViolation,
}

} // verus!
