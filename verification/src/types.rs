//! Plain value types shared across the editor: document positions, ranges,
//! and the identifier types used by the buffer registry.

use vstd::prelude::*;

pub mod buffer;
pub mod cursor;
pub mod source;

verus! {

/// A position in the document: zero-based line and column, the column
/// measured in characters from the start of the line.
#[derive(Debug, Clone, Copy, PartialEq, Eq, Structural)]
pub struct Position {
    /// Line number (zero-based).
    pub line: usize,
    /// Column number (zero-based).
    pub column: usize,
}

/// A span of the document given by two positions; the end may equal the
/// start (an empty selection).
#[derive(Debug, Clone, Copy, PartialEq, Eq, Structural)]
pub struct Range {
    /// Start position of the range.
    pub start: Position,
    /// End position of the range.
    pub end: Position,
}

} // verus!
