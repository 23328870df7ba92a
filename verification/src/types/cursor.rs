//! Cursor state as a plain value.

use vstd::prelude::*;
use crate::types::buffer;
use crate::types::Position;
use crate::types::Range;

verus! {

/// The state of a cursor: its position, an optional selection, and the
/// buffer it belongs to.
#[derive(Debug, Clone, Copy)]
pub struct State {
    /// Current cursor position.
    pub pos: Position,
    /// Optional selection range.
    pub selection: Option<Range>,
    /// Identifier of the buffer the cursor is in.
    pub buffer_id: buffer::ID,
}

} // verus!
