//! Per-buffer cursor state with read accessors.

use vstd::prelude::*;
use crate::types::buffer;
use crate::types::Position;
use crate::types::Range;

verus! {

/// The state of a cursor in the editor: its position, an optional
/// selection range, and the buffer it is associated with.
pub struct State {
    /// The current position of the cursor.
    pub position: Position,
    /// The currently selected range, if any.
    pub selection: Option<Range>,
    /// The identifier of the buffer the cursor is associated with.
    pub buffer_id: buffer::ID,
}

impl State {
    /// Creates a new cursor state from a position, an optional selection,
    /// and a buffer identifier.
    pub fn new(position: Position, selection: Option<Range>, buffer_id: buffer::ID) -> (s: Self)
        ensures
            s.position == position,
            s.selection == selection,
            s.buffer_id == buffer_id,
    {
        Self { position, selection, buffer_id }
    }

    /// Returns the current position of the cursor.
    pub fn position(&self) -> (p: Position)
        ensures
            p == self.position,
    {
        self.position
    }

    /// Returns the current selection range, if any.
    pub fn selection(&self) -> (s: Option<Range>)
        ensures
            s == self.selection,
    {
        self.selection
    }

    /// Returns the ID of the buffer associated with this cursor state.
    pub fn buffer_id(&self) -> (id: buffer::ID)
        ensures
            id == self.buffer_id,
    {
        self.buffer_id
    }
}

} // verus!
