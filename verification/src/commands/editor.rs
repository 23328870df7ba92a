//! Editor commands and their responses.

use vstd::prelude::*;
use crate::types::buffer::ID;
use crate::types::Position;
use crate::types::Range;

verus! {

/// An editor command: inserting or deleting text, moving the cursor,
/// setting a selection, creating a new buffer, or saving a buffer.
///
/// Each `InsertText` and `DeleteText` translates one-to-one into a piece
/// table `insert` or `delete`; the rest act on the per-buffer metadata
/// and cursor state.
#[derive(Debug, Clone, PartialEq)]
pub enum Command {
    /// Insert text into a buffer at a specific offset.
    InsertText {
        /// The ID of the buffer to insert text into.
        buffer_id: ID,
        /// The offset at which to insert the text.
        offset: usize,
        /// The text to insert.
        text: String,
    },
    /// Delete a range of text from a buffer.
    DeleteText {
        /// The ID of the buffer to delete text from.
        buffer_id: ID,
        /// The start offset of the text to delete.
        start: usize,
        /// The length of the text to delete.
        length: usize,
    },
    /// Move the cursor to a new position in a buffer.
    MoveCursor {
        /// The ID of the buffer whose cursor should be moved.
        buffer_id: ID,
        /// The new position for the cursor.
        position: Position,
    },
    /// Set a selection range in a buffer.
    SetSelection {
        /// The ID of the buffer to set the selection in.
        buffer_id: ID,
        /// The range to select.
        range: Range,
    },
    /// Create a new buffer with the given content.
    NewBuffer {
        /// The initial content of the new buffer.
        content: String,
    },
    /// Save a buffer to a file.
    SaveBuffer {
        /// The ID of the buffer to save.
        buffer_id: ID,
        /// The file path to save the buffer to.
        file_path: String,
    },
}

/// The response to an editor command: any follow-up commands, and flags
/// saying whether the cursor moved or the text changed.
#[derive(Debug, Clone)]
pub struct Response {
    /// Commands generated as a result of the original command.
    pub commands: Vec<Command>,
    /// Whether the cursor was moved as a result of the command.
    pub cursor_moved: bool,
    /// Whether the text was changed as a result of the command.
    pub text_changed: bool,
}

} // verus!
