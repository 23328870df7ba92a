use led::buffer::editor::State;
use led::buffer::ID;
use led::commands::editor::Command;
use led::types::{Position, Range};

#[test]
fn create_buffer_initializes_all_fields() {
    let mut state = State::new();
    let buffer_id = state.create_buffer("hello".to_string());
    assert!(state.buffers.contains_key(&buffer_id.0));
    assert!(state.buffer_metadata.contains_key(&buffer_id.0));
    assert!(state.cursors.contains_key(&buffer_id.0));
    assert!(state.undo_stack.contains_key(&buffer_id.0));
    assert!(state.redo_stack.contains_key(&buffer_id.0));
    assert_eq!(state.active_buffer, Some(buffer_id));
}

#[test]
fn execute_command_insert_text_marks_buffer_modified() {
    let mut state = State::new();
    let buffer_id = state.create_buffer("abc".to_string());
    let _ = state.execute_command(Command::InsertText {
        buffer_id,
        offset: 1,
        text: "x".to_string(),
    });
    let meta = state.buffer_metadata.get(&buffer_id.0).unwrap();
    assert!(meta.modified);
}

#[test]
fn execute_command_delete_text_marks_buffer_modified() {
    let mut state = State::new();
    let buffer_id = state.create_buffer("abc".to_string());
    let _ = state.execute_command(Command::DeleteText {
        buffer_id,
        start: 0,
        length: 1,
    });
    let meta = state.buffer_metadata.get(&buffer_id.0).unwrap();
    assert!(meta.modified);
}

#[test]
fn execute_command_move_cursor_updates_position_and_clears_selection() {
    let mut state = State::new();
    let buffer_id = state.create_buffer("abc".to_string());
    let pos = Position { line: 1, column: 2 };
    let _ = state.execute_command(Command::MoveCursor {
        buffer_id,
        position: pos,
    });
    let cursor = state.cursors.get(&buffer_id.0).unwrap();
    assert_eq!(cursor.position, pos);
    assert!(cursor.selection.is_none());
}

#[test]
fn execute_command_set_selection_sets_selection() {
    let mut state = State::new();
    let buffer_id = state.create_buffer("abc".to_string());
    let range = Range {
        start: Position { line: 0, column: 0 },
        end: Position { line: 0, column: 2 },
    };
    let _ = state.execute_command(Command::SetSelection {
        buffer_id,
        range: range.clone(),
    });
    let cursor = state.cursors.get(&buffer_id.0).unwrap();
    assert_eq!(cursor.selection, Some(range));
}

#[test]
fn execute_command_new_buffer_creates_new_buffer() {
    let mut state = State::new();
    let before = state.buffers.len();
    let _ = state.execute_command(Command::NewBuffer {
        content: "new".to_string(),
    });
    assert_eq!(state.buffers.len(), before + 1);
}

#[test]
fn execute_command_save_buffer_updates_file_path_and_clears_modified() {
    let mut state = State::new();
    let buffer_id = state.create_buffer("abc".to_string());
    state.buffer_metadata.get_mut(&buffer_id.0).unwrap().modified = true;
    let _ = state.execute_command(Command::SaveBuffer {
        buffer_id,
        file_path: "foo.txt".to_string(),
    });
    let meta = state.buffer_metadata.get(&buffer_id.0).unwrap();
    assert_eq!(meta.file_path, Some("foo.txt".to_string()));
    assert!(!meta.modified);
}

#[test]
fn get_buffer_text_returns_none_for_nonexistent_buffer() {
    let state = State::new();
    let fake_id = ID::new();
    assert!(state.get_buffer_text(fake_id).is_none());
}

#[test]
fn get_cursor_state_returns_none_for_nonexistent_buffer() {
    let state = State::new();
    let fake_id = ID::new();
    assert!(state.get_cursor_state(fake_id).is_none());
}

#[test]
fn get_active_biffer_returns_active_buffer() {
    let mut state = State::new();
    let buffer_id = state.create_buffer("abc".to_string());
    assert_eq!(state.get_active_biffer(), Some(buffer_id));
}

#[test]
fn get_buffer_text_returns_document_text() {
    let mut state = State::new();
    let buffer_id = state.create_buffer("abc".to_string());
    state
        .execute_command(Command::InsertText {
            buffer_id,
            offset: 3,
            text: "def".to_string(),
        })
        .unwrap();
    assert_eq!(state.get_buffer_text(buffer_id), Some("abcdef".to_string()));
}

#[test]
fn execute_command_insert_out_of_bounds_leaves_buffer_unchanged() {
    let mut state = State::new();
    let buffer_id = state.create_buffer("abc".to_string());
    let res = state.execute_command(Command::InsertText {
        buffer_id,
        offset: 10,
        text: "x".to_string(),
    });
    assert!(res.is_err());
    assert_eq!(state.get_buffer_text(buffer_id), Some("abc".to_string()));
    assert!(!state.buffer_metadata.get(&buffer_id.0).unwrap().modified);
}
