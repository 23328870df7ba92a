use led::commands::editor::{Command, Response};
use led::cursor;
use led::types::buffer;
use led::types::cursor as cursor_types;
use led::types::source;
use led::types::{Position, Range};
use std::collections::HashSet;

#[test]
fn creates_unique_buffer_ids() {
    let id1 = buffer::ID::new();
    let id2 = buffer::ID::new();
    assert_ne!(id1, id2, "Buffer IDs should be unique");
}

#[test]
fn buffer_id_equality_and_hash() {
    let value: u128 = 0xa1a2a3a4b1b2c1c2d1d2d3d4d5d6d7d8;
    let id1 = buffer::ID(value);
    let id2 = buffer::ID(value);
    assert_eq!(id1, id2, "Buffer IDs with the same value should be equal");
    let mut set = HashSet::new();
    set.insert(id1);
    assert!(set.contains(&id2), "HashSet should recognize equal buffer IDs");
}

#[test]
fn source_id_variants_are_distinct() {
    assert_ne!(source::ID::Original, source::ID::Add, "Source ID variants should be distinct");
}

#[test]
fn position_equality_and_values() {
    let pos1 = Position { line: 0, column: 0 };
    let pos2 = Position { line: 0, column: 0 };
    let pos3 = Position { line: 1, column: 2 };
    assert_eq!(pos1, pos2, "Positions with same values should be equal");
    assert_ne!(pos1, pos3, "Positions with different values should not be equal");
}

#[test]
fn range_equality_and_values() {
    let start = Position { line: 1, column: 2 };
    let end = Position { line: 3, column: 4 };
    let range1 = Range { start, end };
    let range2 = Range { start, end };
    let range3 = Range { start: end, end: start };
    assert_eq!(range1, range2, "Ranges with same positions should be equal");
    assert_ne!(range1, range3, "Ranges with different positions should not be equal");
}

#[test]
fn cursor_state_with_and_without_selection() {
    let pos = Position { line: 2, column: 5 };
    let range = Range {
        start: Position { line: 1, column: 1 },
        end: Position { line: 2, column: 5 },
    };
    let buffer_id = buffer::ID::new();
    let state_with_selection = cursor_types::State {
        pos,
        selection: Some(range),
        buffer_id,
    };
    let state_without_selection = cursor_types::State {
        pos,
        selection: None,
        buffer_id,
    };
    assert_eq!(state_with_selection.pos, pos);
    assert_eq!(state_with_selection.selection, Some(range));
    assert_eq!(state_with_selection.buffer_id, buffer_id);
    assert_eq!(state_without_selection.selection, None);
}

#[test]
fn new_state_sets_fields_correctly() {
    let pos = Position { line: 3, column: 7 };
    let range = Some(Range {
        start: Position { line: 2, column: 1 },
        end: Position { line: 3, column: 7 },
    });
    let buffer_id = buffer::ID::new();
    let state = cursor::State::new(pos, range, buffer_id);
    assert_eq!(state.position, pos);
    assert_eq!(state.selection, range);
    assert_eq!(state.buffer_id, buffer_id);
}

#[test]
fn position_returns_current_position() {
    let pos = Position { line: 0, column: 0 };
    let state = cursor::State::new(pos, None, buffer::ID::new());
    assert_eq!(state.position(), pos);
}

#[test]
fn selection_returns_none_when_no_selection() {
    let state = cursor::State::new(
        Position { line: 1, column: 1 },
        None,
        buffer::ID::new(),
    );
    assert_eq!(state.selection(), None);
}

#[test]
fn selection_returns_some_when_selection_exists() {
    let range = Range {
        start: Position { line: 0, column: 0 },
        end: Position { line: 1, column: 2 },
    };
    let state = cursor::State::new(
        Position { line: 0, column: 0 },
        Some(range),
        buffer::ID::new(),
    );
    assert_eq!(state.selection(), Some(range));
}

#[test]
fn buffer_id_returns_correct_id() {
    let buffer_id = buffer::ID::new();
    let state = cursor::State::new(
        Position { line: 2, column: 2 },
        None,
        buffer_id,
    );
    assert_eq!(state.buffer_id(), buffer_id);
}

#[test]
fn command_insert_text_fields_are_set_correctly() {
    let buffer_id = buffer::ID::new();
    let offset = 5;
    let text = "hello".to_string();
    let cmd = Command::InsertText { buffer_id, offset, text: text.clone() };
    if let Command::InsertText { buffer_id: bid, offset: off, text: t } = cmd {
        assert_eq!(bid, buffer_id);
        assert_eq!(off, offset);
        assert_eq!(t, text);
    } else {
        panic!("Expected InsertText variant");
    }
}

#[test]
fn command_delete_text_fields_are_set_correctly() {
    let buffer_id = buffer::ID::new();
    let start = 2;
    let length = 3;
    let cmd = Command::DeleteText { buffer_id, start, length };
    if let Command::DeleteText { buffer_id: bid, start: s, length: l } = cmd {
        assert_eq!(bid, buffer_id);
        assert_eq!(s, start);
        assert_eq!(l, length);
    } else {
        panic!("Expected DeleteText variant");
    }
}

#[test]
fn command_move_cursor_fields_are_set_correctly() {
    let buffer_id = buffer::ID::new();
    let position = Position { line: 1, column: 2 };
    let cmd = Command::MoveCursor { buffer_id, position };
    if let Command::MoveCursor { buffer_id: bid, position: pos } = cmd {
        assert_eq!(bid, buffer_id);
        assert_eq!(pos, position);
    } else {
        panic!("Expected MoveCursor variant");
    }
}

#[test]
fn command_set_selection_fields_are_set_correctly() {
    let buffer_id = buffer::ID::new();
    let range = Range {
        start: Position { line: 0, column: 0 },
        end: Position { line: 1, column: 1 },
    };
    let cmd = Command::SetSelection { buffer_id, range };
    if let Command::SetSelection { buffer_id: bid, range: r } = cmd {
        assert_eq!(bid, buffer_id);
        assert_eq!(r, range);
    } else {
        panic!("Expected SetSelection variant");
    }
}

#[test]
fn command_new_buffer_content_is_set() {
    let content = "initial content".to_string();
    let cmd = Command::NewBuffer { content: content.clone() };
    if let Command::NewBuffer { content: c } = cmd {
        assert_eq!(c, content);
    } else {
        panic!("Expected NewBuffer variant");
    }
}

#[test]
fn command_save_buffer_fields_are_set_correctly() {
    let buffer_id = buffer::ID::new();
    let file_path = "file.txt".to_string();
    let cmd = Command::SaveBuffer { buffer_id, file_path: file_path.clone() };
    if let Command::SaveBuffer { buffer_id: bid, file_path: fp } = cmd {
        assert_eq!(bid, buffer_id);
        assert_eq!(fp, file_path);
    } else {
        panic!("Expected SaveBuffer variant");
    }
}

#[test]
fn response_fields_are_set_correctly() {
    let commands = vec![
        Command::NewBuffer { content: "abc".to_string() },
        Command::SaveBuffer { buffer_id: buffer::ID::new(), file_path: "a.txt".to_string() },
    ];
    let response = Response {
        commands: commands.clone(),
        cursor_moved: true,
        text_changed: false,
    };
    assert_eq!(response.commands, commands);
    assert!(response.cursor_moved);
    assert!(!response.text_changed);
}
