use led::piece::Table;
use led::types::Position;

#[test]
fn test_insert_and_get_text() {
    let mut table = Table::new("".to_string());
    assert!(table.insert(0, "Hello").is_ok());
    assert_eq!(table.get_text(0, table.len()), "Hello");
    assert!(table.insert(5, ", world!").is_ok());
    assert_eq!(table.get_text(0, table.len()), "Hello, world!");
}

#[test]
fn test_delete() {
    let mut table = Table::new("Hello, world!".to_string());
    assert!(table.delete(5, 2).is_ok());
    assert_eq!(table.get_text(0, table.len()), "Helloworld!");
    assert!(table.delete(5, 5).is_ok());
    assert_eq!(table.get_text(0, table.len()), "Hello!");
}

#[test]
fn test_offset_to_position_and_back() {
    let table = Table::new("Hello\nworld\npiece\ntable".to_string());
    let pos = table.offset_to_position(6);
    assert_eq!(pos.line, 1);
    assert_eq!(pos.column, 0);
    let offset = table.position_to_offset(pos);
    assert_eq!(offset, 6);

    let pos = table.offset_to_position(12);
    assert_eq!(pos.line, 2);
    assert_eq!(pos.column, 0);
    let offset = table.position_to_offset(Position { line: 2, column: 0 });
    assert_eq!(offset, 12);

    let pos = table.offset_to_position(19);
    assert_eq!(pos.line, 3);
    assert_eq!(pos.column, 1);
    let offset = table.position_to_offset(Position { line: 3, column: 1 });
    assert_eq!(offset, 19);

    let end = table.len();
    let pos = table.offset_to_position(end);
    let offset = table.position_to_offset(pos);
    assert_eq!(offset, end);
}

#[test]
fn test_lines_count() {
    let mut table = Table::new("a\nb\nc".to_string());
    assert_eq!(table.lines(), 3);
    assert!(table.insert(5, "\nd").is_ok());
    assert_eq!(table.lines(), 4);
    assert!(table.delete(5, 2).is_ok());
    assert_eq!(table.lines(), 3);
}

#[test]
fn test_insert_delete_multiline() {
    let mut table = Table::new("".to_string());
    assert!(table.insert(0, "foo\nbar\nbaz").is_ok());
    assert_eq!(table.lines(), 3);
    assert!(table.insert(4, "X\nY\n").is_ok());
    assert_eq!(table.get_text(0, table.len()), "foo\nX\nY\nbar\nbaz");
    assert_eq!(table.lines(), 5);
    assert!(table.delete(4, 4).is_ok());
    assert_eq!(table.get_text(0, table.len()), "foo\nbar\nbaz");
    assert_eq!(table.lines(), 3);
}

#[test]
fn new_table_has_correct_length_and_lines() {
    let text = String::from("Hello\nWorld\n");
    let table = Table::new(text.clone());
    assert_eq!(table.len(), text.len());
    assert_eq!(table.lines(), 3);
}

#[test]
fn insert_text_at_start() {
    let mut table = Table::new("World".to_string());
    table.insert(0, "Hello ").unwrap();
    assert_eq!(table.get_text(0, table.len()), "Hello World");
}

#[test]
fn insert_text_at_end() {
    let mut table = Table::new("Hello".to_string());
    table.insert(5, " World").unwrap();
    assert_eq!(table.get_text(0, table.len()), "Hello World");
}

#[test]
fn insert_text_in_middle() {
    let mut table = Table::new("Helo World".to_string());
    table.insert(2, "l").unwrap();
    assert_eq!(table.get_text(0, table.len()), "Hello World");
}

#[test]
fn insert_text_with_newlines_updates_lines() {
    let mut table = Table::new("Hello".to_string());
    table.insert(5, "\nWorld\n!").unwrap();
    assert_eq!(table.lines(), 3);
    assert_eq!(table.get_text(0, table.len()), "Hello\nWorld\n!");
}

#[test]
fn delete_text_at_start() {
    let mut table = Table::new("Hello World".to_string());
    table.delete(0, 6).unwrap();
    assert_eq!(table.get_text(0, table.len()), "World");
}

#[test]
fn delete_text_at_end() {
    let mut table = Table::new("Hello World".to_string());
    table.delete(5, 6).unwrap();
    assert_eq!(table.get_text(0, table.len()), "Hello");
}

#[test]
fn delete_text_in_middle() {
    let mut table = Table::new("Hello cruel World".to_string());
    table.delete(6, 6).unwrap();
    assert_eq!(table.get_text(0, table.len()), "Hello World");
}

#[test]
fn delete_entire_content_results_in_empty() {
    let mut table = Table::new("Hello".to_string());
    table.delete(0, 5).unwrap();
    assert_eq!(table.get_text(0, table.len()), "");
    assert_eq!(table.len(), 0);
    assert_eq!(table.lines(), 1);
}

#[test]
fn get_text_out_of_bounds_returns_empty() {
    let table = Table::new("Hello".to_string());
    assert_eq!(table.get_text(10, 5), "");
}

#[test]
fn offset_to_position_and_back() {
    let table = Table::new("Hello\nWorld\n!".to_string());
    let pos = table.offset_to_position(7);
    assert_eq!(pos.line, 1);
    assert_eq!(pos.column, 1);
    let offset = table.position_to_offset(pos);
    assert_eq!(offset, 7);
}

#[test]
fn offset_to_position_at_end() {
    let table = Table::new("abc\ndef".to_string());
    let pos = table.offset_to_position(7);
    assert_eq!(pos.line, 1);
    assert_eq!(pos.column, 3);
}

#[test]
fn position_to_offset_past_end_returns_total_length() {
    let table = Table::new("abc\ndef".to_string());
    let offset = table.position_to_offset(Position { line: 10, column: 10 });
    assert_eq!(offset, table.len());
}

#[test]
fn insert_offset_out_of_bounds_returns_error() {
    let mut table = Table::new("abc".to_string());
    assert!(table.insert(10, "x").is_err());
}

#[test]
fn delete_range_out_of_bounds_returns_error() {
    let mut table = Table::new("abc".to_string());
    assert!(table.delete(2, 5).is_err());
}
