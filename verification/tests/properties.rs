use led::piece_table::TableError;
use led::piece::Table;
use led::types::Position;

#[test]
fn length_matches_full_read_after_every_operation() {
    let mut table = Table::new("one\ntwo".to_string());
    assert_eq!(table.len(), table.get_text(0, table.len()).len());
    table.insert(3, " and a half").unwrap();
    assert_eq!(table.len(), table.get_text(0, table.len()).len());
    table.delete(1, 5).unwrap();
    assert_eq!(table.len(), table.get_text(0, table.len()).len());
    table.delete(0, table.len()).unwrap();
    assert_eq!(table.len(), table.get_text(0, table.len()).len());
}

#[test]
fn line_count_matches_newlines_in_full_read() {
    let mut table = Table::new("a\nb\nc".to_string());
    let newline_total =
        |t: &Table| t.get_text(0, t.len()).chars().filter(|&c| c == '\n').count();
    assert_eq!(table.lines() - 1, newline_total(&table));
    table.insert(1, "\n\n").unwrap();
    assert_eq!(table.lines() - 1, newline_total(&table));
    table.delete(0, 4).unwrap();
    assert_eq!(table.lines() - 1, newline_total(&table));
}

#[test]
fn delete_of_zero_length_changes_nothing() {
    let mut table = Table::new("stable".to_string());
    let before = table.get_text(0, table.len());
    for x in 0..=table.len() {
        assert!(table.delete(x, 0).is_ok());
        assert_eq!(table.get_text(0, table.len()), before);
        assert_eq!(table.len(), before.len());
        assert_eq!(table.lines(), 1);
    }
}

#[test]
fn insert_then_delete_is_identity() {
    let mut table = Table::new("Hello, world!".to_string());
    let before = table.get_text(0, table.len());
    table.insert(5, "XYZ\n").unwrap();
    assert_eq!(table.get_text(0, table.len()), "HelloXYZ\n, world!");
    table.delete(5, 4).unwrap();
    assert_eq!(table.get_text(0, table.len()), before);
    assert_eq!(table.lines(), 1);
}

#[test]
fn empty_inserts_at_boundaries_succeed_and_change_nothing() {
    let mut table = Table::new("edge".to_string());
    let len_before = table.len();
    assert!(table.insert(len_before, "").is_ok());
    assert_eq!(table.len(), len_before);
    assert!(table.insert(0, "").is_ok());
    assert_eq!(table.len(), len_before);
    assert_eq!(table.get_text(0, table.len()), "edge");
}

#[test]
fn insert_past_end_reports_offset_out_of_bounds() {
    let mut table = Table::new("abc".to_string());
    let res = table.insert(table.len() + 1, "x");
    assert_eq!(res, Err(TableError::OffsetOutOfBounds));
    assert_eq!(table.get_text(0, table.len()), "abc");
}

#[test]
fn delete_past_end_reports_range_out_of_bounds() {
    let mut table = Table::new("abc".to_string());
    let res = table.delete(table.len() - 1, 2);
    assert_eq!(res, Err(TableError::RangeOutOfBounds));
    assert_eq!(table.get_text(0, table.len()), "abc");
}

#[test]
fn delete_spanning_several_pieces() {
    let mut table = Table::new("aaa".to_string());
    table.insert(3, "bbb").unwrap();
    table.insert(6, "ccc").unwrap();
    table.insert(0, "zzz").unwrap();
    assert_eq!(table.get_text(0, table.len()), "zzzaaabbbccc");
    table.delete(1, 10).unwrap();
    assert_eq!(table.get_text(0, table.len()), "zc");
    assert_eq!(table.len(), 2);
}

#[test]
fn positions_across_piece_boundaries() {
    let mut table = Table::new("ab".to_string());
    table.insert(2, "cd").unwrap();
    let pos = table.offset_to_position(3);
    assert_eq!(pos, Position { line: 0, column: 3 });
    assert_eq!(table.position_to_offset(Position { line: 0, column: 3 }), 3);

    let mut multi = Table::new("ab\n".to_string());
    multi.insert(3, "cd\nef").unwrap();
    assert_eq!(multi.offset_to_position(4), Position { line: 1, column: 1 });
    assert_eq!(multi.position_to_offset(Position { line: 2, column: 1 }), 7);
}

#[test]
fn offset_beyond_end_maps_to_document_end() {
    let table = Table::new("a\nb".to_string());
    assert_eq!(table.offset_to_position(10), Position { line: 1, column: 1 });
    assert_eq!(table.offset_to_position(3), Position { line: 1, column: 1 });
    let empty = Table::new("".to_string());
    assert_eq!(empty.offset_to_position(5), Position { line: 0, column: 0 });
}

#[test]
fn sequential_typing_round_trip() {
    let mut table = Table::new("".to_string());
    for (i, piece) in ["pie", "ce ", "tab", "le"].iter().enumerate() {
        table.insert(3 * i, piece).unwrap();
    }
    assert_eq!(table.get_text(0, table.len()), "piece table");
    table.delete(0, 6).unwrap();
    assert_eq!(table.get_text(0, table.len()), "table");
}

#[test]
fn get_text_of_partial_ranges() {
    let mut table = Table::new("Hello".to_string());
    table.insert(5, " World").unwrap();
    assert_eq!(table.get_text(3, 5), "lo Wo");
    assert_eq!(table.get_text(0, 0), "");
    assert_eq!(table.get_text(11, 0), "");
    assert_eq!(table.get_text(6, 6), "");
}
