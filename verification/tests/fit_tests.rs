use safe_fluent::fit::{change_fits_exec, land_exec, Landing};
use safe_fluent::protocol::{ContentChange, Position, Range};
use safe_fluent::server::TextEncoding;

fn pos(line: u32, character: u32) -> Position {
    Position { line, character }
}

fn change(start: Position, end: Position, text: &str) -> ContentChange {
    ContentChange { range: Some(Range { start, end }), range_length: None, text: text.to_string() }
}

#[test]
fn lines_come_from_the_break_table() {
    let b = "ab\r\ncd\nef\rgh".as_bytes();
    let bk = [0, 3, 6, 9];
    assert_eq!(Landing::At(1, 0), land_exec(TextEncoding::Utf8, b, &bk, pos(1, 0)));
    assert_eq!(Landing::At(2, 1), land_exec(TextEncoding::Utf8, b, &bk, pos(2, 1)));
    assert_eq!(Landing::At(3, 2), land_exec(TextEncoding::Utf8, b, &bk, pos(3, 2)));
    assert_eq!(Landing::Refused, land_exec(TextEncoding::Utf8, b, &bk, pos(4, 0)));
    assert_eq!(Landing::Refused, land_exec(TextEncoding::Utf8, b, &bk, pos(0, 3)));
    assert_eq!(Landing::Panics, land_exec(TextEncoding::Utf8, b, &[], pos(0, 0)));
    assert_eq!(Landing::Panics, land_exec(TextEncoding::Utf8, b, &[0, 20], pos(0, 0)));
}

#[test]
fn columns_in_each_encoding() {
    let b = "aé😀b".as_bytes();
    let bk = [0];
    assert_eq!(Landing::At(0, 3), land_exec(TextEncoding::Utf8, b, &bk, pos(0, 3)));
    assert_eq!(Landing::Refused, land_exec(TextEncoding::Utf8, b, &bk, pos(0, 2)));
    assert_eq!(Landing::At(0, 7), land_exec(TextEncoding::Utf16, b, &bk, pos(0, 4)));
    assert_eq!(Landing::Refused, land_exec(TextEncoding::Utf16, b, &bk, pos(0, 3)));
    assert_eq!(Landing::At(0, 7), land_exec(TextEncoding::Utf32, b, &bk, pos(0, 3)));
    assert_eq!(Landing::At(0, 8), land_exec(TextEncoding::Utf32, b, &bk, pos(0, 9)));
}

#[test]
fn utf16_column_past_the_units_is_a_byte_count() {
    let b = "éé".as_bytes();
    assert_eq!(Landing::At(0, 3), land_exec(TextEncoding::Utf16, b, &[0], pos(0, 3)));
    assert_eq!(Landing::At(0, 4), land_exec(TextEncoding::Utf16, b, &[0], pos(0, 5)));
}

#[test]
fn which_changes_fit() {
    let whole = ContentChange { range: None, range_length: None, text: "x".to_string() };
    assert!(change_fits_exec(TextEncoding::Utf16, "éé", &[0], &whole));
    assert!(!change_fits_exec(TextEncoding::Utf16, "éé", &[0], &change(pos(0, 3), pos(0, 3), "x")));
    assert!(change_fits_exec(TextEncoding::Utf16, "éé", &[0], &change(pos(0, 1), pos(0, 1), "x")));
    assert!(change_fits_exec(TextEncoding::Utf8, "ab", &[0], &change(pos(5, 0), pos(0, 0), "")));
    assert!(change_fits_exec(TextEncoding::Utf8, "abc", &[0], &change(pos(0, 2), pos(0, 0), "")));
    assert!(!change_fits_exec(TextEncoding::Utf8, "ab", &[0], &change(pos(0, 2), pos(0, 0), "")));
    assert!(change_fits_exec(TextEncoding::Utf8, "ab\ncd", &[0, 2], &change(pos(0, 2), pos(0, 1), "")));
}

#[test]
fn a_table_that_has_lost_step_with_the_text() {
    assert!(change_fits_exec(TextEncoding::Utf8, "abcd", &[0, 1], &change(pos(1, 0), pos(1, 0), "X")));
    assert!(!change_fits_exec(TextEncoding::Utf8, "ab", &[0, 5], &change(pos(0, 0), pos(0, 0), "X")));
    let whole = ContentChange { range: None, range_length: None, text: "x".to_string() };
    assert!(!change_fits_exec(TextEncoding::Utf8, "ab", &[0, 5], &whole));
}
