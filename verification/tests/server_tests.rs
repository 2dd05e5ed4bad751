use safe_fluent::error::Error;
use safe_fluent::protocol::{ContentChange, DiagnosticSeverity, Position, Range};
use safe_fluent::server::{diagnostic_for_match, diagnostics_for_matches, diagnostics_reply, ErrorMatch, placeholder_diagnostic, Backend, BackendBuilder, Reply, TextEncoding};

fn backend(encoding: TextEncoding) -> Backend<()> {
    Backend::<()>::builder().client(()).encoding(encoding).build().expect("builds")
}

fn at(l0: u32, c0: u32, l1: u32, c1: u32) -> Option<Range> {
    Some(Range { start: Position { line: l0, character: c0 }, end: Position { line: l1, character: c1 } })
}

fn change(range: Option<Range>, text: &str) -> ContentChange {
    ContentChange { range, range_length: None, text: text.to_string() }
}

fn assert_published(reply: &Reply) {
    match reply {
        Reply::Publish(ds) => {
            let last = ds.last().expect("the placeholder is always there");
            assert_eq!("Hello World!", last.message);
            assert_eq!(Some("ParseError".to_string()), last.code);
            assert_eq!(Some(DiagnosticSeverity::Error), last.severity);
            assert_eq!(at(0, 0, 0, 1).unwrap(), last.range);
            for d in &ds[..ds.len() - 1] {
                assert_eq!(Some("SQL Tree Sitter".to_string()), d.source);
            }
        }
        _ => panic!("expected diagnostics to publish"),
    }
}

#[test]
fn build_needs_client_and_encoding() {
    assert!(Backend::<()>::builder().client(()).build().is_none());
    assert!(Backend::<()>::builder().encoding(TextEncoding::Utf8).build().is_none());
    assert!(BackendBuilder::<()>::default().build().is_none());
    assert!(Backend::<()>::builder().client(()).encoding(TextEncoding::Utf8).build().is_some());
}

#[test]
fn initialize_prefers_utf8() {
    let b = backend(TextEncoding::Utf8);
    let offered = Some(vec!["utf-16".to_string(), "utf-8".to_string()]);
    let r = b.initialize(&offered);
    assert_eq!(TextEncoding::Utf8, r.position_encoding);
    assert!(r.open_close);
    assert!(r.incremental_sync);
    assert_eq!("sqls", r.server_name);
    assert_eq!("0.1.0", r.server_version);
}

#[test]
fn initialize_falls_back_to_utf16() {
    let b = backend(TextEncoding::Utf8);
    assert_eq!(TextEncoding::Utf16, b.initialize(&None).position_encoding);
    assert_eq!(TextEncoding::Utf16, b.initialize(&Some(vec!["utf-32".to_string()])).position_encoding);
}

#[test]
fn open_publishes_with_placeholder() {
    let mut b = backend(TextEncoding::Utf8);
    let url = "file:///a.sql".to_string();
    let reply = b.did_open(url.clone(), "sql", "SELECT a FROM t;".to_string());
    assert_published(&reply);
    assert_eq!(Some("SELECT a FROM t;"), b.file_text(&url));
}

#[test]
fn open_of_other_language_does_nothing() {
    let mut b = backend(TextEncoding::Utf8);
    let url = "file:///a.json".to_string();
    assert!(matches!(b.did_open(url.clone(), "json", "{}".to_string()), Reply::Nothing));
    assert_eq!(None, b.file_text(&url));
}

#[test]
fn second_open_is_an_error() {
    let mut b = backend(TextEncoding::Utf8);
    let url = "file:///a.sql".to_string();
    b.did_open(url.clone(), "sql", "SELECT 1;".to_string());
    match b.did_open(url.clone(), "sql", "SELECT 2;".to_string()) {
        Reply::LogError(e) => {
            assert!(matches!(e, Error::FileAlreadyExists { .. }));
            assert_eq!("File 'file:///a.sql' already exists", e.to_string());
        }
        _ => panic!("expected an error"),
    }
    assert_eq!(Some("SELECT 1;"), b.file_text(&url));
}

#[test]
fn change_replaces_whole_text() {
    let mut b = backend(TextEncoding::Utf8);
    let url = "file:///a.sql".to_string();
    b.did_open(url.clone(), "sql", "SELECT 1;".to_string());
    let reply = b.did_change(&url, &vec![change(None, "SELECT 2;")]);
    assert_published(&reply);
    assert_eq!(Some("SELECT 2;"), b.file_text(&url));
}

#[test]
fn changes_apply_in_order() {
    let mut b = backend(TextEncoding::Utf8);
    let url = "file:///a.sql".to_string();
    b.did_open(url.clone(), "sql", "SELECT a FROM t;".to_string());
    let changes = vec![change(at(0, 7, 0, 8), "b"), change(at(0, 0, 0, 0), "-- q\n")];
    assert_published(&b.did_change(&url, &changes));
    assert_eq!(Some("-- q\nSELECT b FROM t;"), b.file_text(&url));
}

#[test]
fn utf16_columns_count_code_units() {
    let mut b = backend(TextEncoding::Utf16);
    let url = "file:///a.sql".to_string();
    b.did_open(url.clone(), "sql", "SELECT 'é';".to_string());
    b.did_change(&url, &vec![change(at(0, 9, 0, 9), "e")]);
    assert_eq!(Some("SELECT 'ée';"), b.file_text(&url));
}

#[test]
fn refused_change_is_logged_and_keeps_text() {
    let mut b = backend(TextEncoding::Utf8);
    let url = "file:///a.sql".to_string();
    b.did_open(url.clone(), "sql", "SELECT 1;".to_string());
    match b.did_change(&url, &vec![change(at(7, 0, 7, 1), "x")]) {
        Reply::LogError(e) => {
            assert!(matches!(e, Error::TexterError(_)));
            assert!(e.to_string().starts_with("Texter error: "));
        }
        _ => panic!("expected an error"),
    }
    assert_eq!(Some("SELECT 1;"), b.file_text(&url));
}

#[test]
fn change_of_unknown_file_does_nothing() {
    let mut b = backend(TextEncoding::Utf8);
    let url = "file:///none.sql".to_string();
    assert!(matches!(b.did_change(&url, &vec![change(None, "x")]), Reply::Nothing));
}

#[test]
fn close_publishes_nothing_left() {
    let mut b = backend(TextEncoding::Utf8);
    let url = "file:///a.sql".to_string();
    b.did_open(url.clone(), "sql", "SELECT 1;".to_string());
    match b.did_close(&url) {
        Reply::Publish(ds) => assert!(ds.is_empty()),
        _ => panic!("expected empty diagnostics"),
    }
    assert_eq!(None, b.file_text(&url));
    assert!(matches!(b.did_close(&url), Reply::Nothing));
}

#[test]
fn diagnostic_for_unexpected_token() {
    let r = at(1, 2, 1, 5).unwrap();
    let d = diagnostic_for_match(0, r, None).unwrap();
    assert_eq!("Unexpected Token", d.message);
    assert_eq!(r, d.range);
    assert_eq!(Some(DiagnosticSeverity::Error), d.severity);
    assert_eq!(Some("SQL Tree Sitter".to_string()), d.source);
    assert_eq!(None, d.code);
}

#[test]
fn diagnostic_for_missing_token() {
    let r = at(0, 3, 0, 3).unwrap();
    let d = diagnostic_for_match(1, r, Some("\";\"".to_string())).unwrap();
    assert_eq!("Missing \";\"", d.message);
    assert!(diagnostic_for_match(1, r, None).is_none());
}

#[test]
fn placeholder_shape() {
    let d = placeholder_diagnostic();
    assert_eq!("Hello World!", d.message);
    assert_eq!(None, d.source);
}

#[test]
fn parser_error_message() {
    assert_eq!("An error occurred during parsing", Error::TreeSitterParserError.to_string());
}

#[test]
fn reply_publishes_found_diagnostics_then_placeholder() {
    let found = diagnostic_for_match(0, at(0, 1, 0, 2).unwrap(), None).unwrap();
    match diagnostics_reply(Some(vec![found])) {
        Reply::Publish(ds) => {
            assert_eq!(2, ds.len());
            assert_eq!("Unexpected Token", ds[0].message);
            assert_eq!("Hello World!", ds[1].message);
        }
        _ => panic!("expected diagnostics to publish"),
    }
    assert!(matches!(diagnostics_reply(None), Reply::Unreportable));
}

#[test]
fn reversed_range_is_swapped_and_moved_on() {
    let mut b = backend(TextEncoding::Utf8);
    let url = "file:///a.sql".to_string();
    b.did_open(url.clone(), "sql", "SELECT ab;".to_string());
    let reply = b.did_change(&url, &vec![change(at(0, 9, 0, 7), "")]);
    assert!(matches!(reply, Reply::Publish(_) | Reply::Unreportable));
    assert_eq!(Some("SELECT a"), b.file_text(&url));
}

#[test]
fn reversed_range_past_the_line_does_not_fit() {
    let mut b = backend(TextEncoding::Utf8);
    let url = "file:///a.sql".to_string();
    b.did_open(url.clone(), "sql", "ab".to_string());
    assert!(matches!(b.did_change(&url, &vec![change(at(0, 2, 0, 0), "")]), Reply::Unfit));
    assert_eq!(Some("ab"), b.file_text(&url));
}

#[test]
fn utf16_column_inside_a_character_does_not_fit() {
    let mut b = backend(TextEncoding::Utf16);
    let url = "file:///a.sql".to_string();
    b.did_open(url.clone(), "sql", "éé".to_string());
    let changes = vec![change(at(0, 1, 0, 1), "x"), change(at(0, 4, 0, 4), "y")];
    assert!(matches!(b.did_change(&url, &changes), Reply::Unfit));
    assert_eq!(Some("éxé"), b.file_text(&url));
}

#[test]
fn one_diagnostic_per_match_in_order() {
    let ms = vec![
        ErrorMatch { pattern_index: 1, range: at(0, 4, 0, 4).unwrap(), first_child: Some("\")\"".to_string()) },
        ErrorMatch { pattern_index: 0, range: at(1, 0, 1, 3).unwrap(), first_child: None },
    ];
    let ds = diagnostics_for_matches(&ms).unwrap();
    assert_eq!(2, ds.len());
    assert_eq!("Missing \")\"", ds[0].message);
    assert_eq!(at(0, 4, 0, 4).unwrap(), ds[0].range);
    assert_eq!("Unexpected Token", ds[1].message);
    assert_eq!(at(1, 0, 1, 3).unwrap(), ds[1].range);
    let unnamed = vec![ErrorMatch { pattern_index: 1, range: at(0, 0, 0, 0).unwrap(), first_child: None }];
    assert!(diagnostics_for_matches(&unnamed).is_none());
    assert_eq!(0, diagnostics_for_matches(&vec![]).unwrap().len());
}

#[test]
fn reversed_range_over_a_line_break_joins_the_lines() {
    let mut b = backend(TextEncoding::Utf8);
    let url = "file:///a.sql".to_string();
    b.did_open(url.clone(), "sql", "ab\ncd".to_string());
    let reply = b.did_change(&url, &vec![change(at(0, 2, 0, 1), "")]);
    assert!(matches!(reply, Reply::Publish(_) | Reply::Unreportable));
    assert_eq!(Some("abcd"), b.file_text(&url));
    // The buffer still counts a second line, starting after "ab".
    b.did_change(&url, &vec![change(at(1, 0, 1, 0), "X")]);
    assert_eq!(Some("abXcd"), b.file_text(&url));
}
