use safe_fluent::lsp::{diagnostics_for_nodes, ChangeOutcome, OpenOutcome, Sqls, WalkedNode};
use safe_fluent::protocol::{
    ClientCapabilities, ContentChange, Point, Position, PublishDiagnosticsClientCapabilities, Range,
    TextDocumentClientCapabilities, TsRange,
};

fn range(l0: u32, c0: u32, l1: u32, c1: u32) -> Range {
    Range {
        start: Position { line: l0, character: c0 },
        end: Position { line: l1, character: c1 },
    }
}

fn change(r: Range, text: &str) -> ContentChange {
    ContentChange { range: Some(r), range_length: None, text: text.to_string() }
}

fn opened(text: &str) -> (Sqls, String) {
    let mut sqls = Sqls::new().expect("the SQL grammar loads");
    let uri = "file:///q.sql".to_string();
    assert_eq!(OpenOutcome::Opened, sqls.did_open(uri.clone(), "sql", 1, text.to_string()));
    (sqls, uri)
}

#[test]
fn language_id_is_sql() {
    assert_eq!("sql", Sqls::language_id());
}

#[test]
fn other_languages_are_ignored() {
    let mut sqls = Sqls::new().unwrap();
    let uri = "file:///a.json".to_string();
    assert_eq!(OpenOutcome::Ignored, sqls.did_open(uri.clone(), "json", 1, "{}".to_string()));
    assert_eq!(None, sqls.document_text(&uri));
}

#[test]
fn open_keeps_text_and_version() {
    let (sqls, uri) = opened("SELECT a FROM t;");
    assert_eq!(Some("SELECT a FROM t;"), sqls.document_text(&uri));
    let (_, version) = sqls.publish_diagnostics(&uri).unwrap();
    assert_eq!(1, version);
}

#[test]
fn change_on_first_line_replaces_bytes() {
    let (mut sqls, uri) = opened("SELECT a FROM t;");
    let outcome = sqls.did_change(&uri, 2, &vec![change(range(0, 7, 0, 8), "b")]);
    assert_eq!(ChangeOutcome::Applied, outcome);
    assert_eq!(Some("SELECT b FROM t;"), sqls.document_text(&uri));
    assert_eq!(2, sqls.publish_diagnostics(&uri).unwrap().1);
}

#[test]
fn line_offsets_leave_out_newlines() {
    // Line starts are counted without the newline bytes before them, so a
    // column on the second line lands one byte early.
    let (mut sqls, uri) = opened("SELECT a\nFROM t;");
    let outcome = sqls.did_change(&uri, 2, &vec![change(range(1, 0, 1, 4), "into")]);
    assert_eq!(ChangeOutcome::Applied, outcome);
    assert_eq!(Some("SELECT aintoM t;"), sqls.document_text(&uri));
}

#[test]
fn older_version_is_out_of_sync() {
    let (mut sqls, uri) = opened("SELECT a FROM t;");
    let outcome = sqls.did_change(&uri, 0, &vec![change(range(0, 7, 0, 8), "b")]);
    assert_eq!(ChangeOutcome::OutOfSync, outcome);
    assert_eq!(Some("SELECT a FROM t;"), sqls.document_text(&uri));
    assert_eq!(1, sqls.publish_diagnostics(&uri).unwrap().1);
}

#[test]
fn change_of_unopened_document() {
    let mut sqls = Sqls::new().unwrap();
    let uri = "file:///none.sql".to_string();
    assert_eq!(ChangeOutcome::NotOpened, sqls.did_change(&uri, 1, &vec![]));
}

#[test]
fn change_outside_text_is_invalid() {
    let (mut sqls, uri) = opened("SELECT 1;");
    let outcome = sqls.did_change(&uri, 2, &vec![change(range(0, 5, 0, 40), "x")]);
    assert_eq!(ChangeOutcome::InvalidChange, outcome);
    assert_eq!(Some("SELECT 1;"), sqls.document_text(&uri));
}

#[test]
fn whole_text_change_is_invalid() {
    let (mut sqls, uri) = opened("SELECT 1;");
    let whole = ContentChange { range: None, range_length: None, text: "x".to_string() };
    assert_eq!(ChangeOutcome::InvalidChange, sqls.did_change(&uri, 2, &vec![whole]));
}

#[test]
fn close_forgets_document() {
    let (mut sqls, uri) = opened("SELECT 1;");
    sqls.did_close(&uri);
    assert_eq!(None, sqls.document_text(&uri));
    assert!(sqls.publish_diagnostics(&uri).is_none());
}

#[test]
fn reopen_replaces_document() {
    let (mut sqls, uri) = opened("SELECT 1;");
    assert_eq!(OpenOutcome::Opened, sqls.did_open(uri.clone(), "sql", 5, "SELECT 2;".to_string()));
    assert_eq!(Some("SELECT 2;"), sqls.document_text(&uri));
    assert_eq!(5, sqls.publish_diagnostics(&uri).unwrap().1);
}

#[test]
fn diagnostics_have_empty_messages() {
    let (sqls, uri) = opened("SELEC a FROM;");
    let (diagnostics, _) = sqls.publish_diagnostics(&uri).unwrap();
    for d in diagnostics {
        assert_eq!("", d.message);
        assert!(d.severity.is_none());
    }
}

#[test]
fn initialize_and_push_support() {
    let mut sqls = Sqls::new().unwrap();
    assert!(!sqls.does_client_support_push_diagnostics());
    let info = sqls.initialize(ClientCapabilities {
        text_document: Some(TextDocumentClientCapabilities {
            publish_diagnostics: Some(PublishDiagnosticsClientCapabilities {
                related_information: None,
                version_support: None,
            }),
        }),
    });
    assert_eq!("sqls-rust", info.name);
    assert_eq!("0.1.0", info.version);
    assert!(sqls.does_client_support_push_diagnostics());
}

#[test]
fn no_push_support_without_text_document_capabilities() {
    let mut sqls = Sqls::new().unwrap();
    sqls.initialize(ClientCapabilities { text_document: None });
    assert!(!sqls.does_client_support_push_diagnostics());
}

#[test]
fn one_bare_diagnostic_per_error_node_in_walk_order() {
    let span = |r0: usize, c0: usize, r1: usize, c1: usize| TsRange {
        start_byte: 0,
        end_byte: 0,
        start_point: Point { row: r0, column: c0 },
        end_point: Point { row: r1, column: c1 },
    };
    let nodes = vec![
        WalkedNode { is_error: false, range: span(0, 0, 3, 0) },
        WalkedNode { is_error: true, range: span(1, 2, 1, 5) },
        WalkedNode { is_error: false, range: span(2, 0, 2, 1) },
        WalkedNode { is_error: true, range: span(2, 4, 3, 0) },
    ];
    let ds = diagnostics_for_nodes(&nodes);
    assert_eq!(2, ds.len());
    assert_eq!((1, 2, 1, 5), (ds[0].range.start.line, ds[0].range.start.character, ds[0].range.end.line, ds[0].range.end.character));
    assert_eq!((2, 4, 3, 0), (ds[1].range.start.line, ds[1].range.start.character, ds[1].range.end.line, ds[1].range.end.character));
    assert_eq!("", ds[0].message);
    assert_eq!(None, ds[1].severity);
}
