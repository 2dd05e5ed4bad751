use vstd::prelude::*;
use vstd::utf8::encode_utf8;

use tree_sitter::{LanguageRef, Node, Query as TsQuery, QueryCursor, QueryError, QueryMatches, StreamingIterator, Tree};

use crate::convert::convert_ts_range;
use crate::error::Error;
use crate::fit::{change_fits, change_fits_exec, initial_breaks, texter_apply, TexterOutcome};
use crate::keyed::{find_by_key, lemma_find_at, lemma_find_push, lemma_find_remove, lemma_find_update, unique_keys, Keyed};
use crate::protocol::{ContentChange, Diagnostic, DiagnosticSeverity, Position, Range};
use crate::syntax::{node_descendant_count, node_range, sql_parse, tree_root_node, SqlParser};
use crate::text::push_str;

verus! {

#[verifier::external_type_specification]
#[verifier::external_body]
pub struct ExText(texter::core::text::Text);

/// texter's text buffer, which keeps line positions in step with its text.
pub type TextBuffer = texter::core::text::Text;

#[verifier::external_type_specification]
#[verifier::external_body]
pub struct ExQuery(TsQuery);

#[verifier::external_type_specification]
#[verifier::external_body]
pub struct ExQueryError(QueryError);

#[verifier::external_type_specification]
#[verifier::external_body]
pub struct ExQueryCursor(QueryCursor);

#[verifier::external_type_specification]
#[verifier::external_body]
pub struct ExLanguageRef<'a>(LanguageRef<'a>);

/// The matches of a query over a tree, in the order the query cursor finds
/// them. Verus refuses a declaration of `QueryMatches` (its bounds name
/// outside traits), so it is held here, out of Verus's sight.
#[verifier::external_body]
pub struct QueryMatchStream<'q, 't> {
    inner: QueryMatches<'q, 't, &'t [u8], &'t [u8]>,
}

/// How the columns of a change's positions are counted.
#[derive(Debug, Clone, Copy, PartialEq, Eq, Structural)]
pub enum TextEncoding {
    Utf8,
    Utf16,
    Utf32,
}

/// The text a buffer holds.
pub uninterp spec fn text_content(t: TextBuffer) -> Seq<char>;

/// The encoding a buffer was made with, in which it reads change positions.
pub uninterp spec fn text_encoding(t: TextBuffer) -> TextEncoding;

/// The line-break table of a buffer (see [`crate::fit`]).
pub uninterp spec fn text_breaks(t: TextBuffer) -> Seq<usize>;

/// Trusted: `texter::core::text::Text::new`, a buffer holding `s` that reads UTF-8 columns.
#[verifier::external_body]
fn text_new_utf8(s: String) -> (t: TextBuffer)
    ensures
        text_content(t) == s@,
        text_breaks(t) == initial_breaks(encode_utf8(s@)),
        text_encoding(t) == TextEncoding::Utf8,
{
    TextBuffer::new(s)
}

/// Trusted: `Text::new_utf16`, a buffer holding `s` that reads UTF-16 columns.
#[verifier::external_body]
fn text_new_utf16(s: String) -> (t: TextBuffer)
    ensures
        text_content(t) == s@,
        text_breaks(t) == initial_breaks(encode_utf8(s@)),
        text_encoding(t) == TextEncoding::Utf16,
{
    TextBuffer::new_utf16(s)
}

/// Trusted: `Text::new_utf32`, a buffer holding `s` that reads UTF-32 columns.
#[verifier::external_body]
fn text_new_utf32(s: String) -> (t: TextBuffer)
    ensures
        text_content(t) == s@,
        text_breaks(t) == initial_breaks(encode_utf8(s@)),
        text_encoding(t) == TextEncoding::Utf32,
{
    TextBuffer::new_utf32(s)
}

/// Trusted: the public `text` field of a texter `Text`.
#[verifier::external_body]
fn text_str(t: &TextBuffer) -> (r: &str)
    ensures
        r@ == text_content(*t),
{
    t.text.as_str()
}

/// Trusted: the public `br_indexes` field of a texter `Text`, its
/// line-break table.
#[verifier::external_body]
fn text_breaks_slice(t: &TextBuffer) -> (r: &[usize])
    ensures
        r@ == text_breaks(*t),
{
    t.br_indexes.0.as_slice()
}

/// How applying a list of changes ended.
pub enum ChangesEnd {
    /// Every change was applied.
    Applied,
    /// The buffer refused a change; those before it were applied.
    Refused,
    /// The buffer would panic on a change (see [`change_fits`]); those
    /// before it were applied.
    Unfit,
}

/// What applying the changes `cs`, one after the other, to a buffer in
/// `encoding` with the text bytes `b` and the table `bk` leaves as its text
/// and table `now`, for each way the application can end.
pub open spec fn changes_outcome(
    encoding: TextEncoding,
    b: Seq<u8>,
    bk: Seq<usize>,
    cs: Seq<ContentChange>,
    now: (Seq<u8>, Seq<usize>),
    end: ChangesEnd,
) -> bool {
    match end {
        ChangesEnd::Applied => texter_prefix(encoding, b, bk, cs, cs.len()) == Some(now),
        ChangesEnd::Refused => exists|k: nat|
            k < cs.len() && #[trigger] texter_prefix(encoding, b, bk, cs, k) == Some(now) && texter_apply(
                encoding,
                now.0,
                now.1,
                cs[k as int],
            ) is Refused,
        ChangesEnd::Unfit => exists|k: nat|
            k < cs.len() && #[trigger] texter_prefix(encoding, b, bk, cs, k) == Some(now) && texter_apply(
                encoding,
                now.0,
                now.1,
                cs[k as int],
            ) is Panics,
    }
}

/// Applies one change to the buffer and tells the tree about the edit.
///
/// Trusted: `Text::update` with the tree as the thing kept in step, the
/// change given as the `lsp_types` event that texter turns into a deletion,
/// insertion, replacement or full replacement. What the buffer does is
/// `texter_apply` of its encoding, the bytes of its text, its line-break
/// table and the change, written out from the source in `crate::fit`: a
/// refusal leaves text and table as they were, an application gives both
/// anew. `requires` leaves out the changes on which the source panics. The
/// buffer keeps its encoding. Nothing is stated of the tree.
#[verifier::external_body]
fn text_update(t: &mut TextBuffer, change: &ContentChange, tree: &mut Tree) -> (r: Result<(), texter::error::Error>)
    requires
        change_fits(text_encoding(*old(t)), encode_utf8(text_content(*old(t))), text_breaks(*old(t)), *change),
    ensures
        text_encoding(*final(t)) == text_encoding(*old(t)),
        match texter_apply(text_encoding(*old(t)), encode_utf8(text_content(*old(t))), text_breaks(*old(t)), *change) {
            TexterOutcome::Applied(nb, nbk) => r is Ok && encode_utf8(text_content(*final(t))) == nb && text_breaks(
                *final(t),
            ) == nbk,
            _ => r is Err && text_content(*final(t)) == text_content(*old(t)) && text_breaks(*final(t))
                == text_breaks(*old(t)),
        },
{
    let range = change.range.map(|r| texter::lsp_types::Range::new(
        texter::lsp_types::Position::new(r.start.line, r.start.character),
        texter::lsp_types::Position::new(r.end.line, r.end.character),
    ));
    let event = texter::lsp_types::TextDocumentContentChangeEvent {
        range,
        range_length: change.range_length,
        text: change.text.clone(),
    };
    t.update(event, tree)
}

/// Trusted: `Tree::language`, the grammar the tree was parsed with.
#[verifier::external_body]
fn tree_language<'a>(t: &'a Tree) -> LanguageRef<'a> {
    t.language()
}

/// Trusted: `Query::new` for `source` in the language `l`; nothing is stated
/// of which sources are accepted.
#[verifier::external_body]
fn query_new(l: &LanguageRef, source: &str) -> Result<TsQuery, QueryError> {
    TsQuery::new(l, source)
}

/// Trusted: `QueryCursor::new`.
#[verifier::external_body]
fn query_cursor_new() -> QueryCursor {
    QueryCursor::new()
}

/// Trusted: `QueryCursor::matches` of `q` on the subtree of `n`, with the
/// text the tree was parsed from.
#[verifier::external_body]
fn query_matches<'q, 't>(c: &'q mut QueryCursor, q: &'q TsQuery, n: Node<'t>, text: &'t [u8]) -> QueryMatchStream<'q, 't> {
    QueryMatchStream { inner: c.matches(q, n, text) }
}

/// Trusted: `StreamingIterator::next` on the matches: the next match, as
/// the index of its pattern and the node of its first capture. Nothing is
/// stated of which match comes.
#[verifier::external_body]
fn matches_next<'q, 't>(m: &mut QueryMatchStream<'q, 't>) -> Option<(usize, Option<Node<'t>>)> {
    m.inner.next().map(|qm| (qm.pattern_index, qm.captures.first().map(|c| c.node)))
}

/// Trusted: `Node::child`, the `i`-th child of `n` if it has one.
#[verifier::external_body]
fn node_child<'a>(n: &Node<'a>, i: u32) -> Option<Node<'a>> {
    n.child(i)
}

/// Trusted: `Display` of a node, its S-expression.
#[verifier::external_body]
fn node_display(n: &Node) -> String {
    n.to_string()
}

/// The diagnostic for one match of the error query: an unexpected token
/// for the first pattern, a missing one (named by the first child of the
/// node) for the other.
pub open spec fn match_diagnostic_ok(
    pattern_index: usize,
    range: Range,
    missing: Option<Seq<char>>,
    d: Diagnostic,
) -> bool {
    &&& d.range == range
    &&& d.severity == Some(DiagnosticSeverity::Error)
    &&& d.code is None
    &&& d.source matches Some(s) && s@ == "SQL Tree Sitter"@
    &&& if pattern_index == 0 {
        d.message@ == "Unexpected Token"@
    } else {
        missing matches Some(m) && d.message@ == "Missing "@ + m
    }
}

/// A diagnostic of the kind the error query gives: an error from the SQL
/// syntax tree about an unexpected or a missing token.
pub open spec fn tree_diagnostic(d: Diagnostic) -> bool {
    &&& d.severity == Some(DiagnosticSeverity::Error)
    &&& d.code is None
    &&& d.source matches Some(s) && s@ == "SQL Tree Sitter"@
    &&& d.message@ == "Unexpected Token"@ || (d.message@.len() >= 8 && d.message@.subrange(0, 8) == "Missing "@)
}

proof fn lemma_match_diagnostic_is_tree_diagnostic(
    pattern_index: usize,
    range: Range,
    first_child: Option<String>,
    d: Diagnostic,
)
    requires
        match_diagnostic_ok(
            pattern_index,
            range,
            match first_child {
                Some(c) => Some(c@),
                None => None,
            },
            d,
        ),
    ensures
        tree_diagnostic(d),
{
    reveal_strlit("Missing ");
    if pattern_index != 0 {
        let m = first_child->0@;
        assert(d.message@.subrange(0, 8) =~= "Missing "@);
    }
}

/// The diagnostic for a match of pattern `pattern_index` on a node spanning
/// `range`, whose first child reads `first_child`. `None` for a missing
/// node without a child, which has no name to report.
pub fn diagnostic_for_match(pattern_index: usize, range: Range, first_child: Option<String>) -> (r: Option<
    Diagnostic,
>)
    ensures
        r is None <==> (pattern_index != 0 && first_child is None),
        r matches Some(d) ==> match_diagnostic_ok(
            pattern_index,
            range,
            match first_child {
                Some(c) => Some(c@),
                None => None,
            },
            d,
        ),
{
    let message = if pattern_index == 0 {
        "Unexpected Token".to_owned()
    } else {
        match first_child {
            Some(child) => {
                let mut m = String::new();
                push_str(&mut m, "Missing ");
                push_str(&mut m, child.as_str());
                m
            },
            None => return None,
        }
    };
    Some(
        Diagnostic {
            range,
            severity: Some(DiagnosticSeverity::Error),
            code: None,
            source: Some("SQL Tree Sitter".to_owned()),
            message,
        },
    )
}

/// One match of the query for syntax errors and missing nodes: the index
/// of the pattern that matched (0 for an error node, 1 for a missing one),
/// the range of the captured node, and the text of its first child, read
/// for a missing node when it has one.
pub struct ErrorMatch {
    pub pattern_index: usize,
    pub range: Range,
    pub first_child: Option<String>,
}

pub open spec fn first_child_view(m: ErrorMatch) -> Option<Seq<char>> {
    match m.first_child {
        Some(c) => Some(c@),
        None => None,
    }
}

/// Whether a missing node among `ms` has no child to name it by.
pub open spec fn has_unnamed_missing(ms: Seq<ErrorMatch>) -> bool {
    exists|i: int| 0 <= i < ms.len() && (#[trigger] ms[i]).pattern_index != 0 && ms[i].first_child is None
}

/// The diagnostics for the matches `ms`, in their order: one for each.
pub fn diagnostics_for_matches(ms: &Vec<ErrorMatch>) -> (r: Option<Vec<Diagnostic>>)
    ensures
        r is None <==> has_unnamed_missing(ms@),
        r matches Some(ds) ==> ds@.len() == ms@.len() && forall|i: int|
            0 <= i < ms@.len() ==> match_diagnostic_ok(
                ms@[i].pattern_index,
                ms@[i].range,
                first_child_view(ms@[i]),
                #[trigger] ds@[i],
            ),
{
    let n = ms.len();
    let mut result: Vec<Diagnostic> = Vec::new();
    for i in 0..n
        invariant
            n == ms@.len(),
            result@.len() == i,
            forall|j: int|
                0 <= j < i ==> match_diagnostic_ok(
                    ms@[j].pattern_index,
                    ms@[j].range,
                    first_child_view(ms@[j]),
                    #[trigger] result@[j],
                ),
            forall|j: int| 0 <= j < i ==> !((#[trigger] ms@[j]).pattern_index != 0 && ms@[j].first_child is None),
    {
        let m = &ms[i];
        let first_child = match &m.first_child {
            Some(c) => Some(c.clone()),
            None => None,
        };
        match diagnostic_for_match(m.pattern_index, m.range, first_child) {
            Some(d) => {
                result.push(d);
            },
            None => {
                proof {
                    assert(ms@[i as int].pattern_index != 0 && ms@[i as int].first_child is None);
                }
                return None;
            },
        }
    }
    proof {
        if has_unnamed_missing(ms@) {
            let j = choose|j: int| 0 <= j < ms@.len() && (#[trigger] ms@[j]).pattern_index != 0 && ms@[j].first_child is None;
            assert(!(ms@[j].pattern_index != 0 && ms@[j].first_child is None));
        }
    }
    Some(result)
}

/// The text bytes and table reached by applying the first `k` changes of
/// `cs` in order; `None` when the buffer refuses or panics on one of them.
pub open spec fn texter_prefix(
    encoding: TextEncoding,
    b: Seq<u8>,
    bk: Seq<usize>,
    cs: Seq<ContentChange>,
    k: nat,
) -> Option<(Seq<u8>, Seq<usize>)>
    decreases k,
{
    if k == 0 {
        Some((b, bk))
    } else {
        match texter_prefix(encoding, b, bk, cs, (k - 1) as nat) {
            Some(st) => match texter_apply(encoding, st.0, st.1, cs[k - 1]) {
                TexterOutcome::Applied(nb, nbk) => Some((nb, nbk)),
                _ => None,
            },
            None => None,
        }
    }
}

/// An open document: its text buffer and the syntax tree of its text.
pub struct Document {
    texter: TextBuffer,
    tree: Tree,
}

impl Document {
    /// The text of the document.
    pub closed spec fn content(self) -> Seq<char> {
        text_content(self.texter)
    }

    /// The text of the document as UTF-8 bytes.
    pub open spec fn bytes(self) -> Seq<u8> {
        encode_utf8(self.content())
    }

    /// The line-break table of the document's buffer.
    pub closed spec fn breaks(self) -> Seq<usize> {
        text_breaks(self.texter)
    }

    /// The encoding in which the document reads change positions.
    pub closed spec fn encoding(self) -> TextEncoding {
        text_encoding(self.texter)
    }

    /// The line-break table of the document's buffer.
    pub fn break_table(&self) -> (r: &[usize])
        ensures
            r@ == self.breaks(),
    {
        text_breaks_slice(&self.texter)
    }

    /// The text of the document.
    pub fn text(&self) -> (r: &str)
        ensures
            r@ == self.content(),
    {
        text_str(&self.texter)
    }

    /// Applies one change: the buffer takes it and edits the tree, then the
    /// text is parsed again. A refused change leaves the text as it was.
    pub fn update(&mut self, change: &ContentChange, parser: &mut SqlParser) -> (r: Result<(), Error>)
        requires
            change_fits(old(self).encoding(), old(self).bytes(), old(self).breaks(), *change),
        ensures
            final(self).encoding() == old(self).encoding(),
            match texter_apply(old(self).encoding(), old(self).bytes(), old(self).breaks(), *change) {
                TexterOutcome::Applied(nb, nbk) => final(self).bytes() == nb && final(self).breaks() == nbk && r is Ok,
                _ => final(self).content() == old(self).content() && final(self).breaks() == old(self).breaks()
                    && r matches Err(Error::TexterError(_)),
            },
    {
        match text_update(&mut self.texter, change, &mut self.tree) {
            Ok(()) => {},
            Err(e) => return Err(Error::TexterError(e)),
        }
        match sql_parse(parser, text_str(&self.texter).as_bytes(), Some(&self.tree)) {
            Some(tree) => {
                self.tree = tree;
                Ok(())
            },
            None => Err(Error::TreeSitterParserError),
        }
    }

    /// One diagnostic for each match of the query for syntax errors and
    /// missing nodes, in the order the query finds them (see
    /// [`diagnostics_for_matches`]). `None` where no diagnostic can be
    /// written: the query is refused, a match captures no node, or a missing
    /// node has no child to name it by.
    pub fn compute_diagnostics(&self) -> (r: Option<Vec<Diagnostic>>)
        ensures
            r matches Some(ds) ==> forall|i: int| 0 <= i < ds@.len() ==> tree_diagnostic(#[trigger] ds@[i]),
    {
        let language = tree_language(&self.tree);
        let query = match query_new(&language, "[(ERROR) @error-node (MISSING) @missing-node]") {
            Ok(q) => q,
            Err(_) => return None,
        };
        let root = tree_root_node(&self.tree);
        // Each match captures a distinct node of the tree.
        let limit = node_descendant_count(&root);
        let mut cursor = query_cursor_new();
        let mut matches = query_matches(&mut cursor, &query, root, text_str(&self.texter).as_bytes());
        let mut found: Vec<ErrorMatch> = Vec::new();
        let mut seen: usize = 0;
        while seen < limit
            decreases limit - seen,
        {
            let (pattern_index, captured) = match matches_next(&mut matches) {
                Some(m) => m,
                None => break,
            };
            let node = match captured {
                Some(n) => n,
                None => return None,
            };
            let range = convert_ts_range(node_range(&node));
            let first_child = if pattern_index == 0 {
                None
            } else {
                match node_child(&node, 0) {
                    Some(child) => Some(node_display(&child)),
                    None => None,
                }
            };
            found.push(ErrorMatch { pattern_index, range, first_child });
            seen = seen + 1;
        }
        let r = diagnostics_for_matches(&found);
        let ghost g = r;
        proof {
            if let Some(ds) = g {
                assert forall|i: int| 0 <= i < ds@.len() implies tree_diagnostic(#[trigger] ds@[i]) by {
                    let m = found@[i];
                    lemma_match_diagnostic_is_tree_diagnostic(m.pattern_index, m.range, m.first_child, ds@[i]);
                }
            }
        }
        r
    }
}

/// An open document and its address.
pub struct File {
    pub url: String,
    pub document: Document,
}

impl File {
    pub fn new(url: String, document: Document) -> (r: Self)
        ensures
            r.url == url,
            r.document == document,
    {
        File { url, document }
    }
}

impl Keyed<Seq<char>> for File {
    open spec fn key(&self) -> Seq<char> {
        self.url@
    }
}

/// The diagnostic added after those of the syntax tree each time
/// diagnostics are published.
pub open spec fn is_placeholder(d: Diagnostic) -> bool {
    &&& d.range == Range {
        start: Position { line: 0, character: 0 },
        end: Position { line: 0, character: 1 },
    }
    &&& d.severity == Some(DiagnosticSeverity::Error)
    &&& d.code matches Some(c) && c@ == "ParseError"@
    &&& d.source is None
    &&& d.message@ == "Hello World!"@
}

/// What is published for a document: the diagnostics of its syntax tree,
/// then the placeholder.
pub open spec fn published_diagnostics(ds: Seq<Diagnostic>) -> bool {
    &&& ds.len() >= 1
    &&& is_placeholder(ds.last())
    &&& forall|i: int| 0 <= i < ds.len() - 1 ==> tree_diagnostic(#[trigger] ds[i])
}

pub fn placeholder_diagnostic() -> (d: Diagnostic)
    ensures
        is_placeholder(d),
{
    Diagnostic {
        range: Range { start: Position { line: 0, character: 0 }, end: Position { line: 0, character: 1 } },
        severity: Some(DiagnosticSeverity::Error),
        code: Some("ParseError".to_owned()),
        source: None,
        message: "Hello World!".to_owned(),
    }
}

/// The reply for the diagnostics found in a document: publish them, in
/// order, followed by the placeholder; when none could be written
/// (`None`), the document is unreportable.
pub fn diagnostics_reply(found: Option<Vec<Diagnostic>>) -> (r: Reply)
    ensures
        found is None ==> r is Unreportable,
        found matches Some(ds) ==> (r matches Reply::Publish(out) && out@.len() == ds@.len() + 1 && out@.take(
            ds@.len() as int,
        ) == ds@ && is_placeholder(out@.last())),
{
    match found {
        Some(mut diagnostics) => {
            let ghost before = diagnostics@;
            diagnostics.push(placeholder_diagnostic());
            proof {
                assert(diagnostics@.take(before.len() as int) =~= before);
            }
            Reply::Publish(diagnostics)
        },
        None => Reply::Unreportable,
    }
}

/// What the server is to do after a notification.
pub enum Reply {
    /// Nothing.
    Nothing,
    /// Publish these diagnostics for the document.
    Publish(Vec<Diagnostic>),
    /// Log this error to the client.
    LogError(Error),
    /// The syntax tree holds a node that no diagnostic can be written for.
    Unreportable,
    /// The text buffer would panic on a change (see [`change_fits`]); the
    /// changes before it were applied.
    Unfit,
}

/// What the server answers to `initialize`.
pub struct InitializeOutcome {
    /// The position encoding the server will use.
    pub position_encoding: TextEncoding,
    /// Whether the client is to send open and close notifications.
    pub open_close: bool,
    /// Whether the client is to send changes as edits rather than whole texts.
    pub incremental_sync: bool,
    pub server_name: String,
    pub server_version: String,
}

/// Whether `encodings` holds the name of UTF-8.
pub open spec fn offers_utf8(encodings: Seq<String>) -> bool {
    exists|i: int| 0 <= i < encodings.len() && (#[trigger] encodings[i])@ == "utf-8"@
}

/// The SQL language server: the client to talk to, the parser, the open
/// files (one per address) and the encoding new buffers read positions in.
pub struct Backend<C> {
    client: C,
    parser: SqlParser,
    files: Vec<File>,
    encoding: TextEncoding,
}

/// A backend under construction.
pub struct BackendBuilder<C> {
    client: Option<C>,
    encoding: Option<TextEncoding>,
}

impl<C> BackendBuilder<C> {
    pub closed spec fn client_spec(self) -> Option<C> {
        self.client
    }

    pub closed spec fn encoding_spec(self) -> Option<TextEncoding> {
        self.encoding
    }

    pub fn client(self, client: C) -> (r: Self)
        ensures
            r.client_spec() == Some(client),
            r.encoding_spec() == self.encoding_spec(),
    {
        BackendBuilder { client: Some(client), encoding: self.encoding }
    }

    pub fn encoding(self, encoding: TextEncoding) -> (r: Self)
        ensures
            r.client_spec() == self.client_spec(),
            r.encoding_spec() == Some(encoding),
    {
        BackendBuilder { client: self.client, encoding: Some(encoding) }
    }

    /// The backend, with no file open and a parser for the SQL grammar;
    /// `None` exactly when the client or the encoding is missing.
    pub fn build(self) -> (r: Option<Backend<C>>)
        ensures
            r is None <==> (self.client_spec() is None || self.encoding_spec() is None),
            r matches Some(b) ==> {
                &&& b.wf()
                &&& self.client_spec() == Some(b.client_spec())
                &&& self.encoding_spec() == Some(b.encoding_spec())
                &&& forall|u: Seq<char>| #[trigger] b.file(u) is None
            },
    {
        let parser = SqlParser::new();
        let client = match self.client {
            Some(c) => c,
            None => return None,
        };
        let encoding = match self.encoding {
            Some(e) => e,
            None => return None,
        };
        Some(Backend { client, parser, files: Vec::new(), encoding })
    }
}

impl<C> Default for BackendBuilder<C> {
    fn default() -> (r: Self)
        ensures
            r.client_spec() is None,
            r.encoding_spec() is None,
    {
        BackendBuilder { client: None, encoding: None }
    }
}

impl<C> Backend<C> {
    /// Well-formed: at most one file per address, each reading positions in
    /// the backend's encoding.
    pub closed spec fn wf(self) -> bool {
        &&& unique_keys(self.files@)
        &&& forall|i: int| 0 <= i < self.files@.len() ==> (#[trigger] self.files@[i]).document.encoding() == self.encoding
    }

    /// The open file at address `url`.
    pub closed spec fn file(self, url: Seq<char>) -> Option<File> {
        find_by_key(self.files@, url)
    }

    pub closed spec fn client_spec(self) -> C {
        self.client
    }

    pub closed spec fn encoding_spec(self) -> TextEncoding {
        self.encoding
    }

    pub fn builder() -> (r: BackendBuilder<C>)
        ensures
            r.client_spec() is None,
            r.encoding_spec() is None,
    {
        BackendBuilder { client: None, encoding: None }
    }

    /// The client the backend talks to.
    pub fn client(&self) -> (r: &C)
        ensures
            *r == self.client_spec(),
    {
        &self.client
    }

    /// The text of the file at `url`, if one is open there.
    pub fn file_text(&self, url: &String) -> (r: Option<&str>)
        requires
            self.wf(),
        ensures
            r is Some <==> self.file(url@) is Some,
            r matches Some(t) ==> (self.file(url@) matches Some(f) && t@ == f.document.content()),
    {
        let ghost files = self.files@;
        match self.index_of(url) {
            Some(i) => {
                proof {
                    lemma_find_at(files, i as int);
                }
                Some(self.files[i].document.text())
            },
            None => {
                proof {
                    if exists|j: int| 0 <= j < files.len() && (#[trigger] files[j]).key() == url@ {
                        let j = choose|j: int| 0 <= j < files.len() && (#[trigger] files[j]).key() == url@;
                        assert(files[j].url@ != url@);
                    }
                }
                None
            },
        }
    }

    fn index_of(&self, url: &String) -> (r: Option<usize>)
        ensures
            r matches Some(i) ==> i < self.files@.len() && self.files@[i as int].url@ == url@,
            r is None ==> forall|i: int| 0 <= i < self.files@.len() ==> (#[trigger] self.files@[i]).url@ != url@,
    {
        let n = self.files.len();
        for i in 0..n
            invariant
                n == self.files@.len(),
                forall|j: int| 0 <= j < i ==> (#[trigger] self.files@[j]).url@ != url@,
        {
            if self.files[i].url == *url {
                return Some(i);
            }
        }
        None
    }

    /// A buffer holding `text` in the backend's encoding.
    fn new_text(&self, text: String) -> (t: TextBuffer)
        ensures
            text_content(t) == text@,
            text_breaks(t) == initial_breaks(encode_utf8(text@)),
            text_encoding(t) == self.encoding,
    {
        match self.encoding {
            TextEncoding::Utf8 => text_new_utf8(text),
            TextEncoding::Utf16 => text_new_utf16(text),
            TextEncoding::Utf32 => text_new_utf32(text),
        }
    }

    /// The answer to `initialize`: UTF-8 positions when the client offers
    /// them, else UTF-16; open, close and incremental change notifications.
    pub fn initialize(&self, position_encodings: &Option<Vec<String>>) -> (r: InitializeOutcome)
        ensures
            r.position_encoding == (if position_encodings matches Some(v) && offers_utf8(v@) {
                TextEncoding::Utf8
            } else {
                TextEncoding::Utf16
            }),
            r.open_close,
            r.incremental_sync,
            r.server_name@ == "sqls"@,
            r.server_version@ == "0.1.0"@,
    {
        let mut utf8 = false;
        if let Some(encodings) = position_encodings {
            let n = encodings.len();
            let mut i: usize = 0;
            while i < n
                invariant
                    n == encodings@.len(),
                    i <= n,
                    utf8 <==> exists|j: int| 0 <= j < i && (#[trigger] encodings@[j])@ == "utf-8"@,
                decreases n - i,
            {
                if encodings[i] == "utf-8".to_owned() {
                    utf8 = true;
                }
                i = i + 1;
            }
            proof {
                if utf8 {
                    let j = choose|j: int| 0 <= j < i && (#[trigger] encodings@[j])@ == "utf-8"@;
                    assert(encodings@[j]@ == "utf-8"@);
                    assert(offers_utf8(encodings@));
                } else {
                    assert(!offers_utf8(encodings@));
                }
            }
        }
        InitializeOutcome {
            position_encoding: if utf8 { TextEncoding::Utf8 } else { TextEncoding::Utf16 },
            open_close: true,
            incremental_sync: true,
            server_name: "sqls".to_owned(),
            server_version: "0.1.0".to_owned(),
        }
    }
}


/// How applying the changes of a notification stopped before the end.
enum UpdateStop {
    Refused(Error),
    Unfit,
}

impl<C> Backend<C> {
    /// Parses `texter` and opens it as the file at `url`; refused, with
    /// nothing changed, when a file is already open there. On success the
    /// file is the last one.
    fn add_file_from_texter(&mut self, url: &String, texter: TextBuffer) -> (r: Result<(), Error>)
        requires
            old(self).wf(),
            text_encoding(texter) == old(self).encoding,
        ensures
            final(self).wf(),
            final(self).encoding == old(self).encoding,
            final(self).client == old(self).client,
            r is Err <==> old(self).file(url@) is Some,
            r matches Err(e) ==> (e matches Error::FileAlreadyExists { uri } && uri@ == url@),
            r is Err ==> final(self).files@ == old(self).files@,
            r is Ok ==> {
                &&& final(self).files@.len() == old(self).files@.len() + 1
                &&& final(self).files@.last().url@ == url@
                &&& final(self).files@.last().document.content() == text_content(texter)
                &&& final(self).files@.last().document.breaks() == text_breaks(texter)
                &&& final(self).file(url@) == Some(final(self).files@.last())
                &&& forall|u: Seq<char>| u != url@ ==> #[trigger] final(self).file(u) == old(self).file(u)
            },
    {
        let tree = match sql_parse(&mut self.parser, text_str(&texter).as_bytes(), None) {
            Some(t) => t,
            None => return Err(Error::TreeSitterParserError),
        };
        let ghost files = self.files@;
        match self.index_of(url) {
            Some(i) => {
                proof {
                    lemma_find_at(files, i as int);
                }
                return Err(Error::FileAlreadyExists { uri: url.clone() });
            },
            None => {},
        }
        let file = File::new(url.clone(), Document { texter, tree });
        proof {
            if exists|i: int| 0 <= i < files.len() && (#[trigger] files[i]).key() == url@ {
                let i = choose|i: int| 0 <= i < files.len() && (#[trigger] files[i]).key() == url@;
                assert(files[i].url@ != url@);
            }
            lemma_find_push(files, file);
        }
        self.files.push(file);
        proof {
            assert forall|i: int| 0 <= i < self.files@.len() implies (#[trigger] self.files@[i]).document.encoding()
                == self.encoding by {
                if i < files.len() {
                    assert(self.files@[i] == files[i]);
                }
            }
        }
        Ok(())
    }

    /// The reply that publishes the diagnostics of `document` followed by
    /// the placeholder.
    fn publish_for(document: &Document) -> (r: Reply)
        ensures
            r is Publish || r is Unreportable,
            r matches Reply::Publish(ds) ==> published_diagnostics(ds@),
    {
        let found = document.compute_diagnostics();
        let ghost g = found;
        let r = diagnostics_reply(found);
        let ghost gr = r;
        proof {
            if let Some(ds) = g {
                if let Reply::Publish(out) = gr {
                    assert forall|i: int| 0 <= i < out@.len() - 1 implies tree_diagnostic(#[trigger] out@[i]) by {
                        assert(out@[i] == out@.take(ds@.len() as int)[i]);
                    }
                }
            }
        }
        r
    }

    /// Opens a SQL document (other languages are ignored) in the backend's
    /// encoding and publishes its diagnostics; when a file is already open
    /// at the address, that error is logged and nothing changes.
    pub fn did_open(&mut self, url: String, language_id: &str, text: String) -> (r: Reply)
        requires
            old(self).wf(),
        ensures
            final(self).wf(),
            final(self).encoding_spec() == old(self).encoding_spec(),
            final(self).client_spec() == old(self).client_spec(),
            r is Nothing <==> language_id@ != "sql"@,
            r is Nothing || r is LogError ==> forall|u: Seq<char>| #[trigger] final(self).file(u) == old(self).file(u),
            language_id@ == "sql"@ && old(self).file(url@) is Some ==> (r matches Reply::LogError(
                Error::FileAlreadyExists { uri },
            ) && uri@ == url@),
            language_id@ == "sql"@ && old(self).file(url@) is None ==> r is Publish || r is Unreportable,
            r is Publish || r is Unreportable ==> {
                &&& old(self).file(url@) is None
                &&& final(self).file(url@) matches Some(f)
                &&& f.url@ == url@
                &&& f.document.content() == text@
                &&& f.document.breaks() == initial_breaks(encode_utf8(text@))
                &&& f.document.encoding() == old(self).encoding_spec()
                &&& forall|u: Seq<char>| u != url@ ==> #[trigger] final(self).file(u) == old(self).file(u)
            },
            r matches Reply::Publish(ds) ==> published_diagnostics(ds@),
    {
        if language_id.to_owned() != "sql".to_owned() {
            return Reply::Nothing;
        }
        let texter = self.new_text(text);
        match self.add_file_from_texter(&url, texter) {
            Ok(()) => {
                let last = self.files.len() - 1;
                proof {
                    assert(self.files@[last as int].document.encoding() == self.encoding);
                }
                Backend::<C>::publish_for(&self.files[last].document)
            },
            Err(e) => Reply::LogError(e),
        }
    }

    /// Forgets the file at `url`; when one was open, empty diagnostics are
    /// published for it.
    pub fn did_close(&mut self, url: &String) -> (r: Reply)
        requires
            old(self).wf(),
        ensures
            final(self).wf(),
            final(self).encoding_spec() == old(self).encoding_spec(),
            final(self).client_spec() == old(self).client_spec(),
            final(self).file(url@) is None,
            forall|u: Seq<char>| u != url@ ==> #[trigger] final(self).file(u) == old(self).file(u),
            old(self).file(url@) is Some ==> (r matches Reply::Publish(ds) && ds@.len() == 0),
            old(self).file(url@) is None ==> r is Nothing,
    {
        let ghost files = self.files@;
        match self.index_of(url) {
            Some(i) => {
                proof {
                    lemma_find_at(files, i as int);
                    lemma_find_remove(files, i as int);
                }
                self.files.remove(i);
                proof {
                    assert forall|j: int| 0 <= j < self.files@.len() implies (
                    #[trigger] self.files@[j]).document.encoding() == self.encoding by {
                        if j < i {
                            assert(self.files@[j] == files[j]);
                        } else {
                            assert(self.files@[j] == files[j + 1]);
                        }
                    }
                }
                Reply::Publish(Vec::new())
            },
            None => {
                proof {
                    if exists|i: int| 0 <= i < files.len() && (#[trigger] files[i]).key() == url@ {
                        let i = choose|i: int| 0 <= i < files.len() && (#[trigger] files[i]).key() == url@;
                        assert(files[i].url@ != url@);
                    }
                }
                Reply::Nothing
            },
        }
    }
}

impl<C> Backend<C> {
    /// Applies `changes` in order to the file at `url`, stopping at the
    /// first that the buffer refuses or would panic on;
    /// `Ok(None)` when no file is open there, else the index of the file.
    fn update(&mut self, url: &String, changes: &Vec<ContentChange>) -> (r: Result<Option<usize>, UpdateStop>)
        requires
            old(self).wf(),
        ensures
            final(self).wf(),
            final(self).encoding == old(self).encoding,
            final(self).client == old(self).client,
            forall|u: Seq<char>| u != url@ ==> #[trigger] final(self).file(u) == old(self).file(u),
            r matches Ok(None) <==> old(self).file(url@) is None,
            r matches Ok(None) ==> final(self).file(url@) is None,
            r matches Ok(Some(i)) ==> i < final(self).files@.len() && final(self).file(url@) == Some(
                final(self).files@[i as int],
            ),
            r matches Err(UpdateStop::Refused(e)) ==> e is TexterError,
            old(self).file(url@) matches Some(f0) ==> {
                &&& final(self).file(url@) matches Some(f)
                &&& f.url == f0.url
                &&& f.document.encoding() == f0.document.encoding()
                &&& changes_outcome(
                    f0.document.encoding(),
                    f0.document.bytes(),
                    f0.document.breaks(),
                    changes@,
                    (f.document.bytes(), f.document.breaks()),
                    match r {
                        Ok(_) => ChangesEnd::Applied,
                        Err(UpdateStop::Refused(_)) => ChangesEnd::Refused,
                        Err(UpdateStop::Unfit) => ChangesEnd::Unfit,
                    },
                )
            },
    {
        let ghost files = self.files@;
        let i = match self.index_of(url) {
            Some(i) => i,
            None => {
                proof {
                    if exists|j: int| 0 <= j < files.len() && (#[trigger] files[j]).key() == url@ {
                        let j = choose|j: int| 0 <= j < files.len() && (#[trigger] files[j]).key() == url@;
                        assert(files[j].url@ != url@);
                    }
                }
                return Ok(None);
            },
        };
        proof {
            lemma_find_at(files, i as int);
        }
        let mut file = self.files.remove(i);
        let ghost f0 = file;
        let ghost encoding = f0.document.encoding();
        let ghost b0 = f0.document.bytes();
        let ghost bk0 = f0.document.breaks();
        let n = changes.len();
        let mut k: usize = 0;
        let mut stop: Option<UpdateStop> = None;
        while k < n && stop.is_none()
            invariant
                n == changes@.len(),
                k <= n,
                i < files.len(),
                self.files@ == files.remove(i as int),
                self.encoding == old(self).encoding,
                self.client == old(self).client,
                encoding == self.encoding,
                file.url == f0.url,
                file.document.encoding() == encoding,
                texter_prefix(encoding, b0, bk0, changes@, k as nat) == Some(
                    (file.document.bytes(), file.document.breaks()),
                ),
                stop is Some ==> k < n,
                stop matches Some(UpdateStop::Refused(e)) ==> e is TexterError && texter_apply(
                    encoding,
                    file.document.bytes(),
                    file.document.breaks(),
                    changes@[k as int],
                ) is Refused,
                stop matches Some(UpdateStop::Unfit) ==> texter_apply(
                    encoding,
                    file.document.bytes(),
                    file.document.breaks(),
                    changes@[k as int],
                ) is Panics,
            decreases n - k, (if stop is None { 1int } else { 0int }),
        {
            if !change_fits_exec(self.encoding, file.document.text(), file.document.break_table(), &changes[k]) {
                stop = Some(UpdateStop::Unfit);
            } else {
                match file.document.update(&changes[k], &mut self.parser) {
                    Ok(()) => {
                        k = k + 1;
                    },
                    Err(e) => {
                        stop = Some(UpdateStop::Refused(e));
                    },
                }
            }
        }
        self.files.insert(i, file);
        proof {
            assert(self.files@ =~= files.update(i as int, file));
            lemma_find_update(files, i as int, file);
            assert forall|j: int| 0 <= j < self.files@.len() implies (#[trigger] self.files@[j]).document.encoding()
                == self.encoding by {
                if j != i {
                    assert(self.files@[j] == files[j]);
                }
            }
        }
        match stop {
            Some(s) => Err(s),
            None => Ok(Some(i)),
        }
    }

    /// Applies a change notification to the file at `url` and publishes its
    /// diagnostics. The changes apply one after the other; an error is
    /// logged when the buffer refuses one, `Unfit` answers one it would
    /// panic on, and nothing is done when no file is open there.
    pub fn did_change(&mut self, url: &String, changes: &Vec<ContentChange>) -> (r: Reply)
        requires
            old(self).wf(),
        ensures
            final(self).wf(),
            final(self).encoding_spec() == old(self).encoding_spec(),
            final(self).client_spec() == old(self).client_spec(),
            forall|u: Seq<char>| u != url@ ==> #[trigger] final(self).file(u) == old(self).file(u),
            r is Nothing <==> old(self).file(url@) is None,
            r is Nothing ==> final(self).file(url@) is None,
            r matches Reply::Publish(ds) ==> published_diagnostics(ds@),
            r matches Reply::LogError(e) ==> e is TexterError,
            old(self).file(url@) matches Some(f0) ==> {
                &&& final(self).file(url@) matches Some(f)
                &&& f.url == f0.url
                &&& f.document.encoding() == f0.document.encoding()
                &&& changes_outcome(
                    f0.document.encoding(),
                    f0.document.bytes(),
                    f0.document.breaks(),
                    changes@,
                    (f.document.bytes(), f.document.breaks()),
                    match r {
                        Reply::LogError(_) => ChangesEnd::Refused,
                        Reply::Unfit => ChangesEnd::Unfit,
                        _ => ChangesEnd::Applied,
                    },
                )
            },
    {
        match self.update(url, changes) {
            Ok(Some(i)) => Backend::<C>::publish_for(&self.files[i].document),
            Ok(None) => Reply::Nothing,
            Err(UpdateStop::Refused(e)) => Reply::LogError(e),
            Err(UpdateStop::Unfit) => Reply::Unfit,
        }
    }
}

} // verus!
