use vstd::prelude::*;
use vstd::string::StringSliceAdditionalSpecFns;

use tree_sitter::Tree;
use vstd::utf8::{
    encode_utf8, encode_utf8_valid_utf8, is_char_boundary, is_char_boundary_iff_not_is_continuation_byte,
    is_char_boundary_start_end_of_seq, valid_utf8, valid_utf8_concat, valid_utf8_split,
};

use crate::protocol::{ClientCapabilities, ContentChange, Diagnostic, InputEdit, Point, Position, Range, ServerInfo, TsRange};
use crate::syntax::{
    SqlParser, sql_parse,
    TreeIterator, node_descendant_count, node_has_error, node_is_error, node_range,
    tree_edit, tree_root_node, tree_walk,
};
use crate::keyed::{find_by_key, lemma_find_at, lemma_find_push, lemma_find_remove, lemma_find_update, unique_keys, Keyed};
use crate::text::{replace_bytes, string_replace_range};

verus! {

/// The line-break table of a text, from its UTF-8 bytes: entry 0 is 0, and
/// entry k + 1 is entry k plus the length of the k-th line without its
/// newline. So a text with n newlines gets n + 2 entries.
pub open spec fn line_breaks_of(b: Seq<u8>) -> Seq<int>
    decreases b.len(),
{
    if b.len() == 0 {
        seq![0, 0]
    } else {
        let prev = line_breaks_of(b.drop_last());
        if b.last() == 10 {
            prev.push(prev.last())
        } else {
            prev.update(prev.len() - 1, prev.last() + 1)
        }
    }
}

/// The number of newline bytes in `b`.
pub open spec fn newlines(b: Seq<u8>) -> nat
    decreases b.len(),
{
    if b.len() == 0 {
        0
    } else {
        newlines(b.drop_last()) + if b.last() == 10 { 1nat } else { 0nat }
    }
}

pub proof fn lemma_line_breaks_shape(b: Seq<u8>)
    ensures
        line_breaks_of(b).len() == newlines(b) + 2,
        line_breaks_of(b)[0] == 0,
        forall|i: int, j: int|
            0 <= i <= j < line_breaks_of(b).len() ==> 0 <= #[trigger] line_breaks_of(b)[i]
                <= #[trigger] line_breaks_of(b)[j] <= b.len(),
    decreases b.len(),
{
    if b.len() > 0 {
        lemma_line_breaks_shape(b.drop_last());
    }
}

/// An open SQL document.
pub struct Document {
    uri: String,
    version: i32,
    text: String,
    line_breaks: Vec<usize>,
    ast: Tree,
}

impl Document {
    /// The line-break table of `text`: see [`line_breaks_of`].
    fn find_line_breaks(text: &str) -> (r: Vec<usize>)
        ensures
            r@.len() == line_breaks_of(text.spec_bytes()).len(),
            forall|i: int| 0 <= i < r@.len() ==> r@[i] as int == line_breaks_of(text.spec_bytes())[i],
    {
        let bytes = text.as_bytes();
        let ghost all = bytes@;
        let mut acc: Vec<usize> = Vec::new();
        acc.push(0);
        let mut current: usize = 0;
        let n = bytes.len();
        for i in 0..n
            invariant
                n == all.len(),
                bytes@ == all,
                current <= i,
                acc@.len() + 1 == line_breaks_of(all.take(i as int)).len(),
                forall|k: int| 0 <= k < acc@.len() ==> acc@[k] as int == line_breaks_of(all.take(i as int))[k],
                current as int == line_breaks_of(all.take(i as int)).last(),
        {
            proof {
                assert(all.take(i + 1).drop_last() =~= all.take(i as int));
                assert(all.take(i + 1).last() == all[i as int]);
                lemma_line_breaks_shape(all.take(i as int));
            }
            if bytes[i] == 10u8 {
                acc.push(current);
            } else {
                current = current + 1;
            }
        }
        acc.push(current);
        proof {
            assert(all.take(n as int) =~= all);
        }
        acc
    }
}


/// The extent of a text: newlines crossed, and the length of its last line.
pub open spec fn delta_of(b: Seq<u8>) -> Point {
    let lb = line_breaks_of(b);
    Point { row: (lb.len() - 2) as usize, column: (lb.last() - lb[lb.len() - 2]) as usize }
}

/// The point reached by moving `delta` from `point`: on the same row the
/// columns add up, otherwise the column is the delta's own.
pub open spec fn point_plus_delta_spec(point: Point, delta: Point) -> Point {
    if delta.row == 0 {
        Point { column: (point.column + delta.column) as usize, row: point.row }
    } else {
        Point { column: delta.column, row: (point.row + delta.row) as usize }
    }
}

pub open spec fn position_to_point_spec(p: Position) -> Point {
    Point { row: p.line as usize, column: p.character as usize }
}

impl Document {
    fn position_to_point(position: Position) -> (p: Point)
        ensures
            p == position_to_point_spec(position),
    {
        Point { row: position.line as usize, column: position.character as usize }
    }

    fn point_to_position(point: Point) -> (p: Position)
        ensures
            p.line == point.row as u32,
            p.character == point.column as u32,
    {
        Position { line: point.row as u32, character: point.column as u32 }
    }

    fn compute_delta(text: &str) -> (d: Point)
        ensures
            d == delta_of(text.spec_bytes()),
    {
        let line_breaks = Document::find_line_breaks(text);
        proof {
            lemma_line_breaks_shape(text.spec_bytes());
        }
        let n = line_breaks.len();
        Point { column: line_breaks[n - 1] - line_breaks[n - 2], row: n - 2 }
    }

    fn point_plus_delta(point: Point, delta: Point) -> (p: Point)
        requires
            delta.row == 0 ==> point.column + delta.column <= usize::MAX,
            delta.row != 0 ==> point.row + delta.row <= usize::MAX,
        ensures
            p == point_plus_delta_spec(point, delta),
    {
        if delta.row == 0 {
            Point { column: point.column + delta.column, row: point.row }
        } else {
            Point { column: delta.column, row: point.row + delta.row }
        }
    }
}


/// The line-break table entry `row` plus `column`; how the document turns a
/// point into a byte offset.
pub open spec fn byte_index_of(lb: Seq<usize>, p: Point) -> int {
    lb[p.row as int] + p.column
}

pub open spec fn point_indexable(lb: Seq<usize>, p: Point) -> bool {
    p.row < lb.len() && byte_index_of(lb, p) <= usize::MAX
}

/// The edit that replacing `range` by a text with bytes `new` amounts to.
pub open spec fn input_edit_of(lb: Seq<usize>, range: Range, new: Seq<u8>) -> InputEdit {
    let start = position_to_point_spec(range.start);
    let old_end = position_to_point_spec(range.end);
    let start_byte = byte_index_of(lb, start);
    InputEdit {
        start_byte: start_byte as usize,
        old_end_byte: byte_index_of(lb, old_end) as usize,
        new_end_byte: (start_byte + new.len()) as usize,
        start_position: start,
        old_end_position: old_end,
        new_end_position: point_plus_delta_spec(start, delta_of(new)),
    }
}

/// The edit of `range` can be computed without going out of the table or
/// out of the machine's integers.
pub open spec fn input_edit_computable(lb: Seq<usize>, range: Range, new: Seq<u8>) -> bool {
    let start = position_to_point_spec(range.start);
    let delta = delta_of(new);
    &&& point_indexable(lb, start)
    &&& point_indexable(lb, position_to_point_spec(range.end))
    &&& byte_index_of(lb, start) + new.len() <= usize::MAX
    &&& delta.row == 0 ==> start.column + delta.column <= usize::MAX
    &&& delta.row != 0 ==> start.row + delta.row <= usize::MAX
}

/// The change can be applied to a text with bytes `b`: it names a range, and
/// that range's bytes lie within the text on character boundaries.
pub open spec fn change_applicable(b: Seq<u8>, lb: Seq<usize>, c: ContentChange) -> bool {
    &&& c.range is Some
    &&& input_edit_computable(lb, c.range.unwrap(), encode_utf8(c.text@))
    &&& {
        let e = input_edit_of(lb, c.range.unwrap(), encode_utf8(c.text@));
        &&& e.start_byte <= e.old_end_byte <= b.len()
        &&& is_char_boundary(b, e.start_byte as int)
        &&& is_char_boundary(b, e.old_end_byte as int)
    }
}

/// The bytes of the text after the change.
pub open spec fn apply_change_spec(b: Seq<u8>, lb: Seq<usize>, c: ContentChange) -> Seq<u8> {
    let e = input_edit_of(lb, c.range.unwrap(), encode_utf8(c.text@));
    replace_bytes(b, e.start_byte as int, e.old_end_byte as int, encode_utf8(c.text@))
}

/// Every change in turn can be applied to the text the previous ones left.
pub open spec fn changes_applicable(b: Seq<u8>, lb: Seq<usize>, cs: Seq<ContentChange>) -> bool
    decreases cs.len(),
{
    cs.len() == 0 || (change_applicable(b, lb, cs[0]) && changes_applicable(
        apply_change_spec(b, lb, cs[0]),
        lb,
        cs.drop_first(),
    ))
}

/// The bytes of the text after all the changes, in order.
pub open spec fn apply_changes_spec(b: Seq<u8>, lb: Seq<usize>, cs: Seq<ContentChange>) -> Seq<u8>
    decreases cs.len(),
{
    if cs.len() == 0 {
        b
    } else {
        apply_changes_spec(apply_change_spec(b, lb, cs[0]), lb, cs.drop_first())
    }
}

/// Applying no change leaves the text as it is.
pub proof fn lemma_apply_no_changes(b: Seq<u8>, lb: Seq<usize>)
    ensures
        apply_changes_spec(b, lb, Seq::<ContentChange>::empty()) == b,
{
}

/// Applying a list of one change is applying that change.
pub proof fn lemma_apply_one_change(b: Seq<u8>, lb: Seq<usize>, c: ContentChange)
    ensures
        apply_changes_spec(b, lb, seq![c]) == apply_change_spec(b, lb, c),
{
    assert(seq![c].drop_first() =~= Seq::<ContentChange>::empty());
    assert(seq![c][0] == c);
    assert(apply_changes_spec(apply_change_spec(b, lb, c), lb, Seq::<ContentChange>::empty()) == apply_change_spec(
        b,
        lb,
        c,
    ));
}

/// Applying two lists of changes one after the other is applying their
/// concatenation: every change of a notification is applied, in order, each
/// to the text the changes before it left.
pub proof fn lemma_apply_changes_concat(b: Seq<u8>, lb: Seq<usize>, cs1: Seq<ContentChange>, cs2: Seq<ContentChange>)
    ensures
        apply_changes_spec(b, lb, cs1 + cs2) == apply_changes_spec(apply_changes_spec(b, lb, cs1), lb, cs2),
    decreases cs1.len(),
{
    if cs1.len() == 0 {
        assert(cs1 + cs2 =~= cs2);
    } else {
        assert((cs1 + cs2)[0] == cs1[0]);
        assert((cs1 + cs2).drop_first() =~= cs1.drop_first() + cs2);
        lemma_apply_changes_concat(apply_change_spec(b, lb, cs1[0]), lb, cs1.drop_first(), cs2);
    }
}

/// Applying a notification's changes is applying its first change, then
/// the rest to the text that change left; for two changes, the second
/// applies to the text after the first.
pub proof fn lemma_apply_changes_first_then_rest(b: Seq<u8>, lb: Seq<usize>, c1: ContentChange, c2: ContentChange)
    ensures
        apply_changes_spec(b, lb, seq![c1, c2]) == apply_change_spec(apply_change_spec(b, lb, c1), lb, c2),
{
    lemma_apply_changes_concat(b, lb, seq![c1], seq![c2]);
    assert(seq![c1] + seq![c2] =~= seq![c1, c2]);
    lemma_apply_one_change(b, lb, c1);
    lemma_apply_one_change(apply_change_spec(b, lb, c1), lb, c2);
}

/// Why a change was not applied.
#[derive(Debug, Clone, Copy, PartialEq, Eq, Structural)]
pub enum ChangeError {
    /// The change is for an older version than the document's.
    VersionOutOfSync,
    /// The parser gave no tree back (it has no grammar).
    ParserFailed,
}

impl Document {
    pub closed spec fn uri(self) -> Seq<char> {
        self.uri@
    }

    pub closed spec fn version(self) -> i32 {
        self.version
    }

    /// The document's text as UTF-8 bytes.
    pub closed spec fn text_bytes(self) -> Seq<u8> {
        encode_utf8(self.text@)
    }

    /// The line-break table, as computed when the document was opened.
    pub closed spec fn line_breaks(self) -> Seq<usize> {
        self.line_breaks@
    }

    /// Opens a document: computes its line-break table and parses it. The
    /// parser has its grammar, so a document always comes back.
    pub fn from_item(uri: String, version: i32, text: String, parser: &mut SqlParser) -> (r: Option<
        Document,
    >)
        ensures
            r is Some,
            r matches Some(d) ==> {
                &&& d.uri() == uri@
                &&& d.version() == version
                &&& d.text_bytes() == encode_utf8(text@)
                &&& d.line_breaks().len() == line_breaks_of(encode_utf8(text@)).len()
                &&& forall|i: int|
                    0 <= i < d.line_breaks().len() ==> d.line_breaks()[i] as int == line_breaks_of(
                        encode_utf8(text@),
                    )[i]
            },
    {
        let line_breaks = Document::find_line_breaks(text.as_str());
        match sql_parse(parser, text.as_str().as_bytes(), None) {
            Some(ast) => Some(Document { uri, version, text, line_breaks, ast }),
            None => None,
        }
    }

    fn point_to_byte_index(&self, point: Point) -> (i: usize)
        requires
            point_indexable(self.line_breaks@, point),
        ensures
            i == byte_index_of(self.line_breaks@, point),
    {
        self.line_breaks[point.row] + point.column
    }

    fn tree_range_to_lsp_range(tree_range: TsRange) -> (r: Range)
        ensures
            r == lsp_range_of(tree_range),
            r.start.line == tree_range.start_point.row as u32,
            r.start.character == tree_range.start_point.column as u32,
            r.end.line == tree_range.end_point.row as u32,
            r.end.character == tree_range.end_point.column as u32,
    {
        Range {
            start: Document::point_to_position(tree_range.start_point),
            end: Document::point_to_position(tree_range.end_point),
        }
    }

    fn compute_input_edit(&self, old_range: &Range, new_text: &str) -> (e: InputEdit)
        requires
            input_edit_computable(self.line_breaks@, *old_range, new_text.spec_bytes()),
        ensures
            e == input_edit_of(self.line_breaks@, *old_range, new_text.spec_bytes()),
    {
        let start_position = Document::position_to_point(old_range.start);
        let old_end_position = Document::position_to_point(old_range.end);
        let new_end_position = Document::point_plus_delta(
            start_position,
            Document::compute_delta(new_text),
        );
        let start_byte = self.point_to_byte_index(start_position);
        InputEdit {
            start_byte,
            old_end_byte: self.point_to_byte_index(old_end_position),
            new_end_byte: start_byte + new_text.as_bytes().len(),
            start_position,
            old_end_position,
            new_end_position,
        }
    }

    /// Applies one change for `new_version`: refused when the document is
    /// newer; otherwise the range is replaced, the tree told about the edit
    /// and the text parsed again.
    pub fn apply_change(&mut self, new_version: i32, change_event: &ContentChange, parser: &mut SqlParser) -> (r:
        Result<(), ChangeError>)
        requires
            new_version >= old(self).version() ==> change_applicable(
                old(self).text_bytes(),
                old(self).line_breaks(),
                *change_event,
            ),
        ensures
            new_version < old(self).version() ==> r == Err::<(), ChangeError>(
                ChangeError::VersionOutOfSync,
            ) && *final(self) == *old(self),
            new_version >= old(self).version() ==> {
                &&& r is Ok
                &&& final(self).text_bytes() == apply_change_spec(
                    old(self).text_bytes(),
                    old(self).line_breaks(),
                    *change_event,
                )
            },
            final(self).uri() == old(self).uri(),
            final(self).version() == old(self).version(),
            final(self).line_breaks() == old(self).line_breaks(),
    {
        if new_version < self.version {
            return Err(ChangeError::VersionOutOfSync);
        }
        match &change_event.range {
            Some(range) => {
                let input_edit = self.compute_input_edit(range, change_event.text.as_str());
                string_replace_range(
                    &mut self.text,
                    input_edit.start_byte,
                    input_edit.old_end_byte,
                    change_event.text.as_str(),
                );
                tree_edit(&mut self.ast, &input_edit);
                match sql_parse(parser, self.text.as_str().as_bytes(), Some(&self.ast)) {
                    Some(ast) => {
                        self.ast = ast;
                        Ok(())
                    },
                    None => Err(ChangeError::ParserFailed),
                }
            },
            None => {
                // A whole-text change is left out by the precondition.
                Err(ChangeError::VersionOutOfSync)
            },
        }
    }
}


impl Document {
    /// Applies the changes of one notification in order, then takes on its
    /// version. A change list for an older version is refused before any
    /// change is made.
    pub fn apply_changes(&mut self, version: i32, changes: &Vec<ContentChange>, parser: &mut SqlParser) -> (r:
        Result<(), ChangeError>)
        requires
            version >= old(self).version() ==> changes_applicable(
                old(self).text_bytes(),
                old(self).line_breaks(),
                changes@,
            ),
        ensures
            (r == Err::<(), ChangeError>(ChangeError::VersionOutOfSync)) <==> (version < old(
                self,
            ).version() && changes@.len() > 0),
            r == Err::<(), ChangeError>(ChangeError::VersionOutOfSync) ==> *final(self) == *old(self),
            version >= old(self).version() ==> r is Ok,
            r is Ok ==> {
                &&& final(self).version() == version
                &&& final(self).text_bytes() == apply_changes_spec(
                    old(self).text_bytes(),
                    old(self).line_breaks(),
                    changes@,
                )
            },
            r is Err ==> final(self).version() == old(self).version(),
            final(self).uri() == old(self).uri(),
            final(self).line_breaks() == old(self).line_breaks(),
    {
        let ghost lb = self.line_breaks@;
        let ghost cs = changes@;
        let n = changes.len();
        if n > 0 && version < self.version {
            return Err(ChangeError::VersionOutOfSync);
        }
        proof {
            assert(cs.skip(0) =~= cs);
        }
        for i in 0..n
            invariant
                n == cs.len(),
                cs == changes@,
                lb == self.line_breaks@,
                self.line_breaks@ == old(self).line_breaks(),
                self.uri() == old(self).uri(),
                self.version() == old(self).version(),
                version >= self.version() || n == 0,
                changes_applicable(self.text_bytes(), lb, cs.skip(i as int)),
                apply_changes_spec(self.text_bytes(), lb, cs.skip(i as int)) == apply_changes_spec(
                    old(self).text_bytes(),
                    lb,
                    cs,
                ),
        {
            proof {
                assert(cs.skip(i as int)[0] == cs[i as int]);
                assert(cs.skip(i as int).drop_first() =~= cs.skip(i + 1));
            }
            let ghost before = self.text_bytes();
            self.apply_change(version, &changes[i], parser)?;
            proof {
                assert(self.text_bytes() == apply_change_spec(before, lb, cs[i as int]));
            }
        }
        proof {
            assert(cs.skip(n as int) =~= Seq::<ContentChange>::empty());
        }
        self.version = version;
        Ok(())
    }

    /// One diagnostic, with an empty message and nothing else set, for each
    /// syntax-error node of the tree, in pre-order (see
    /// [`diagnostics_for_nodes`]); none when the tree has no error.
    pub fn compute_diagnostics(&self) -> (ds: Vec<Diagnostic>)
        ensures
            forall|i: int| 0 <= i < ds@.len() ==> bare_diagnostic(#[trigger] ds@[i]),
    {
        let mut walked: Vec<WalkedNode> = Vec::new();
        let root = tree_root_node(&self.ast);
        if node_has_error(&root) {
            // A pre-order walk visits each node of the tree once.
            let count = node_descendant_count(&root);
            let mut nodes = TreeIterator::new(tree_walk(&self.ast));
            for _k in 0..count {
                match nodes.next() {
                    Some(node) => {
                        walked.push(WalkedNode { is_error: node_is_error(&node), range: node_range(&node) });
                    },
                    None => break,
                }
            }
        }
        diagnostics_for_nodes(&walked)
    }
}

/// A node met in a walk of a syntax tree: whether it is a syntax error, and
/// its span.
pub struct WalkedNode {
    pub is_error: bool,
    pub range: TsRange,
}

/// The protocol range of a tree span: rows become lines, byte columns
/// become characters.
pub open spec fn lsp_range_of(t: TsRange) -> Range {
    Range {
        start: Position { line: t.start_point.row as u32, character: t.start_point.column as u32 },
        end: Position { line: t.end_point.row as u32, character: t.end_point.column as u32 },
    }
}

/// The ranges of the error nodes among `nodes`, in their order.
pub open spec fn error_ranges(nodes: Seq<WalkedNode>) -> Seq<Range>
    decreases nodes.len(),
{
    if nodes.len() == 0 {
        Seq::empty()
    } else {
        let before = error_ranges(nodes.drop_last());
        if nodes.last().is_error {
            before.push(lsp_range_of(nodes.last().range))
        } else {
            before
        }
    }
}

/// A diagnostic with an empty message and no severity, code or source.
pub open spec fn bare_diagnostic(d: Diagnostic) -> bool {
    &&& d.message@ == Seq::<char>::empty()
    &&& d.severity is None
    &&& d.code is None
    &&& d.source is None
}

/// One bare diagnostic for each error node among `nodes`, in their order,
/// over the node's range.
pub fn diagnostics_for_nodes(nodes: &Vec<WalkedNode>) -> (ds: Vec<Diagnostic>)
    ensures
        ds@.len() == error_ranges(nodes@).len(),
        forall|i: int|
            0 <= i < ds@.len() ==> bare_diagnostic(#[trigger] ds@[i]) && ds@[i].range == error_ranges(nodes@)[i],
{
    let n = nodes.len();
    let mut diagnostics: Vec<Diagnostic> = Vec::new();
    for k in 0..n
        invariant
            n == nodes@.len(),
            diagnostics@.len() == error_ranges(nodes@.take(k as int)).len(),
            forall|i: int|
                0 <= i < diagnostics@.len() ==> bare_diagnostic(#[trigger] diagnostics@[i]) && diagnostics@[i].range
                    == error_ranges(nodes@.take(k as int))[i],
    {
        proof {
            assert(nodes@.take(k + 1).drop_last() =~= nodes@.take(k as int));
            assert(nodes@.take(k + 1).last() == nodes@[k as int]);
        }
        if nodes[k].is_error {
            let range = Document::tree_range_to_lsp_range(nodes[k].range);
            diagnostics.push(Diagnostic { range, severity: None, code: None, source: None, message: String::new() });
        }
    }
    proof {
        assert(nodes@.take(n as int) =~= nodes@);
    }
    diagnostics
}

/// Whether `i` is a character boundary of the valid UTF-8 bytes `b`.
fn char_boundary_at(b: &Vec<u8>, i: usize) -> (r: bool)
    requires
        valid_utf8(b@),
    ensures
        r == is_char_boundary(b@, i as int),
{
    proof {
        is_char_boundary_start_end_of_seq(b@);
    }
    if i == b.len() {
        true
    } else if i > b.len() {
        false
    } else {
        proof {
            is_char_boundary_iff_not_is_continuation_byte(b@, i as int);
        }
        !(0x80u8 <= b[i] && b[i] <= 0xbfu8)
    }
}

/// `b` with `start..end` replaced by `new`.
fn splice_bytes(b: &Vec<u8>, start: usize, end: usize, new: &[u8]) -> (r: Vec<u8>)
    requires
        start <= end <= b@.len(),
    ensures
        r@ == replace_bytes(b@, start as int, end as int, new@),
{
    let mut r: Vec<u8> = Vec::new();
    for i in 0..start
        invariant
            start <= b@.len(),
            r@ == b@.subrange(0, i as int),
    {
        r.push(b[i]);
        proof {
            assert(r@ =~= b@.subrange(0, i + 1));
        }
    }
    let ghost mid = r@;
    for i in 0..new.len()
        invariant
            r@ == mid + new@.subrange(0, i as int),
    {
        r.push(new[i]);
        proof {
            assert(r@ =~= mid + new@.subrange(0, i + 1));
        }
    }
    let ghost mid2 = r@;
    for i in end..b.len()
        invariant
            end <= b@.len(),
            r@ == mid2 + b@.subrange(end as int, i as int),
    {
        r.push(b[i]);
        proof {
            assert(r@ =~= mid2 + b@.subrange(end as int, i + 1));
        }
    }
    proof {
        assert(r@ =~= replace_bytes(b@, start as int, end as int, new@));
    }
    r
}

impl Document {
    /// The byte offset of `point`, when it is in the table and fits.
    fn checked_byte_index(&self, point: Point) -> (r: Option<usize>)
        ensures
            r is Some <==> point_indexable(self.line_breaks@, point),
            r matches Some(i) ==> i == byte_index_of(self.line_breaks@, point),
    {
        if point.row < self.line_breaks.len() {
            self.line_breaks[point.row].checked_add(point.column)
        } else {
            None
        }
    }

    /// The edit that replacing `range` by `new_text` amounts to, when it
    /// can be computed.
    fn checked_input_edit(&self, range: &Range, new_text: &str) -> (r: Option<InputEdit>)
        ensures
            r is Some <==> input_edit_computable(self.line_breaks@, *range, new_text.spec_bytes()),
            r matches Some(e) ==> e == input_edit_of(self.line_breaks@, *range, new_text.spec_bytes()),
    {
        let start = Document::position_to_point(range.start);
        let old_end = Document::position_to_point(range.end);
        let delta = Document::compute_delta(new_text);
        let start_byte = match self.checked_byte_index(start) {
            Some(i) => i,
            None => return None,
        };
        if self.checked_byte_index(old_end).is_none() {
            return None;
        }
        if start_byte.checked_add(new_text.as_bytes().len()).is_none() {
            return None;
        }
        if delta.row == 0 && start.column.checked_add(delta.column).is_none() {
            return None;
        }
        if delta.row != 0 && start.row.checked_add(delta.row).is_none() {
            return None;
        }
        proof {
            assert(start == position_to_point_spec(range.start));
            assert(delta == delta_of(new_text.spec_bytes()));
            assert(point_indexable(self.line_breaks@, start));
            assert(point_indexable(self.line_breaks@, old_end));
            assert(byte_index_of(self.line_breaks@, start) + new_text.spec_bytes().len() <= usize::MAX);
        }
        Some(self.compute_input_edit(range, new_text))
    }

    /// Whether `change` can be applied to a text with bytes `b` (which are
    /// UTF-8), by this document's line-break table.
    fn change_applicable_to(&self, b: &Vec<u8>, change: &ContentChange) -> (r: Option<Vec<u8>>)
        requires
            valid_utf8(b@),
        ensures
            r is Some <==> change_applicable(b@, self.line_breaks@, *change),
            r matches Some(nb) ==> nb@ == apply_change_spec(b@, self.line_breaks@, *change),
    {
        match &change.range {
            None => None,
            Some(range) => {
                match self.checked_input_edit(range, change.text.as_str()) {
                    None => None,
                    Some(e) => {
                        if e.start_byte <= e.old_end_byte && e.old_end_byte <= b.len()
                            && char_boundary_at(b, e.start_byte) && char_boundary_at(
                            b,
                            e.old_end_byte,
                        ) {
                            Some(splice_bytes(b, e.start_byte, e.old_end_byte, change.text.as_str().as_bytes()))
                        } else {
                            None
                        }
                    },
                }
            },
        }
    }

    /// Whether [`Document::apply_changes`] can take these changes for
    /// `version`: a list for an older version always can (it is refused);
    /// otherwise each change must name a range that lies within the text
    /// the previous changes left, on character boundaries.
    pub fn can_apply_changes(&self, version: i32, changes: &Vec<ContentChange>) -> (r: bool)
        ensures
            r == (version >= self.version() ==> changes_applicable(
                self.text_bytes(),
                self.line_breaks(),
                changes@,
            )),
    {
        if version < self.version {
            return true;
        }
        let ghost lb = self.line_breaks@;
        let ghost cs = changes@;
        let mut b = self.text.as_str().as_bytes_vec();
        proof {
            encode_utf8_valid_utf8(self.text@);
            assert(cs.skip(0) =~= cs);
        }
        let n = changes.len();
        for i in 0..n
            invariant
                n == cs.len(),
                cs == changes@,
                lb == self.line_breaks@,
                version >= self.version(),
                valid_utf8(b@),
                changes_applicable(b@, lb, cs.skip(i as int)) == changes_applicable(
                    self.text_bytes(),
                    lb,
                    cs,
                ),
        {
            proof {
                assert(cs.skip(i as int)[0] == cs[i as int]);
                assert(cs.skip(i as int).drop_first() =~= cs.skip(i + 1));
            }
            match self.change_applicable_to(&b, &changes[i]) {
                None => {
                    proof {
                        assert(cs.skip(i as int).len() > 0);
                        assert(!change_applicable(b@, lb, cs.skip(i as int)[0]));
                        assert(!changes_applicable(b@, lb, cs.skip(i as int)));
                    }
                    return false;
                },
                Some(nb) => {
                    proof {
                        lemma_splice_keeps_utf8(b@, self.line_breaks@, changes[i as int]);
                    }
                    b = nb;
                },
            }
        }
        proof {
            assert(cs.skip(n as int) =~= Seq::<ContentChange>::empty());
        }
        true
    }
}

/// Replacing a range between character boundaries by valid text leaves
/// valid text.
proof fn lemma_splice_keeps_utf8(b: Seq<u8>, lb: Seq<usize>, c: ContentChange)
    requires
        valid_utf8(b),
        change_applicable(b, lb, c),
    ensures
        valid_utf8(apply_change_spec(b, lb, c)),
{
    let e = input_edit_of(lb, c.range.unwrap(), encode_utf8(c.text@));
    let new = encode_utf8(c.text@);
    valid_utf8_split(b, e.start_byte as int);
    valid_utf8_split(b, e.old_end_byte as int);
    encode_utf8_valid_utf8(c.text@);
    let pre = b.subrange(0, e.start_byte as int);
    let post = b.subrange(e.old_end_byte as int, b.len() as int);
    valid_utf8_concat(pre, new);
    valid_utf8_concat(pre + new, post);
}


/// What applying a change notification came to.
#[derive(Debug, Clone, Copy, PartialEq, Eq, Structural)]
pub enum ChangeOutcome {
    /// The changes were applied.
    Applied,
    /// No document is open at that address.
    NotOpened,
    /// The document is newer than the notification; nothing changed.
    OutOfSync,
    /// A change names no range, or a range outside the text or off a
    /// character boundary; nothing changed.
    InvalidChange,
    /// The parser gave no tree back.
    ParserFailed,
}

/// What opening a document came to.
#[derive(Debug, Clone, Copy, PartialEq, Eq, Structural)]
pub enum OpenOutcome {
    /// The document is not SQL; nothing changed.
    Ignored,
    /// The document is open now.
    Opened,
    /// The parser gave no tree back; nothing changed.
    ParserFailed,
}

impl Keyed<Seq<char>> for Document {
    open spec fn key(&self) -> Seq<char> {
        self.uri()
    }
}

/// The state of the SQL language server: what the client can do, the open
/// documents (one per address), and the parser.
pub struct Sqls {
    client_capabilities: Option<ClientCapabilities>,
    documents: Vec<Document>,
    parser: SqlParser,
}

impl Sqls {
    /// Well-formed: at most one open document per address.
    pub closed spec fn wf(self) -> bool {
        unique_keys(self.documents@)
    }

    /// The open document at address `uri`.
    pub closed spec fn document(self, uri: Seq<char>) -> Option<Document> {
        find_by_key(self.documents@, uri)
    }

    pub closed spec fn capabilities(self) -> Option<ClientCapabilities> {
        self.client_capabilities
    }

    /// A server with no documents, whose parser has the SQL grammar; the
    /// grammar is always accepted, so there is always one.
    pub fn new() -> (r: Option<Sqls>)
        ensures
            r is Some,
            r matches Some(s) ==> s.wf() && s.capabilities() is None && forall|u: Seq<char>| #[trigger] s.document(u) is None,
    {
        let parser = SqlParser::new();
        let s = Sqls { client_capabilities: None, documents: Vec::new(), parser };
        Some(s)
    }

    /// The language the server handles.
    pub fn language_id() -> (r: &'static str)
        ensures
            r@ == "sql"@,
    {
        "sql"
    }

    /// Whether the client said it takes published diagnostics.
    pub fn does_client_support_push_diagnostics(&self) -> (r: bool)
        ensures
            r == (self.capabilities() matches Some(c) && c.text_document matches Some(t)
                && t.publish_diagnostics is Some),
    {
        if let Some(capabilities) = &self.client_capabilities {
            if let Some(text_document) = &capabilities.text_document {
                if let Some(_) = &text_document.publish_diagnostics {
                    return true;
                }
            }
        }
        false
    }

    /// Remembers the client's capabilities; answers with the server's name
    /// and version (changes are to be sent as edits).
    pub fn initialize(&mut self, capabilities: ClientCapabilities) -> (r: ServerInfo)
        requires
            old(self).wf(),
        ensures
            final(self).wf(),
            final(self).capabilities() == Some(capabilities),
            forall|u: Seq<char>| #[trigger] final(self).document(u) == old(self).document(u),
            r.name@ == "sqls-rust"@,
            r.version@ == "0.1.0"@,
    {
        self.client_capabilities = Some(capabilities);
        ServerInfo { name: "sqls-rust".to_owned(), version: "0.1.0".to_owned() }
    }

    fn index_of(&self, uri: &String) -> (r: Option<usize>)
        ensures
            r matches Some(i) ==> i < self.documents@.len() && self.documents@[i as int].uri() == uri@,
            r is None ==> forall|i: int| 0 <= i < self.documents@.len() ==> (#[trigger] self.documents@[i]).uri() != uri@,
    {
        let n = self.documents.len();
        for i in 0..n
            invariant
                n == self.documents@.len(),
                forall|j: int| 0 <= j < i ==> (#[trigger] self.documents@[j]).uri() != uri@,
        {
            if self.documents[i].uri == *uri {
                return Some(i);
            }
        }
        None
    }
}


impl Sqls {
    /// Opens a SQL document (other languages are ignored); a document
    /// already open at the same address is replaced.
    pub fn did_open(&mut self, uri: String, language_id: &str, version: i32, text: String) -> (r: OpenOutcome)
        requires
            old(self).wf(),
        ensures
            final(self).wf(),
            r == OpenOutcome::Ignored <==> language_id@ != "sql"@,
            language_id@ == "sql"@ ==> r == OpenOutcome::Opened,
            r != OpenOutcome::Opened ==> forall|u: Seq<char>| #[trigger] final(self).document(u) == old(self).document(u),
            r == OpenOutcome::Opened ==> {
                &&& final(self).document(uri@) matches Some(d)
                &&& d.uri() == uri@
                &&& d.version() == version
                &&& d.text_bytes() == encode_utf8(text@)
                &&& forall|u: Seq<char>| u != uri@ ==> #[trigger] final(self).document(u) == old(self).document(u)
            },
            final(self).capabilities() == old(self).capabilities(),
    {
        if language_id.to_owned() != Sqls::language_id().to_owned() {
            return OpenOutcome::Ignored;
        }
        let key = uri.clone();
        let document = match Document::from_item(uri, version, text, &mut self.parser) {
            Some(d) => d,
            None => return OpenOutcome::ParserFailed,
        };
        let ghost docs = self.documents@;
        match self.index_of(&key) {
            Some(i) => {
                proof {
                    lemma_find_update(docs, i as int, document);
                }
                self.documents.set(i, document);
            },
            None => {
                proof {
                    lemma_find_push(docs, document);
                }
                self.documents.push(document);
            },
        }
        OpenOutcome::Opened
    }

    /// Applies a change notification to the open document at `uri`.
    pub fn did_change(&mut self, uri: &String, version: i32, changes: &Vec<ContentChange>) -> (r: ChangeOutcome)
        requires
            old(self).wf(),
        ensures
            final(self).wf(),
            r == ChangeOutcome::NotOpened <==> old(self).document(uri@) is None,
            old(self).document(uri@) matches Some(d0) ==> {
                &&& r == ChangeOutcome::InvalidChange <==> !(version >= d0.version() ==> changes_applicable(
                    d0.text_bytes(),
                    d0.line_breaks(),
                    changes@,
                ))
                &&& r == ChangeOutcome::OutOfSync <==> (version < d0.version() && changes@.len() > 0)
                &&& version >= d0.version() && changes_applicable(d0.text_bytes(), d0.line_breaks(), changes@)
                    ==> r == ChangeOutcome::Applied
                &&& r == ChangeOutcome::Applied ==> (final(self).document(uri@) matches Some(d) && d.version() == version
                    && d.text_bytes() == apply_changes_spec(d0.text_bytes(), d0.line_breaks(), changes@)
                    && d.line_breaks() == d0.line_breaks())
            },
            r == ChangeOutcome::NotOpened || r == ChangeOutcome::InvalidChange || r == ChangeOutcome::OutOfSync
                ==> forall|u: Seq<char>| #[trigger] final(self).document(u) == old(self).document(u),
            forall|u: Seq<char>| u != uri@ ==> #[trigger] final(self).document(u) == old(self).document(u),
            final(self).document(uri@) is Some <==> old(self).document(uri@) is Some,
            final(self).capabilities() == old(self).capabilities(),
    {
        let ghost docs = self.documents@;
        let i = match self.index_of(uri) {
            Some(i) => i,
            None => return ChangeOutcome::NotOpened,
        };
        proof {
            lemma_find_at(docs, i as int);
        }
        if !self.documents[i].can_apply_changes(version, changes) {
            return ChangeOutcome::InvalidChange;
        }
        let mut document = self.documents.remove(i);
        proof {
            lemma_find_remove(docs, i as int);
        }
        let result = document.apply_changes(version, changes, &mut self.parser);
        let ghost removed = self.documents@;
        self.documents.insert(i, document);
        proof {
            assert(self.documents@ =~= docs.update(i as int, document));
            lemma_find_update(docs, i as int, document);
            if result == Err::<(), ChangeError>(ChangeError::VersionOutOfSync) {
                assert(self.documents@ =~= docs);
            }
        }
        match result {
            Ok(()) => ChangeOutcome::Applied,
            Err(ChangeError::VersionOutOfSync) => ChangeOutcome::OutOfSync,
            Err(ChangeError::ParserFailed) => ChangeOutcome::ParserFailed,
        }
    }

    /// Forgets the document at `uri`.
    pub fn did_close(&mut self, uri: &String)
        requires
            old(self).wf(),
        ensures
            final(self).wf(),
            final(self).document(uri@) is None,
            forall|u: Seq<char>| u != uri@ ==> #[trigger] final(self).document(u) == old(self).document(u),
            final(self).capabilities() == old(self).capabilities(),
    {
        let ghost docs = self.documents@;
        match self.index_of(uri) {
            Some(i) => {
                proof {
                    lemma_find_remove(docs, i as int);
                }
                self.documents.remove(i);
            },
            None => {},
        }
    }

    /// The text of the document at `uri`, if one is open there.
    pub fn document_text(&self, uri: &String) -> (r: Option<&str>)
        requires
            self.wf(),
        ensures
            r is Some <==> self.document(uri@) is Some,
            r matches Some(t) ==> (self.document(uri@) matches Some(d) && encode_utf8(t@) == d.text_bytes()),
    {
        match self.index_of(uri) {
            Some(i) => {
                proof {
                    lemma_find_at(self.documents@, i as int);
                }
                Some(self.documents[i].text.as_str())
            },
            None => None,
        }
    }

    /// The diagnostics and version to publish for the document at `uri`;
    /// `None` when no document is open there.
    pub fn publish_diagnostics(&self, uri: &String) -> (r: Option<(Vec<Diagnostic>, i32)>)
        requires
            self.wf(),
        ensures
            r is Some <==> self.document(uri@) is Some,
            r matches Some((_, v)) ==> (self.document(uri@) matches Some(d) && v == d.version()),
            r matches Some((ds, _)) ==> forall|i: int| 0 <= i < ds@.len() ==> bare_diagnostic(#[trigger] ds@[i]),
    {
        match self.index_of(uri) {
            Some(i) => {
                proof {
                    lemma_find_at(self.documents@, i as int);
                }
                let d = &self.documents[i];
                Some((d.compute_diagnostics(), d.version))
            },
            None => None,
        }
    }
}

} // verus!
