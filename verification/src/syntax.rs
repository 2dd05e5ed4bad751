use tree_sitter::{Node, Parser, Tree, TreeCursor};

use crate::protocol::{InputEdit, Point, TsRange};
use vstd::prelude::*;

verus! {

#[verifier::external_type_specification]
#[verifier::external_body]
pub struct ExParser(Parser);

#[verifier::external_type_specification]
#[verifier::external_body]
pub struct ExTree(Tree);

#[verifier::external_type_specification]
#[verifier::external_body]
pub struct ExNode<'tree>(Node<'tree>);

#[verifier::external_type_specification]
#[verifier::external_body]
pub struct ExTreeCursor<'cursor>(TreeCursor<'cursor>);

/// Trusted: `TreeCursor::goto_first_child`; moves to the first child when
/// there is one and says whether it did. Nothing about the tree is stated.
#[verifier::external_body]
pub(crate) fn cursor_goto_first_child(c: &mut TreeCursor) -> bool {
    c.goto_first_child()
}

/// Trusted: `TreeCursor::goto_next_sibling`; says whether it moved.
#[verifier::external_body]
pub(crate) fn cursor_goto_next_sibling(c: &mut TreeCursor) -> bool {
    c.goto_next_sibling()
}

/// Trusted: `TreeCursor::goto_parent`; says whether it moved.
#[verifier::external_body]
pub(crate) fn cursor_goto_parent(c: &mut TreeCursor) -> bool {
    c.goto_parent()
}

/// Trusted: `TreeCursor::depth`, how many `goto_parent` moves lead back to
/// the node the cursor was made on. Nothing about the value is stated.
#[verifier::external_body]
pub(crate) fn cursor_depth(c: &TreeCursor) -> u32 {
    c.depth()
}

/// Trusted: `TreeCursor::node`, the node under the cursor.
#[verifier::external_body]
pub(crate) fn cursor_node<'a>(c: &TreeCursor<'a>) -> Node<'a> {
    c.node()
}

/// Trusted: `Parser::new`, a parser with no language yet.
#[verifier::external_body]
fn parser_new() -> Parser {
    Parser::new()
}

/// Trusted: `Parser::set_language` with the SQL grammar of
/// `tree_sitter_sequel`. The source refuses a language only when its ABI
/// version lies outside the range this tree-sitter supports; the grammar
/// linked in is built for that range, so it is accepted.
#[verifier::external_body]
fn parser_set_sql_language(p: &mut Parser) -> (r: bool)
    ensures
        r,
{
    p.set_language(&tree_sitter_sequel::LANGUAGE.into()).is_ok()
}

/// A parser whose language is the SQL grammar. The field is private and
/// `SqlParser::new` is the only way to make one, so every `SqlParser` has
/// its language set, and no timeout or cancellation flag.
pub struct SqlParser {
    parser: Parser,
}

impl SqlParser {
    pub fn new() -> (r: SqlParser) {
        let mut parser = parser_new();
        let _accepted = parser_set_sql_language(&mut parser);
        SqlParser { parser }
    }
}

/// Trusted: `Parser::parse` of `text`, reusing `old` when given. The source
/// gives `None` only when no language is set, which a `SqlParser` always
/// has, so a tree comes back. Nothing is stated of the tree.
#[verifier::external_body]
pub(crate) fn sql_parse(p: &mut SqlParser, text: &[u8], old: Option<&Tree>) -> (r: Option<Tree>)
    ensures
        r is Some,
{
    p.parser.parse(text, old)
}

/// Trusted: `Tree::edit`, which tells the tree about a text edit so that the
/// next parse can reuse it. Nothing is stated of the tree.
#[verifier::external_body]
pub(crate) fn tree_edit(t: &mut Tree, e: &InputEdit) {
    let (s, o, n) = (e.start_position, e.old_end_position, e.new_end_position);
    t.edit(&tree_sitter::InputEdit {
        start_byte: e.start_byte,
        old_end_byte: e.old_end_byte,
        new_end_byte: e.new_end_byte,
        start_position: tree_sitter::Point::new(s.row, s.column),
        old_end_position: tree_sitter::Point::new(o.row, o.column),
        new_end_position: tree_sitter::Point::new(n.row, n.column),
    })
}

/// Trusted: `Tree::walk`, a cursor on the root node.
#[verifier::external_body]
pub(crate) fn tree_walk<'a>(t: &'a Tree) -> TreeCursor<'a> {
    t.walk()
}

/// Trusted: `Tree::root_node`.
#[verifier::external_body]
pub(crate) fn tree_root_node<'a>(t: &'a Tree) -> Node<'a> {
    t.root_node()
}

/// Trusted: `Node::has_error`: whether the node or a descendant is a syntax error.
#[verifier::external_body]
pub(crate) fn node_has_error(n: &Node) -> bool {
    n.has_error()
}

/// Trusted: `Node::is_error`: whether the node is a syntax error.
#[verifier::external_body]
pub(crate) fn node_is_error(n: &Node) -> bool {
    n.is_error()
}

/// Trusted: `Node::descendant_count`: how many nodes the subtree holds,
/// the node itself included.
#[verifier::external_body]
pub(crate) fn node_descendant_count(n: &Node) -> usize {
    n.descendant_count()
}

/// Trusted: `Node::range`, field for field.
#[verifier::external_body]
pub(crate) fn node_range(n: &Node) -> TsRange {
    let r = n.range();
    TsRange {
        start_byte: r.start_byte,
        end_byte: r.end_byte,
        start_point: Point { row: r.start_point.row, column: r.start_point.column },
        end_point: Point { row: r.end_point.row, column: r.end_point.column },
    }
}

/// A pre-order walk over the nodes of a syntax tree.
pub struct TreeIterator<'a> {
    cursor: TreeCursor<'a>,
    was_initialized: bool,
}

impl<'a> TreeIterator<'a> {
    pub closed spec fn started(self) -> bool {
        self.was_initialized
    }

    pub fn new(cursor: TreeCursor<'a>) -> (it: Self)
        ensures
            !it.started(),
    {
        TreeIterator { cursor, was_initialized: false }
    }

    /// The next node in pre-order: first the node the cursor starts on,
    /// then a first child, else the next sibling of the nearest ancestor
    /// that has one.
    pub fn next(&mut self) -> (r: Option<Node<'a>>)
        ensures
            final(self).started(),
            !old(self).started() ==> r is Some,
    {
        if self.was_initialized {
            if cursor_goto_first_child(&mut self.cursor) {
                return Some(cursor_node(&self.cursor));
            }
            // At depth 0 the cursor is on the node it was made on, which has
            // no parent to go back to.
            let mut depth = cursor_depth(&self.cursor);
            loop
                invariant
                    self.was_initialized,
                    old(self).was_initialized,
                decreases depth,
            {
                if cursor_goto_next_sibling(&mut self.cursor) {
                    break;
                }
                if depth == 0 || !cursor_goto_parent(&mut self.cursor) {
                    return None;
                }
                depth = depth - 1;
            }
            Some(cursor_node(&self.cursor))
        } else {
            self.was_initialized = true;
            Some(cursor_node(&self.cursor))
        }
    }
}

} // verus!
