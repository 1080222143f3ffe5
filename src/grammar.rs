use vstd::prelude::*;
use tree_sitter::{Node, Parser, Tree, TreeCursor};

verus! {

#[verifier::external_type_specification]
#[verifier::external_body]
pub struct ExTree(tree_sitter::Tree);

#[verifier::external_type_specification]
#[verifier::external_body]
pub struct ExNode<'a>(tree_sitter::Node<'a>);

#[verifier::external_type_specification]
#[verifier::external_body]
pub struct ExTreeCursor<'a>(tree_sitter::TreeCursor<'a>);

#[verifier::external_type_specification]
#[verifier::external_body]
pub struct ExQuery(tree_sitter::Query);

#[verifier::external_type_specification]
pub struct ExQueryErrorKind(tree_sitter::QueryErrorKind);

#[verifier::external_type_specification]
pub struct ExQueryError(tree_sitter::QueryError);

/// Whether tree-sitter compiles `pattern` against the baseline grammar
/// (`extended` false) or the extended grammar (`extended` true).
pub uninterp spec fn query_compiles(pattern: Seq<char>, extended: bool) -> bool;

/// The kind of error tree-sitter reports for a pattern it does not compile.
pub uninterp spec fn query_error_kind(
    pattern: Seq<char>,
    extended: bool,
) -> tree_sitter::QueryErrorKind;

/// The diagnostic tree-sitter reports for a pattern it does not compile.
pub uninterp spec fn query_error_message(pattern: Seq<char>, extended: bool) -> Seq<char>;

/// A pattern that ends in a space. tree-sitter reads the name at an error
/// offset up to the next character that cannot continue a name, and fails
/// where the name runs to the very end of the pattern.
pub open spec fn ends_in_space(pattern: Seq<char>) -> bool {
    pattern.len() > 0 && pattern.last() == ' '
}

/// The number of matches tree-sitter finds for `pattern`, compiled with the
/// baseline grammar (`extended` false) or the extended grammar (`extended`
/// true), in its parse of `source` with the same grammar.
pub uninterp spec fn query_match_count(pattern: Seq<char>, extended: bool, source: Seq<char>) -> nat;

/// Relies on tree_sitter::Query::new with tree_sitter_c::language: compiles
/// a pattern against the baseline grammar, or reports the error's kind and
/// diagnostic; the outcome depends on the pattern alone.
#[verifier::external_body]
pub(crate) fn baseline_query(pattern: &str) -> (r: Result<
    tree_sitter::Query,
    tree_sitter::QueryError,
>)
    requires
        ends_in_space(pattern@),
    ensures
        r is Ok <==> query_compiles(pattern@, false),
        r matches Err(e) ==> e.kind == query_error_kind(pattern@, false) && e.message@
            == query_error_message(pattern@, false),
{
    tree_sitter::Query::new(tree_sitter_c::language(), pattern)
}

/// Relies on tree_sitter::Query::new with tree_sitter_cpp::language: compiles
/// a pattern against the extended grammar, or reports the error's kind and
/// diagnostic; the outcome depends on the pattern alone.
#[verifier::external_body]
pub(crate) fn extended_query(pattern: &str) -> (r: Result<
    tree_sitter::Query,
    tree_sitter::QueryError,
>)
    requires
        ends_in_space(pattern@),
    ensures
        r is Ok <==> query_compiles(pattern@, true),
        r matches Err(e) ==> e.kind == query_error_kind(pattern@, true) && e.message@
            == query_error_message(pattern@, true),
{
    tree_sitter::Query::new(tree_sitter_cpp::language(), pattern)
}




/// Whether tree-sitter's parse of `source` with the baseline grammar
/// (`extended` false) or the extended grammar (`extended` true) holds an
/// error or a missing node.
pub uninterp spec fn parse_has_error(source: Seq<char>, extended: bool) -> bool;

/// Relies on tree_sitter::Parser::new, Parser::set_language with
/// tree_sitter_c::language, Parser::parse and Node::has_error on the root:
/// the baseline grammar is of a version the parser accepts, a parser with a
/// grammar, no timeout and no cancellation flag always yields a tree, and
/// whether that tree holds errors depends on the text alone.
#[verifier::external_body]
pub(crate) fn parse_baseline(source: &str) -> (r: (Tree, bool))
    ensures
        r.1 == parse_has_error(source@, false),
{
    let mut parser = Parser::new();
    parser.set_language(tree_sitter_c::language()).unwrap();
    let tree = parser.parse(source, None).unwrap();
    let has_error = tree.root_node().has_error();
    (tree, has_error)
}

/// Relies on the same calls as `parse_baseline`, with
/// tree_sitter_cpp::language.
#[verifier::external_body]
pub(crate) fn parse_extended(source: &str) -> (r: (Tree, bool))
    ensures
        r.1 == parse_has_error(source@, true),
{
    let mut parser = Parser::new();
    parser.set_language(tree_sitter_cpp::language()).unwrap();
    let tree = parser.parse(source, None).unwrap();
    let has_error = tree.root_node().has_error();
    (tree, has_error)
}

/// Relies on tree_sitter::Tree::walk: a cursor placed at the root.
#[verifier::external_body]
pub(crate) fn tree_cursor<'a>(t: &'a Tree) -> (r: TreeCursor<'a>) {
    t.walk()
}

/// Relies on tree_sitter::TreeCursor::node: the node under the cursor.
#[verifier::external_body]
pub(crate) fn cursor_node<'a>(c: &TreeCursor<'a>) -> (r: Node<'a>) {
    c.node()
}

/// Relies on tree_sitter::TreeCursor::field_name: the field that binds the
/// node under the cursor to its parent.
#[verifier::external_body]
pub(crate) fn cursor_field_name(c: &TreeCursor) -> (r: Option<String>) {
    c.field_name().map(|f| f.to_string())
}

/// Relies on tree_sitter::TreeCursor::goto_first_child.
#[verifier::external_body]
pub(crate) fn cursor_first_child(c: &mut TreeCursor) -> (r: bool) {
    c.goto_first_child()
}

/// Relies on tree_sitter::TreeCursor::goto_next_sibling.
#[verifier::external_body]
pub(crate) fn cursor_next_sibling(c: &mut TreeCursor) -> (r: bool) {
    c.goto_next_sibling()
}

/// Relies on tree_sitter::TreeCursor::goto_parent.
#[verifier::external_body]
pub(crate) fn cursor_parent(c: &mut TreeCursor) -> (r: bool) {
    c.goto_parent()
}

/// Relies on tree_sitter::Node::kind: the node's kind label.
#[verifier::external_body]
pub(crate) fn node_kind(n: &Node) -> (r: String) {
    n.kind().to_string()
}

/// Relies on tree_sitter::Node::start_byte.
#[verifier::external_body]
pub(crate) fn node_start_byte(n: &Node) -> (r: usize) {
    n.start_byte()
}

/// Relies on tree_sitter::Node::end_byte.
#[verifier::external_body]
pub(crate) fn node_end_byte(n: &Node) -> (r: usize) {
    n.end_byte()
}


} // verus!
