use vstd::prelude::*;
use vstd::string::StringExecFns;
use crate::grammar::{
    baseline_query, extended_query, parse_baseline, parse_extended, parse_has_error,
    query_compiles, query_error_kind, query_error_message, query_match_count,
};
use crate::tree::{Dialect, SyntaxTree};

verus! {

/// What is wrong with a pattern.
#[derive(Clone, Copy, Debug, PartialEq, Eq, Structural)]
pub enum PatternErrorKind {
    /// The pattern is not well-formed in the pattern language.
    Syntax,
    /// A node kind that the dialect does not have.
    NodeType,
    /// A field name that the dialect does not have.
    Field,
    /// A capture name that is used but not defined.
    Capture,
    /// A malformed predicate.
    Predicate,
    /// A pattern whose shape the grammar cannot produce.
    Structure,
    /// The grammar itself cannot be used.
    Language,
}

/// Why a pattern did not compile: the kind of defect, the diagnostic, where
/// it was found, and the pattern itself.
pub struct PatternError {
    pub kind: PatternErrorKind,
    pub message: String,
    pub row: usize,
    pub column: usize,
    pub offset: usize,
    pub pattern: String,
}

/// A query was offered a tree of another dialect than its own.
#[derive(Clone, Copy, Debug, PartialEq, Eq, Structural)]
pub struct DialectMismatch {
    pub query: Dialect,
    pub tree: Dialect,
}

/// A compiled pattern, tagged with the dialect it was compiled for.
pub struct CompiledQuery {
    dialect: Dialect,
    pattern: String,
    compiled: tree_sitter::Query,
}

/// The text handed to the pattern compiler: the pattern with a space
/// appended, which leaves its meaning unchanged.
pub open spec fn compiled_text(pattern: Seq<char>) -> Seq<char> {
    pattern.push(' ')
}

/// The dialect and text a tree was parsed from, with the parser's own tree
/// of that text. Only `Origin::parse` makes one, so the tree is always the
/// parse of the text with the dialect's grammar.
pub struct Origin {
    dialect: Dialect,
    source: String,
    parsed: tree_sitter::Tree,
}

impl Origin {
    pub closed spec fn spec_dialect(&self) -> Dialect {
        self.dialect
    }

    pub closed spec fn spec_source(&self) -> Seq<char> {
        self.source@
    }

    /// Parses `source` with the grammar of `dialect`; also says whether the
    /// parse holds errors.
    pub(crate) fn parse(source: &str, dialect: Dialect) -> (r: (Origin, bool))
        ensures
            r.0.spec_dialect() == dialect,
            r.0.spec_source() == source@,
            r.1 == parse_has_error(source@, dialect == Dialect::Extended),
    {
        let (parsed, has_error) = match dialect {
            Dialect::Baseline => parse_baseline(source),
            Dialect::Extended => parse_extended(source),
        };
        (Origin { dialect, source: source.to_owned(), parsed }, has_error)
    }

    /// The dialect the text was parsed with.
    pub fn dialect(&self) -> (r: Dialect)
        ensures
            r == self.spec_dialect(),
    {
        self.dialect
    }

    /// The parsed text.
    pub fn source(&self) -> (r: &str)
        ensures
            r@ == self.spec_source(),
    {
        self.source.as_str()
    }

    /// The parser's own tree of the text.
    pub fn tree(&self) -> (r: &tree_sitter::Tree) {
        &self.parsed
    }
}

/// Relies on tree_sitter::QueryCursor::new, Tree::root_node and
/// QueryCursor::matches: the number of matches of the query in the parsed
/// tree, reading node text from the text that tree was parsed from. The
/// query was compiled from `compiled_text` of its pattern and the tree parsed
/// from its text, each with the grammar of the shared dialect, so the count
/// depends on the pattern, the dialect and the text alone.
#[verifier::external_body]
fn count_matches(query: &CompiledQuery, origin: &Origin) -> (r: usize)
    requires
        query.dialect == origin.dialect,
    ensures
        r == query_match_count(
            compiled_text(query.pattern@),
            query.dialect == Dialect::Extended,
            origin.source@,
        ),
{
    let mut cursor = tree_sitter::QueryCursor::new();
    cursor.matches(&query.compiled, origin.parsed.root_node(), origin.source.as_bytes()).count()
}

impl PatternError {
    /// The library's account of a compile error for `pattern`.
    pub fn from_compile_error(e: tree_sitter::QueryError, pattern: &str) -> (r: PatternError)
        ensures
            r.pattern@ == pattern@,
            r.message@ == e.message@,
            r.row == e.row,
            r.column == e.column,
            r.offset == e.offset,
            r.kind == kind_of(e.kind),
    {
        let kind = match e.kind {
            tree_sitter::QueryErrorKind::Syntax => PatternErrorKind::Syntax,
            tree_sitter::QueryErrorKind::NodeType => PatternErrorKind::NodeType,
            tree_sitter::QueryErrorKind::Field => PatternErrorKind::Field,
            tree_sitter::QueryErrorKind::Capture => PatternErrorKind::Capture,
            tree_sitter::QueryErrorKind::Predicate => PatternErrorKind::Predicate,
            tree_sitter::QueryErrorKind::Structure => PatternErrorKind::Structure,
            tree_sitter::QueryErrorKind::Language => PatternErrorKind::Language,
        };
        PatternError {
            kind,
            message: e.message,
            row: e.row,
            column: e.column,
            offset: e.offset,
            pattern: pattern.to_owned(),
        }
    }
}

pub open spec fn kind_of(k: tree_sitter::QueryErrorKind) -> PatternErrorKind {
    match k {
        tree_sitter::QueryErrorKind::Syntax => PatternErrorKind::Syntax,
        tree_sitter::QueryErrorKind::NodeType => PatternErrorKind::NodeType,
        tree_sitter::QueryErrorKind::Field => PatternErrorKind::Field,
        tree_sitter::QueryErrorKind::Capture => PatternErrorKind::Capture,
        tree_sitter::QueryErrorKind::Predicate => PatternErrorKind::Predicate,
        tree_sitter::QueryErrorKind::Structure => PatternErrorKind::Structure,
        tree_sitter::QueryErrorKind::Language => PatternErrorKind::Language,
    }
}

impl CompiledQuery {
    pub closed spec fn spec_dialect(&self) -> Dialect {
        self.dialect
    }

    pub closed spec fn spec_pattern(&self) -> Seq<char> {
        self.pattern@
    }

    /// The dialect this query was compiled for.
    pub fn dialect(&self) -> (r: Dialect)
        ensures
            r == self.spec_dialect(),
    {
        self.dialect
    }

    /// The pattern this query was compiled from.
    pub fn pattern(&self) -> (r: &str)
        ensures
            r@ == self.spec_pattern(),
    {
        self.pattern.as_str()
    }

    /// Compiles `pattern` for `dialect`. A pattern that is malformed, or that
    /// names a node kind or field the dialect lacks, is reported as an error
    /// carrying the compiler's kind and diagnostic and the pattern; what to do
    /// with it is the caller's decision.
    pub fn compile(pattern: &str, dialect: Dialect) -> (r: Result<CompiledQuery, PatternError>)
        ensures
            r is Ok <==> query_compiles(compiled_text(pattern@), dialect == Dialect::Extended),
            r matches Ok(q) ==> q.spec_dialect() == dialect && q.spec_pattern() == pattern@,
            r matches Err(e) ==> {
                &&& e.pattern@ == pattern@
                &&& e.kind == kind_of(
                    query_error_kind(compiled_text(pattern@), dialect == Dialect::Extended),
                )
                &&& e.message@ == query_error_message(
                    compiled_text(pattern@),
                    dialect == Dialect::Extended,
                )
            },
    {
        let mut text = pattern.to_owned();
        text.append(" ");
        proof {
            reveal_strlit(" ");
            assert(text@ =~= compiled_text(pattern@));
        }
        let outcome = match dialect {
            Dialect::Baseline => baseline_query(text.as_str()),
            Dialect::Extended => extended_query(text.as_str()),
        };
        match outcome {
            Ok(compiled) => Ok(CompiledQuery { dialect, pattern: pattern.to_owned(), compiled }),
            Err(e) => Err(PatternError::from_compile_error(e, pattern)),
        }
    }

    /// Whether this query may be matched against `tree`: only a tree of the
    /// dialect the query was compiled for is accepted.
    pub fn check_tree(&self, tree: &SyntaxTree) -> (r: Result<(), DialectMismatch>)
        ensures
            r is Ok <==> self.spec_dialect() == tree.spec_dialect(),
            r matches Err(m) ==> m.query == self.spec_dialect() && m.tree == tree.spec_dialect(),
    {
        if self.dialect == tree.dialect() {
            Ok(())
        } else {
            Err(DialectMismatch { query: self.dialect, tree: tree.dialect() })
        }
    }
}

impl CompiledQuery {
    /// The number of matches of this query in `tree`, read against the text
    /// the tree was parsed from. A tree of another dialect is refused.
    pub fn match_count(&self, tree: &SyntaxTree) -> (r: Result<usize, DialectMismatch>)
        ensures
            r is Err <==> self.spec_dialect() != tree.spec_dialect(),
            r matches Err(m) ==> m.query == self.spec_dialect() && m.tree == tree.spec_dialect(),
            r matches Ok(n) ==> n == query_match_count(
                compiled_text(self.spec_pattern()),
                self.spec_dialect() == Dialect::Extended,
                tree.spec_source(),
            ),
    {
        match self.check_tree(tree) {
            Err(m) => Err(m),
            Ok(()) => Ok(count_matches(self, &tree.origin)),
        }
    }

    /// The compiled tree-sitter query, for reading its captures.
    pub fn compiled(&self) -> (r: &tree_sitter::Query) {
        &self.compiled
    }

    /// The names of the query's captures, in the order of their indices.
    pub fn capture_names(&self) -> (r: Vec<String>) {
        capture_names(&self.compiled)
    }
}

/// Relies on tree_sitter::Query::capture_names: the query's capture names.
#[verifier::external_body]
fn capture_names(query: &tree_sitter::Query) -> (r: Vec<String>) {
    query.capture_names().to_vec()
}

/// A query compiled for one dialect flag is refused by every tree parsed
/// with the other flag.
pub proof fn lemma_cross_dialect_refused(
    query: &CompiledQuery,
    tree: &SyntaxTree,
    query_cpp: bool,
    tree_cpp: bool,
)
    requires
        query.spec_dialect() == Dialect::spec_from_flag(query_cpp),
        tree.spec_dialect() == Dialect::spec_from_flag(tree_cpp),
        query_cpp != tree_cpp,
    ensures
        query.spec_dialect() != tree.spec_dialect(),
{
}

/// Compiles `sexpr` for the extended dialect where `cpp` holds, else for the
/// baseline dialect.
pub fn ts_query(sexpr: &str, cpp: bool) -> (r: Result<CompiledQuery, PatternError>)
    ensures
        r is Ok <==> query_compiles(compiled_text(sexpr@), cpp),
        r matches Ok(q) ==> q.spec_dialect() == Dialect::spec_from_flag(cpp) && q.spec_pattern()
            == sexpr@,
        r matches Err(e) ==> {
            &&& e.pattern@ == sexpr@
            &&& e.kind == kind_of(query_error_kind(compiled_text(sexpr@), cpp))
            &&& e.message@ == query_error_message(compiled_text(sexpr@), cpp)
        },
{
    CompiledQuery::compile(sexpr, Dialect::from_flag(cpp))
}

} // verus!
