//! Navigation over syntax trees of a baseline procedural language and of its
//! extended superset: parsing into an arena of nodes, preorder search for a
//! node kind, reading the text bound to a field, and compiling tree patterns.

pub mod grammar;
pub mod parse;
pub mod query;
pub mod search;
pub mod tree;

pub use parse::parse;
pub use query::{ts_query, CompiledQuery, PatternError, PatternErrorKind};
pub use search::{find_node_by_field_and_get_content, find_node_by_type};
pub use tree::{Dialect, SyntaxNode, SyntaxTree};
