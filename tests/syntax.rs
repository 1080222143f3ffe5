use csyntax::parse::parse;
use csyntax::query::{ts_query, CompiledQuery, PatternErrorKind};
use csyntax::search::{find_node_by_field_and_get_content, find_node_by_type, source_slice, Cursor};
use csyntax::tree::{Dialect, SyntaxTree};

fn text<'a>(tree: &SyntaxTree, node: usize, code: &'a str) -> &'a str {
    let n = &tree.nodes[node];
    &code[n.start_byte..n.end_byte]
}

fn kinds(tree: &SyntaxTree) -> Vec<String> {
    tree.nodes.iter().map(|n| n.kind.clone()).collect()
}

#[test]
fn parse_root_spans_whole_source() {
    for code in ["int f(){int x;}", "  int y;  \n", "", "}}}{{(", "class A { int b; };"] {
        for cpp in [false, true] {
            let tree = parse(code, cpp);
            assert_eq!(tree.nodes[0].start_byte, 0);
            assert_eq!(tree.nodes[0].end_byte, code.len());
            assert_eq!(tree.nodes[0].subtree_end, tree.nodes.len());
            assert_eq!(tree.source_len, code.len());
            assert_eq!(tree.source(), code);
        }
    }
}

#[test]
fn parse_sets_dialect() {
    assert_eq!(parse("int a;", false).dialect(), Dialect::Baseline);
    assert_eq!(parse("int a;", true).dialect(), Dialect::Extended);
}

#[test]
fn parse_empty_source() {
    let tree = parse("", false);
    assert_eq!(tree.nodes[0].kind, "translation_unit");
    assert_eq!(tree.nodes[0].end_byte, 0);
}

#[test]
fn malformed_source_yields_error_nodes() {
    let code = "int f( { ;";
    let tree = parse(code, false);
    assert!(tree.has_error);
    assert_eq!(tree.nodes[0].end_byte, code.len());
    let found = find_node_by_type(&tree, 0, "ERROR");
    assert!(found.is_some());
}

#[test]
fn well_formed_source_has_no_error() {
    let tree = parse("int f(){int x;}", false);
    assert!(!tree.has_error);
}

#[test]
fn extended_kinds_absent_from_baseline_tree() {
    let code = "class A { int b; };";
    let baseline = parse(code, false);
    let extended = parse(code, true);
    assert!(!kinds(&baseline).iter().any(|k| k == "class_specifier"));
    assert!(kinds(&extended).iter().any(|k| k == "class_specifier"));
    assert_eq!(find_node_by_type(&baseline, 0, "class_specifier"), None);
    assert!(find_node_by_type(&extended, 0, "class_specifier").is_some());
}

#[test]
fn find_returns_leftmost_in_preorder() {
    let code = "int f(){int x;}";
    let tree = parse(code, false);
    let id = find_node_by_type(&tree, 0, "identifier").unwrap();
    assert_eq!(text(&tree, id, code), "f");
    assert_eq!(tree.nodes[id].start_byte, 4);
    assert_eq!(tree.nodes[id].end_byte, 5);
}

#[test]
fn find_visits_parent_before_children() {
    let code = "int f(){int x;}";
    let tree = parse(code, false);
    assert_eq!(find_node_by_type(&tree, 0, "translation_unit"), Some(0));
    let def = find_node_by_type(&tree, 0, "function_definition").unwrap();
    assert_eq!(text(&tree, def, code), code);
}

#[test]
fn find_absent_kind_terminates() {
    let tree = parse("int f(){int x;}", false);
    assert_eq!(find_node_by_type(&tree, 0, "while_statement"), None);
    let empty = parse("", false);
    assert_eq!(find_node_by_type(&empty, 0, "identifier"), None);
}

#[test]
fn find_stays_inside_subtree() {
    let code = "int f(){int x;} int g(){int y;}";
    let tree = parse(code, false);
    let body = find_node_by_type(&tree, 0, "compound_statement").unwrap();
    let id = find_node_by_type(&tree, body, "identifier").unwrap();
    assert_eq!(text(&tree, id, code), "x");
    let leaf = id;
    assert_eq!(find_node_by_type(&tree, leaf, "function_definition"), None);
    let second_def = tree.nodes[0..]
        .iter()
        .enumerate()
        .filter(|(_, n)| n.kind == "function_definition")
        .map(|(i, _)| i)
        .nth(1)
        .unwrap();
    let y = find_node_by_type(&tree, second_def, "identifier").unwrap();
    assert_eq!(text(&tree, y, code), "g");
}

#[test]
fn extract_call_function_field() {
    let code = "f(a,b)";
    let tree = parse(code, false);
    let call = find_node_by_type(&tree, 0, "call_expression").unwrap();
    assert_eq!(find_node_by_field_and_get_content(&tree, call, "function", code), "f");
    assert_eq!(find_node_by_field_and_get_content(&tree, call, "arguments", code), "(a,b)");
}

#[test]
fn extract_missing_field_is_empty() {
    let code = "f(a,b)";
    let tree = parse(code, false);
    let id = find_node_by_type(&tree, 0, "identifier").unwrap();
    assert_eq!(find_node_by_field_and_get_content(&tree, id, "arguments", code), "");
    assert_eq!(find_node_by_field_and_get_content(&tree, 0, "arguments", code), "");
}

#[test]
fn extract_declarator_and_type() {
    let code = "int f(){int x;}";
    let tree = parse(code, false);
    let def = find_node_by_type(&tree, 0, "function_definition").unwrap();
    assert_eq!(find_node_by_field_and_get_content(&tree, def, "type", code), "int");
    assert_eq!(find_node_by_field_and_get_content(&tree, def, "declarator", code), "f()");
    assert_eq!(find_node_by_field_and_get_content(&tree, def, "body", code), "{int x;}");
}

#[test]
fn navigation_links() {
    let code = "int f(){int x;}";
    let tree = parse(code, false);
    let def = find_node_by_type(&tree, 0, "function_definition").unwrap();
    assert_eq!(tree.parent(def), Some(0));
    assert_eq!(tree.parent(0), None);
    let first = tree.first_child(def).unwrap();
    assert_eq!(text(&tree, first, code), "int");
    let second = tree.next_sibling(first).unwrap();
    assert_eq!(text(&tree, second, code), "f()");
    let third = tree.next_sibling(second).unwrap();
    assert_eq!(text(&tree, third, code), "{int x;}");
    assert_eq!(tree.next_sibling(third), None);
    assert_eq!(tree.node_count(), tree.nodes.len());
    assert_eq!(tree.root(), 0);
}

#[test]
fn slice_by_bytes() {
    assert_eq!(source_slice("f(a,b)", 0, 1), Some("f".to_string()));
    assert_eq!(source_slice("f(a,b)", 1, 6), Some("(a,b)".to_string()));
    assert_eq!(source_slice("f(a,b)", 2, 2), Some(String::new()));
    assert_eq!(source_slice("f(a,b)", 3, 2), None);
    assert_eq!(source_slice("f(a,b)", 0, 7), None);
    assert_eq!(source_slice("é=1", 0, 2), Some("é".to_string()));
    assert_eq!(source_slice("é=1", 1, 3), None);
}

#[test]
fn compile_valid_pattern_and_match() {
    let q = CompiledQuery::compile(
        "(function_definition declarator: (function_declarator declarator: (identifier) @name))",
        Dialect::Baseline,
    )
    .ok()
    .unwrap();
    assert_eq!(q.dialect(), Dialect::Baseline);
    assert_eq!(q.pattern(), "(function_definition declarator: (function_declarator declarator: (identifier) @name))");
    let code = "int f(){int x;} int g(){return 0;}";
    let tree = parse(code, false);
    assert_eq!(q.match_count(&tree), Ok(2));
    let ids = CompiledQuery::compile("(identifier) @id", Dialect::Baseline).ok().unwrap();
    assert_eq!(ids.match_count(&tree), Ok(3));
}

#[test]
fn compile_undefined_kind_is_reported() {
    let pattern = "(no_such_node_kind) @x";
    let e = CompiledQuery::compile(pattern, Dialect::Baseline).err().unwrap();
    assert_eq!(e.kind, PatternErrorKind::NodeType);
    assert_eq!(e.pattern, pattern);
    assert!(!e.message.is_empty());
}

#[test]
fn compile_undefined_field_is_reported() {
    let pattern = "(call_expression nonexistent_field: (identifier))";
    let e = CompiledQuery::compile(pattern, Dialect::Baseline).err().unwrap();
    assert_eq!(e.kind, PatternErrorKind::Field);
    assert_eq!(e.pattern, pattern);
}

#[test]
fn compile_syntax_error_is_reported() {
    let e = CompiledQuery::compile("(identifier", Dialect::Extended).err().unwrap();
    assert_eq!(e.kind, PatternErrorKind::Syntax);
}

#[test]
fn compile_is_dialect_specific() {
    let pattern = "(class_specifier name: (type_identifier) @name)";
    assert!(CompiledQuery::compile(pattern, Dialect::Extended).is_ok());
    let e = CompiledQuery::compile(pattern, Dialect::Baseline).err().unwrap();
    assert_eq!(e.kind, PatternErrorKind::NodeType);
}

#[test]
fn ts_query_uses_flag() {
    assert_eq!(ts_query("(identifier) @id", false).ok().unwrap().dialect(), Dialect::Baseline);
    assert_eq!(ts_query("(identifier) @id", true).ok().unwrap().dialect(), Dialect::Extended);
}

#[test]
fn cross_dialect_query_refused() {
    let code = "int f(){int x;}";
    let baseline_tree = parse(code, false);
    let extended_tree = parse(code, true);
    let bq = ts_query("(identifier) @id", false).ok().unwrap();
    let eq = ts_query("(identifier) @id", true).ok().unwrap();
    assert!(bq.check_tree(&baseline_tree).is_ok());
    assert!(eq.check_tree(&extended_tree).is_ok());
    let m = bq.check_tree(&extended_tree).err().unwrap();
    assert_eq!(m.query, Dialect::Baseline);
    assert_eq!(m.tree, Dialect::Extended);
    assert!(eq.check_tree(&baseline_tree).is_err());
    assert!(bq.match_count(&extended_tree).is_err());
    assert!(eq.match_count(&baseline_tree).is_err());
}

#[test]
fn cursor_moves_stay_in_subtree() {
    let code = "int f(){int x;} int g(){int y;}";
    let tree = parse(code, false);
    let def = find_node_by_type(&tree, 0, "function_definition").unwrap();
    let mut cursor = Cursor::new(&tree, def);
    assert!(!cursor.goto_next_sibling(&tree));
    assert!(!cursor.goto_parent(&tree));
    assert_eq!(cursor.current, def);
    assert!(cursor.goto_first_child(&tree));
    assert_eq!(text(&tree, cursor.current, code), "int");
    assert!(cursor.goto_next_sibling(&tree));
    assert_eq!(text(&tree, cursor.current, code), "f()");
    assert!(cursor.goto_parent(&tree));
    assert_eq!(cursor.current, def);
}

#[test]
fn cursor_next_subtree_ends_at_root() {
    let code = "int f(){int x;} int g(){int y;}";
    let tree = parse(code, false);
    let body = find_node_by_type(&tree, 0, "compound_statement").unwrap();
    let mut cursor = Cursor::new(&tree, body);
    assert!(cursor.goto_first_child(&tree));
    assert_eq!(text(&tree, cursor.current, code), "{");
    assert!(cursor.goto_next_subtree(&tree));
    assert_eq!(text(&tree, cursor.current, code), "int x;");
    assert!(cursor.goto_next_subtree(&tree));
    assert_eq!(text(&tree, cursor.current, code), "}");
    assert!(!cursor.goto_next_subtree(&tree));
    assert_eq!(cursor.current, body);
    let mut whole = Cursor::new(&tree, 0);
    assert!(whole.goto_first_child(&tree));
    assert!(whole.goto_next_subtree(&tree));
    assert_eq!(text(&tree, whole.current, code), "int g(){int y;}");
}

#[test]
fn compile_unknown_name_at_end_of_pattern() {
    let e = CompiledQuery::compile("(foo", Dialect::Baseline).err().unwrap();
    assert_eq!(e.kind, PatternErrorKind::NodeType);
    assert_eq!(e.message, "foo");
    assert_eq!(e.pattern, "(foo");
    let f = CompiledQuery::compile("(call_expression nosuch", Dialect::Extended).err().unwrap();
    assert_eq!(f.pattern, "(call_expression nosuch");
}

#[test]
fn compile_extended_only_kind_for_baseline() {
    let e = ts_query("(class_specifier) @c", false).err().unwrap();
    assert_eq!(e.kind, PatternErrorKind::NodeType);
    assert_eq!(e.message, "class_specifier");
    assert!(ts_query("(class_specifier) @c", true).is_ok());
}

#[test]
fn compile_twice_same_outcome() {
    for pattern in ["(identifier) @id", "(no_such_kind_xyz) @x", "((identifier)"] {
        for cpp in [false, true] {
            let a = ts_query(pattern, cpp);
            let b = ts_query(pattern, cpp);
            assert_eq!(a.is_ok(), b.is_ok());
            if let (Err(x), Err(y)) = (a, b) {
                assert_eq!(x.kind, y.kind);
                assert_eq!(x.message, y.message);
            }
        }
    }
}

#[test]
fn parse_twice_same_tree() {
    let code = "int f(){int x;} )(}{";
    let a = parse(code, false);
    let b = parse(code, false);
    assert_eq!(a.nodes.len(), b.nodes.len());
    for (x, y) in a.nodes.iter().zip(b.nodes.iter()) {
        assert_eq!(x.kind, y.kind);
        assert_eq!(x.field, y.field);
        assert_eq!((x.start_byte, x.end_byte), (y.start_byte, y.end_byte));
        assert_eq!(x.parent, y.parent);
    }
    assert_eq!(a.has_error, b.has_error);
}

#[test]
fn match_text_predicate_uses_tree_source() {
    let code = "int f(){int x;}";
    let tree = parse(code, false);
    let q = CompiledQuery::compile("((identifier) @id (#eq? @id \"x\"))", Dialect::Baseline)
        .ok()
        .unwrap();
    assert_eq!(q.match_count(&tree), Ok(1));
}

#[test]
fn children_lie_within_parents_and_siblings_are_ordered() {
    let code = "int f(){int x; return x;} )(}{ int g;";
    for cpp in [false, true] {
        let tree = parse(code, cpp);
        for i in 0..tree.nodes.len() {
            let n = &tree.nodes[i];
            assert!(n.start_byte <= n.end_byte && n.end_byte <= code.len());
            if let Some(p) = n.parent {
                let pn = &tree.nodes[p];
                assert!(pn.start_byte <= n.start_byte && n.end_byte <= pn.end_byte);
            }
            if let Some(s) = tree.next_sibling(i) {
                assert!(n.end_byte <= tree.nodes[s].start_byte);
            }
        }
    }
}

#[test]
fn compiled_query_exposes_captures() {
    let q = ts_query("(call_expression function: (identifier) @fn arguments: (argument_list) @args)", false)
        .ok()
        .unwrap();
    assert_eq!(q.capture_names(), vec!["fn".to_string(), "args".to_string()]);
    assert_eq!(q.compiled().capture_names().len(), 2);
    let code = "void g(){f(a,b); h();}";
    assert_eq!(q.match_count(&parse(code, false)), Ok(2));
}

#[test]
fn compile_error_reports_pattern_line() {
    let e = CompiledQuery::compile("(identifier) (", Dialect::Baseline).err().unwrap();
    assert_eq!(e.row, 0);
    let f = CompiledQuery::compile("(identifier) @id (foo", Dialect::Baseline).err().unwrap();
    assert_eq!(f.kind, PatternErrorKind::NodeType);
    assert_eq!(f.message, "foo");
    assert_eq!(f.row, 0);
    assert_eq!(f.column, 18);
}

#[test]
fn node_ranges_fall_on_char_boundaries() {
    let code = "int f(){char *s = \"é€\"; return 0;} /* ünï */";
    for cpp in [false, true] {
        let tree = parse(code, cpp);
        for n in &tree.nodes {
            assert!(code.is_char_boundary(n.start_byte) && code.is_char_boundary(n.end_byte));
        }
        let decl = find_node_by_type(&tree, 0, "init_declarator").unwrap();
        assert_eq!(find_node_by_field_and_get_content(&tree, decl, "value", code), "\"é€\"");
    }
}
