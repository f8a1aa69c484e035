use impact_scanner::language::{get_language_for_file, Languages, RustLanguage, UnknownLanguage};
use impact_scanner::pascal_case;
use impact_scanner::symbol::{extract_changed_symbols, walk_tree, Symbol};
use impact_scanner::symbol_kind::SymbolKind;
use impact_scanner::tree::SyntaxNode;

fn node(kind: &str, field: Option<&str>, text: &str, start: usize, end: usize, children: Vec<SyntaxNode>) -> SyntaxNode {
    SyntaxNode {
        kind: kind.to_string(),
        named: true,
        text: text.to_string(),
        start_row: start,
        end_row: end,
        field: field.map(|f| f.to_string()),
        children,
    }
}

fn function_item(name: &str, start: usize, end: usize, body_children: Vec<SyntaxNode>) -> SyntaxNode {
    let mut children = vec![node("identifier", Some("name"), name, start, start, vec![])];
    children.extend(body_children);
    node("function_item", None, "fn", start, end, children)
}

fn rust_lang() -> Languages {
    get_language_for_file("src/probe.rs")
}

#[test]
fn changed_line_inside_span_extracts() {
    // The function spans rows 9..19, i.e. 1-based lines 10..20.
    let root = node("source_file", None, "", 0, 30, vec![function_item("f", 9, 19, vec![])]);
    let lang = rust_lang();
    let file = "src/foo.rs".to_string();
    for line in [10usize, 15, 20] {
        let symbols = extract_changed_symbols(&root, &file, &vec![line], &lang);
        assert_eq!(symbols.len(), 1, "line {} must extract", line);
        assert_eq!(symbols[0].name(), "f".to_string());
        assert_eq!(symbols[0].line, 10);
        assert_eq!(symbols[0].file, file);
        assert_eq!(symbols[0].kind, SymbolKind::Function);
        assert_eq!(
            symbols[0].scope,
            vec!["crate".to_string(), "foo".to_string(), "f".to_string()]
        );
    }
}

#[test]
fn changed_line_outside_span_extracts_nothing() {
    let root = node("source_file", None, "", 0, 30, vec![function_item("f", 9, 19, vec![])]);
    let lang = rust_lang();
    let file = "src/foo.rs".to_string();
    for line in [9usize, 21] {
        let symbols = extract_changed_symbols(&root, &file, &vec![line], &lang);
        assert!(symbols.is_empty(), "line {} must not extract", line);
    }
}

#[test]
fn nested_callable_is_not_extracted_separately() {
    // A callable nested inside a callable body: the outer is a leaf of the
    // walk, so only one symbol comes out even though both spans hold the
    // changed line.
    let inner = function_item("inner", 12, 14, vec![]);
    let outer = function_item("outer", 10, 18, vec![inner]);
    let root = node("source_file", None, "", 0, 30, vec![outer]);
    let lang = rust_lang();
    let file = "src/foo.rs".to_string();
    let symbols = extract_changed_symbols(&root, &file, &vec![13], &lang);
    assert_eq!(symbols.len(), 1);
    assert_eq!(symbols[0].name(), "outer".to_string());
}

#[test]
fn scope_stack_is_restored_after_walk() {
    let inner = function_item("inner", 12, 14, vec![]);
    let outer = function_item("outer", 10, 18, vec![inner]);
    let m = node(
        "mod_item",
        None,
        "mod m",
        0,
        20,
        vec![node("identifier", Some("name"), "m", 0, 0, vec![]), outer],
    );
    let root = node("source_file", None, "", 0, 30, vec![m]);
    let lang = rust_lang();
    let file = "src/foo.rs".to_string();
    let mut stack = vec!["crate".to_string(), "foo".to_string()];
    let before = stack.clone();
    let mut symbols: Vec<Symbol> = Vec::new();
    walk_tree(&root, &file, &vec![13], &lang, &mut stack, &mut symbols);
    assert_eq!(stack, before);
    assert_eq!(symbols.len(), 1);
    assert_eq!(
        symbols[0].scope,
        vec![
            "crate".to_string(),
            "foo".to_string(),
            "m".to_string(),
            "outer".to_string()
        ]
    );
}

#[test]
fn exported_marker_follows_visibility_modifier() {
    let mut children = vec![
        node("visibility_modifier", None, "pub", 5, 5, vec![]),
        node("identifier", Some("name"), "f", 5, 5, vec![]),
    ];
    children.push(node("block", None, "{}", 5, 6, vec![]));
    let f = node("function_item", None, "pub fn", 5, 6, children);
    let root = node("source_file", None, "", 0, 10, vec![f]);
    let lang = rust_lang();
    let file = "src/x.rs".to_string();
    let symbols = extract_changed_symbols(&root, &file, &vec![6], &lang);
    assert_eq!(symbols.len(), 1);
    assert!(symbols[0].is_exported);
}

#[test]
fn scope_from_path_strips_roots_and_index_names() {
    let rust = RustLanguage {};
    assert_eq!(
        rust.scope_from_path("src/foo/bar.rs"),
        vec!["crate".to_string(), "foo".to_string(), "bar".to_string()]
    );
    assert_eq!(rust.scope_from_path("src/lib.rs"), vec!["crate".to_string()]);
    assert_eq!(rust.scope_from_path("src/main.rs"), vec!["crate".to_string()]);
    assert_eq!(
        rust.scope_from_path("a/mod.rs"),
        vec!["crate".to_string(), "a".to_string()]
    );
    assert_eq!(
        rust.scope_from_path("./src/tests/x.rs"),
        vec!["crate".to_string(), "x".to_string()]
    );
    assert_eq!(
        rust.scope_from_path("a.rs"),
        vec!["crate".to_string(), "a".to_string()]
    );
}

#[test]
fn unknown_language_answers_empty() {
    let unknown = UnknownLanguage {};
    assert_eq!(unknown.scope_from_path("src/foo/bar.rs"), Vec::<String>::new());
    let n = node("function_item", None, "fn", 0, 0, vec![]);
    assert!(unknown.get_scope_name_for_node(&n).is_none());
    assert!(unknown.get_name_node_of_symbol(&n).is_none());
    assert!(!unknown.is_exported(&n));
}

#[test]
fn language_is_decided_by_extension() {
    assert_eq!(get_language_for_file("x/y/z.rs"), Languages::Rust(RustLanguage {}));
    assert_eq!(
        get_language_for_file("x/y/z.txt"),
        Languages::Unknown(UnknownLanguage {})
    );
    assert_eq!(get_language_for_file("noext"), Languages::Unknown(UnknownLanguage {}));
    assert_eq!(get_language_for_file(".rs"), Languages::Unknown(UnknownLanguage {}));
}

#[test]
fn pascal_case_uppercases_first_character() {
    assert_eq!(pascal_case("hello"), "Hello".to_string());
    assert_eq!(pascal_case("a"), "A".to_string());
    assert_eq!(pascal_case(""), "".to_string());
    assert_eq!(pascal_case("Already"), "Already".to_string());
}

#[test]
fn symbol_kind_enumerates_its_variants() {
    assert_eq!(SymbolKind::iter(), vec![SymbolKind::Function]);
}

#[test]
fn symbol_name_falls_back_to_last_scope_segment() {
    let s = Symbol {
        naming: None,
        line: 1,
        file: "f.rs".to_string(),
        kind: SymbolKind::Function,
        is_exported: false,
        scope: vec!["crate".to_string(), "x".to_string()],
    };
    assert_eq!(s.name(), "x".to_string());
    let t = Symbol {
        naming: Some("alias".to_string()),
        line: 1,
        file: "f.rs".to_string(),
        kind: SymbolKind::Function,
        is_exported: false,
        scope: vec!["crate".to_string(), "x".to_string()],
    };
    assert_eq!(t.name(), "alias".to_string());
}
