use impact_scanner::language::{get_language_for_file, Languages};
use impact_scanner::symbol::{extract_changed_symbols, Symbol};
use impact_scanner::symbol_kind::SymbolKind;
use impact_scanner::tree::SyntaxNode;
use impact_scanner::usage::{extract_identifiers, find_usages_in_file, Usage};

fn node_at(
    kind: &str,
    field: Option<&str>,
    text: &str,
    row: usize,
    children: Vec<SyntaxNode>,
) -> SyntaxNode {
    SyntaxNode {
        kind: kind.to_string(),
        named: true,
        text: text.to_string(),
        start_row: row,
        end_row: row,
        field: field.map(|f| f.to_string()),
        children,
    }
}

fn tok(kind: &str) -> SyntaxNode {
    SyntaxNode {
        kind: kind.to_string(),
        named: false,
        text: kind.to_string(),
        start_row: 0,
        end_row: 0,
        field: None,
        children: vec![],
    }
}

fn rust_lang() -> Languages {
    get_language_for_file("src/probe.rs")
}

fn segs(parts: &[&str]) -> Vec<String> {
    parts.iter().map(|p| p.to_string()).collect()
}

fn symbol_at(name: &str, file: &str, scope: &[&str], line: usize) -> Symbol {
    Symbol {
        naming: Some(name.to_string()),
        line,
        file: file.to_string(),
        kind: SymbolKind::Function,
        is_exported: false,
        scope: segs(scope),
    }
}

fn lines_of(usages: &[Usage]) -> Vec<usize> {
    let mut v: Vec<usize> = usages.iter().map(|u| u.line).collect();
    v.sort();
    v
}

#[test]
fn end_to_end_definition_and_usage() {
    // a.rs defines fn helper() on line 5; the changed-line set is {5}.
    let lang = rust_lang();
    let fn_item = node_at(
        "function_item",
        None,
        "fn helper",
        4,
        vec![node_at("identifier", Some("name"), "helper", 4, vec![])],
    );
    let root_a = node_at("source_file", None, "", 0, vec![fn_item]);
    let file_a = "a.rs".to_string();
    let symbols = extract_changed_symbols(&root_a, &file_a, &vec![5], &lang);
    assert_eq!(symbols.len(), 1);
    assert_eq!(symbols[0].name(), "helper".to_string());
    assert_eq!(symbols[0].line, 5);
    assert_eq!(symbols[0].scope, segs(&["crate", "a", "helper"]));

    // b.rs holds `use a::helper;` on line 1 and a call `helper()` on line 8.
    let use_arg = node_at(
        "scoped_identifier",
        Some("argument"),
        "a::helper",
        0,
        vec![
            node_at("identifier", Some("path"), "a", 0, vec![]),
            tok("::"),
            node_at("identifier", Some("name"), "helper", 0, vec![]),
        ],
    );
    let use_decl = node_at("use_declaration", None, "use", 0, vec![tok("use"), use_arg, tok(";")]);
    let call = node_at(
        "call_expression",
        None,
        "helper()",
        7,
        vec![node_at("identifier", Some("function"), "helper", 7, vec![])],
    );
    let root_b = node_at("source_file", None, "", 0, vec![use_decl, call]);
    let file_b = "b.rs".to_string();
    let mut usages: Vec<Usage> = Vec::new();
    find_usages_in_file(&root_b, &file_b, &symbols[0], &lang, &mut usages);
    assert!(usages.iter().any(|u| u.file == file_b && u.line == 8));
    // The import line itself references the symbol too.
    assert_eq!(lines_of(&usages), vec![1, 8]);
    assert!(usages.iter().all(|u| u.file == file_b));
}

#[test]
fn same_file_bare_name_matches_conservatively() {
    let lang = rust_lang();
    let target = symbol_at("bar", "f.rs", &["crate", "foo", "bar"], 2);
    // A bare reference to bar in f.rs, with no import resolution at all.
    let reference = node_at("identifier", None, "bar", 2, vec![]);
    let root = node_at("source_file", None, "", 0, vec![reference]);
    let mut usages: Vec<Usage> = Vec::new();
    find_usages_in_file(&root, &"f.rs".to_string(), &target, &lang, &mut usages);
    assert_eq!(usages.len(), 1);
    assert_eq!(usages[0].line, 3);
    assert_eq!(usages[0].file, "f.rs".to_string());
}

#[test]
fn other_file_bare_name_without_import_misses() {
    let lang = rust_lang();
    let target = symbol_at("bar", "f.rs", &["crate", "foo", "bar"], 2);
    let reference = node_at("identifier", None, "bar", 2, vec![]);
    let root = node_at("source_file", None, "", 0, vec![reference]);
    let mut usages: Vec<Usage> = Vec::new();
    find_usages_in_file(&root, &"g.rs".to_string(), &target, &lang, &mut usages);
    assert!(usages.is_empty());
}

#[test]
fn wildcard_import_never_matches() {
    let lang = rust_lang();
    // g.rs holds `use prefix::*;` and a bare reference `thing`.
    let wild = node_at(
        "use_wildcard",
        Some("argument"),
        "prefix::*",
        0,
        vec![node_at("identifier", None, "prefix", 0, vec![]), tok("::"), tok("*")],
    );
    let use_decl = node_at("use_declaration", None, "use", 0, vec![tok("use"), wild, tok(";")]);
    let reference = node_at("identifier", None, "thing", 4, vec![]);
    let root = node_at("source_file", None, "", 0, vec![use_decl, reference]);
    let target = symbol_at("thing", "prefix.rs", &["crate", "prefix", "thing"], 1);
    let mut usages: Vec<Usage> = Vec::new();
    find_usages_in_file(&root, &"g.rs".to_string(), &target, &lang, &mut usages);
    assert!(usages.is_empty());
}

#[test]
fn matching_import_resolves_bare_reference() {
    let lang = rust_lang();
    // g.rs: use crate::foo::bar; then bar on line 9.
    let inner = node_at(
        "scoped_identifier",
        Some("path"),
        "crate::foo",
        0,
        vec![
            node_at("crate", Some("path"), "crate", 0, vec![]),
            tok("::"),
            node_at("identifier", Some("name"), "foo", 0, vec![]),
        ],
    );
    let use_arg = node_at(
        "scoped_identifier",
        Some("argument"),
        "crate::foo::bar",
        0,
        vec![inner, tok("::"), node_at("identifier", Some("name"), "bar", 0, vec![])],
    );
    let use_decl = node_at("use_declaration", None, "use", 0, vec![tok("use"), use_arg, tok(";")]);
    let reference = node_at("identifier", None, "bar", 8, vec![]);
    let root = node_at("source_file", None, "", 0, vec![use_decl, reference]);
    let target = symbol_at("bar", "f.rs", &["crate", "foo", "bar"], 2);
    let mut usages: Vec<Usage> = Vec::new();
    find_usages_in_file(&root, &"g.rs".to_string(), &target, &lang, &mut usages);
    assert_eq!(lines_of(&usages), vec![1, 9]);
}

#[test]
fn duplicate_locations_collapse_to_one_usage() {
    let lang = rust_lang();
    let target = symbol_at("bar", "f.rs", &["crate", "foo", "bar"], 2);
    // Two references to the same name on the same line of f.rs.
    let r1 = node_at("identifier", None, "bar", 6, vec![]);
    let r2 = node_at("identifier", None, "bar", 6, vec![]);
    let root = node_at("source_file", None, "", 0, vec![r1, r2]);
    let mut usages: Vec<Usage> = Vec::new();
    find_usages_in_file(&root, &"f.rs".to_string(), &target, &lang, &mut usages);
    assert_eq!(usages.len(), 1);
    assert_eq!(usages[0].line, 7);
}

#[test]
fn aliased_reference_is_a_conservative_miss() {
    let lang = rust_lang();
    // g.rs: use prefix::x as y; then a bare y. The alias resolves to the
    // path of x, but the written final name y differs from the symbol's
    // display name, so the exact rule misses.
    let scoped = node_at(
        "scoped_identifier",
        Some("path"),
        "prefix::x",
        0,
        vec![
            node_at("identifier", Some("path"), "prefix", 0, vec![]),
            tok("::"),
            node_at("identifier", Some("name"), "x", 0, vec![]),
        ],
    );
    let use_arg = node_at(
        "use_as_clause",
        Some("argument"),
        "prefix::x as y",
        0,
        vec![scoped, tok("as"), node_at("identifier", Some("alias"), "y", 0, vec![])],
    );
    let use_decl = node_at("use_declaration", None, "use", 0, vec![tok("use"), use_arg, tok(";")]);
    let reference = node_at("identifier", None, "y", 5, vec![]);
    let root = node_at("source_file", None, "", 0, vec![use_decl, reference]);
    let target = symbol_at("x", "f.rs", &["crate", "prefix", "x"], 1);
    let mut usages: Vec<Usage> = Vec::new();
    find_usages_in_file(&root, &"g.rs".to_string(), &target, &lang, &mut usages);
    // The declaration's own path names x and is reported; the bare y on
    // line 6 is not.
    assert_eq!(lines_of(&usages), vec![1]);
}

#[test]
fn same_file_rule_needs_no_resolution_even_beside_a_wildcard() {
    let lang = rust_lang();
    // In the symbol's own file, display-name equality alone decides.
    let wild = node_at(
        "use_wildcard",
        Some("argument"),
        "elsewhere::*",
        0,
        vec![node_at("identifier", None, "elsewhere", 0, vec![]), tok("::"), tok("*")],
    );
    let use_decl = node_at("use_declaration", None, "use", 0, vec![tok("use"), wild, tok(";")]);
    let reference = node_at("identifier", None, "bar", 4, vec![]);
    let root = node_at("source_file", None, "", 0, vec![use_decl, reference]);
    let target = symbol_at("bar", "f.rs", &["crate", "foo", "bar"], 1);
    let mut usages: Vec<Usage> = Vec::new();
    find_usages_in_file(&root, &"f.rs".to_string(), &target, &lang, &mut usages);
    assert_eq!(usages.len(), 1);
    assert_eq!(usages[0].line, 5);
}

#[test]
fn a_path_holding_the_sentinel_never_matches() {
    let lang = rust_lang();
    // A reference that resolves through the wildcard entry itself carries
    // the sentinel segment, and the exact rule refuses it even where the
    // scopes would line up.
    let wild = node_at(
        "use_wildcard",
        Some("argument"),
        "p::*",
        0,
        vec![node_at("identifier", None, "p", 0, vec![]), tok("::"), tok("*")],
    );
    let use_decl = node_at("use_declaration", None, "use", 0, vec![tok("use"), wild, tok(";")]);
    let reference = node_at("identifier", None, "*", 4, vec![]);
    let root = node_at("source_file", None, "", 0, vec![use_decl, reference]);
    let target = symbol_at("*", "f.rs", &["crate", "p", "*"], 1);
    let mut usages: Vec<Usage> = Vec::new();
    find_usages_in_file(&root, &"g.rs".to_string(), &target, &lang, &mut usages);
    assert!(usages.is_empty());
}

#[test]
fn qualified_reference_is_one_reference() {
    let lang = rust_lang();
    // foo::bar as one qualified path: one reference, not one per segment.
    let scoped = node_at(
        "scoped_identifier",
        None,
        "foo::bar",
        3,
        vec![
            node_at("identifier", Some("path"), "foo", 3, vec![]),
            tok("::"),
            node_at("identifier", Some("name"), "bar", 3, vec![]),
        ],
    );
    let root = node_at("source_file", None, "", 0, vec![scoped]);
    let refs = extract_identifiers(&root, &"g.rs".to_string(), &lang);
    assert_eq!(refs.len(), 1);
    assert_eq!(refs[0].path, segs(&["foo", "bar"]));
    assert_eq!(refs[0].line, 4);
}

#[test]
fn unsupported_reference_shape_contributes_nothing() {
    let lang = rust_lang();
    // A qualified path with an unsupported prefix kind yields no reference,
    // and the walk does not descend into it.
    let scoped = node_at(
        "scoped_identifier",
        None,
        "<T>::bar",
        3,
        vec![
            node_at("bracketed_type", Some("path"), "<T>", 3, vec![]),
            tok("::"),
            node_at("identifier", Some("name"), "bar", 3, vec![]),
        ],
    );
    let root = node_at("source_file", None, "", 0, vec![scoped]);
    let refs = extract_identifiers(&root, &"g.rs".to_string(), &lang);
    assert!(refs.is_empty());
}
