use impact_scanner::language::{get_language_for_file, Languages};
use impact_scanner::resolve::{
    extract_use_map, process_crate, process_super, process_use_declaration, Import, ResolveError,
    UseMap,
};
use impact_scanner::tree::SyntaxNode;

fn node(kind: &str, field: Option<&str>, text: &str, children: Vec<SyntaxNode>) -> SyntaxNode {
    SyntaxNode {
        kind: kind.to_string(),
        named: true,
        text: text.to_string(),
        start_row: 0,
        end_row: 0,
        field: field.map(|f| f.to_string()),
        children,
    }
}

fn tok(kind: &str) -> SyntaxNode {
    SyntaxNode {
        kind: kind.to_string(),
        named: false,
        text: kind.to_string(),
        start_row: 0,
        end_row: 0,
        field: None,
        children: vec![],
    }
}

fn ident(field: Option<&str>, name: &str) -> SyntaxNode {
    node("identifier", field, name, vec![])
}

fn use_declaration(argument: SyntaxNode) -> SyntaxNode {
    let mut arg = argument;
    arg.field = Some("argument".to_string());
    node("use_declaration", None, "use", vec![tok("use"), arg, tok(";")])
}

fn rust_lang() -> Languages {
    get_language_for_file("src/probe.rs")
}

fn paths_of(imports: &[Import]) -> Vec<Vec<String>> {
    imports.iter().map(|im| im.path.clone()).collect()
}

fn segs(parts: &[&str]) -> Vec<String> {
    parts.iter().map(|p| p.to_string()).collect()
}

#[test]
fn grouped_import_fans_out_to_three() {
    // use prefix::{a, b::{c, d}};
    let inner_list = node(
        "use_list",
        Some("list"),
        "{c, d}",
        vec![tok("{"), ident(None, "c"), tok(","), ident(None, "d"), tok("}")],
    );
    let inner = node(
        "scoped_use_list",
        None,
        "b::{c, d}",
        vec![ident(Some("path"), "b"), tok("::"), inner_list],
    );
    let outer_list = node(
        "use_list",
        Some("list"),
        "{a, b::{c, d}}",
        vec![tok("{"), ident(None, "a"), tok(","), inner, tok("}")],
    );
    let arg = node(
        "scoped_use_list",
        None,
        "prefix::{a, b::{c, d}}",
        vec![ident(Some("path"), "prefix"), tok("::"), outer_list],
    );
    let decl = use_declaration(arg);
    let lang = rust_lang();
    let imports = process_use_declaration(&decl, "m.rs", &lang).unwrap();
    assert_eq!(imports.len(), 3);
    assert_eq!(
        paths_of(&imports),
        vec![segs(&["prefix", "a"]), segs(&["prefix", "b", "c"]), segs(&["prefix", "b", "d"])]
    );
}

#[test]
fn alias_names_the_import_but_keeps_its_path() {
    // use prefix::x as y;
    let scoped = node(
        "scoped_identifier",
        Some("path"),
        "prefix::x",
        vec![ident(Some("path"), "prefix"), tok("::"), ident(Some("name"), "x")],
    );
    let arg = node(
        "use_as_clause",
        None,
        "prefix::x as y",
        vec![scoped, tok("as"), ident(Some("alias"), "y")],
    );
    let decl = use_declaration(arg);
    let lang = rust_lang();
    let imports = process_use_declaration(&decl, "m.rs", &lang).unwrap();
    assert_eq!(imports.len(), 1);
    assert_eq!(imports[0].alias, Some("y".to_string()));
    assert_eq!(imports[0].path, segs(&["prefix", "x"]));
    assert_eq!(imports[0].name(), "y".to_string());
    assert_eq!(imports[0].path.last().unwrap(), "x");
}

#[test]
fn wildcard_pushes_the_sentinel_segment() {
    // use prefix::*;
    let arg = node(
        "use_wildcard",
        None,
        "prefix::*",
        vec![ident(None, "prefix"), tok("::"), tok("*")],
    );
    let decl = use_declaration(arg);
    let lang = rust_lang();
    let imports = process_use_declaration(&decl, "m.rs", &lang).unwrap();
    assert_eq!(imports.len(), 1);
    assert_eq!(imports[0].path, segs(&["prefix", "*"]));
    assert_eq!(imports[0].name(), "*".to_string());
}

#[test]
fn visibility_modifier_marks_the_import_exported() {
    let arg = ident(Some("argument"), "thing");
    let decl = node(
        "use_declaration",
        None,
        "pub use",
        vec![node("visibility_modifier", None, "pub", vec![]), tok("use"), arg, tok(";")],
    );
    let lang = rust_lang();
    let imports = process_use_declaration(&decl, "m.rs", &lang).unwrap();
    assert_eq!(imports.len(), 1);
    assert!(imports[0].is_exported);
    let plain = use_declaration(ident(None, "thing"));
    let imports2 = process_use_declaration(&plain, "m.rs", &lang).unwrap();
    assert!(!imports2[0].is_exported);
}

#[test]
fn relative_keywords_compose() {
    let lang = rust_lang();
    // use super::z; in src/a/b.rs: the file's scope minus its last segment.
    let scoped = node(
        "scoped_identifier",
        None,
        "super::z",
        vec![node("super", Some("path"), "super", vec![]), tok("::"), ident(Some("name"), "z")],
    );
    let decl = use_declaration(scoped);
    let imports = process_use_declaration(&decl, "src/a/b.rs", &lang).unwrap();
    assert_eq!(imports[0].path, segs(&["crate", "a", "z"]));
    // use crate::q;
    let scoped2 = node(
        "scoped_identifier",
        None,
        "crate::q",
        vec![node("crate", Some("path"), "crate", vec![]), tok("::"), ident(Some("name"), "q")],
    );
    let decl2 = use_declaration(scoped2);
    let imports2 = process_use_declaration(&decl2, "src/a/b.rs", &lang).unwrap();
    assert_eq!(imports2[0].path, segs(&["crate", "q"]));
    // use self::w;
    let scoped3 = node(
        "scoped_identifier",
        None,
        "self::w",
        vec![node("self", Some("path"), "self", vec![]), tok("::"), ident(Some("name"), "w")],
    );
    let decl3 = use_declaration(scoped3);
    let imports3 = process_use_declaration(&decl3, "src/a/b.rs", &lang).unwrap();
    assert_eq!(imports3[0].path, segs(&["w"]));
}

#[test]
fn accumulator_keywords_apply_to_every_entry() {
    let mut imports = vec![
        Import { alias: None, path: segs(&["a"]), is_exported: false },
        Import { alias: None, path: segs(&["b"]), is_exported: true },
    ];
    process_crate(&mut imports);
    assert_eq!(imports[0].path, segs(&["a", "crate"]));
    assert_eq!(imports[1].path, segs(&["b", "crate"]));
    let lang = rust_lang();
    process_super("src/a/b.rs", &lang, &mut imports);
    assert_eq!(imports[0].path, segs(&["a", "crate", "crate", "a"]));
    assert_eq!(imports[1].path, segs(&["b", "crate", "crate", "a"]));
}

#[test]
fn later_declaration_overwrites_earlier_name() {
    // use p::x; use q::x; -> x maps to q::x.
    let first = use_declaration(node(
        "scoped_identifier",
        None,
        "p::x",
        vec![ident(Some("path"), "p"), tok("::"), ident(Some("name"), "x")],
    ));
    let second = use_declaration(node(
        "scoped_identifier",
        None,
        "q::x",
        vec![ident(Some("path"), "q"), tok("::"), ident(Some("name"), "x")],
    ));
    let root = node("source_file", None, "", vec![first, second]);
    let lang = rust_lang();
    let mut map = UseMap::new();
    extract_use_map(&root, "m.rs", &mut map, &lang);
    let im = map.get("x").unwrap();
    assert_eq!(im.path, segs(&["q", "x"]));
    assert!(map.get("y").is_none());
}

#[test]
fn failing_declaration_is_skipped_and_the_walk_goes_on() {
    // The first declaration holds an unsupported node kind; the second one
    // still lands in the map.
    let bad = use_declaration(node("weird_shape", None, "?", vec![]));
    // An alias clause without an alias field: a missing part.
    let bad2 = use_declaration(node(
        "use_as_clause",
        None,
        "p as",
        vec![ident(Some("path"), "p"), tok("as")],
    ));
    let good = use_declaration(ident(None, "fine"));
    let root = node("source_file", None, "", vec![bad, bad2, good]);
    let lang = rust_lang();
    let mut map = UseMap::new();
    extract_use_map(&root, "m.rs", &mut map, &lang);
    assert!(map.get("fine").is_some());
    assert!(map.get("p").is_none());
}

#[test]
fn each_failure_names_its_cause() {
    let lang = rust_lang();
    // An alias clause without an alias part.
    let broken_alias = use_declaration(node(
        "use_as_clause",
        None,
        "p as",
        vec![ident(Some("path"), "p"), tok("as")],
    ));
    let r = process_use_declaration(&broken_alias, "m.rs", &lang);
    assert!(matches!(r, Err(ResolveError::MissingField)));
    // A node kind outside the closed supported set.
    let strange = use_declaration(node("weird_shape", None, "?", vec![]));
    let r2 = process_use_declaration(&strange, "m.rs", &lang);
    assert!(matches!(r2, Err(ResolveError::UnsupportedShape)));
    // A declaration without an argument part.
    let bare = node("use_declaration", None, "use", vec![tok("use"), tok(";")]);
    let r3 = process_use_declaration(&bare, "m.rs", &lang);
    assert!(matches!(r3, Err(ResolveError::MissingField)));
}

#[test]
fn metavariable_segments_are_kept_opaquely() {
    let lang = rust_lang();
    let scoped = node(
        "scoped_identifier",
        None,
        "$m::f",
        vec![
            node("metavariable", Some("path"), "$m", vec![]),
            tok("::"),
            ident(Some("name"), "f"),
        ],
    );
    let decl = use_declaration(scoped);
    let imports = process_use_declaration(&decl, "m.rs", &lang).unwrap();
    assert_eq!(imports[0].path, segs(&["$m", "f"]));
}

#[test]
fn bare_module_declaration_contributes_its_own_path() {
    // mod foo; inside src/lib.rs -> foo maps to crate::foo.
    let m = node(
        "mod_item",
        None,
        "mod foo",
        vec![tok("mod"), ident(Some("name"), "foo"), tok(";")],
    );
    let root = node("source_file", None, "", vec![m]);
    let lang = rust_lang();
    let mut map = UseMap::new();
    extract_use_map(&root, "src/lib.rs", &mut map, &lang);
    let im = map.get("foo").unwrap();
    assert_eq!(im.path, segs(&["crate", "foo"]));
    assert_eq!(im.alias, None);
    assert!(!im.is_exported);
}

#[test]
fn nested_declarations_are_found_by_the_full_walk() {
    // A use declaration inside a module body is still collected.
    let inner_use = use_declaration(ident(None, "deep"));
    let body = node("declaration_list", Some("body"), "{...}", vec![inner_use]);
    let m = node(
        "mod_item",
        None,
        "mod foo",
        vec![tok("mod"), ident(Some("name"), "foo"), body],
    );
    let root = node("source_file", None, "", vec![m]);
    let lang = rust_lang();
    let mut map = UseMap::new();
    extract_use_map(&root, "src/lib.rs", &mut map, &lang);
    assert!(map.get("deep").is_some());
    assert!(map.get("foo").is_some());
}
