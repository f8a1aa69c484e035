//! Import resolution: one import declaration subtree is interpreted into one
//! or more [`Import`] values by recursively accumulating path segments. A
//! grouped list branches the accumulator once per element and concatenates
//! the results; an alias clause names every accumulated entry; a node kind
//! outside the closed supported set is a fatal error for that declaration
//! alone.

use vstd::prelude::*;

use crate::language::Languages;
use crate::text::clone_strings;
use crate::text::str_eq;
use crate::tree::child_by_field_spec;
use crate::tree::field_idx;
use crate::tree::lemma_field_idx;
use crate::tree::SyntaxNode;
use crate::views::lemma_concat_deep_view;
use crate::views::lemma_drop_last_deep_view;
use crate::views::lemma_eq_deep_view;
use crate::views::lemma_push_deep_view;

verus! {

#[derive(Debug, Clone)]
/// One import, or equivalent for the current language.
pub struct Import {
    /// Alias of the imported symbol, if any.
    pub alias: Option<String>,
    /// Scope and original name of the imported symbol.
    pub path: Vec<String>,
    /// True iff the entry can be re-imported from the current scope.
    pub is_exported: bool,
}

/// The mathematical value of an [`Import`].
pub ghost struct ImportModel {
    pub alias: Option<Seq<char>>,
    pub path: Seq<Seq<char>>,
    pub is_exported: bool,
}

impl DeepView for Import {
    type V = ImportModel;

    open spec fn deep_view(&self) -> ImportModel {
        ImportModel {
            alias: self.alias.deep_view(),
            path: self.path.deep_view(),
            is_exported: self.is_exported,
        }
    }
}

#[derive(Clone, Copy, Debug, PartialEq, Eq, Structural)]
/// Why resolving one declaration was given up.
pub enum ResolveError {
    /// An expected syntactic part is absent.
    MissingField,
    /// A node kind outside the closed supported set was met.
    UnsupportedShape,
}

/// An import's locally visible name: its alias if present, else the last
/// segment of its path.
pub open spec fn import_name_spec(im: ImportModel) -> Seq<char> {
    match im.alias {
        Option::Some(a) => a,
        Option::None => if im.path.len() > 0 {
            im.path.last()
        } else {
            Seq::empty()
        },
    }
}

impl Import {
    /// Name of the imported symbol, taking aliases into account.
    pub fn name(&self) -> (r: String)
        ensures
            r@ == import_name_spec(self.deep_view()),
    {
        match &self.alias {
            Option::Some(a) => a.clone(),
            Option::None => {
                if self.path.len() > 0 {
                    let s = self.path[self.path.len() - 1].clone();
                    proof {
                        assert(self.deep_view().path.last() == self.path@[self.path@.len()
                            - 1]@);
                    }
                    s
                } else {
                    String::new()
                }
            },
        }
    }
}

/// Push one segment onto every accumulated import's path.
pub open spec fn push_seg_all(acc: Seq<ImportModel>, seg: Seq<char>) -> Seq<ImportModel> {
    acc.map_values(
        |im: ImportModel|
            ImportModel { alias: im.alias, path: im.path.push(seg), is_exported: im.is_exported },
    )
}

/// Append a run of segments to every accumulated import's path.
pub open spec fn extend_all(acc: Seq<ImportModel>, segs: Seq<Seq<char>>) -> Seq<ImportModel> {
    acc.map_values(
        |im: ImportModel|
            ImportModel { alias: im.alias, path: im.path + segs, is_exported: im.is_exported },
    )
}

/// Give every accumulated import the same alias, leaving paths unchanged.
pub open spec fn set_alias_all(acc: Seq<ImportModel>, a: Seq<char>) -> Seq<ImportModel> {
    acc.map_values(
        |im: ImportModel|
            ImportModel {
                alias: Option::Some(a),
                path: im.path,
                is_exported: im.is_exported,
            },
    )
}

/// What the relative-parent keyword appends: the current file's scope minus
/// its last segment.
pub open spec fn super_segs(lang: Languages, file: Seq<char>) -> Seq<Seq<char>> {
    let s = lang.scope_from_path_spec(file);
    if s.len() > 0 {
        s.drop_last()
    } else {
        s
    }
}

/// The node kinds an import path may be built from directly.
pub open spec fn is_path_kind(k: Seq<char>) -> bool {
    k == "self"@ || k == "metavariable"@ || k == "super"@ || k == "crate"@ || k == "identifier"@
        || k == "scoped_identifier"@ || k == "_reserved_identifier"@
}

/// Resolve a path-shaped node against the accumulator.
pub open spec fn resolve_path_spec(
    node: SyntaxNode,
    file: Seq<char>,
    lang: Languages,
    acc: Seq<ImportModel>,
) -> Result<Seq<ImportModel>, ResolveError>
    decreases node, 2int,
{
    if node.kind@ == "self"@ {
        Result::Ok(acc)
    } else if node.kind@ == "metavariable"@ || node.kind@ == "identifier"@ || node.kind@
        == "_reserved_identifier"@ {
        Result::Ok(push_seg_all(acc, node.text@))
    } else if node.kind@ == "super"@ {
        Result::Ok(extend_all(acc, super_segs(lang, file)))
    } else if node.kind@ == "crate"@ {
        Result::Ok(push_seg_all(acc, "crate"@))
    } else if node.kind@ == "scoped_identifier"@ {
        resolve_scoped_spec(node, file, lang, acc)
    } else {
        Result::Err(ResolveError::UnsupportedShape)
    }
}

/// Resolve a qualified path (`prefix :: name`): the prefix first, against
/// the same accumulator, then the final name.
pub open spec fn resolve_scoped_spec(
    node: SyntaxNode,
    file: Seq<char>,
    lang: Languages,
    acc: Seq<ImportModel>,
) -> Result<Seq<ImportModel>, ResolveError>
    decreases node, 1int,
    via resolve_scoped_spec_dec
{
    let step1 = {
        let pi = field_idx(node.children@, "path"@);
        if pi < 0 {
            Result::Ok(acc)
        } else {
            let pn = node.children@[pi];
            if pn.kind@ == "self"@ {
                Result::Ok(acc)
            } else if pn.kind@ == "metavariable"@ || pn.kind@ == "identifier"@ || pn.kind@
                == "_reserved_identifier"@ {
                Result::Ok(push_seg_all(acc, pn.text@))
            } else if pn.kind@ == "super"@ {
                Result::Ok(extend_all(acc, super_segs(lang, file)))
            } else if pn.kind@ == "crate"@ {
                Result::Ok(push_seg_all(acc, "crate"@))
            } else if pn.kind@ == "scoped_identifier"@ {
                resolve_scoped_spec(pn, file, lang, acc)
            } else {
                Result::Err(ResolveError::UnsupportedShape)
            }
        }
    };
    match step1 {
        Result::Err(e) => Result::Err(e),
        Result::Ok(acc1) => {
            let ni = field_idx(node.children@, "name"@);
            if ni < 0 {
                Result::Err(ResolveError::MissingField)
            } else {
                let nn = node.children@[ni];
                if nn.kind@ == "identifier"@ {
                    Result::Ok(push_seg_all(acc1, nn.text@))
                } else if nn.kind@ == "super"@ {
                    Result::Ok(extend_all(acc1, super_segs(lang, file)))
                } else {
                    Result::Err(ResolveError::UnsupportedShape)
                }
            }
        },
    }
}

#[via_fn]
proof fn resolve_scoped_spec_dec(
    node: SyntaxNode,
    file: Seq<char>,
    lang: Languages,
    acc: Seq<ImportModel>,
) {
    lemma_field_idx(node.children@, "path"@);
}

/// Resolve an alias clause (`path as newname`): name every accumulated
/// entry, then resolve the path; the alias does not alter the path.
pub open spec fn resolve_as_spec(
    node: SyntaxNode,
    file: Seq<char>,
    lang: Languages,
    acc: Seq<ImportModel>,
) -> Result<Seq<ImportModel>, ResolveError>
    decreases node, 2int,
    via resolve_as_spec_dec
{
    let ai = field_idx(node.children@, "alias"@);
    if ai < 0 {
        Result::Err(ResolveError::MissingField)
    } else {
        let acc1 = set_alias_all(acc, node.children@[ai].text@);
        let pi = field_idx(node.children@, "path"@);
        if pi < 0 {
            Result::Err(ResolveError::MissingField)
        } else {
            resolve_path_spec(node.children@[pi], file, lang, acc1)
        }
    }
}

#[via_fn]
proof fn resolve_as_spec_dec(
    node: SyntaxNode,
    file: Seq<char>,
    lang: Languages,
    acc: Seq<ImportModel>,
) {
    lemma_field_idx(node.children@, "path"@);
}

/// A token that separates or brackets the elements of a grouped list.
pub open spec fn is_list_token(k: Seq<char>) -> bool {
    k == "{"@ || k == "}"@ || k == ","@
}

/// Resolve a grouped list (`{a, b, c}`): each element is resolved against
/// its own copy of the incoming accumulator, and the results are
/// concatenated in order.
pub open spec fn resolve_list_spec(
    node: SyntaxNode,
    file: Seq<char>,
    lang: Languages,
    acc: Seq<ImportModel>,
) -> Result<Seq<ImportModel>, ResolveError>
    decreases node, 2int,
{
    resolve_list_items_spec(node.children@, file, lang, acc)
}

/// Resolve the elements of a grouped list, left to right.
pub open spec fn resolve_list_items_spec(
    cs: Seq<SyntaxNode>,
    file: Seq<char>,
    lang: Languages,
    base: Seq<ImportModel>,
) -> Result<Seq<ImportModel>, ResolveError>
    decreases cs, 4int,
{
    if cs.len() == 0 {
        Result::Ok(Seq::empty())
    } else if is_list_token(cs[0].kind@) {
        resolve_list_items_spec(cs.drop_first(), file, lang, base)
    } else {
        match resolve_use_clause_spec(cs[0], file, lang, base) {
            Result::Err(e) => Result::Err(e),
            Result::Ok(part) => match resolve_list_items_spec(cs.drop_first(), file, lang, base) {
                Result::Err(e) => Result::Err(e),
                Result::Ok(rest) => Result::Ok(part + rest),
            },
        }
    }
}

/// Resolve a qualified grouped list (`prefix::{...}`): the prefix becomes
/// the shared starting accumulator of the list.
pub open spec fn resolve_scoped_list_spec(
    node: SyntaxNode,
    file: Seq<char>,
    lang: Languages,
    acc: Seq<ImportModel>,
) -> Result<Seq<ImportModel>, ResolveError>
    decreases node, 2int,
    via resolve_scoped_list_spec_dec
{
    let pi = field_idx(node.children@, "path"@);
    let step1 = if pi < 0 {
        Result::Ok(acc)
    } else {
        resolve_path_spec(node.children@[pi], file, lang, acc)
    };
    match step1 {
        Result::Err(e) => Result::Err(e),
        Result::Ok(acc1) => {
            let li = field_idx(node.children@, "list"@);
            if li < 0 {
                Result::Err(ResolveError::MissingField)
            } else {
                resolve_list_spec(node.children@[li], file, lang, acc1)
            }
        },
    }
}

#[via_fn]
proof fn resolve_scoped_list_spec_dec(
    node: SyntaxNode,
    file: Seq<char>,
    lang: Languages,
    acc: Seq<ImportModel>,
) {
    lemma_field_idx(node.children@, "path"@);
    lemma_field_idx(node.children@, "list"@);
}

/// Resolve a wildcard (`prefix::*` or `*`): the optional prefix first, then
/// the reserved sentinel segment, which never participates in exact
/// matching.
pub open spec fn resolve_wildcard_spec(
    node: SyntaxNode,
    file: Seq<char>,
    lang: Languages,
    acc: Seq<ImportModel>,
) -> Result<Seq<ImportModel>, ResolveError>
    decreases node, 2int,
{
    let step1 = if node.children@.len() > 1 {
        resolve_path_spec(node.children@[0], file, lang, acc)
    } else {
        Result::Ok(acc)
    };
    match step1 {
        Result::Err(e) => Result::Err(e),
        Result::Ok(acc1) => Result::Ok(push_seg_all(acc1, "*"@)),
    }
}

/// Resolve one element of an import declaration, dispatching on its kind;
/// a kind outside the closed set is an unsupported shape.
pub open spec fn resolve_use_clause_spec(
    node: SyntaxNode,
    file: Seq<char>,
    lang: Languages,
    acc: Seq<ImportModel>,
) -> Result<Seq<ImportModel>, ResolveError>
    decreases node, 3int,
{
    if is_path_kind(node.kind@) {
        resolve_path_spec(node, file, lang, acc)
    } else if node.kind@ == "use_as_clause"@ {
        resolve_as_spec(node, file, lang, acc)
    } else if node.kind@ == "use_list"@ {
        resolve_list_spec(node, file, lang, acc)
    } else if node.kind@ == "scoped_use_list"@ {
        resolve_scoped_list_spec(node, file, lang, acc)
    } else if node.kind@ == "use_wildcard"@ {
        resolve_wildcard_spec(node, file, lang, acc)
    } else {
        Result::Err(ResolveError::UnsupportedShape)
    }
}

/// A declaration is exported when its first child is a visibility modifier.
pub open spec fn decl_exported_spec(node: SyntaxNode) -> bool {
    node.children@.len() > 0 && node.children@[0].kind@ == "visibility_modifier"@
}

/// The imports one `use` declaration contributes: its argument resolved
/// from a single empty entry.
pub open spec fn use_decl_imports_spec(node: SyntaxNode, file: Seq<char>, lang: Languages) -> Result<
    Seq<ImportModel>,
    ResolveError,
> {
    match child_by_field_spec(node, "argument"@) {
        Option::None => Result::Err(ResolveError::MissingField),
        Option::Some(arg) => resolve_use_clause_spec(
            arg,
            file,
            lang,
            seq![
                ImportModel {
                    alias: Option::None,
                    path: Seq::empty(),
                    is_exported: decl_exported_spec(node),
                },
            ],
        ),
    }
}

/// The synthetic import a bare module declaration contributes: the module's
/// own qualified name, the file's scope prefix plus the declared name.
pub open spec fn mod_import_spec(node: SyntaxNode, file: Seq<char>, lang: Languages) -> Result<
    ImportModel,
    ResolveError,
> {
    match child_by_field_spec(node, "name"@) {
        Option::None => Result::Err(ResolveError::MissingField),
        Option::Some(nn) => Result::Ok(
            ImportModel {
                alias: Option::None,
                path: lang.scope_from_path_spec(file).push(nn.text@),
                is_exported: decl_exported_spec(node),
            },
        ),
    }
}

/// Copy one import, keeping its exact value.
fn dup_import(im: &Import) -> (r: Import)
    ensures
        r.deep_view() == im.deep_view(),
{
    let alias = match &im.alias {
        Option::Some(a) => Option::Some(a.clone()),
        Option::None => Option::None,
    };
    let p = clone_strings(&im.path);
    proof {
        lemma_eq_deep_view(p, im.path);
    }
    Import { alias, path: p, is_exported: im.is_exported }
}

/// Copy an accumulator, keeping its value.
fn dup_imports(v: &Vec<Import>) -> (r: Vec<Import>)
    ensures
        r.deep_view() == v.deep_view(),
{
    let ghost dv = v.deep_view();
    let mut r: Vec<Import> = Vec::new();
    let mut i: usize = 0;
    while i < v.len()
        invariant
            i <= v@.len(),
            dv == v.deep_view(),
            r.deep_view() == dv.take(i as int),
        decreases v@.len() - i,
    {
        let ni = dup_import(&v[i]);
        let ghost r0 = r;
        r.push(ni);
        proof {
            lemma_push_deep_view(r0, r, ni);
            assert(dv[i as int] == v@[i as int].deep_view());
            assert(dv.take(i as int).push(dv[i as int]) =~= dv.take(i + 1));
        }
        i = i + 1;
    }
    proof {
        assert(dv.take(v@.len() as int) =~= dv);
    }
    r
}

/// Push one segment onto every accumulated import's path.
fn append_segment(imports: &mut Vec<Import>, seg: &str)
    ensures
        final(imports).deep_view() == push_seg_all(old(imports).deep_view(), seg@),
{
    let ghost dv = imports.deep_view();
    let mut out: Vec<Import> = Vec::new();
    let mut i: usize = 0;
    while i < imports.len()
        invariant
            i <= imports@.len(),
            dv == imports.deep_view(),
            out.deep_view() == push_seg_all(dv, seg@).take(i as int),
        decreases imports@.len() - i,
    {
        let im = &imports[i];
        let mut p = clone_strings(&im.path);
        proof {
            lemma_eq_deep_view(p, im.path);
        }
        let s = seg.to_owned();
        let ghost p0 = p;
        p.push(s);
        proof {
            lemma_push_deep_view(p0, p, s);
        }
        let alias = match &im.alias {
            Option::Some(a) => Option::Some(a.clone()),
            Option::None => Option::None,
        };
        let ni = Import { alias, path: p, is_exported: im.is_exported };
        let ghost o0 = out;
        out.push(ni);
        proof {
            lemma_push_deep_view(o0, out, ni);
            assert(dv[i as int] == imports@[i as int].deep_view());
            assert(ni.deep_view() == push_seg_all(dv, seg@)[i as int]);
            assert(push_seg_all(dv, seg@).take(i as int).push(push_seg_all(dv, seg@)[i as int])
                =~= push_seg_all(dv, seg@).take(i + 1));
        }
        i = i + 1;
    }
    proof {
        assert(push_seg_all(dv, seg@).take(imports@.len() as int) =~= push_seg_all(dv, seg@));
    }
    *imports = out;
}

/// Append a run of segments to every accumulated import's path.
fn append_segments(imports: &mut Vec<Import>, segs: &Vec<String>)
    ensures
        final(imports).deep_view() == extend_all(old(imports).deep_view(), segs.deep_view()),
{
    let ghost dv = imports.deep_view();
    let ghost sv = segs.deep_view();
    let mut out: Vec<Import> = Vec::new();
    let mut i: usize = 0;
    while i < imports.len()
        invariant
            i <= imports@.len(),
            dv == imports.deep_view(),
            sv == segs.deep_view(),
            out.deep_view() == extend_all(dv, sv).take(i as int),
        decreases imports@.len() - i,
    {
        let im = &imports[i];
        let mut p = clone_strings(&im.path);
        proof {
            lemma_eq_deep_view(p, im.path);
        }
        let more = clone_strings(segs);
        let ghost p0 = p;
        let ghost m0 = more;
        let mut more2 = more;
        p.append(&mut more2);
        proof {
            lemma_concat_deep_view(p0, m0, p);
            lemma_eq_deep_view(m0, *segs);
        }
        let alias = match &im.alias {
            Option::Some(a) => Option::Some(a.clone()),
            Option::None => Option::None,
        };
        let ni = Import { alias, path: p, is_exported: im.is_exported };
        let ghost o0 = out;
        out.push(ni);
        proof {
            lemma_push_deep_view(o0, out, ni);
            assert(dv[i as int] == imports@[i as int].deep_view());
            assert(ni.deep_view() == extend_all(dv, sv)[i as int]);
            assert(extend_all(dv, sv).take(i as int).push(extend_all(dv, sv)[i as int])
                =~= extend_all(dv, sv).take(i + 1));
        }
        i = i + 1;
    }
    proof {
        assert(extend_all(dv, sv).take(imports@.len() as int) =~= extend_all(dv, sv));
    }
    *imports = out;
}

/// Give every accumulated import the same alias.
fn set_alias(imports: &mut Vec<Import>, alias: &str)
    ensures
        final(imports).deep_view() == set_alias_all(old(imports).deep_view(), alias@),
{
    let ghost dv = imports.deep_view();
    let mut out: Vec<Import> = Vec::new();
    let mut i: usize = 0;
    while i < imports.len()
        invariant
            i <= imports@.len(),
            dv == imports.deep_view(),
            out.deep_view() == set_alias_all(dv, alias@).take(i as int),
        decreases imports@.len() - i,
    {
        let im = &imports[i];
        let p = clone_strings(&im.path);
        proof {
            lemma_eq_deep_view(p, im.path);
        }
        let ni = Import { alias: Option::Some(alias.to_owned()), path: p, is_exported: im.is_exported };
        let ghost o0 = out;
        out.push(ni);
        proof {
            lemma_push_deep_view(o0, out, ni);
            assert(dv[i as int] == imports@[i as int].deep_view());
            assert(ni.deep_view() == set_alias_all(dv, alias@)[i as int]);
            assert(set_alias_all(dv, alias@).take(i as int).push(set_alias_all(dv, alias@)[i as int])
                =~= set_alias_all(dv, alias@).take(i + 1));
        }
        i = i + 1;
    }
    proof {
        assert(set_alias_all(dv, alias@).take(imports@.len() as int) =~= set_alias_all(
            dv,
            alias@,
        ));
    }
    *imports = out;
}

/// Push the reserved root segment onto every accumulated import.
pub fn process_crate(imports: &mut Vec<Import>)
    ensures
        final(imports).deep_view() == push_seg_all(old(imports).deep_view(), "crate"@),
{
    append_segment(imports, "crate");
}

/// Append the current file's scope minus its last segment to every
/// accumulated import.
pub fn process_super(path: &str, language: &Languages, imports: &mut Vec<Import>)
    ensures
        final(imports).deep_view() == extend_all(
            old(imports).deep_view(),
            super_segs(*language, path@),
        ),
{
    let mut from_path = language.scope_from_path(path);
    if from_path.len() > 0 {
        let ghost f0 = from_path;
        from_path.pop();
        proof {
            lemma_drop_last_deep_view(f0, from_path);
        }
    }
    append_segments(imports, &from_path);
}

/// Resolve a path-shaped node against the accumulator.
fn process_path(
    node: &SyntaxNode,
    path: &str,
    language: &Languages,
    imports: &mut Vec<Import>,
) -> (r: Result<(), ResolveError>)
    ensures
        match resolve_path_spec(*node, path@, *language, old(imports).deep_view()) {
            Result::Ok(v) => r is Ok && final(imports).deep_view() == v,
            Result::Err(e) => r == Result::<(), ResolveError>::Err(e),
        },
    decreases *node, 2int,
{
    let k = node.kind.as_str();
    if str_eq(k, "self") {
        Result::Ok(())
    } else if str_eq(k, "metavariable") || str_eq(k, "identifier") || str_eq(
        k,
        "_reserved_identifier",
    ) {
        append_segment(imports, node.text.as_str());
        Result::Ok(())
    } else if str_eq(k, "super") {
        process_super(path, language, imports);
        Result::Ok(())
    } else if str_eq(k, "crate") {
        process_crate(imports);
        Result::Ok(())
    } else if str_eq(k, "scoped_identifier") {
        process_scoped_identifier(node, path, language, imports)
    } else {
        Result::Err(ResolveError::UnsupportedShape)
    }
}

/// Resolve a qualified path (`prefix :: name`) against the accumulator.
pub(crate) fn process_scoped_identifier(
    node: &SyntaxNode,
    path: &str,
    language: &Languages,
    imports: &mut Vec<Import>,
) -> (r: Result<(), ResolveError>)
    ensures
        match resolve_scoped_spec(*node, path@, *language, old(imports).deep_view()) {
            Result::Ok(v) => r is Ok && final(imports).deep_view() == v,
            Result::Err(e) => r == Result::<(), ResolveError>::Err(e),
        },
    decreases *node, 1int,
{
    proof {
        lemma_field_idx(node.children@, "path"@);
        lemma_field_idx(node.children@, "name"@);
    }
    match node.child_by_field("path") {
        Option::Some(pn) => {
            let k = pn.kind.as_str();
            if str_eq(k, "self") {
            } else if str_eq(k, "metavariable") || str_eq(k, "identifier") || str_eq(
                k,
                "_reserved_identifier",
            ) {
                append_segment(imports, pn.text.as_str());
            } else if str_eq(k, "super") {
                process_super(path, language, imports);
            } else if str_eq(k, "crate") {
                process_crate(imports);
            } else if str_eq(k, "scoped_identifier") {
                match process_scoped_identifier(pn, path, language, imports) {
                    Result::Ok(()) => (),
                    Result::Err(e) => {
                        return Result::Err(e);
                    },
                }
            } else {
                return Result::Err(ResolveError::UnsupportedShape);
            }
        },
        Option::None => {},
    }
    match node.child_by_field("name") {
        Option::None => Result::Err(ResolveError::MissingField),
        Option::Some(nn) => {
            let k = nn.kind.as_str();
            if str_eq(k, "identifier") {
                append_segment(imports, nn.text.as_str());
                Result::Ok(())
            } else if str_eq(k, "super") {
                process_super(path, language, imports);
                Result::Ok(())
            } else {
                Result::Err(ResolveError::UnsupportedShape)
            }
        },
    }
}

/// Resolve an alias clause (`path as newname`) against the accumulator.
fn process_use_as_clause(
    node: &SyntaxNode,
    path: &str,
    language: &Languages,
    imports: &mut Vec<Import>,
) -> (r: Result<(), ResolveError>)
    ensures
        match resolve_as_spec(*node, path@, *language, old(imports).deep_view()) {
            Result::Ok(v) => r is Ok && final(imports).deep_view() == v,
            Result::Err(e) => r == Result::<(), ResolveError>::Err(e),
        },
    decreases *node, 2int,
{
    proof {
        lemma_field_idx(node.children@, "alias"@);
        lemma_field_idx(node.children@, "path"@);
    }
    match node.child_by_field("alias") {
        Option::None => Result::Err(ResolveError::MissingField),
        Option::Some(an) => {
            set_alias(imports, an.text.as_str());
            match node.child_by_field("path") {
                Option::None => Result::Err(ResolveError::MissingField),
                Option::Some(pn) => process_path(pn, path, language, imports),
            }
        },
    }
}

/// Resolve a qualified grouped list (`prefix::{...}`).
fn process_scoped_use_list(
    node: &SyntaxNode,
    path: &str,
    language: &Languages,
    imports: &mut Vec<Import>,
) -> (r: Result<(), ResolveError>)
    ensures
        match resolve_scoped_list_spec(*node, path@, *language, old(imports).deep_view()) {
            Result::Ok(v) => r is Ok && final(imports).deep_view() == v,
            Result::Err(e) => r == Result::<(), ResolveError>::Err(e),
        },
    decreases *node, 2int,
{
    proof {
        lemma_field_idx(node.children@, "path"@);
        lemma_field_idx(node.children@, "list"@);
    }
    match node.child_by_field("path") {
        Option::Some(pn) => {
            match process_path(pn, path, language, imports) {
                Result::Ok(()) => (),
                Result::Err(e) => {
                    return Result::Err(e);
                },
            }
        },
        Option::None => {},
    }
    match node.child_by_field("list") {
        Option::None => Result::Err(ResolveError::MissingField),
        Option::Some(list) => process_use_list(list, path, language, imports),
    }
}

/// Resolve a wildcard import (`prefix::*` or `*`).
fn process_use_wildcard(
    node: &SyntaxNode,
    path: &str,
    language: &Languages,
    imports: &mut Vec<Import>,
) -> (r: Result<(), ResolveError>)
    ensures
        match resolve_wildcard_spec(*node, path@, *language, old(imports).deep_view()) {
            Result::Ok(v) => r is Ok && final(imports).deep_view() == v,
            Result::Err(e) => r == Result::<(), ResolveError>::Err(e),
        },
    decreases *node, 2int,
{
    if node.children.len() > 1 {
        let first = &node.children[0];
        match process_path(first, path, language, imports) {
            Result::Ok(()) => (),
            Result::Err(e) => {
                return Result::Err(e);
            },
        }
    }
    append_segment(imports, "*");
    Result::Ok(())
}

/// Resolve a grouped list (`{a, b, c}`): each element against its own copy
/// of the incoming accumulator, results concatenated in order.
fn process_use_list(
    node: &SyntaxNode,
    path: &str,
    language: &Languages,
    imports: &mut Vec<Import>,
) -> (r: Result<(), ResolveError>)
    ensures
        match resolve_list_spec(*node, path@, *language, old(imports).deep_view()) {
            Result::Ok(v) => r is Ok && final(imports).deep_view() == v,
            Result::Err(e) => r == Result::<(), ResolveError>::Err(e),
        },
    decreases *node, 2int,
{
    let cloned = dup_imports(imports);
    let ghost base = old(imports).deep_view();
    imports.clear();
    let ghost cs = node.children@;
    let mut i: usize = 0;
    proof {
        assert(cs.skip(0) =~= cs);
        assert(imports.deep_view() =~= Seq::<ImportModel>::empty());
    }
    while i < node.children.len()
        invariant
            i <= cs.len(),
            cs == node.children@,
            cloned.deep_view() == base,
            base == old(imports).deep_view(),
            match resolve_list_items_spec(cs.skip(i as int), path@, *language, base) {
                Result::Ok(rest) => match resolve_list_items_spec(cs, path@, *language, base) {
                    Result::Ok(full) => imports.deep_view() + rest == full,
                    Result::Err(_) => false,
                },
                Result::Err(e) => resolve_list_items_spec(cs, path@, *language, base)
                    == Result::<Seq<ImportModel>, ResolveError>::Err(e),
            },
        decreases cs.len() - i,
    {
        let child = &node.children[i];
        let k = child.kind.as_str();
        let is_token = str_eq(k, "{") || str_eq(k, "}") || str_eq(k, ",");
        proof {
            assert(cs.skip(i as int)[0] == cs[i as int]);
            assert(cs.skip(i as int).drop_first() =~= cs.skip(i + 1));
        }
        if !is_token {
            let mut part = dup_imports(&cloned);
            match process_use_clause(child, path, language, &mut part) {
                Result::Err(e) => {
                    return Result::Err(e);
                },
                Result::Ok(()) => {},
            }
            let ghost i0 = *imports;
            let ghost p0 = part;
            imports.append(&mut part);
            proof {
                lemma_concat_deep_view(i0, p0, *imports);
                if resolve_list_items_spec(cs.skip(i + 1), path@, *language, base) is Ok {
                    assert(imports.deep_view() + resolve_list_items_spec(
                        cs.skip(i + 1),
                        path@,
                        *language,
                        base,
                    )->Ok_0 =~= i0.deep_view() + resolve_list_items_spec(
                        cs.skip(i as int),
                        path@,
                        *language,
                        base,
                    )->Ok_0);
                }
            }
        }
        i = i + 1;
    }
    proof {
        assert(cs.skip(cs.len() as int) =~= Seq::<SyntaxNode>::empty());
        assert(imports.deep_view() + Seq::<ImportModel>::empty() =~= imports.deep_view());
    }
    Result::Ok(())
}

/// Resolve one element of an import declaration, dispatching on its kind.
fn process_use_clause(
    node: &SyntaxNode,
    path: &str,
    language: &Languages,
    imports: &mut Vec<Import>,
) -> (r: Result<(), ResolveError>)
    ensures
        match resolve_use_clause_spec(*node, path@, *language, old(imports).deep_view()) {
            Result::Ok(v) => r is Ok && final(imports).deep_view() == v,
            Result::Err(e) => r == Result::<(), ResolveError>::Err(e),
        },
    decreases *node, 3int,
{
    let k = node.kind.as_str();
    if str_eq(k, "self") || str_eq(k, "metavariable") || str_eq(k, "super") || str_eq(k, "crate")
        || str_eq(k, "identifier") || str_eq(k, "scoped_identifier") || str_eq(
        k,
        "_reserved_identifier",
    ) {
        process_path(node, path, language, imports)
    } else if str_eq(k, "use_as_clause") {
        process_use_as_clause(node, path, language, imports)
    } else if str_eq(k, "use_list") {
        process_use_list(node, path, language, imports)
    } else if str_eq(k, "scoped_use_list") {
        process_scoped_use_list(node, path, language, imports)
    } else if str_eq(k, "use_wildcard") {
        process_use_wildcard(node, path, language, imports)
    } else {
        Result::Err(ResolveError::UnsupportedShape)
    }
}

/// Interpret one `use` declaration into its imports.
pub fn process_use_declaration(
    node: &SyntaxNode,
    path: &str,
    language: &Languages,
) -> (r: Result<Vec<Import>, ResolveError>)
    ensures
        match use_decl_imports_spec(*node, path@, *language) {
            Result::Ok(v) => r is Ok && r->Ok_0.deep_view() == v,
            Result::Err(e) => r == Result::<Vec<Import>, ResolveError>::Err(e),
        },
{
    let is_exported = node.children.len() > 0 && node.children[0].kind_is("visibility_modifier");
    match node.child_by_field("argument") {
        Option::None => Result::Err(ResolveError::MissingField),
        Option::Some(argument) => {
            let seed = Import { alias: Option::None, path: Vec::new(), is_exported };
            let mut imports: Vec<Import> = Vec::new();
            let ghost s0 = imports;
            proof {
                assert(seed.path.deep_view() =~= Seq::<Seq<char>>::empty());
            }
            imports.push(seed);
            proof {
                lemma_push_deep_view(s0, imports, seed);
                assert(imports.deep_view() =~= seq![
                    ImportModel {
                        alias: Option::None,
                        path: Seq::empty(),
                        is_exported: decl_exported_spec(*node),
                    },
                ]);
            }
            match process_use_clause(argument, path, language, &mut imports) {
                Result::Ok(()) => Result::Ok(imports),
                Result::Err(e) => Result::Err(e),
            }
        },
    }
}

proof fn lemma_push_alias_commute(acc: Seq<ImportModel>, a: Seq<char>, s: Seq<char>)
    ensures
        push_seg_all(set_alias_all(acc, a), s) == set_alias_all(push_seg_all(acc, s), a),
{
    assert forall|i: int| 0 <= i < acc.len() implies push_seg_all(set_alias_all(acc, a), s)[i]
        == set_alias_all(push_seg_all(acc, s), a)[i] by {
        assert(set_alias_all(acc, a)[i] == ImportModel {
            alias: Option::Some(a),
            path: acc[i].path,
            is_exported: acc[i].is_exported,
        });
        assert(push_seg_all(acc, s)[i] == ImportModel {
            alias: acc[i].alias,
            path: acc[i].path.push(s),
            is_exported: acc[i].is_exported,
        });
    }
    assert(push_seg_all(set_alias_all(acc, a), s) =~= set_alias_all(push_seg_all(acc, s), a));
}

proof fn lemma_extend_alias_commute(acc: Seq<ImportModel>, a: Seq<char>, segs: Seq<Seq<char>>)
    ensures
        extend_all(set_alias_all(acc, a), segs) == set_alias_all(extend_all(acc, segs), a),
{
    assert forall|i: int| 0 <= i < acc.len() implies extend_all(set_alias_all(acc, a), segs)[i]
        == set_alias_all(extend_all(acc, segs), a)[i] by {
        assert(set_alias_all(acc, a)[i] == ImportModel {
            alias: Option::Some(a),
            path: acc[i].path,
            is_exported: acc[i].is_exported,
        });
        assert(extend_all(acc, segs)[i] == ImportModel {
            alias: acc[i].alias,
            path: acc[i].path + segs,
            is_exported: acc[i].is_exported,
        });
    }
    assert(extend_all(set_alias_all(acc, a), segs) =~= set_alias_all(extend_all(acc, segs), a));
}

/// Resolving a path neither reads nor alters aliases: resolving a freshly
/// aliased accumulator equals aliasing the resolved one.
pub proof fn lemma_resolve_path_alias_commutes(
    node: SyntaxNode,
    file: Seq<char>,
    lang: Languages,
    acc: Seq<ImportModel>,
    a: Seq<char>,
)
    ensures
        resolve_path_spec(node, file, lang, set_alias_all(acc, a)) == (match resolve_path_spec(
            node,
            file,
            lang,
            acc,
        ) {
            Result::Ok(v) => Result::<Seq<ImportModel>, ResolveError>::Ok(set_alias_all(v, a)),
            Result::Err(e) => Result::<Seq<ImportModel>, ResolveError>::Err(e),
        }),
    decreases node, 2int,
{
    if node.kind@ == "self"@ {
        assert(resolve_path_spec(node, file, lang, set_alias_all(acc, a)) == Result::<
            Seq<ImportModel>,
            ResolveError,
        >::Ok(set_alias_all(acc, a)));
    } else if node.kind@ == "metavariable"@ || node.kind@ == "identifier"@ || node.kind@
        == "_reserved_identifier"@ {
        lemma_push_alias_commute(acc, a, node.text@);
        assert(resolve_path_spec(node, file, lang, set_alias_all(acc, a)) == Result::<
            Seq<ImportModel>,
            ResolveError,
        >::Ok(push_seg_all(set_alias_all(acc, a), node.text@)));
    } else if node.kind@ == "super"@ {
        lemma_extend_alias_commute(acc, a, super_segs(lang, file));
        assert(resolve_path_spec(node, file, lang, set_alias_all(acc, a)) == Result::<
            Seq<ImportModel>,
            ResolveError,
        >::Ok(extend_all(set_alias_all(acc, a), super_segs(lang, file))));
    } else if node.kind@ == "crate"@ {
        lemma_push_alias_commute(acc, a, "crate"@);
        assert(resolve_path_spec(node, file, lang, set_alias_all(acc, a)) == Result::<
            Seq<ImportModel>,
            ResolveError,
        >::Ok(push_seg_all(set_alias_all(acc, a), "crate"@)));
    } else if node.kind@ == "scoped_identifier"@ {
        lemma_resolve_scoped_alias_commutes(node, file, lang, acc, a);
    } else {
        assert(resolve_path_spec(node, file, lang, set_alias_all(acc, a)) == Result::<
            Seq<ImportModel>,
            ResolveError,
        >::Err(ResolveError::UnsupportedShape));
    }
}

/// Resolving a qualified path neither reads nor alters aliases.
pub proof fn lemma_resolve_scoped_alias_commutes(
    node: SyntaxNode,
    file: Seq<char>,
    lang: Languages,
    acc: Seq<ImportModel>,
    a: Seq<char>,
)
    ensures
        resolve_scoped_spec(node, file, lang, set_alias_all(acc, a)) == (match resolve_scoped_spec(
            node,
            file,
            lang,
            acc,
        ) {
            Result::Ok(v) => Result::<Seq<ImportModel>, ResolveError>::Ok(set_alias_all(v, a)),
            Result::Err(e) => Result::<Seq<ImportModel>, ResolveError>::Err(e),
        }),
    decreases node, 1int,
{
    lemma_field_idx(node.children@, "path"@);
    lemma_field_idx(node.children@, "name"@);
    let pi = field_idx(node.children@, "path"@);
    let step1 = if pi < 0 {
        Result::<Seq<ImportModel>, ResolveError>::Ok(acc)
    } else {
        let pn = node.children@[pi];
        if pn.kind@ == "self"@ {
            Result::Ok(acc)
        } else if pn.kind@ == "metavariable"@ || pn.kind@ == "identifier"@ || pn.kind@
            == "_reserved_identifier"@ {
            Result::Ok(push_seg_all(acc, pn.text@))
        } else if pn.kind@ == "super"@ {
            Result::Ok(extend_all(acc, super_segs(lang, file)))
        } else if pn.kind@ == "crate"@ {
            Result::Ok(push_seg_all(acc, "crate"@))
        } else if pn.kind@ == "scoped_identifier"@ {
            resolve_scoped_spec(pn, file, lang, acc)
        } else {
            Result::Err(ResolveError::UnsupportedShape)
        }
    };
    if pi >= 0 {
        let pn = node.children@[pi];
        if pn.kind@ == "metavariable"@ || pn.kind@ == "identifier"@ || pn.kind@
            == "_reserved_identifier"@ {
            lemma_push_alias_commute(acc, a, pn.text@);
        } else if pn.kind@ == "super"@ {
            lemma_extend_alias_commute(acc, a, super_segs(lang, file));
        } else if pn.kind@ == "crate"@ {
            lemma_push_alias_commute(acc, a, "crate"@);
        } else if pn.kind@ == "scoped_identifier"@ {
            lemma_resolve_scoped_alias_commutes(pn, file, lang, acc, a);
        }
    }
    match step1 {
        Result::Err(_) => {
        },
        Result::Ok(acc1) => {
            let ni = field_idx(node.children@, "name"@);
            if ni >= 0 {
                let nn = node.children@[ni];
                if nn.kind@ == "identifier"@ {
                    lemma_push_alias_commute(acc1, a, nn.text@);
                } else if nn.kind@ == "super"@ {
                    lemma_extend_alias_commute(acc1, a, super_segs(lang, file));
                }
            }
        },
    }
}

/// Alias precedence: an alias clause resolves to exactly what its path
/// part alone resolves to, except that every resulting import carries the
/// written alias as its local name — the alias does not alter the path.
pub proof fn lemma_alias_precedence(
    node: SyntaxNode,
    file: Seq<char>,
    lang: Languages,
    acc: Seq<ImportModel>,
)
    requires
        field_idx(node.children@, "alias"@) >= 0,
        field_idx(node.children@, "path"@) >= 0,
    ensures
        resolve_as_spec(node, file, lang, acc) == (match resolve_path_spec(
            node.children@[field_idx(node.children@, "path"@)],
            file,
            lang,
            acc,
        ) {
            Result::Ok(v) => Result::<Seq<ImportModel>, ResolveError>::Ok(
                set_alias_all(v, node.children@[field_idx(node.children@, "alias"@)].text@),
            ),
            Result::Err(e) => Result::<Seq<ImportModel>, ResolveError>::Err(e),
        }),
        resolve_as_spec(node, file, lang, acc) is Ok ==> forall|i: int|
            0 <= i < resolve_as_spec(node, file, lang, acc)->Ok_0.len()
                ==> import_name_spec(#[trigger] resolve_as_spec(node, file, lang, acc)->Ok_0[i])
                == node.children@[field_idx(node.children@, "alias"@)].text@,
{
    let an = node.children@[field_idx(node.children@, "alias"@)];
    let pn = node.children@[field_idx(node.children@, "path"@)];
    lemma_resolve_path_alias_commutes(pn, file, lang, acc, an.text@);
    if resolve_as_spec(node, file, lang, acc) is Ok {
        let v = resolve_path_spec(pn, file, lang, acc)->Ok_0;
        assert forall|i: int| 0 <= i < resolve_as_spec(node, file, lang, acc)->Ok_0.len() implies
            import_name_spec(
                #[trigger] resolve_as_spec(node, file, lang, acc)->Ok_0[i],
            ) == an.text@ by {
            assert(set_alias_all(v, an.text@)[i] == ImportModel {
                alias: Option::Some(an.text@),
                path: v[i].path,
                is_exported: v[i].is_exported,
            });
        }
    }
}

/// Resolving a qualified path never branches: it keeps the accumulator's
/// length.
pub proof fn lemma_resolve_scoped_len(
    node: SyntaxNode,
    file: Seq<char>,
    lang: Languages,
    acc: Seq<ImportModel>,
)
    ensures
        resolve_scoped_spec(node, file, lang, acc) is Ok ==> resolve_scoped_spec(
            node,
            file,
            lang,
            acc,
        )->Ok_0.len() == acc.len(),
    decreases node, 1int,
{
    lemma_field_idx(node.children@, "path"@);
    let pi = field_idx(node.children@, "path"@);
    if pi >= 0 && node.children@[pi].kind@ == "scoped_identifier"@ {
        lemma_resolve_scoped_len(node.children@[pi], file, lang, acc);
    }
}

/// The mapping an entry run builds: later entries for the same local name
/// overwrite earlier ones.
pub open spec fn map_of(entries: Seq<ImportModel>) -> Map<Seq<char>, ImportModel>
    decreases entries.len(),
{
    if entries.len() == 0 {
        Map::empty()
    } else {
        map_of(entries.drop_last()).insert(import_name_spec(entries.last()), entries.last())
    }
}

pub proof fn lemma_map_of_dom(entries: Seq<ImportModel>, name: Seq<char>)
    ensures
        map_of(entries).dom().contains(name) <==> (exists|j: int|
            0 <= j < entries.len() && import_name_spec(entries[j]) == name),
    decreases entries.len(),
{
    if entries.len() > 0 {
        lemma_map_of_dom(entries.drop_last(), name);
        assert(forall|j: int|
            0 <= j < entries.len() - 1 ==> entries.drop_last()[j] == entries[j]);
        if map_of(entries).dom().contains(name) {
            if import_name_spec(entries.last()) == name {
                assert(import_name_spec(entries[entries.len() - 1]) == name);
            } else {
                let j = choose|j: int|
                    0 <= j < entries.drop_last().len() && import_name_spec(
                        entries.drop_last()[j],
                    ) == name;
                assert(import_name_spec(entries[j]) == name);
            }
        }
        if exists|j: int| 0 <= j < entries.len() && import_name_spec(entries[j]) == name {
            let j = choose|j: int|
                0 <= j < entries.len() && import_name_spec(entries[j]) == name;
            if j < entries.len() - 1 {
                assert(import_name_spec(entries.drop_last()[j]) == name);
            }
        }
    }
}

pub proof fn lemma_map_of_last_match(entries: Seq<ImportModel>, name: Seq<char>, j: int)
    requires
        0 <= j < entries.len(),
        import_name_spec(entries[j]) == name,
        forall|k: int| j < k < entries.len() ==> import_name_spec(entries[k]) != name,
    ensures
        map_of(entries).dom().contains(name),
        map_of(entries)[name] == entries[j],
    decreases entries.len(),
{
    if j == entries.len() - 1 {
    } else {
        assert(forall|k: int|
            0 <= k < entries.len() - 1 ==> entries.drop_last()[k] == entries[k]);
        lemma_map_of_last_match(entries.drop_last(), name, j);
        assert(import_name_spec(entries.last()) != name);
    }
}

/// Per-file mapping from a locally visible name to its import; later
/// declarations for the same name overwrite earlier ones.
pub struct UseMap {
    entries: Vec<Import>,
}

impl View for UseMap {
    type V = Map<Seq<char>, ImportModel>;

    closed spec fn view(&self) -> Map<Seq<char>, ImportModel> {
        map_of(self.entries.deep_view())
    }
}

impl UseMap {
    /// An empty mapping.
    pub fn new() -> (r: UseMap)
        ensures
            r@ == Map::<Seq<char>, ImportModel>::empty(),
    {
        let r = UseMap { entries: Vec::new() };
        proof {
            assert(r.entries.deep_view() =~= Seq::<ImportModel>::empty());
        }
        r
    }

    /// Record one import under its local name, overwriting an earlier entry
    /// of that name.
    pub fn insert(&mut self, import: Import)
        ensures
            final(self)@ == old(self)@.insert(
                import_name_spec(import.deep_view()),
                import.deep_view(),
            ),
    {
        let ghost e0 = self.entries;
        self.entries.push(import);
        proof {
            lemma_push_deep_view(e0, self.entries, import);
            assert(self.entries.deep_view().drop_last() =~= e0.deep_view());
            assert(self.entries.deep_view().last() == import.deep_view());
        }
    }

    /// Look a local name up; the latest entry of that name answers.
    pub fn get(&self, name: &str) -> (r: Option<&Import>)
        ensures
            match r {
                Option::Some(im) => self@.dom().contains(name@) && im.deep_view()
                    == self@[name@],
                Option::None => !self@.dom().contains(name@),
            },
    {
        let ghost dv = self.entries.deep_view();
        let mut i: usize = self.entries.len();
        while i > 0
            invariant
                i <= self.entries@.len(),
                dv == self.entries.deep_view(),
                forall|k: int| i <= k < dv.len() ==> import_name_spec(dv[k]) != name@,
            decreases i,
        {
            i = i - 1;
            let nm = self.entries[i].name();
            if crate::text::str_eq(nm.as_str(), name) {
                proof {
                    assert(dv[i as int] == self.entries@[i as int].deep_view());
                    lemma_map_of_last_match(dv, name@, i as int);
                }
                return Option::Some(&self.entries[i]);
            }
            proof {
                assert(dv[i as int] == self.entries@[i as int].deep_view());
            }
        }
        proof {
            lemma_map_of_dom(dv, name@);
        }
        Option::None
    }
}

/// Record a run of imports in order, each under its local name.
pub open spec fn insert_all(m: Map<Seq<char>, ImportModel>, imps: Seq<ImportModel>) -> Map<
    Seq<char>,
    ImportModel,
>
    decreases imps.len(),
{
    if imps.len() == 0 {
        m
    } else {
        insert_all(m.insert(import_name_spec(imps[0]), imps[0]), imps.drop_first())
    }
}

pub proof fn lemma_insert_all_push(
    m: Map<Seq<char>, ImportModel>,
    imps: Seq<ImportModel>,
    x: ImportModel,
)
    ensures
        insert_all(m, imps.push(x)) == insert_all(m, imps).insert(import_name_spec(x), x),
    decreases imps.len(),
{
    if imps.len() == 0 {
        assert(imps.push(x).drop_first() =~= Seq::<ImportModel>::empty());
        assert(imps.push(x)[0] == x);
        assert(insert_all(m, imps.push(x)) == insert_all(
            m.insert(import_name_spec(x), x),
            imps.push(x).drop_first(),
        ));
        assert(insert_all(m.insert(import_name_spec(x), x), imps.push(x).drop_first())
            == m.insert(import_name_spec(x), x));
        assert(insert_all(m, imps) == m);
    } else {
        assert(imps.push(x)[0] == imps[0]);
        assert(imps.push(x).drop_first() =~= imps.drop_first().push(x));
        lemma_insert_all_push(m.insert(import_name_spec(imps[0]), imps[0]), imps.drop_first(), x);
        assert(insert_all(m, imps.push(x)) == insert_all(
            m.insert(import_name_spec(imps[0]), imps[0]),
            imps.drop_first().push(x),
        ));
        assert(insert_all(m, imps) == insert_all(
            m.insert(import_name_spec(imps[0]), imps[0]),
            imps.drop_first(),
        ));
    }
}

/// The mapping after the declarations found in one subtree: a full-tree
/// named-child walk, not limited to the top level; a declaration whose
/// resolution fails contributes no entries, and the walk proceeds.
pub open spec fn use_map_spec(
    node: SyntaxNode,
    file: Seq<char>,
    lang: Languages,
    m: Map<Seq<char>, ImportModel>,
) -> Map<Seq<char>, ImportModel>
    decreases node, 1int,
{
    let m1 = if node.kind@ == "use_declaration"@ {
        match use_decl_imports_spec(node, file, lang) {
            Result::Ok(imps) => insert_all(m, imps),
            Result::Err(_) => m,
        }
    } else if node.kind@ == "mod_item"@ {
        match mod_import_spec(node, file, lang) {
            Result::Ok(im) => m.insert(import_name_spec(im), im),
            Result::Err(_) => m,
        }
    } else {
        m
    };
    use_map_children_spec(node.children@, file, lang, m1)
}

/// The mapping after walking a run of sibling subtrees; only named nodes
/// are descended into.
pub open spec fn use_map_children_spec(
    cs: Seq<SyntaxNode>,
    file: Seq<char>,
    lang: Languages,
    m: Map<Seq<char>, ImportModel>,
) -> Map<Seq<char>, ImportModel>
    decreases cs, 0int,
{
    if cs.len() == 0 {
        m
    } else {
        let m1 = if cs[0].named {
            use_map_spec(cs[0], file, lang, m)
        } else {
            m
        };
        use_map_children_spec(cs.drop_first(), file, lang, m1)
    }
}

/// Fill the use map from every import and module declaration in the
/// subtree.
pub fn extract_use_map(
    node: &SyntaxNode,
    path: &str,
    use_map: &mut UseMap,
    language: &Languages,
)
    ensures
        final(use_map)@ == use_map_spec(*node, path@, *language, old(use_map)@),
    decreases *node,
{
    if node.kind_is("use_declaration") {
        match process_use_declaration(node, path, language) {
            Result::Ok(imports) => {
                let ghost dv = imports.deep_view();
                let ghost m0 = use_map@;
                let mut k: usize = 0;
                proof {
                    assert(dv.take(0) =~= Seq::<ImportModel>::empty());
                }
                while k < imports.len()
                    invariant
                        k <= imports@.len(),
                        dv == imports.deep_view(),
                        use_map@ == insert_all(m0, dv.take(k as int)),
                    decreases imports@.len() - k,
                {
                    let im = dup_import(&imports[k]);
                    use_map.insert(im);
                    proof {
                        assert(dv[k as int] == imports@[k as int].deep_view());
                        assert(dv.take(k as int).push(dv[k as int]) =~= dv.take(k + 1));
                        lemma_insert_all_push(m0, dv.take(k as int), dv[k as int]);
                    }
                    k = k + 1;
                }
                proof {
                    assert(dv.take(imports@.len() as int) =~= dv);
                }
            },
            Result::Err(_) => {},
        }
    } else if node.kind_is("mod_item") {
        match process_mod_item(node, path, language) {
            Result::Ok(im) => {
                use_map.insert(im);
            },
            Result::Err(_) => {},
        }
    }
    let ghost cs = node.children@;
    let ghost m1 = use_map@;
    let mut i: usize = 0;
    proof {
        assert(cs.skip(0) =~= cs);
    }
    while i < node.children.len()
        invariant
            i <= cs.len(),
            cs == node.children@,
            use_map_children_spec(cs.skip(i as int), path@, *language, use_map@)
                == use_map_children_spec(cs, path@, *language, m1),
        decreases cs.len() - i,
    {
        proof {
            assert(cs.skip(i as int)[0] == cs[i as int]);
            assert(cs.skip(i as int).drop_first() =~= cs.skip(i + 1));
        }
        let child = &node.children[i];
        if child.named {
            extract_use_map(child, path, use_map, language);
        }
        i = i + 1;
    }
    proof {
        assert(cs.skip(cs.len() as int) =~= Seq::<SyntaxNode>::empty());
    }
}

/// Interpret one bare module declaration into its synthetic import.
pub fn process_mod_item(node: &SyntaxNode, path: &str, language: &Languages) -> (r: Result<
    Import,
    ResolveError,
>)
    ensures
        match mod_import_spec(*node, path@, *language) {
            Result::Ok(v) => r is Ok && r->Ok_0.deep_view() == v,
            Result::Err(e) => r == Result::<Import, ResolveError>::Err(e),
        },
{
    let is_exported = node.children.len() > 0 && node.children[0].kind_is("visibility_modifier");
    match node.child_by_field("name") {
        Option::None => Result::Err(ResolveError::MissingField),
        Option::Some(nn) => {
            let mut from_path = language.scope_from_path(path);
            let ghost f0 = from_path;
            let seg = nn.text.clone();
            from_path.push(seg);
            proof {
                lemma_push_deep_view(f0, from_path, seg);
            }
            Result::Ok(Import { alias: Option::None, path: from_path, is_exported })
        },
    }
}

} // verus!
