//! Reference extraction and usage matching. A pre-order walk collects every
//! identifier or qualified-path use-site as one [`Reference`]; for a target
//! symbol, each reference is resolved through the file's use map and matched
//! either by the same-file rule (display name alone, a deliberate
//! conservative approximation) or by exact scope-and-name equality, with
//! wildcard-resolved references always missing. Matched locations collect
//! into a duplicate-free set of [`Usage`] records.

use vstd::prelude::*;

use crate::language::Languages;
use crate::resolve::extract_use_map;
use crate::resolve::lemma_resolve_scoped_len;
use crate::resolve::process_scoped_identifier;
use crate::resolve::resolve_scoped_spec;
use crate::resolve::use_map_spec;
use crate::resolve::Import;
use crate::resolve::ImportModel;
use crate::resolve::UseMap;
use crate::symbol::lemma_rows_bounded_child;
use crate::symbol::rows_bounded;
use crate::symbol::symbol_name_spec;
use crate::symbol::Symbol;
use crate::symbol::SymbolModel;
use crate::text::clone_strings;
use crate::text::str_eq;
use crate::tree::SyntaxNode;
use crate::views::lemma_concat_deep_view;
use crate::views::lemma_eq_deep_view;
use crate::views::lemma_push_deep_view;
use crate::views::lemma_to_set_push;

verus! {

#[derive(Debug, Clone)]
/// Usage of a symbol in a project: one matched reference location.
pub struct Usage {
    /// 1-based line number where the symbol is used.
    pub line: usize,
    /// Path of the file the symbol is used in.
    pub file: String,
}

/// The mathematical value of a [`Usage`].
pub ghost struct UsageModel {
    pub line: int,
    pub file: Seq<char>,
}

impl DeepView for Usage {
    type V = UsageModel;

    open spec fn deep_view(&self) -> UsageModel {
        UsageModel { line: self.line as int, file: self.file@ }
    }
}

#[derive(Debug, Clone)]
/// One use-site: the literal written path segments (the final name last)
/// and the line it stands on.
pub struct Reference {
    /// The written segments, outermost first; the last is the final name.
    pub path: Vec<String>,
    /// 1-based line number of the use-site.
    pub line: usize,
}

/// The mathematical value of a [`Reference`].
pub ghost struct RefModel {
    pub path: Seq<Seq<char>>,
    pub line: int,
}

impl DeepView for Reference {
    type V = RefModel;

    open spec fn deep_view(&self) -> RefModel {
        RefModel { path: self.path.deep_view(), line: self.line as int }
    }
}

/// The throwaway accumulator entry a reference is resolved into.
pub open spec fn empty_entry() -> ImportModel {
    ImportModel { alias: Option::None, path: Seq::empty(), is_exported: false }
}

/// The written segments of one qualified-path node, or the error that
/// aborted its resolution.
pub open spec fn scoped_ref_path_spec(node: SyntaxNode, file: Seq<char>, lang: Languages) -> Result<
    Seq<Seq<char>>,
    crate::resolve::ResolveError,
> {
    match resolve_scoped_spec(node, file, lang, seq![empty_entry()]) {
        Result::Ok(s) => Result::Ok(s[0].path),
        Result::Err(e) => Result::Err(e),
    }
}

/// The references one subtree yields, in walk order: the first matching
/// node wins and stops descent into its subtree; a qualified path whose
/// resolution fails contributes nothing.
pub open spec fn refs_in_node(node: SyntaxNode, file: Seq<char>, lang: Languages) -> Seq<RefModel>
    decreases node, 1int,
{
    if node.kind@ == "scoped_identifier"@ {
        match scoped_ref_path_spec(node, file, lang) {
            Result::Ok(p) => seq![RefModel { path: p, line: node.start_row + 1 }],
            Result::Err(_) => seq![],
        }
    } else if node.kind@ == "identifier"@ {
        seq![RefModel { path: seq![node.text@], line: node.start_row + 1 }]
    } else {
        refs_in_children(node.children@, file, lang)
    }
}

/// The references a run of sibling subtrees yields; only named nodes are
/// descended into.
pub open spec fn refs_in_children(cs: Seq<SyntaxNode>, file: Seq<char>, lang: Languages) -> Seq<
    RefModel,
>
    decreases cs, 0int,
{
    if cs.len() == 0 {
        seq![]
    } else {
        (if cs[0].named {
            refs_in_node(cs[0], file, lang)
        } else {
            seq![]
        }) + refs_in_children(cs.drop_first(), file, lang)
    }
}

/// Collect every identifier and qualified-path reference in the subtree.
pub fn extract_identifiers(node: &SyntaxNode, path: &String, language: &Languages) -> (r: Vec<
    Reference,
>)
    requires
        rows_bounded(*node),
    ensures
        r.deep_view() == refs_in_node(*node, path@, *language),
    decreases *node,
{
    let mut out: Vec<Reference> = Vec::new();
    if node.kind_is("scoped_identifier") {
        let seed = Import { alias: Option::None, path: Vec::new(), is_exported: false };
        let mut acc: Vec<Import> = Vec::new();
        let ghost a0 = acc;
        proof {
            assert(seed.path.deep_view() =~= Seq::<Seq<char>>::empty());
        }
        acc.push(seed);
        proof {
            lemma_push_deep_view(a0, acc, seed);
            assert(acc.deep_view() =~= seq![empty_entry()]);
        }
        match process_scoped_identifier(node, path.as_str(), language, &mut acc) {
            Result::Ok(()) => {
                proof {
                    lemma_resolve_scoped_len(*node, path@, *language, seq![empty_entry()]);
                }
                let segs = clone_strings(&acc[0].path);
                proof {
                    lemma_eq_deep_view(segs, acc[0].path);
                    assert(acc.deep_view()[0] == acc@[0].deep_view());
                }
                let r0 = Reference { path: segs, line: node.start_row + 1 };
                let ghost o0 = out;
                out.push(r0);
                proof {
                    lemma_push_deep_view(o0, out, r0);
                    assert(out.deep_view() =~= refs_in_node(*node, path@, *language));
                }
            },
            Result::Err(_) => {
                proof {
                    assert(out.deep_view() =~= refs_in_node(*node, path@, *language));
                }
            },
        }
        return out;
    }
    if node.kind_is("identifier") {
        let mut p: Vec<String> = Vec::new();
        let ghost p0 = p;
        let seg = node.text.clone();
        p.push(seg);
        proof {
            lemma_push_deep_view(p0, p, seg);
            assert(p.deep_view() =~= seq![node.text@]);
        }
        let r0 = Reference { path: p, line: node.start_row + 1 };
        let ghost o0 = out;
        out.push(r0);
        proof {
            lemma_push_deep_view(o0, out, r0);
            assert(out.deep_view() =~= refs_in_node(*node, path@, *language));
        }
        return out;
    }
    let ghost cs = node.children@;
    let mut i: usize = 0;
    proof {
        assert(cs.skip(0) =~= cs);
        assert(out.deep_view() =~= Seq::<RefModel>::empty());
    }
    while i < node.children.len()
        invariant
            i <= cs.len(),
            cs == node.children@,
            rows_bounded(*node),
            node.kind@ != "scoped_identifier"@ && node.kind@ != "identifier"@,
            out.deep_view() + refs_in_children(cs.skip(i as int), path@, *language)
                == refs_in_children(cs, path@, *language),
        decreases cs.len() - i,
    {
        proof {
            assert(cs.skip(i as int)[0] == cs[i as int]);
            assert(cs.skip(i as int).drop_first() =~= cs.skip(i + 1));
        }
        let child = &node.children[i];
        if child.named {
            proof {
                lemma_rows_bounded_child(cs, i as int);
            }
            let mut part = extract_identifiers(child, path, language);
            let ghost o0 = out;
            let ghost q0 = part;
            out.append(&mut part);
            proof {
                lemma_concat_deep_view(o0, q0, out);
                assert(out.deep_view() + refs_in_children(cs.skip(i + 1), path@, *language)
                    =~= refs_in_children(cs, path@, *language));
            }
        }
        i = i + 1;
    }
    proof {
        assert(cs.skip(cs.len() as int) =~= Seq::<SyntaxNode>::empty());
        assert(out.deep_view() + Seq::<RefModel>::empty() =~= out.deep_view());
    }
    out
}

/// A reference's absolute written path: if its first segment is a locally
/// visible name, that import's full path stands in its place.
pub open spec fn resolved_path_spec(r: RefModel, m: Map<Seq<char>, ImportModel>) -> Seq<
    Seq<char>,
> {
    if r.path.len() > 0 && m.dom().contains(r.path[0]) {
        m[r.path[0]].path + r.path.drop_first()
    } else {
        r.path
    }
}

/// An absolute path rooted at the reserved root segment: one not written
/// from the root is taken as crate-relative.
pub open spec fn normalize_abs(p: Seq<Seq<char>>) -> Seq<Seq<char>> {
    if p.len() > 0 && p[0] == "crate"@ {
        p
    } else {
        seq!["crate"@] + p
    }
}

/// A reference's final name: its last written segment.
pub open spec fn ref_name_spec(r: RefModel) -> Seq<char> {
    if r.path.len() > 0 {
        r.path.last()
    } else {
        Seq::empty()
    }
}

/// Whether one reference denotes the target symbol. In the symbol's own
/// file, display-name equality alone decides (same-file references are
/// assumed already in scope). Elsewhere the reference's resolved absolute
/// scope must equal the symbol's scope exactly, its final name must equal
/// the display name, and a path resolved through the wildcard sentinel
/// never matches.
pub open spec fn ref_matches_spec(
    r: RefModel,
    m: Map<Seq<char>, ImportModel>,
    s: SymbolModel,
    candidate: Seq<char>,
) -> bool {
    if candidate == s.file {
        ref_name_spec(r) == symbol_name_spec(s)
    } else {
        let abs = resolved_path_spec(r, m);
        ref_name_spec(r) == symbol_name_spec(s) && normalize_abs(abs) == s.scope
            && !abs.contains("*"@)
    }
}

/// In the symbol's own file a reference is reported exactly when its final
/// name equals the symbol's display name, with no scope resolution at all.
pub proof fn lemma_same_file_conservative(
    r: RefModel,
    m: Map<Seq<char>, ImportModel>,
    s: SymbolModel,
)
    ensures
        ref_matches_spec(r, m, s, s.file) <==> ref_name_spec(r) == symbol_name_spec(s),
{
}

/// A bare reference in another file is never reported unless that file
/// imports the symbol's own path: with no import under the written name it
/// cannot reach a symbol nested below the root, and an import of the same
/// local name from anywhere else still misses.
pub proof fn lemma_bare_ref_other_file(
    r: RefModel,
    m: Map<Seq<char>, ImportModel>,
    s: SymbolModel,
    candidate: Seq<char>,
    n: Seq<char>,
)
    requires
        candidate != s.file,
        r.path == seq![n],
        s.scope.len() >= 3,
        m.dom().contains(n) ==> m[n].path != s.scope && m[n].path != s.scope.drop_first(),
    ensures
        !ref_matches_spec(r, m, s, candidate),
{
    let abs = resolved_path_spec(r, m);
    if m.dom().contains(n) {
        assert(abs =~= m[n].path + r.path.drop_first());
        assert(r.path.drop_first() =~= Seq::<Seq<char>>::empty());
        assert(abs =~= m[n].path);
        if normalize_abs(abs) == s.scope {
            if abs.len() > 0 && abs[0] == "crate"@ {
                assert(abs == s.scope);
            } else {
                assert((seq!["crate"@] + abs) =~= s.scope);
                assert(abs =~= s.scope.drop_first());
            }
        }
    } else {
        assert(abs == r.path);
        assert(normalize_abs(abs).len() <= 2);
    }
}

/// A reference whose resolved path carries the wildcard sentinel never
/// satisfies the cross-file rule.
pub proof fn lemma_wildcard_never_matches(
    r: RefModel,
    m: Map<Seq<char>, ImportModel>,
    s: SymbolModel,
    candidate: Seq<char>,
)
    requires
        candidate != s.file,
        resolved_path_spec(r, m).contains("*"@),
    ensures
        !ref_matches_spec(r, m, s, candidate),
{
}

/// The usage one matched reference records.
pub open spec fn usage_of(r: RefModel, candidate: Seq<char>) -> UsageModel {
    UsageModel { line: r.line, file: candidate }
}

/// No two recorded usages name the same file and line.
pub open spec fn no_dup_usages(us: Seq<UsageModel>) -> bool {
    forall|i: int, j: int| 0 <= i < j < us.len() ==> us[i] != us[j]
}

/// The usages the matcher owes for the references before position `k`.
pub open spec fn usages_before(
    refs: Seq<RefModel>,
    k: int,
    m: Map<Seq<char>, ImportModel>,
    s: SymbolModel,
    candidate: Seq<char>,
) -> Set<UsageModel> {
    Set::new(
        |u: UsageModel|
            exists|j: int|
                0 <= j < k && j < refs.len() && ref_matches_spec(refs[j], m, s, candidate) && u
                    == usage_of(refs[j], candidate),
    )
}

/// Taking one more reference into account adds its location when it
/// matches, and nothing otherwise.
proof fn lemma_usages_before_step(
    refs: Seq<RefModel>,
    k: int,
    m: Map<Seq<char>, ImportModel>,
    s: SymbolModel,
    cand: Seq<char>,
)
    requires
        0 <= k < refs.len(),
    ensures
        ref_matches_spec(refs[k], m, s, cand) ==> usages_before(refs, k + 1, m, s, cand)
            == usages_before(refs, k, m, s, cand).insert(usage_of(refs[k], cand)),
        !ref_matches_spec(refs[k], m, s, cand) ==> usages_before(refs, k + 1, m, s, cand)
            == usages_before(refs, k, m, s, cand),
{
    let a = usages_before(refs, k + 1, m, s, cand);
    let b = usages_before(refs, k, m, s, cand);
    if ref_matches_spec(refs[k], m, s, cand) {
        let c = b.insert(usage_of(refs[k], cand));
        assert forall|u: UsageModel| a.contains(u) implies c.contains(u) by {
            let j = choose|j: int|
                0 <= j < k + 1 && j < refs.len() && ref_matches_spec(refs[j], m, s, cand) && u
                    == usage_of(refs[j], cand);
            if j < k {
                assert(b.contains(u));
            }
        }
        assert forall|u: UsageModel| c.contains(u) implies a.contains(u) by {
            if b.contains(u) {
                let j = choose|j: int|
                    0 <= j < k && j < refs.len() && ref_matches_spec(refs[j], m, s, cand) && u
                        == usage_of(refs[j], cand);
                assert(0 <= j < k + 1 && j < refs.len() && ref_matches_spec(refs[j], m, s, cand)
                    && u == usage_of(refs[j], cand));
            } else {
                assert(u == usage_of(refs[k], cand));
                assert(0 <= k < k + 1 && k < refs.len() && ref_matches_spec(refs[k], m, s, cand)
                    && u == usage_of(refs[k], cand));
            }
        }
        assert(a =~= c);
    } else {
        assert forall|u: UsageModel| a.contains(u) implies b.contains(u) by {
            let j = choose|j: int|
                0 <= j < k + 1 && j < refs.len() && ref_matches_spec(refs[j], m, s, cand) && u
                    == usage_of(refs[j], cand);
            assert(j != k);
        }
        assert forall|u: UsageModel| b.contains(u) implies a.contains(u) by {
            let j = choose|j: int|
                0 <= j < k && j < refs.len() && ref_matches_spec(refs[j], m, s, cand) && u
                    == usage_of(refs[j], cand);
            assert(0 <= j < k + 1 && j < refs.len() && ref_matches_spec(refs[j], m, s, cand) && u
                == usage_of(refs[j], cand));
        }
        assert(a =~= b);
    }
}

/// Every usage the target symbol has in one candidate file: the matched
/// references' locations, as a set.
pub open spec fn file_usages_spec(
    root: SyntaxNode,
    candidate: Seq<char>,
    s: SymbolModel,
    lang: Languages,
) -> Set<UsageModel> {
    usages_before(
        refs_in_node(root, candidate, lang),
        refs_in_node(root, candidate, lang).len() as int,
        use_map_spec(root, candidate, lang, Map::empty()),
        s,
        candidate,
    )
}

/// Whether a usage with this file and line is already recorded.
fn contains_usage(usages: &Vec<Usage>, file: &String, line: usize) -> (r: bool)
    ensures
        r == usages.deep_view().contains(UsageModel { line: line as int, file: file@ }),
{
    let ghost target = UsageModel { line: line as int, file: file@ };
    let mut i: usize = 0;
    while i < usages.len()
        invariant
            i <= usages@.len(),
            target == (UsageModel { line: line as int, file: file@ }),
            forall|j: int| 0 <= j < i ==> usages.deep_view()[j] != target,
        decreases usages@.len() - i,
    {
        let u = &usages[i];
        if u.line == line && str_eq(u.file.as_str(), file.as_str()) {
            proof {
                assert(usages.deep_view()[i as int] == usages@[i as int].deep_view());
                assert(usages.deep_view()[i as int] == target);
            }
            return true;
        }
        proof {
            assert(usages.deep_view()[i as int] == usages@[i as int].deep_view());
        }
        i = i + 1;
    }
    false
}

/// Whether some segment is the wildcard sentinel.
fn contains_star(v: &Vec<String>) -> (r: bool)
    ensures
        r == v.deep_view().contains("*"@),
{
    let mut i: usize = 0;
    while i < v.len()
        invariant
            i <= v@.len(),
            forall|j: int| 0 <= j < i ==> v.deep_view()[j] != "*"@,
        decreases v@.len() - i,
    {
        if str_eq(v[i].as_str(), "*") {
            proof {
                assert(v.deep_view()[i as int] == v@[i as int]@);
            }
            return true;
        }
        proof {
            assert(v.deep_view()[i as int] == v@[i as int]@);
        }
        i = i + 1;
    }
    false
}

/// Whether two segment runs are equal.
fn string_vecs_eq(a: &Vec<String>, b: &Vec<String>) -> (r: bool)
    ensures
        r == (a.deep_view() == b.deep_view()),
{
    if a.len() != b.len() {
        proof {
            assert(a.deep_view().len() == a@.len());
            assert(b.deep_view().len() == b@.len());
        }
        return false;
    }
    let mut i: usize = 0;
    while i < a.len()
        invariant
            i <= a@.len(),
            a@.len() == b@.len(),
            forall|j: int| 0 <= j < i ==> a.deep_view()[j] == b.deep_view()[j],
        decreases a@.len() - i,
    {
        if !str_eq(a[i].as_str(), b[i].as_str()) {
            proof {
                assert(a.deep_view()[i as int] == a@[i as int]@);
                assert(b.deep_view()[i as int] == b@[i as int]@);
            }
            return false;
        }
        proof {
            assert(a.deep_view()[i as int] == a@[i as int]@);
            assert(b.deep_view()[i as int] == b@[i as int]@);
        }
        i = i + 1;
    }
    proof {
        assert(a.deep_view() =~= b.deep_view());
    }
    true
}

/// Decide whether one reference denotes the target symbol.
fn reference_matches(
    r: &Reference,
    use_map: &UseMap,
    symbol: &Symbol,
    target_name: &String,
    candidate_file: &String,
    same_file: bool,
) -> (res: bool)
    requires
        target_name@ == symbol_name_spec(symbol.deep_view()),
        same_file == (candidate_file@ == symbol.deep_view().file),
    ensures
        res == ref_matches_spec(
            r.deep_view(),
            use_map@,
            symbol.deep_view(),
            candidate_file@,
        ),
{
    let name_ok = if r.path.len() > 0 {
        proof {
            assert(r.path.deep_view()[r.path@.len() - 1] == r.path@[r.path@.len() - 1]@);
        }
        str_eq(r.path[r.path.len() - 1].as_str(), target_name.as_str())
    } else {
        let empty_name = String::new();
        str_eq(empty_name.as_str(), target_name.as_str())
    };
    if same_file {
        return name_ok;
    }
    let mut abs: Vec<String>;
    if r.path.len() > 0 {
        proof {
            assert(r.path.deep_view()[0] == r.path@[0]@);
        }
        match use_map.get(r.path[0].as_str()) {
            Option::Some(im) => {
                abs = clone_strings(&im.path);
                proof {
                    lemma_eq_deep_view(abs, im.path);
                }
                let mut rest: Vec<String> = Vec::new();
                let mut i: usize = 1;
                proof {
                    assert(rest.deep_view() =~= r.path.deep_view().subrange(1, 1));
                }
                while i < r.path.len()
                    invariant
                        1 <= i <= r.path@.len(),
                        rest.deep_view() == r.path.deep_view().subrange(1, i as int),
                    decreases r.path@.len() - i,
                {
                    let seg = r.path[i].clone();
                    let ghost t0 = rest;
                    rest.push(seg);
                    proof {
                        lemma_push_deep_view(t0, rest, seg);
                        assert(seg@ == r.path.deep_view()[i as int]);
                        assert(r.path.deep_view().subrange(1, i as int).push(
                            r.path.deep_view()[i as int],
                        ) =~= r.path.deep_view().subrange(1, i + 1));
                    }
                    i = i + 1;
                }
                let ghost a0 = abs;
                let ghost t1 = rest;
                abs.append(&mut rest);
                proof {
                    lemma_concat_deep_view(a0, t1, abs);
                    assert(r.path.deep_view().subrange(1, r.path@.len() as int)
                        =~= r.path.deep_view().drop_first());
                }
            },
            Option::None => {
                abs = clone_strings(&r.path);
                proof {
                    lemma_eq_deep_view(abs, r.path);
                }
            },
        }
    } else {
        abs = clone_strings(&r.path);
        proof {
            lemma_eq_deep_view(abs, r.path);
        }
    }
    proof {
        assert(abs.deep_view() == resolved_path_spec(r.deep_view(), use_map@));
    }
    if !name_ok {
        return false;
    }
    if contains_star(&abs) {
        return false;
    }
    let scope_ok: bool;
    let crate_rooted = abs.len() > 0 && str_eq(abs[0].as_str(), "crate");
    proof {
        if abs@.len() > 0 {
            assert(abs.deep_view()[0] == abs@[0]@);
        }
    }
    if crate_rooted {
        scope_ok = string_vecs_eq(&abs, &symbol.scope);
    } else {
        let mut rooted: Vec<String> = Vec::new();
        let root = "crate".to_owned();
        let ghost n0 = rooted;
        rooted.push(root);
        proof {
            lemma_push_deep_view(n0, rooted, root);
        }
        let ghost n1 = rooted;
        let mut abs2 = abs;
        let ghost a2 = abs2;
        rooted.append(&mut abs2);
        proof {
            lemma_concat_deep_view(n1, a2, rooted);
            assert(rooted.deep_view() =~= normalize_abs(resolved_path_spec(
                r.deep_view(),
                use_map@,
            )));
        }
        scope_ok = string_vecs_eq(&rooted, &symbol.scope);
    }
    proof {
        assert(symbol.scope.deep_view() == symbol.deep_view().scope);
    }
    scope_ok
}

/// Search one candidate file for usages of the target symbol: build the
/// file's use map, collect its references, and record each matched
/// location once.
pub fn find_usages_in_file(
    root: &SyntaxNode,
    candidate_file: &String,
    symbol: &Symbol,
    language: &Languages,
    usages: &mut Vec<Usage>,
)
    requires
        rows_bounded(*root),
        no_dup_usages(old(usages).deep_view()),
    ensures
        no_dup_usages(final(usages).deep_view()),
        final(usages).deep_view().to_set() == old(usages).deep_view().to_set()
            + file_usages_spec(*root, candidate_file@, symbol.deep_view(), *language),
{
    let mut use_map = UseMap::new();
    extract_use_map(root, candidate_file.as_str(), &mut use_map, language);
    let refs = extract_identifiers(root, candidate_file, language);
    let ghost rv = refs.deep_view();
    let ghost m = use_map@;
    let ghost sm = symbol.deep_view();
    let target_name = symbol.name();
    let same_file = str_eq(candidate_file.as_str(), symbol.file.as_str());
    let ghost u0 = usages.deep_view();
    let mut k: usize = 0;
    while k < refs.len()
        invariant
            k <= rv.len(),
            rv == refs.deep_view(),
            m == use_map@,
            sm == symbol.deep_view(),
            u0 == old(usages).deep_view(),
            target_name@ == symbol_name_spec(sm),
            same_file == (candidate_file@ == sm.file),
            no_dup_usages(usages.deep_view()),
            usages.deep_view().to_set() == u0.to_set() + usages_before(
                rv,
                k as int,
                m,
                sm,
                candidate_file@,
            ),
        decreases rv.len() - k,
    {
        let r = &refs[k];
        proof {
            assert(rv[k as int] == refs@[k as int].deep_view());
        }
        let matched = reference_matches(r, &use_map, symbol, &target_name, candidate_file, same_file);
        if matched && !contains_usage(usages, candidate_file, r.line) {
            let nu = Usage { line: r.line, file: candidate_file.clone() };
            let ghost us0 = usages.deep_view();
            let ghost v0 = *usages;
            usages.push(nu);
            proof {
                lemma_push_deep_view(v0, *usages, nu);
                lemma_to_set_push(us0, usages.deep_view(), nu.deep_view());
                lemma_usages_before_step(rv, k as int, m, sm, candidate_file@);
                assert(nu.deep_view() == usage_of(rv[k as int], candidate_file@));
                assert(!us0.contains(nu.deep_view()));
                assert forall|i: int, j: int|
                    0 <= i < j < usages.deep_view().len() implies usages.deep_view()[i]
                    != usages.deep_view()[j] by {
                    if j == usages.deep_view().len() - 1 {
                        assert(us0.contains(us0[i]));
                    }
                }
                assert(usages.deep_view().to_set() =~= u0.to_set() + usages_before(
                    rv,
                    k + 1,
                    m,
                    sm,
                    candidate_file@,
                ));
            }
        } else {
            proof {
                lemma_usages_before_step(rv, k as int, m, sm, candidate_file@);
                if matched {
                    let u = usage_of(rv[k as int], candidate_file@);
                    assert(usages.deep_view().contains(u));
                    assert(usages.deep_view().to_set().contains(u));
                    assert(usages.deep_view().to_set() =~= u0.to_set() + usages_before(
                        rv,
                        k + 1,
                        m,
                        sm,
                        candidate_file@,
                    ));
                }
            }
        }
        k = k + 1;
    }
    proof {
        assert(usages_before(rv, rv.len() as int, m, sm, candidate_file@) == file_usages_spec(
            *root,
            candidate_file@,
            sm,
            *language,
        ));
    }
}

} // verus!
