//! The language capability: which node kinds introduce a scope level, which
//! define symbols, what a file's base module path is, and whether a
//! declaration is exported. One concrete dialect is implemented; an unknown
//! dialect answers every question with the empty answer.

use vstd::prelude::*;

use crate::paths::clean_segments;
use crate::paths::extension_of;
use crate::paths::extension_of_path;
use crate::paths::file_name_of;
use crate::paths::is_root_seg;
use crate::paths::lemma_skip_roots;
use crate::paths::skip_roots;
use crate::paths::split_path;
use crate::paths::stem_of;
use crate::paths::stem_of_name;
use crate::text::starts_with_spec;
use crate::text::str_eq;
use crate::text::str_starts_with;
use crate::tree::child_by_field_spec;
use crate::tree::kind_idx;
use crate::tree::lemma_kind_idx;
use crate::tree::SyntaxNode;
use crate::views::lemma_push_deep_view;

verus! {

#[derive(Clone, Copy, Debug, PartialEq, Eq, Structural)]
/// The dialect the functionalities are first implemented for.
pub struct RustLanguage {}

#[derive(Clone, Copy, Debug, PartialEq, Eq, Structural)]
/// Stands in for any dialect the scanner does not know.
pub struct UnknownLanguage {}

#[derive(Clone, Copy, Debug, PartialEq, Eq, Structural)]
/// Enum of supported languages.
pub enum Languages {
    /// The fully supported dialect.
    Rust(RustLanguage),
    /// Every question gets the empty answer.
    Unknown(UnknownLanguage),
}

/// The node kinds that introduce a scope level in the supported dialect, and
/// the name they contribute: the text of their name node (their type node,
/// for an implementation block).
pub open spec fn rust_scope_name_spec(node: SyntaxNode) -> Option<Seq<char>> {
    if node.kind@ == "mod_item"@ || node.kind@ == "struct_item"@ || node.kind@ == "enum_item"@
        || node.kind@ == "trait_item"@ || node.kind@ == "function_item"@ {
        match child_by_field_spec(node, "name"@) {
            Option::Some(n) => Option::Some(n.text@),
            Option::None => Option::None,
        }
    } else if node.kind@ == "impl_item"@ {
        match child_by_field_spec(node, "type"@) {
            Option::Some(n) => Option::Some(n.text@),
            Option::None => Option::None,
        }
    } else {
        Option::None
    }
}

/// The name node of a symbol-defining node of the supported dialect, if the
/// node is one.
pub open spec fn rust_name_node_spec(node: SyntaxNode) -> Option<SyntaxNode> {
    if node.kind@ == "function_item"@ {
        child_by_field_spec(node, "name"@)
    } else {
        Option::None
    }
}

/// A node is exported when its first visibility-modifier child starts with
/// the keyword that opens a declaration to the outside.
pub open spec fn rust_is_exported_spec(node: SyntaxNode) -> bool {
    let i = kind_idx(node.children@, "visibility_modifier"@);
    i >= 0 && starts_with_spec(node.children@[i].text@, "pub"@)
}

/// The module path a file's location implies: the reserved root segment,
/// then the cleaned path segments with leading source-root markers dropped,
/// then the file's stem unless the stem is an index-file name.
pub open spec fn rust_scope_from_path_spec(p: Seq<char>) -> Seq<Seq<char>> {
    seq!["crate"@] + rust_scope_tail(p)
}

pub open spec fn rust_scope_tail(p: Seq<char>) -> Seq<Seq<char>> {
    let segs = clean_segments(p);
    let kept = skip_roots(segs);
    match file_name_of(p) {
        Option::None => kept,
        Option::Some(name) => {
            let kept2 = if kept.len() > 0 {
                kept.drop_last()
            } else {
                kept
            };
            let stem = stem_of(name);
            if stem == "mod"@ || stem == "lib"@ || stem == "main"@ {
                kept2
            } else {
                kept2.push(stem)
            }
        },
    }
}

impl Languages {
    /// The scope name the node contributes, if its kind introduces a scope.
    pub open spec fn scope_name_spec(self, node: SyntaxNode) -> Option<Seq<char>> {
        match self {
            Languages::Rust(_) => rust_scope_name_spec(node),
            Languages::Unknown(_) => Option::None,
        }
    }

    /// The name node of a symbol-defining node, if the node is one.
    pub open spec fn name_node_spec(self, node: SyntaxNode) -> Option<SyntaxNode> {
        match self {
            Languages::Rust(_) => rust_name_node_spec(node),
            Languages::Unknown(_) => Option::None,
        }
    }

    /// Whether the node is visible outside its immediate defining scope.
    pub open spec fn is_exported_spec(self, node: SyntaxNode) -> bool {
        match self {
            Languages::Rust(_) => rust_is_exported_spec(node),
            Languages::Unknown(_) => false,
        }
    }

    /// The module path implied by a file's location.
    pub open spec fn scope_from_path_spec(self, p: Seq<char>) -> Seq<Seq<char>> {
        match self {
            Languages::Rust(_) => rust_scope_from_path_spec(p),
            Languages::Unknown(_) => Seq::empty(),
        }
    }

    /// Returns the name associated with a node if the node introduces a
    /// scope level.
    pub fn get_scope_name_for_node(&self, node: &SyntaxNode) -> (r: Option<String>)
        ensures
            r.deep_view() == self.scope_name_spec(*node),
    {
        match self {
            Languages::Rust(language) => language.get_scope_name_for_node(node),
            Languages::Unknown(language) => language.get_scope_name_for_node(node),
        }
    }

    /// Returns the node holding the name of the given symbol-defining node,
    /// with the kind of symbol it defines, if the node defines one.
    pub fn get_name_node_of_symbol<'a>(&self, node: &'a SyntaxNode) -> (r: Option<
        (&'a SyntaxNode, crate::symbol_kind::SymbolKind)>)
        ensures
            match r {
                Option::Some((n, k)) => self.name_node_spec(*node) == Option::Some(*n) && k
                    == crate::symbol_kind::SymbolKind::Function,
                Option::None => self.name_node_spec(*node) is None,
            },
    {
        match self {
            Languages::Rust(language) => language.get_name_node_of_symbol(node),
            Languages::Unknown(language) => language.get_name_node_of_symbol(node),
        }
    }

    /// True iff the node's declaration is visible outside its scope.
    pub fn is_exported(&self, node: &SyntaxNode) -> (r: bool)
        ensures
            r == self.is_exported_spec(*node),
    {
        match self {
            Languages::Rust(language) => language.is_exported(node),
            Languages::Unknown(language) => language.is_exported(node),
        }
    }

    /// The scope to deduce from the file's path alone.
    pub fn scope_from_path(&self, file_path: &str) -> (r: Vec<String>)
        ensures
            r.deep_view() == self.scope_from_path_spec(file_path@),
    {
        match self {
            Languages::Rust(language) => language.scope_from_path(file_path),
            Languages::Unknown(language) => language.scope_from_path(file_path),
        }
    }
}

impl RustLanguage {
    /// Returns the name associated with a node if the node introduces a
    /// scope level.
    pub fn get_scope_name_for_node(&self, node: &SyntaxNode) -> (r: Option<String>)
        ensures
            r.deep_view() == rust_scope_name_spec(*node),
    {
        let k = node.kind.as_str();
        if str_eq(k, "mod_item") || str_eq(k, "struct_item") || str_eq(k, "enum_item") || str_eq(
            k,
            "trait_item",
        ) || str_eq(k, "function_item") {
            match node.child_by_field("name") {
                Option::Some(n) => Option::Some(n.text.clone()),
                Option::None => Option::None,
            }
        } else if str_eq(k, "impl_item") {
            match node.child_by_field("type") {
                Option::Some(n) => Option::Some(n.text.clone()),
                Option::None => Option::None,
            }
        } else {
            Option::None
        }
    }

    /// Returns the node holding the name of the given symbol-defining node,
    /// with the kind of symbol it defines, if the node defines one.
    pub fn get_name_node_of_symbol<'a>(&self, node: &'a SyntaxNode) -> (r: Option<
        (&'a SyntaxNode, crate::symbol_kind::SymbolKind)>)
        ensures
            match r {
                Option::Some((n, k)) => rust_name_node_spec(*node) == Option::Some(*n) && k
                    == crate::symbol_kind::SymbolKind::Function,
                Option::None => rust_name_node_spec(*node) is None,
            },
    {
        if node.kind_is("function_item") {
            match node.child_by_field("name") {
                Option::Some(n) => Option::Some((n, crate::symbol_kind::SymbolKind::Function)),
                Option::None => Option::None,
            }
        } else {
            Option::None
        }
    }

    /// True iff the node carries a visibility modifier that starts with the
    /// exporting keyword.
    pub fn is_exported(&self, node: &SyntaxNode) -> (r: bool)
        ensures
            r == rust_is_exported_spec(*node),
    {
        let mut i: usize = 0;
        while i < node.children.len()
            invariant
                i <= node.children@.len(),
                forall|j: int| 0 <= j < i ==> node.children@[j].kind@ != "visibility_modifier"@,
            decreases node.children@.len() - i,
        {
            let c = &node.children[i];
            if c.kind_is("visibility_modifier") {
                proof {
                    lemma_kind_idx(node.children@, "visibility_modifier"@);
                    assert(kind_idx(node.children@, "visibility_modifier"@) == i);
                }
                return str_starts_with(c.text.as_str(), "pub");
            }
            i = i + 1;
        }
        proof {
            lemma_kind_idx(node.children@, "visibility_modifier"@);
        }
        false
    }

    /// The module path implied by a file's location.
    pub fn scope_from_path(&self, file_path: &str) -> (r: Vec<String>)
        ensures
            r.deep_view() == rust_scope_from_path_spec(file_path@),
    {
        let segs = split_path(file_path);
        let ghost sv = segs.deep_view();
        let len: usize = segs.len();
        let mut start: usize = 0;
        while start < len && (str_eq(segs[start].as_str(), "src") || str_eq(
            segs[start].as_str(),
            "tests",
        ) || str_eq(segs[start].as_str(), "src-bin"))
            invariant
                start <= len,
                len == segs@.len(),
                sv == segs.deep_view(),
                forall|j: int| 0 <= j < start ==> is_root_seg(sv[j]),
            decreases len - start,
        {
            proof {
                assert(sv[start as int] == segs@[start as int]@);
            }
            start = start + 1;
        }
        proof {
            assert(start < len ==> sv[start as int] == segs@[start as int]@ && !is_root_seg(
                sv[start as int],
            ));
            lemma_skip_roots(sv, start as int);
        }
        let mut out: Vec<String> = Vec::new();
        let root = "crate".to_owned();
        let ghost out0 = out;
        out.push(root);
        proof {
            lemma_push_deep_view(out0, out, root);
            assert(out.deep_view() =~= seq!["crate"@]);
        }
        let has_name = len > 0 && !str_eq(segs[len - 1].as_str(), "..");
        proof {
            if len > 0 {
                assert(sv[len - 1] == segs@[len - 1]@);
            }
        }
        if has_name {
            let end = if len > start {
                len - 1
            } else {
                start
            };
            let mut k = start;
            while k < end
                invariant
                    start <= k <= end <= len,
                    len == segs@.len(),
                    sv == segs.deep_view(),
                    out.deep_view() == seq!["crate"@] + sv.subrange(start as int, k as int),
                decreases end - k,
            {
                let piece = segs[k].clone();
                let ghost o0 = out;
                out.push(piece);
                proof {
                    lemma_push_deep_view(o0, out, piece);
                    assert(piece@ == sv[k as int]);
                    assert(o0.deep_view().push(sv[k as int]) =~= seq!["crate"@] + sv.subrange(
                        start as int,
                        k + 1,
                    ));
                }
                k = k + 1;
            }
            let stem = stem_of_name(segs[len - 1].as_str());
            let is_index = str_eq(stem.as_str(), "mod") || str_eq(stem.as_str(), "lib") || str_eq(
                stem.as_str(),
                "main",
            );
            proof {
                if len > start {
                    assert(skip_roots(sv).drop_last() =~= sv.subrange(start as int, len - 1));
                } else {
                    assert(skip_roots(sv) =~= sv.subrange(start as int, start as int));
                }
            }
            if !is_index {
                let ghost o0 = out;
                out.push(stem);
                proof {
                    lemma_push_deep_view(o0, out, stem);
                    assert(out.deep_view() =~= rust_scope_from_path_spec(file_path@));
                }
            } else {
                proof {
                    assert(out.deep_view() =~= rust_scope_from_path_spec(file_path@));
                }
            }
        } else {
            let mut k = start;
            while k < len
                invariant
                    start <= k <= len,
                    len == segs@.len(),
                    sv == segs.deep_view(),
                    out.deep_view() == seq!["crate"@] + sv.subrange(start as int, k as int),
                decreases len - k,
            {
                let piece = segs[k].clone();
                let ghost o0 = out;
                out.push(piece);
                proof {
                    lemma_push_deep_view(o0, out, piece);
                    assert(piece@ == sv[k as int]);
                    assert(o0.deep_view().push(sv[k as int]) =~= seq!["crate"@] + sv.subrange(
                        start as int,
                        k + 1,
                    ));
                }
                k = k + 1;
            }
            proof {
                assert(sv.subrange(start as int, len as int) =~= skip_roots(sv));
                assert(out.deep_view() =~= rust_scope_from_path_spec(file_path@));
            }
        }
        out
    }
}

impl UnknownLanguage {
    /// An unknown dialect introduces no scopes.
    pub fn get_scope_name_for_node(&self, node: &SyntaxNode) -> (r: Option<String>)
        ensures
            r is None,
    {
        Option::None
    }

    /// An unknown dialect defines no symbols.
    pub fn get_name_node_of_symbol<'a>(&self, node: &'a SyntaxNode) -> (r: Option<
        (&'a SyntaxNode, crate::symbol_kind::SymbolKind)>)
        ensures
            r is None,
    {
        Option::None
    }

    /// An unknown dialect exports nothing.
    pub fn is_exported(&self, node: &SyntaxNode) -> (r: bool)
        ensures
            r == false,
    {
        false
    }

    /// An unknown dialect deduces no scope from a path.
    pub fn scope_from_path(&self, file_path: &str) -> (r: Vec<String>)
        ensures
            r.deep_view() == Seq::<Seq<char>>::empty(),
    {
        let v: Vec<String> = Vec::new();
        proof {
            assert(v.deep_view() =~= Seq::<Seq<char>>::empty());
        }
        v
    }
}

/// The language spoken by a file, decided by its extension.
pub open spec fn language_for_spec(p: Seq<char>) -> Languages {
    if extension_of(p) == Option::Some("rs"@) {
        Languages::Rust(RustLanguage {  })
    } else {
        Languages::Unknown(UnknownLanguage {  })
    }
}

/// Returns the language used in a given file, going by its extension; a file
/// of no known extension gets the unknown language.
pub fn get_language_for_file(file_name: &str) -> (r: Languages)
    ensures
        r == language_for_spec(file_name@),
{
    match extension_of_path(file_name) {
        Option::Some(e) => {
            if str_eq(e.as_str(), "rs") {
                Languages::Rust(RustLanguage {  })
            } else {
                Languages::Unknown(UnknownLanguage {  })
            }
        },
        Option::None => Languages::Unknown(UnknownLanguage {  }),
    }
}

} // verus!
