//! The concrete syntax tree the analysis walks, as plain values: every node
//! carries its grammar kind tag, the exact source text it spans, its
//! (0-based) start and end rows, the field name under which it sits in its
//! parent, and its children in order. Anonymous token nodes are kept, with
//! `named` false, so child positions match the grammar.

use vstd::prelude::*;

use crate::text::str_eq;

verus! {

/// One node of a parsed file's concrete syntax tree.
pub struct SyntaxNode {
    /// Grammar kind tag, e.g. `function_item` or `identifier`.
    pub kind: String,
    /// True for named grammar nodes, false for anonymous tokens.
    pub named: bool,
    /// The exact source text this node spans.
    pub text: String,
    /// 0-based row of the node's first character.
    pub start_row: usize,
    /// 0-based row of the node's last character.
    pub end_row: usize,
    /// Field name under which this node sits in its parent, if any.
    pub field: Option<String>,
    /// Child nodes, in source order.
    pub children: Vec<SyntaxNode>,
}

/// The child sits under the given field name.
pub open spec fn has_field(c: SyntaxNode, name: Seq<char>) -> bool {
    match c.field {
        Some(f) => f@ == name,
        None => false,
    }
}

/// Index of the first child carrying the given field name, or -1.
pub open spec fn field_idx(cs: Seq<SyntaxNode>, name: Seq<char>) -> int
    decreases cs.len(),
{
    if cs.len() == 0 {
        -1
    } else if has_field(cs[0], name) {
        0
    } else {
        let r = field_idx(cs.drop_first(), name);
        if r < 0 {
            -1
        } else {
            r + 1
        }
    }
}

pub proof fn lemma_field_idx(cs: Seq<SyntaxNode>, name: Seq<char>)
    ensures
        field_idx(cs, name) == -1 || (0 <= field_idx(cs, name) < cs.len()),
        field_idx(cs, name) == -1 ==> forall|j: int|
            0 <= j < cs.len() ==> !has_field(cs[j], name),
        field_idx(cs, name) >= 0 ==> has_field(cs[field_idx(cs, name)], name),
        field_idx(cs, name) >= 0 ==> forall|j: int|
            0 <= j < field_idx(cs, name) ==> !has_field(cs[j], name),
    decreases cs.len(),
{
    if cs.len() > 0 && !has_field(cs[0], name) {
        lemma_field_idx(cs.drop_first(), name);
        let r = field_idx(cs.drop_first(), name);
        if r == -1 {
            assert(forall|j: int|
                1 <= j < cs.len() ==> cs[j] == cs.drop_first()[j - 1] && !has_field(
                    cs[j],
                    name,
                ));
        } else {
            assert(cs[r + 1] == cs.drop_first()[r]);
            assert forall|j: int| 1 <= j < r + 1 implies !has_field(cs[j], name) by {
                assert(cs[j] == cs.drop_first()[j - 1]);
            }
        }
    }
}

/// Index of the first child whose kind tag is `k`, or -1.
pub open spec fn kind_idx(cs: Seq<SyntaxNode>, k: Seq<char>) -> int
    decreases cs.len(),
{
    if cs.len() == 0 {
        -1
    } else if cs[0].kind@ == k {
        0
    } else {
        let r = kind_idx(cs.drop_first(), k);
        if r < 0 {
            -1
        } else {
            r + 1
        }
    }
}

pub proof fn lemma_kind_idx(cs: Seq<SyntaxNode>, k: Seq<char>)
    ensures
        kind_idx(cs, k) == -1 || (0 <= kind_idx(cs, k) < cs.len()),
        kind_idx(cs, k) == -1 ==> forall|j: int| 0 <= j < cs.len() ==> cs[j].kind@ != k,
        kind_idx(cs, k) >= 0 ==> cs[kind_idx(cs, k)].kind@ == k,
        kind_idx(cs, k) >= 0 ==> forall|j: int| 0 <= j < kind_idx(cs, k) ==> cs[j].kind@ != k,
    decreases cs.len(),
{
    if cs.len() > 0 && cs[0].kind@ != k {
        lemma_kind_idx(cs.drop_first(), k);
        let r = kind_idx(cs.drop_first(), k);
        if r == -1 {
            assert(forall|j: int|
                1 <= j < cs.len() ==> cs[j] == cs.drop_first()[j - 1] && cs[j].kind@ != k);
        } else {
            assert(cs[r + 1] == cs.drop_first()[r]);
            assert forall|j: int| 1 <= j < r + 1 implies cs[j].kind@ != k by {
                assert(cs[j] == cs.drop_first()[j - 1]);
            }
        }
    }
}

/// The first child of the node under the given field name, if any.
pub open spec fn child_by_field_spec(node: SyntaxNode, name: Seq<char>) -> Option<SyntaxNode> {
    let i = field_idx(node.children@, name);
    if i >= 0 {
        Some(node.children@[i])
    } else {
        None
    }
}

impl SyntaxNode {
    /// The node's kind tag equals the given string.
    pub fn kind_is(&self, k: &str) -> (r: bool)
        ensures
            r == (self.kind@ == k@),
    {
        str_eq(self.kind.as_str(), k)
    }

    /// Look up the first child sitting under the given field name.
    pub fn child_by_field<'a>(&'a self, name: &str) -> (r: Option<&'a SyntaxNode>)
        ensures
            match r {
                Some(c) => child_by_field_spec(*self, name@) == Some(*c),
                None => child_by_field_spec(*self, name@) is None,
            },
    {
        let mut i: usize = 0;
        while i < self.children.len()
            invariant
                i <= self.children@.len(),
                forall|j: int| 0 <= j < i ==> !has_field(self.children@[j], name@),
            decreases self.children@.len() - i,
        {
            let c = &self.children[i];
            let found = match &c.field {
                Some(f) => str_eq(f.as_str(), name),
                None => false,
            };
            if found {
                proof {
                    lemma_field_idx(self.children@, name@);
                }
                return Some(c);
            }
            i = i + 1;
        }
        proof {
            lemma_field_idx(self.children@, name@);
        }
        None
    }
}

} // verus!
