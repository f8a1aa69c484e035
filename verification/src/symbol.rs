//! Symbol extraction: a pre-order walk of one file's tree with a scope
//! stack. A node that introduces a scope name keeps it pushed for exactly
//! its own subtree; a symbol-defining node is a leaf of the walk and emits
//! a record when a changed line falls within its row span.

use vstd::prelude::*;

use crate::language::Languages;
use crate::symbol_kind::SymbolKind;
use crate::text::clone_strings;
use crate::tree::lemma_field_idx;
use crate::tree::SyntaxNode;
use crate::views::lemma_eq_deep_view;
use crate::views::lemma_push_deep_view;

verus! {

#[derive(Debug, Clone)]
/// Symbol extracted from a source file.
pub struct Symbol {
    /// Explicit display name, set when the symbol was extracted with one.
    pub naming: Option<String>,
    /// 1-based line number where the symbol is named.
    pub line: usize,
    /// Path of the file the symbol was found in.
    pub file: String,
    /// Kind of symbol (e.g. function).
    pub kind: SymbolKind,
    /// True iff the symbol is usable from outside of the current scope.
    pub is_exported: bool,
    /// Hierarchical scope (modules, containers) where the symbol is defined.
    pub scope: Vec<String>,
}

/// The mathematical value of a [`Symbol`].
pub ghost struct SymbolModel {
    pub naming: Option<Seq<char>>,
    pub line: int,
    pub file: Seq<char>,
    pub kind: SymbolKind,
    pub is_exported: bool,
    pub scope: Seq<Seq<char>>,
}

impl DeepView for Symbol {
    type V = SymbolModel;

    open spec fn deep_view(&self) -> SymbolModel {
        SymbolModel {
            naming: self.naming.deep_view(),
            line: self.line as int,
            file: self.file@,
            kind: self.kind,
            is_exported: self.is_exported,
            scope: self.scope.deep_view(),
        }
    }
}

/// A symbol's display name: its explicit name if set, else the last scope
/// segment, else a marker for a value with neither.
pub open spec fn symbol_name_spec(s: SymbolModel) -> Seq<char> {
    match s.naming {
        Option::Some(n) => n,
        Option::None => if s.scope.len() > 0 {
            s.scope.last()
        } else {
            "<invalid>"@
        },
    }
}

impl Symbol {
    /// Name of the symbol, taking aliases into account.
    pub fn name(&self) -> (r: String)
        ensures
            r@ == symbol_name_spec(self.deep_view()),
    {
        match &self.naming {
            Option::Some(n) => n.clone(),
            Option::None => {
                if self.scope.len() > 0 {
                    let s = self.scope[self.scope.len() - 1].clone();
                    proof {
                        assert(self.deep_view().scope.last() == self.scope@[self.scope@.len()
                            - 1]@);
                    }
                    s
                } else {
                    "<invalid>".to_owned()
                }
            },
        }
    }
}

/// Every row in the tree is below the largest machine integer, so 1-based
/// line numbers can be formed.
pub open spec fn rows_bounded(node: SyntaxNode) -> bool
    decreases node,
{
    node.start_row < usize::MAX && all_rows_bounded(node.children@)
}

pub open spec fn all_rows_bounded(cs: Seq<SyntaxNode>) -> bool
    decreases cs,
{
    if cs.len() == 0 {
        true
    } else {
        rows_bounded(cs[0]) && all_rows_bounded(cs.drop_first())
    }
}

pub proof fn lemma_rows_bounded_child(cs: Seq<SyntaxNode>, j: int)
    requires
        all_rows_bounded(cs),
        0 <= j < cs.len(),
    ensures
        rows_bounded(cs[j]),
    decreases cs,
{
    if j > 0 {
        lemma_rows_bounded_child(cs.drop_first(), j - 1);
        assert(cs.drop_first()[j - 1] == cs[j]);
    }
}

/// Decide `rows_bounded` for a tree handed in from outside.
pub fn check_rows_bounded(node: &SyntaxNode) -> (r: bool)
    ensures
        r == rows_bounded(*node),
    decreases *node,
{
    if node.start_row == usize::MAX {
        return false;
    }
    let mut i: usize = 0;
    while i < node.children.len()
        invariant
            i <= node.children@.len(),
            node.start_row < usize::MAX,
            forall|j: int| 0 <= j < i ==> rows_bounded(node.children@[j]),
        decreases node.children@.len() - i,
    {
        if !check_rows_bounded(&node.children[i]) {
            proof {
                lemma_all_rows_bounded_iff(node.children@);
            }
            return false;
        }
        i = i + 1;
    }
    proof {
        lemma_all_rows_bounded_iff(node.children@);
    }
    true
}

pub proof fn lemma_all_rows_bounded_iff(cs: Seq<SyntaxNode>)
    ensures
        all_rows_bounded(cs) <==> forall|j: int| 0 <= j < cs.len() ==> rows_bounded(cs[j]),
    decreases cs,
{
    if cs.len() > 0 {
        lemma_all_rows_bounded_iff(cs.drop_first());
        assert(forall|j: int| 1 <= j < cs.len() ==> cs[j] == cs.drop_first()[j - 1]);
        if rows_bounded(cs[0]) && forall|j: int|
            0 <= j < cs.drop_first().len() ==> rows_bounded(cs.drop_first()[j]) {
            assert forall|j: int| 0 <= j < cs.len() implies rows_bounded(cs[j]) by {
                if j > 0 {
                    assert(cs[j] == cs.drop_first()[j - 1]);
                }
            }
        }
    }
}

/// Some recorded changed line (1-based) falls within the node's row span.
pub open spec fn touches(node: SyntaxNode, lines: Seq<usize>) -> bool {
    exists|i: int|
        0 <= i < lines.len() && node.start_row + 1 <= lines[i] && lines[i] <= node.end_row + 1
}

fn touches_any(node: &SyntaxNode, lines: &Vec<usize>) -> (r: bool)
    ensures
        r == touches(*node, lines@),
{
    let mut i: usize = 0;
    while i < lines.len()
        invariant
            i <= lines@.len(),
            forall|j: int|
                0 <= j < i ==> !(node.start_row + 1 <= lines@[j] && lines@[j] <= node.end_row
                    + 1),
        decreases lines@.len() - i,
    {
        let l = lines[i];
        if l > node.start_row && l - 1 <= node.end_row {
            return true;
        }
        i = i + 1;
    }
    false
}

/// The symbols the walk emits for one node's subtree, given the scope stack
/// in force when the node is reached.
pub open spec fn symbols_in_node(
    node: SyntaxNode,
    file: Seq<char>,
    scope: Seq<Seq<char>>,
    lines: Seq<usize>,
    lang: Languages,
) -> Seq<SymbolModel>
    decreases node,
{
    let scope1 = match lang.scope_name_spec(node) {
        Option::Some(n) => scope.push(n),
        Option::None => scope,
    };
    match lang.name_node_spec(node) {
        Option::Some(name_node) => if touches(node, lines) {
            seq![
                SymbolModel {
                    naming: Option::Some(name_node.text@),
                    line: name_node.start_row + 1,
                    file: file,
                    kind: SymbolKind::Function,
                    is_exported: lang.is_exported_spec(node),
                    scope: scope1,
                },
            ]
        } else {
            seq![]
        },
        Option::None => symbols_in_children(node.children@, file, scope1, lines, lang),
    }
}

/// The symbols emitted for a run of sibling subtrees, in order.
pub open spec fn symbols_in_children(
    cs: Seq<SyntaxNode>,
    file: Seq<char>,
    scope: Seq<Seq<char>>,
    lines: Seq<usize>,
    lang: Languages,
) -> Seq<SymbolModel>
    decreases cs,
{
    if cs.len() == 0 {
        seq![]
    } else {
        symbols_in_node(cs[0], file, scope, lines, lang) + symbols_in_children(
            cs.drop_first(),
            file,
            scope,
            lines,
            lang,
        )
    }
}

/// A symbol-defining node is a leaf of the extraction: its subtree yields at
/// most its own record — descendants contribute nothing — and it yields that
/// record exactly when some changed line L (1-based) satisfies
/// `start_row + 1 <= L <= end_row + 1`.
pub proof fn lemma_symbol_leaf(
    node: SyntaxNode,
    file: Seq<char>,
    scope: Seq<Seq<char>>,
    lines: Seq<usize>,
    lang: Languages,
)
    requires
        lang.name_node_spec(node) is Some,
    ensures
        touches(node, lines) <==> (exists|i: int|
            0 <= i < lines.len() && node.start_row + 1 <= lines[i] && lines[i] <= node.end_row
                + 1),
        touches(node, lines) ==> symbols_in_node(node, file, scope, lines, lang).len() == 1,
        !touches(node, lines) ==> symbols_in_node(node, file, scope, lines, lang).len() == 0,
{
}

/// The base scope handed to the walk of a whole file.
pub open spec fn changed_symbols_spec(
    root: SyntaxNode,
    file: Seq<char>,
    lines: Seq<usize>,
    lang: Languages,
) -> Seq<SymbolModel> {
    symbols_in_node(root, file, lang.scope_from_path_spec(file), lines, lang)
}

/// Pre-order walk of one subtree. A node that contributes a scope name has
/// it pushed for exactly its subtree; the stack leaves the walk as it
/// entered it, on every path.
pub fn walk_tree(
    node: &SyntaxNode,
    file: &String,
    lines: &Vec<usize>,
    language: &Languages,
    scope_stack: &mut Vec<String>,
    symbols: &mut Vec<Symbol>,
)
    requires
        rows_bounded(*node),
    ensures
        final(scope_stack)@ == old(scope_stack)@,
        final(symbols).deep_view() == old(symbols).deep_view() + symbols_in_node(
            *node,
            file@,
            old(scope_stack).deep_view(),
            lines@,
            *language,
        ),
    decreases *node,
{
    let ghost stack0 = *scope_stack;
    let new_scope = language.get_scope_name_for_node(node);
    let pushed = match new_scope {
        Option::Some(scope_name) => {
            let ghost s0 = *scope_stack;
            scope_stack.push(scope_name);
            proof {
                lemma_push_deep_view(s0, *scope_stack, scope_name);
            }
            true
        },
        Option::None => false,
    };
    let ghost scope1 = scope_stack.deep_view();
    match language.get_name_node_of_symbol(node) {
        Option::Some((name_node, kind)) => {
            if touches_any(node, lines) {
                proof {
                    lemma_name_node_row_bounded(*language, *node, *name_node);
                }
                let sym = Symbol {
                    naming: Option::Some(name_node.text.clone()),
                    line: name_node.start_row + 1,
                    file: file.clone(),
                    kind,
                    is_exported: language.is_exported(node),
                    scope: clone_strings(scope_stack),
                };
                let ghost y0 = *symbols;
                proof {
                    lemma_eq_deep_view(sym.scope, *scope_stack);
                }
                symbols.push(sym);
                proof {
                    lemma_push_deep_view(y0, *symbols, sym);
                    assert(symbols.deep_view() =~= y0.deep_view() + symbols_in_node(
                        *node,
                        file@,
                        stack0.deep_view(),
                        lines@,
                        *language,
                    ));
                }
            }
        },
        Option::None => {
            let ghost cs = node.children@;
            let ghost base = symbols.deep_view();
            let mut i: usize = 0;
            proof {
                assert(cs.skip(0) =~= cs);
            }
            while i < node.children.len()
                invariant
                    i <= cs.len(),
                    cs == node.children@,
                    rows_bounded(*node),
                    scope_stack.deep_view() == scope1,
                    scope_stack@ == (if pushed {
                        stack0@.push(new_scope->0)
                    } else {
                        stack0@
                    }),
                    symbols.deep_view() + symbols_in_children(
                        cs.skip(i as int),
                        file@,
                        scope1,
                        lines@,
                        *language,
                    ) == base + symbols_in_children(cs, file@, scope1, lines@, *language),
                decreases cs.len() - i,
            {
                proof {
                    lemma_rows_bounded_child(cs, i as int);
                }
                let ghost yb = symbols.deep_view();
                walk_tree(&node.children[i], file, lines, language, scope_stack, symbols);
                proof {
                    assert(cs.skip(i as int)[0] == cs[i as int]);
                    assert(cs.skip(i as int).drop_first() =~= cs.skip(i + 1));
                    assert(symbols.deep_view() + symbols_in_children(
                        cs.skip(i + 1),
                        file@,
                        scope1,
                        lines@,
                        *language,
                    ) =~= base + symbols_in_children(cs, file@, scope1, lines@, *language));
                }
                i = i + 1;
            }
            proof {
                assert(cs.skip(cs.len() as int) =~= Seq::<SyntaxNode>::empty());
                assert(symbols.deep_view() =~= base + symbols_in_children(
                    cs,
                    file@,
                    scope1,
                    lines@,
                    *language,
                ));
            }
        },
    }
    if pushed {
        let ghost s1 = *scope_stack;
        scope_stack.pop();
        proof {
            assert(scope_stack@ =~= stack0@);
        }
    }
    proof {
        if !pushed {
            assert(scope_stack@ =~= stack0@);
        }
        assert(stack0.deep_view() == old(scope_stack).deep_view());
    }
}

/// The name node of a symbol-defining node is one of its children, so its
/// rows are bounded along with the tree's.
proof fn lemma_name_node_row_bounded(lang: Languages, node: SyntaxNode, n: SyntaxNode)
    requires
        rows_bounded(node),
        lang.name_node_spec(node) == Option::Some(n),
    ensures
        n.start_row < usize::MAX,
{
    match lang {
        Languages::Rust(_) => {
            lemma_field_idx(node.children@, "name"@);
            let j = crate::tree::field_idx(node.children@, "name"@);
            lemma_rows_bounded_child(node.children@, j);
        },
        Languages::Unknown(_) => {
        },
    }
}

/// Gets symbols from a parsed file whose row span holds a changed line. The
/// scope stack is seeded from the file's own module path in whole-project
/// mode, and empty otherwise.
pub fn extract_symbols(
    root: &SyntaxNode,
    file: &String,
    changed_lines: &Vec<usize>,
    language: &Languages,
    add_path_to_scope: bool,
) -> (symbols: Vec<Symbol>)
    requires
        rows_bounded(*root),
    ensures
        symbols.deep_view() == symbols_in_node(
            *root,
            file@,
            if add_path_to_scope {
                language.scope_from_path_spec(file@)
            } else {
                Seq::empty()
            },
            changed_lines@,
            *language,
        ),
{
    let mut scope_stack = if add_path_to_scope {
        language.scope_from_path(file.as_str())
    } else {
        let empty: Vec<String> = Vec::new();
        proof {
            assert(empty.deep_view() =~= Seq::<Seq<char>>::empty());
        }
        empty
    };
    let mut symbols: Vec<Symbol> = Vec::new();
    let ghost scope0 = scope_stack.deep_view();
    proof {
        assert(symbols.deep_view() =~= Seq::<SymbolModel>::empty());
    }
    walk_tree(root, file, changed_lines, language, &mut scope_stack, &mut symbols);
    proof {
        assert(Seq::<SymbolModel>::empty() + symbols_in_node(
            *root,
            file@,
            scope0,
            changed_lines@,
            *language,
        ) =~= symbols_in_node(*root, file@, scope0, changed_lines@, *language));
    }
    symbols
}

/// Gets changed symbols from a parsed file: every symbol-defining construct
/// whose row span holds a changed line, with the scope stack seeded from the
/// file's own module path.
pub fn extract_changed_symbols(
    root: &SyntaxNode,
    file: &String,
    changed_lines: &Vec<usize>,
    language: &Languages,
) -> (symbols: Vec<Symbol>)
    requires
        rows_bounded(*root),
    ensures
        symbols.deep_view() == changed_symbols_spec(*root, file@, changed_lines@, *language),
{
    extract_symbols(root, file, changed_lines, language, true)
}

} // verus!
