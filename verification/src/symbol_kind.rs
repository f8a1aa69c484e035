//! The categories of symbol the analysis extracts. One category is
//! specified; the enumeration leaves room for more.

use vstd::prelude::*;

verus! {

#[derive(Clone, Copy, Debug, PartialEq, Eq, Structural)]
/// Kind of symbols to care about in source files.
pub enum SymbolKind {
    /// Includes every named callable.
    Function,
}

impl SymbolKind {
    /// Every element of the enumeration, in order.
    pub fn iter() -> (r: Vec<SymbolKind>)
        ensures
            r@ == seq![SymbolKind::Function],
    {
        let mut v: Vec<SymbolKind> = Vec::new();
        v.push(SymbolKind::Function);
        proof {
            assert(v@ =~= seq![SymbolKind::Function]);
        }
        v
    }
}

} // verus!
