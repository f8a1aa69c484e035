//! Impacted locations derived from a set of changed symbols. No analysis
//! beyond the usage search is performed: the derivation reports no
//! locations of its own.

use vstd::prelude::*;

use crate::symbol::Symbol;

verus! {

#[derive(Debug, Clone)]
/// One location a change reaches.
pub struct Impact {
    /// Path of the impacted file.
    pub file: String,
    /// 1-based line number of the impacted location.
    pub line: usize,
    /// Display name of the symbol whose change reaches the location.
    pub symbol: String,
}

/// Derive impacted locations from the changed symbols; this derivation
/// contributes none beyond what the usage search reports.
pub fn find_impacted_locations(symbols: &[Symbol]) -> (r: Vec<Impact>)
    ensures
        r@.len() == 0,
{
    Vec::new()
}

} // verus!
