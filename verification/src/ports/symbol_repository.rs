//! What the symbol repository reports of its graph.

use vstd::prelude::*;

verus! {

/// Counts of the graph a symbol repository serves.
#[derive(Debug, Clone, Copy, PartialEq, Eq, Default, Structural)]
pub struct GraphStats {
    pub symbol_count: usize,
    pub relation_count: usize,
}

} // verus!
