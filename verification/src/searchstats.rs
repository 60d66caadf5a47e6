use crate::mv::Mv;
use vstd::prelude::*;

verus! {

/// What a search has done so far.
#[derive(Clone, Copy, Debug, PartialEq, Eq, Structural)]
pub struct SearchStats {
    /// Positions looked at.
    pub nodes: u64,
    /// The best move of the position that the search started from.
    pub bestmove: Option<Mv>,
}

impl Default for SearchStats {
    fn default() -> (stats: Self)
        ensures
            stats.nodes == 0,
            stats.bestmove is None,
    {
        Self { nodes: 0, bestmove: None }
    }
}

} // verus!
