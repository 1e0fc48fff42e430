//! The per-query policy that decides which edges enter a search.

use crate::similarity::SIMILARITY_ZERO;
use vstd::prelude::*;

verus! {

/// Configuration for the search algorithms.
#[derive(Debug, Clone, Copy)]
pub struct PathfindingConfig {
    /// Only edges whose similarity is at least this threshold are used. A
    /// threshold that is not above zero switches the filter off.
    pub min_match: u32,
    /// At most this many edges per artist are used, the most similar first.
    pub top_related: usize,
    /// Whether the search goes by best similarity instead of fewest steps.
    pub weighted: bool,
}

impl PathfindingConfig {
    pub fn new(min_match: u32, top_related: usize, weighted: bool) -> (r: Self)
        ensures
            r.min_match == min_match,
            r.top_related == top_related,
            r.weighted == weighted,
    {
        Self { min_match, top_related, weighted }
    }
}

impl Default for PathfindingConfig {
    fn default() -> (r: Self)
        ensures
            r.min_match == SIMILARITY_ZERO,
            r.top_related == 80,
            r.weighted == false,
    {
        Self { min_match: SIMILARITY_ZERO, top_related: 80, weighted: false }
    }
}

} // verus!
