//! The surroundings of one artist, within a budget of artists.

pub mod bfs;
pub mod dijkstra;

pub use crate::exploration::bfs::explore_bfs;
pub use crate::exploration::dijkstra::explore_dijkstra;

use crate::algorithm::Algorithm;
use crate::exploration::bfs::is_bfs_exploration;
use crate::exploration::dijkstra::is_nearest_exploration;
use crate::pathfinding::graph::GraphView;
use crate::pathfinding::utils::PathStep;
use rustc_hash::FxHashMap;
use vstd::prelude::*;

verus! {

/// How much work an exploration did.
#[derive(Debug, Clone, Copy)]
pub struct ExplorationStats {
    pub artists_visited: usize,
    pub duration_ms: u64,
}

/// What an exploration found.
#[derive(Debug, Clone)]
pub struct ExplorationResult {
    /// For each artist found, the similarity of the edge that led to it and
    /// its layer.
    pub discovered_artists: FxHashMap<u128, (u32, usize)>,
    /// For each artist found, its edges.
    pub connections: FxHashMap<u128, Vec<PathStep>>,
    pub stats: ExplorationStats,
}

impl ExplorationResult {
    pub fn new(
        discovered_artists: FxHashMap<u128, (u32, usize)>,
        connections: FxHashMap<u128, Vec<PathStep>>,
        artists_visited: usize,
        duration_ms: u64,
    ) -> (r: Self)
        ensures
            r.discovered_artists == discovered_artists,
            r.connections == connections,
            r.stats.artists_visited == artists_visited,
            r.stats.duration_ms == duration_ms,
    {
        Self {
            discovered_artists,
            connections,
            stats: ExplorationStats { artists_visited, duration_ms },
        }
    }

    /// The number of artists found.
    pub fn total_discovered(&self) -> (r: usize)
        ensures
            r == self.discovered_artists@.len(),
    {
        crate::fx::id_map_len(&self.discovered_artists)
    }
}

/// Whether `found` is what the chosen kind of exploration owes.
pub open spec fn is_exploration(
    found: ExplorationResult,
    algorithm: Algorithm,
    g: GraphView,
    center: u128,
    budget: usize,
) -> bool {
    match algorithm {
        Algorithm::Bfs => is_bfs_exploration(found, g, center, budget),
        Algorithm::Dijkstra => is_nearest_exploration(found, g, center, budget),
    }
}

} // verus!
