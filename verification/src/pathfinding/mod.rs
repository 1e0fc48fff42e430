//! Path search between two artists, and the neighbourhood of a found path.

pub mod bfs;
pub mod dijkstra;
pub mod dijkstra_model;
pub mod graph;
pub mod min_queue;
pub mod profiled_bfs;
pub mod unidirectional;
pub mod utils;

pub use crate::pathfinding::bfs::bfs_find_path;
pub use crate::pathfinding::bfs::neighborhood::BiDirectionalGraphs;
pub use crate::pathfinding::dijkstra::dijkstra_find_path;
pub use crate::pathfinding::utils::get_artist_connections;
pub use crate::pathfinding::utils::EnhancedPathResult;

use crate::algorithm::Algorithm;
use crate::clock::instant_now;
use crate::clock::millis_since;
use crate::pathfinding::bfs::neighborhood::explore_path_neighborhood;
use crate::pathfinding::bfs::neighborhood::holds_edges_of;
use crate::pathfinding::bfs::neighborhood::lemma_seed;
use crate::pathfinding::bfs::neighborhood::lemma_take_in;
use crate::pathfinding::bfs::neighborhood::neighborhood;
use crate::pathfinding::bfs::neighborhood::on_path;
use crate::pathfinding::bfs::neighborhood::seed;
use crate::pathfinding::bfs::neighborhood::sort_by_priority;
use crate::pathfinding::bfs::neighborhood::tally_path;
use crate::pathfinding::graph::is_joined_path;
use crate::pathfinding::bfs::model::bfs_path;
use crate::pathfinding::bfs::model::bfs_visited;
use crate::pathfinding::dijkstra_model::dijkstra_path;
use crate::pathfinding::dijkstra_model::dijkstra_visited;
use crate::pathfinding::graph::meets;
use crate::pathfinding::graph::reached_by_either;
use crate::pathfinding::graph::GraphView;
use crate::pathfinding::utils::PathStep;
use crate::pathfinding_config::PathfindingConfig;
use std::time::Instant;
use vstd::prelude::*;

verus! {

/// The path that the chosen algorithm finds from `start` to `target`.
pub open spec fn found_path(
    algorithm: Algorithm,
    fwd: GraphView,
    rev: GraphView,
    start: u128,
    target: u128,
) -> Option<Seq<PathStep>> {
    match algorithm {
        Algorithm::Bfs => bfs_path(fwd, rev, start, target),
        Algorithm::Dijkstra => dijkstra_path(fwd, rev, start, target),
    }
}

/// The number of artists that the chosen algorithm visits, on either side:
/// those visited when the two sides met, or, where they do not meet, all
/// that one of the two ends reaches.
pub open spec fn visited_by(
    algorithm: Algorithm,
    fwd: GraphView,
    rev: GraphView,
    start: u128,
    target: u128,
) -> nat {
    let met = match algorithm {
        Algorithm::Bfs => bfs_visited(fwd, rev, start, target),
        Algorithm::Dijkstra => dijkstra_visited(fwd, rev, start, target),
    };
    match met {
        Some(visited) => visited.len(),
        None => reached_by_either(fwd, rev, start, target).len(),
    }
}

/// The path that a result carries.
pub open spec fn path_in(r: EnhancedPathResult) -> Option<Seq<PathStep>> {
    match r {
        EnhancedPathResult::Success { primary_path, .. } => Some(primary_path@),
        EnhancedPathResult::PathTooLong { primary_path, .. } => Some(primary_path@),
        EnhancedPathResult::NoPath { .. } => None,
    }
}

/// The number of artists that a result counts as visited.
pub open spec fn visited_in(r: EnhancedPathResult) -> usize {
    match r {
        EnhancedPathResult::Success { artists_visited, .. } => artists_visited,
        EnhancedPathResult::PathTooLong { artists_visited, .. } => artists_visited,
        EnhancedPathResult::NoPath { artists_visited, .. } => artists_visited,
    }
}

/// Whether `r` is what a search with a budget owes for the two graphs: no
/// path where the two artists do not meet; else a path between them, alone
/// where it is longer than the budget, and with its neighbourhood where it
/// is not.
pub open spec fn is_enhanced_result(
    r: EnhancedPathResult,
    fwd: GraphView,
    rev: GraphView,
    start: u128,
    target: u128,
    budget: usize,
) -> bool {
    match r {
        EnhancedPathResult::Success { primary_path, related_artists, connections, .. } => {
            &&& is_joined_path(fwd, rev, start, target, primary_path@)
            &&& primary_path@.len() <= budget
            &&& related_artists@ == neighborhood(fwd, rev, primary_path@, budget)
            &&& holds_edges_of(connections@, related_artists@.dom(), fwd, rev)
        },
        EnhancedPathResult::PathTooLong {
            primary_path,
            path_length,
            minimum_budget_needed,
            ..
        } => {
            &&& is_joined_path(fwd, rev, start, target, primary_path@)
            &&& path_length == primary_path@.len()
            &&& path_length > budget
            &&& minimum_budget_needed == path_length
        },
        EnhancedPathResult::NoPath { .. } => true,
    }
}

/// Searches a path from `start` to `target` with the chosen algorithm and
/// finds the neighbourhood of the path within a budget of artists.
pub fn find_paths_with_exploration(
    start: u128,
    target: u128,
    algorithm: Algorithm,
    budget: usize,
    graphs: BiDirectionalGraphs,
    config: &PathfindingConfig,
) -> (r: EnhancedPathResult)
    ensures
        (r is NoPath) == !meets(
            graphs.forward_view(*config),
            graphs.reverse_view(*config),
            start,
            target,
        ),
        path_in(r) == found_path(
            algorithm,
            graphs.forward_view(*config),
            graphs.reverse_view(*config),
            start,
            target,
        ),
        is_enhanced_result(
            r,
            graphs.forward_view(*config),
            graphs.reverse_view(*config),
            start,
            target,
            budget,
        ),
        visited_in(r) == visited_by(
            algorithm,
            graphs.forward_view(*config),
            graphs.reverse_view(*config),
            start,
            target,
        ),
{
    let search_timer = instant_now();
    let (forward_data, forward_index) = graphs.forward;
    let (reverse_data, reverse_index) = graphs.reverse;

    let (primary_path, artists_visited, _) = match algorithm {
        Algorithm::Dijkstra => dijkstra_find_path(
            start,
            target,
            forward_data,
            forward_index,
            reverse_data,
            reverse_index,
            config,
        ),
        Algorithm::Bfs => bfs_find_path(
            start,
            target,
            forward_data,
            forward_index,
            reverse_data,
            reverse_index,
            config,
        ),
    };

    match primary_path {
        Some(path) => handle_successful_path_generic(
            path,
            budget,
            artists_visited,
            BiDirectionalGraphs {
                forward: (forward_data, forward_index),
                reverse: (reverse_data, reverse_index),
            },
            config,
            search_timer,
        ),
        None => EnhancedPathResult::NoPath {
            artists_visited,
            duration_ms: millis_since(&search_timer),
        },
    }
}

/// Decides what to return for a found path: the path alone where it is
/// longer than the budget, the path with its neighbourhood where it is not.
fn handle_successful_path_generic(
    path: Vec<PathStep>,
    budget: usize,
    artists_visited: usize,
    graphs: BiDirectionalGraphs,
    config: &PathfindingConfig,
    start_time: Instant,
) -> (r: EnhancedPathResult)
    ensures
        visited_in(r) == artists_visited,
        match r {
            EnhancedPathResult::Success { primary_path, related_artists, connections, .. } => {
                &&& primary_path@ == path@
                &&& primary_path@.len() <= budget
                &&& related_artists@ == neighborhood(
                    graphs.forward_view(*config),
                    graphs.reverse_view(*config),
                    path@,
                    budget,
                )
                &&& holds_edges_of(
                    connections@,
                    related_artists@.dom(),
                    graphs.forward_view(*config),
                    graphs.reverse_view(*config),
                )
            },
            EnhancedPathResult::PathTooLong {
                primary_path,
                path_length,
                minimum_budget_needed,
                ..
            } => {
                &&& primary_path@ == path@
                &&& path_length == path@.len()
                &&& path_length > budget
                &&& minimum_budget_needed == path_length
            },
            EnhancedPathResult::NoPath { .. } => false,
        },
{
    let path_length = path.len();

    if path_length > budget {
        EnhancedPathResult::PathTooLong {
            primary_path: path,
            path_length,
            minimum_budget_needed: path_length,
            artists_visited,
            duration_ms: millis_since(&start_time),
        }
    } else {
        let (related_artists, connections) = explore_path_neighborhood(
            path.as_slice(),
            budget,
            graphs,
            config,
        );

        EnhancedPathResult::Success {
            primary_path: path,
            related_artists,
            connections,
            artists_visited,
            duration_ms: millis_since(&start_time),
        }
    }
}

/// The neighbourhood of a path holds every artist of the path, and no more
/// artists than the budget where the path is no longer than the budget.
pub proof fn lemma_neighborhood_within_budget(
    fwd: GraphView,
    rev: GraphView,
    path: Seq<PathStep>,
    budget: usize,
)
    requires
        path.len() <= budget,
    ensures
        neighborhood(fwd, rev, path, budget).dom().finite(),
        neighborhood(fwd, rev, path, budget).len() <= budget,
        forall|i: int|
            0 <= i < path.len() ==> neighborhood(fwd, rev, path, budget).contains_key(
                (#[trigger] path[i]).0,
            ),
{
    lemma_seed(path);
    let candidates = sort_by_priority(tally_path(fwd, rev, path, path.len() as int));
    lemma_take_in(seed(path), candidates, budget, path.len() as usize);
    assert forall|i: int| 0 <= i < path.len() implies neighborhood(
        fwd,
        rev,
        path,
        budget,
    ).contains_key((#[trigger] path[i]).0) by {
        assert(on_path(path, path[i].0));
        assert(seed(path).contains_key(path[i].0));
    }
}

} // verus!
