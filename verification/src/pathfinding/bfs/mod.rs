//! Shortest connections by number of steps.

pub mod layers;
pub mod model;
pub mod neighborhood;
pub mod state;

use crate::clock::instant_now;
use crate::clock::micros_since;
use crate::pathfinding::bfs::layers::is_fewest_meeting;
use crate::pathfinding::bfs::model::bfs_path;
use crate::pathfinding::bfs::model::bfs_visited;
use crate::pathfinding::bfs::state::path_view;
use crate::pathfinding::bfs::state::BfsState;
use crate::pathfinding::graph::is_joined_path;
use crate::pathfinding::graph::lemma_two_elements;
use crate::pathfinding::graph::meets;
use crate::pathfinding::graph::reached_by_either;
use crate::pathfinding::graph::GraphView;
use crate::pathfinding::utils::PathResult;
use crate::pathfinding_config::PathfindingConfig;
use rustc_hash::FxHashMap;
use vstd::prelude::*;

verus! {

/// Searches a path from `start` to `target` breadth first, from both ends.
///
/// Returns the path where the two artists meet, the number of artists
/// visited on either side, and the time taken in microseconds. The path is the one that
/// the search, taken round by round, comes to: the same query gives the
/// same path. It goes from the start to the artist at which the two sides
/// met in as few steps as any path along the forward graph, and from the
/// target to that artist in as few steps as any path along the reverse
/// graph. Where the two artists do not meet, every artist that either of
/// them reaches has been visited.
pub fn bfs_find_path(
    start: u128,
    target: u128,
    forward_graph_data: &[u8],
    forward_graph_index: &FxHashMap<u128, u64>,
    reverse_graph_data: &[u8],
    reverse_graph_index: &FxHashMap<u128, u64>,
    config: &PathfindingConfig,
) -> (r: PathResult)
    ensures
        path_view(r.0) == bfs_path(
            (GraphView { data: forward_graph_data@, index: forward_graph_index@, config: *config }),
            (GraphView { data: reverse_graph_data@, index: reverse_graph_index@, config: *config }),
            start,
            target,
        ),
        r.0.is_some() == meets(
            (GraphView { data: forward_graph_data@, index: forward_graph_index@, config: *config }),
            (GraphView { data: reverse_graph_data@, index: reverse_graph_index@, config: *config }),
            start,
            target,
        ),
        r.0.is_some() ==> is_joined_path(
            (GraphView { data: forward_graph_data@, index: forward_graph_index@, config: *config }),
            (GraphView { data: reverse_graph_data@, index: reverse_graph_index@, config: *config }),
            start,
            target,
            r.0.unwrap()@,
        ),
        r.0.is_some() ==> exists|k: int|
            is_fewest_meeting(
                (GraphView {
                    data: forward_graph_data@,
                    index: forward_graph_index@,
                    config: *config,
                }),
                (GraphView {
                    data: reverse_graph_data@,
                    index: reverse_graph_index@,
                    config: *config,
                }),
                r.0.unwrap()@,
                k,
            ),
        r.0.is_some() ==> r.1 >= 1 && (start != target ==> r.1 >= 2),
        r.0.is_some() ==> r.1 == bfs_visited(
            (GraphView { data: forward_graph_data@, index: forward_graph_index@, config: *config }),
            (GraphView { data: reverse_graph_data@, index: reverse_graph_index@, config: *config }),
            start,
            target,
        ).unwrap().len(),
        r.0.is_none() ==> r.1 == reached_by_either(
            (GraphView { data: forward_graph_data@, index: forward_graph_index@, config: *config }),
            (GraphView { data: reverse_graph_data@, index: reverse_graph_index@, config: *config }),
            start,
            target,
        ).len(),
{
    let search_timer = instant_now();
    let mut bfs_state = BfsState::new(start);
    let path = bfs_state.find_path_to_target(
        target,
        forward_graph_data,
        forward_graph_index,
        reverse_graph_data,
        reverse_graph_index,
        config,
    );
    let elapsed_time = micros_since(&search_timer);
    let visited_count = bfs_state.visited_count();
    proof {
        if path.is_some() {
            let p = path.unwrap()@;
            let seen = bfs_state.visited_ids();
            assert(seen.contains(p[0].0));
            assert(seen.contains(p[p.len() - 1].0));
            if start != target {
                lemma_two_elements(seen, start, target);
            } else {
                assert(seen.len() != 0);
            }
        }
    }
    (path, visited_count, elapsed_time)
}

} // verus!
