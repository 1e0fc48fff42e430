//! Path search from the start alone, over one graph.

use crate::clock::instant_now;
use crate::clock::micros_since;
use crate::fx::id_set_len;
use crate::pathfinding::bfs::layers::is_fewest_path;
use crate::pathfinding::bfs::state::lemma_side_fewest;
use crate::pathfinding::bfs::state::path_along_tree;
use crate::pathfinding::bfs::state::BfsSide;
use crate::pathfinding::dijkstra::holds_at;
use crate::pathfinding::dijkstra::relaxed;
use crate::pathfinding::dijkstra::DijkstraState;
use crate::pathfinding::dijkstra::Taken;
use crate::pathfinding::graph::closed;
use crate::pathfinding::dijkstra::lemma_tree_cost;
use crate::pathfinding::graph::is_nearest;
use crate::pathfinding::graph::is_shortest_path;
use crate::pathfinding::graph::is_walk;
use crate::pathfinding::graph::lemma_exhausted;
use crate::pathfinding::graph::reaches;
use crate::pathfinding::graph::GraphView;
use crate::pathfinding::utils::get_artist_connections;
use crate::pathfinding::utils::PathResult;
use crate::pathfinding_config::PathfindingConfig;
use rustc_hash::FxHashMap;
use vstd::prelude::*;

verus! {

/// Searches a path from `start` to `target` breadth first.
///
/// There is a path exactly when the start reaches the target. The path
/// returned goes along edges of the graph, and no path along the graph from
/// the start to the target has fewer steps. With it come the number of
/// artists visited and the time taken in microseconds.
pub fn bfs_find_path(
    start: u128,
    target: u128,
    graph_data: &[u8],
    graph_index: &FxHashMap<u128, u64>,
    config: &PathfindingConfig,
) -> (r: PathResult)
    ensures
        r.0.is_some() == reaches(
            (GraphView { data: graph_data@, index: graph_index@, config: *config }),
            start,
            target,
        ),
        r.0.is_some() ==> is_fewest_path(
            (GraphView { data: graph_data@, index: graph_index@, config: *config }),
            start,
            target,
            r.0.unwrap()@,
        ),
{
    let ghost g = GraphView { data: graph_data@, index: graph_index@, config: *config };
    let search_timer = instant_now();
    let mut bfs_state = BfsSide::new(start, Ghost(g));

    while bfs_state.queue.len() > 0
        invariant
            bfs_state.inv(g, start),
            closed(g, bfs_state@),
            !bfs_state.visited@.contains(target),
            g == (GraphView { data: graph_data@, index: graph_index@, config: *config }),
        decreases g.universe(start).difference(bfs_state.visited@).len(), bfs_state.queue@.len(),
    {
        match bfs_state.take_next(Ghost(g), Ghost(start)) {
            Some(current_artist) => {
                if current_artist == target {
                    let path = path_along_tree(
                        &bfs_state.parent,
                        start,
                        target,
                        Ghost(g),
                        Ghost(bfs_state@),
                    );
                    let elapsed_time = micros_since(&search_timer);
                    proof {
                        assert(bfs_state@.visited.contains(target));
                        lemma_side_fewest(bfs_state, g, start, target, path@);
                    }
                    return (Some(path), id_set_len(&bfs_state.visited), elapsed_time);
                }
                let artist_connections = get_artist_connections(
                    current_artist,
                    graph_data,
                    graph_index,
                    config,
                );
                bfs_state.expand(current_artist, artist_connections, Ghost(g), Ghost(start));
            },
            None => {},
        }
    }
    proof {
        assert forall|v: u128| !bfs_state@.pending.contains(v) by {
            if bfs_state.queued@.contains(v) {
                assert(bfs_state.queue@.contains(v));
            }
        }
        if reaches(g, start, target) {
            let w = choose|w: Seq<u128>| is_walk(g, w) && w[0] == start && w.last() == target;
            lemma_exhausted(g, start, bfs_state@, w);
        }
    }
    let elapsed_time = micros_since(&search_timer);
    (None, id_set_len(&bfs_state.visited), elapsed_time)
}

/// Searches a path from `start` to `target` by best similarity.
///
/// There is a path exactly when the start reaches the target. The path
/// returned goes along edges of the graph, and no path along the graph from
/// the start to the target is shorter. With it come the number of artists
/// visited and the time taken in microseconds.
pub fn dijkstra_find_path(
    start: u128,
    target: u128,
    graph_data: &[u8],
    graph_index: &FxHashMap<u128, u64>,
    config: &PathfindingConfig,
) -> (r: PathResult)
    ensures
        r.0.is_some() == reaches(
            (GraphView { data: graph_data@, index: graph_index@, config: *config }),
            start,
            target,
        ),
        r.0.is_some() ==> is_shortest_path(
            (GraphView { data: graph_data@, index: graph_index@, config: *config }),
            start,
            target,
            r.0.unwrap()@,
        ),
{
    let ghost g = GraphView { data: graph_data@, index: graph_index@, config: *config };
    let search_timer = instant_now();
    let data_len = graph_data.len();
    let mut dijkstra_state = DijkstraState::new(start, Ghost(g));

    loop
        invariant_except_break
            dijkstra_state.inv(g, start),
            closed(g, dijkstra_state@),
            relaxed(g, dijkstra_state@, dijkstra_state.distances@),
            !dijkstra_state.visited@.contains(target),
            g == (GraphView { data: graph_data@, index: graph_index@, config: *config }),
        ensures
            dijkstra_state.inv(g, start),
            closed(g, dijkstra_state@),
            !dijkstra_state.visited@.contains(target),
            dijkstra_state.heap@.len() == 0,
        decreases
                g.universe(start).difference(dijkstra_state.visited@).len(),
                dijkstra_state.heap@.len(),
    {
        match dijkstra_state.take_next(None, Ghost(g), Ghost(start)) {
            Taken::Fresh(node) => {
                let current_artist = node.artist;
                if current_artist == target {
                    let path = path_along_tree(
                        &dijkstra_state.parent_map,
                        start,
                        target,
                        Ghost(g),
                        Ghost(dijkstra_state@),
                    );
                    let elapsed_time = micros_since(&search_timer);
                    proof {
                        assert(dijkstra_state@.visited.contains(target));
                        lemma_tree_cost(
                            start,
                            dijkstra_state@,
                            dijkstra_state.distances@,
                            path@,
                            path@.len() - 1,
                        );
                        assert(path@.take(path@.len() as int) =~= path@);
                        assert(is_nearest(
                            g,
                            start,
                            target,
                            dijkstra_state.distances@[target] as int,
                        ));
                    }
                    return (Some(path), id_set_len(&dijkstra_state.visited), elapsed_time);
                }
                let artist_connections = get_artist_connections(
                    current_artist,
                    graph_data,
                    graph_index,
                    config,
                );
                dijkstra_state.expand(
                    current_artist,
                    node.cost,
                    &artist_connections,
                    Ghost(g),
                    Ghost(start),
                );
            },
            Taken::Stale => {},
            Taken::Beyond => {},
            Taken::Nothing => {
                break ;
            },
        }
    }
    proof {
        assert forall|v: u128| !dijkstra_state@.pending.contains(v) by {
            if dijkstra_state.pending@.contains(v) {
                assert(holds_at(dijkstra_state.heap@, v, dijkstra_state.distances@[v]));
            }
        }
        if reaches(g, start, target) {
            let w = choose|w: Seq<u128>| is_walk(g, w) && w[0] == start && w.last() == target;
            lemma_exhausted(g, start, dijkstra_state@, w);
        }
    }
    let elapsed_time = micros_since(&search_timer);
    (None, id_set_len(&dijkstra_state.visited), elapsed_time)
}

} // verus!
