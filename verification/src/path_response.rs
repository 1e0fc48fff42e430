//! The answer to a search for a path along the forward graph.

use crate::algorithm::Algorithm;
use crate::clock::instant_now;
use crate::clock::millis_since;
use crate::graph_response::convert_path_to_artists;
use crate::graph_response::knows_path;
use crate::graph_response::shows_path_step;
use crate::graph_response::PathArtist;
use crate::models::PathResponse;
use crate::models::SearchStats;
use crate::parsing::Artist;
use crate::pathfinding::bfs::layers::is_fewest_path;
use crate::pathfinding::graph::is_forward_path;
use crate::pathfinding::graph::is_shortest_path;
use crate::pathfinding::graph::lemma_forward_path_in_graph;
use crate::pathfinding::graph::reaches;
use crate::pathfinding::graph::GraphView;
use crate::pathfinding::unidirectional::bfs_find_path;
use crate::pathfinding::unidirectional::dijkstra_find_path;
use crate::pathfinding::utils::PathStep;
use crate::pathfinding_config::PathfindingConfig;
use crate::state::AppState;
use rustc_hash::FxHashMap;
use std::time::Instant;
use vstd::prelude::*;

verus! {

/// Whether `p` is a path that the chosen algorithm may find from `start` to
/// `target` along the graph: for the weighted search a path of least cost,
/// for the other a path of the fewest steps.
pub open spec fn is_found_path(
    algorithm: Algorithm,
    g: GraphView,
    start: u128,
    target: u128,
    p: Seq<PathStep>,
) -> bool {
    match algorithm {
        Algorithm::Bfs => is_fewest_path(g, start, target, p),
        Algorithm::Dijkstra => is_shortest_path(g, start, target, p),
    }
}

/// Whether `shown` names the artists of `path`.
pub open spec fn shows_path(
    shown: Seq<PathArtist>,
    path: Seq<PathStep>,
    artists: Map<u128, Artist>,
) -> bool {
    &&& shown.len() == path.len()
    &&& forall|i: int| 0 <= i < path.len() ==> shows_path_step(#[trigger] shown[i], path, i, artists)
}

/// The configuration of a search with the chosen algorithm: weighted where
/// the algorithm is.
pub open spec fn search_config(
    algorithm: Algorithm,
    min_similarity: u32,
    max_relations: usize,
) -> PathfindingConfig {
    PathfindingConfig {
        min_match: min_similarity,
        top_related: max_relations,
        weighted: algorithm is Dijkstra,
    }
}

/// Searches a path along the forward graph with the chosen algorithm, and
/// says how many artists the search visited and when it began.
pub fn execute_pathfinding(
    from_id: u128,
    to_id: u128,
    algorithm: Algorithm,
    config: &PathfindingConfig,
    state: &AppState,
) -> (r: (Option<Vec<PathStep>>, usize, Instant))
    ensures
        r.0.is_some() == reaches(state.forward_view(*config), from_id, to_id),
        r.0.is_some() ==> is_found_path(
            algorithm,
            state.forward_view(*config),
            from_id,
            to_id,
            r.0.unwrap()@,
        ),
{
    let start_time = instant_now();
    let (path_result, artists_visited, _) = match algorithm {
        Algorithm::Dijkstra => dijkstra_find_path(
            from_id,
            to_id,
            state.graph_data,
            &state.graph_index,
            config,
        ),
        Algorithm::Bfs => bfs_find_path(from_id, to_id, state.graph_data, &state.graph_index, config),
    };
    (path_result, artists_visited, start_time)
}

/// The answer to a search for a path: the artists of the path named, their
/// number, and the number of steps between them.
pub fn build_path_response(
    path_result: Option<Vec<PathStep>>,
    artists_visited: usize,
    duration_ms: u64,
    algorithm: Algorithm,
    artist_metadata: &FxHashMap<u128, Artist>,
) -> (r: PathResponse)
    requires
        path_result.is_some() ==> knows_path(artist_metadata@, path_result.unwrap()@),
    ensures
        r.path.is_some() == path_result.is_some(),
        path_result.is_some() ==> shows_path(
            r.path.unwrap()@,
            path_result.unwrap()@,
            artist_metadata@,
        ),
        r.artist_count == (match path_result {
            Some(p) => p@.len(),
            None => 0,
        }),
        r.step_count == (if r.artist_count > 0 {
            r.artist_count - 1
        } else {
            0
        }),
        r.algorithm == algorithm,
        r.search_stats.artists_visited == artists_visited,
        r.search_stats.duration_ms == duration_ms,
{
    let path = match &path_result {
        Some(path_data) => Some(convert_path_to_artists(path_data.as_slice(), artist_metadata)),
        None => None,
    };
    let artist_count = match &path {
        Some(p) => p.len(),
        None => 0,
    };
    let step_count = if artist_count > 0 {
        artist_count - 1
    } else {
        0
    };
    PathResponse {
        path,
        artist_count,
        step_count,
        algorithm,
        search_stats: SearchStats { artists_visited, duration_ms },
    }
}

/// Searches a path along the forward graph with the chosen algorithm and
/// names its artists. The search is weighted where the algorithm is. The
/// table of artists must know the artists of the path: those of the graph
/// files and, where a path exists, the first.
pub fn find_path_between_artists(
    from_id: u128,
    to_id: u128,
    algorithm: Algorithm,
    min_similarity: u32,
    max_relations: usize,
    state: &AppState,
) -> (r: PathResponse)
    requires
        state.names_graphs(),
        reaches(
            state.forward_view(search_config(algorithm, min_similarity, max_relations)),
            from_id,
            to_id,
        ) ==> state.artist_metadata@.contains_key(from_id),
    ensures
        r.algorithm == algorithm,
        r.path.is_some() == reaches(
            state.forward_view(search_config(algorithm, min_similarity, max_relations)),
            from_id,
            to_id,
        ),
        r.path.is_some() ==> exists|p: Seq<PathStep>|
            is_found_path(
                algorithm,
                state.forward_view(search_config(algorithm, min_similarity, max_relations)),
                from_id,
                to_id,
                p,
            ) && #[trigger] shows_path(r.path.unwrap()@, p, state.artist_metadata@),
        r.artist_count == (match r.path {
            Some(p) => p@.len(),
            None => 0,
        }),
        r.step_count == (if r.artist_count > 0 {
            r.artist_count - 1
        } else {
            0
        }),
{
    let weighted = match algorithm {
        Algorithm::Dijkstra => true,
        Algorithm::Bfs => false,
    };
    let config = PathfindingConfig::new(min_similarity, max_relations, weighted);
    let (path_result, artists_visited, start_time) = execute_pathfinding(
        from_id,
        to_id,
        algorithm,
        &config,
        state,
    );
    let ghost found = path_result;
    proof {
        if path_result.is_some() {
            let p = path_result.unwrap()@;
            let g = state.forward_view(config);
            assert(is_forward_path(g, from_id, to_id, p));
            lemma_forward_path_in_graph(g, from_id, to_id, p);
            assert(knows_path(state.artist_metadata@, p));
        }
    }
    let response = build_path_response(
        path_result,
        artists_visited,
        millis_since(&start_time),
        algorithm,
        &state.artist_metadata,
    );
    proof {
        if found.is_some() {
            assert(shows_path(response.path.unwrap()@, found.unwrap()@, state.artist_metadata@));
        }
    }
    response
}

} // verus!
