//! A found path and its neighbourhood as they are shown.

use crate::algorithm::Algorithm;
use crate::fx::id_map_contains;
use crate::fx::id_map_get;
use crate::fx::id_map_keys;
use crate::fx::id_map_len;
use crate::graph_response::GraphEdge;
use crate::graph_response::build_graph_nodes;
use crate::graph_response::convert_path_to_artists;
use crate::graph_response::keeps_edge;
use crate::graph_response::knows_path;
use crate::graph_response::shows_artist;
use crate::graph_response::shows_path_step;
use crate::models::EnhancedPathData;
use crate::models::EnhancedPathError;
use crate::models::EnhancedPathResponse;
use crate::models::SearchStats;
use crate::parsing::Artist;
use crate::path_response::search_config;
use crate::pathfinding::BiDirectionalGraphs;
use crate::pathfinding::find_paths_with_exploration;
use crate::pathfinding::found_path;
use crate::pathfinding::graph::GraphView;
use crate::pathfinding::graph::backward_step;
use crate::pathfinding::graph::forward_step;
use crate::pathfinding::graph::is_joined_path;
use crate::pathfinding::graph::joined_at;
use crate::pathfinding::graph::lemma_joined_path_in_graphs;
use crate::pathfinding::graph::meets;
use crate::pathfinding::is_enhanced_result;
use crate::pathfinding::path_in;
use crate::pathfinding::utils::EnhancedPathResult;
use crate::pathfinding::utils::PathStep;
use crate::pathfinding_config::PathfindingConfig;
use crate::state::AppState;
use crate::utils::decimal;
use crate::utils::decimal_string;
use rustc_hash::FxHashMap;
use vstd::prelude::*;
use vstd::string::StringExecFns;

verus! {

/// The edges of a path, one for each step but the first.
pub open spec fn path_edges(path: Seq<PathStep>) -> Seq<GraphEdge> {
    Seq::new(
        if path.len() == 0 {
            0
        } else {
            (path.len() - 1) as nat
        },
        |i: int| GraphEdge { from: path[i].0, to: path[i + 1].0, similarity: path[i + 1].1 },
    )
}

/// Whether the path steps from `from` to `to`.
pub open spec fn is_path_step(path: Seq<PathStep>, from: u128, to: u128) -> bool {
    exists|i: int| 0 <= i < path.len() - 1 && (#[trigger] path[i]).0 == from && path[i + 1].0 == to
}

/// Whether no step of the path stays where it is.
pub open spec fn steps_differ(path: Seq<PathStep>) -> bool {
    forall|i: int| 0 <= i < path.len() - 1 ==> (#[trigger] path[i]).0 != path[i + 1].0
}

/// Whether an edge may be shown beside the path: it was kept, it leads to an
/// artist whose edges were kept, it is no loop, and the path does not step
/// the other way.
pub open spec fn is_context_edge(
    connections: Map<u128, Vec<PathStep>>,
    path: Seq<PathStep>,
    e: GraphEdge,
) -> bool {
    &&& keeps_edge(connections, e.from, e.to, e.similarity)
    &&& connections.contains_key(e.to)
    &&& e.from != e.to
    &&& !is_path_step(path, e.to, e.from)
}

/// Whether some edge of `edges` leads from `from` to `to`.
pub open spec fn joins(edges: Seq<GraphEdge>, from: u128, to: u128) -> bool {
    exists|i: int| 0 <= i < edges.len() && (#[trigger] edges[i]).from == from && edges[i].to == to
}

/// Whether `edges` is what is shown of a path and its neighbourhood: first
/// the edges of the path; then edges beside the path, none between two
/// artists that an earlier edge joins in the same direction, and one for
/// every pair of artists that such an edge may join.
pub open spec fn shows_path_graph(
    edges: Seq<GraphEdge>,
    connections: Map<u128, Vec<PathStep>>,
    path: Seq<PathStep>,
) -> bool {
    &&& edges.len() >= path_edges(path).len()
    &&& edges.take(path_edges(path).len() as int) == path_edges(path)
    &&& forall|i: int|
        path_edges(path).len() <= i < edges.len() ==> is_context_edge(
            connections,
            path,
            #[trigger] edges[i],
        ) && !joins(edges.take(i), edges[i].from, edges[i].to)
    &&& forall|e: GraphEdge| #[trigger]
        is_context_edge(connections, path, e) ==> joins(edges, e.from, e.to)
}

/// Whether the path steps from `from` to `to`.
fn path_steps(path: &[PathStep], from: u128, to: u128) -> (r: bool)
    ensures
        r == is_path_step(path@, from, to),
{
    let mut i: usize = 0;
    while i < path.len() && i + 1 < path.len()
        invariant
            forall|j: int| 0 <= j < i && j < path@.len() - 1 ==> !((#[trigger] path@[j]).0 == from
                && path@[j + 1].0 == to),
        decreases path.len() - i,
    {
        if path[i].0 == from && path[i + 1].0 == to {
            return true;
        }
        i = i + 1;
    }
    false
}

/// Whether some edge leads from `from` to `to`.
fn already_joined(edges: &Vec<GraphEdge>, from: u128, to: u128) -> (r: bool)
    ensures
        r == joins(edges@, from, to),
{
    let mut i: usize = 0;
    while i < edges.len()
        invariant
            i <= edges.len(),
            forall|j: int| 0 <= j < i ==> !((#[trigger] edges@[j]).from == from && edges@[j].to == to),
        decreases edges.len() - i,
    {
        if edges[i].from == from && edges[i].to == to {
            return true;
        }
        i = i + 1;
    }
    false
}

/// What holds of the edges collected so far: the edges of the path come
/// first, every later edge may be shown and joins a new pair, and a pair is
/// joined exactly when an earlier edge joined it or one of the edges of the
/// sources `done` may join it, or one of the first `k` edges of `current`.
spec fn collecting(
    edges: Seq<GraphEdge>,
    connections: Map<u128, Vec<PathStep>>,
    path: Seq<PathStep>,
) -> bool {
    &&& edges.len() >= path_edges(path).len()
    &&& edges.take(path_edges(path).len() as int) == path_edges(path)
    &&& forall|i: int|
        path_edges(path).len() <= i < edges.len() ==> is_context_edge(
            connections,
            path,
            #[trigger] edges[i],
        ) && !joins(edges.take(i), edges[i].from, edges[i].to)
}

/// An edge added behind edges collected keeps them collected, where it may
/// be shown and joins a new pair.
proof fn lemma_collect_one(
    edges: Seq<GraphEdge>,
    connections: Map<u128, Vec<PathStep>>,
    path: Seq<PathStep>,
    e: GraphEdge,
)
    requires
        collecting(edges, connections, path),
        is_context_edge(connections, path, e),
        !joins(edges, e.from, e.to),
    ensures
        collecting(edges.push(e), connections, path),
{
    let next = edges.push(e);
    let n = path_edges(path).len() as int;
    assert(next.take(n) =~= edges.take(n));
    assert forall|i: int| n <= i < next.len() implies is_context_edge(
        connections,
        path,
        #[trigger] next[i],
    ) && !joins(next.take(i), next[i].from, next[i].to) by {
        if i < edges.len() {
            assert(next[i] == edges[i]);
            assert(next.take(i) =~= edges.take(i));
        } else {
            assert(next.take(i) =~= edges);
        }
    }
}

/// A pair that is joined stays joined as edges are added.
proof fn lemma_joins_grows(edges: Seq<GraphEdge>, e: GraphEdge, from: u128, to: u128)
    ensures
        joins(edges, from, to) ==> joins(edges.push(e), from, to),
        e.from == from && e.to == to ==> joins(edges.push(e), from, to),
        joins(edges.push(e), from, to) ==> joins(edges, from, to) || (e.from == from && e.to
            == to),
{
    let next = edges.push(e);
    if joins(edges, from, to) {
        let i = choose|i: int|
            0 <= i < edges.len() && (#[trigger] edges[i]).from == from && edges[i].to == to;
        assert(next[i].from == from && next[i].to == to);
    }
    if e.from == from && e.to == to {
        assert(next[edges.len() as int].from == from);
    }
    if joins(next, from, to) {
        let i = choose|i: int|
            0 <= i < next.len() && (#[trigger] next[i]).from == from && next[i].to == to;
        if i < edges.len() {
            assert(edges[i].from == from && edges[i].to == to);
        }
    }
}

/// Adds to `edges` the edges of one artist that may be shown beside the
/// path, each where no edge joins its pair yet.
fn collect_context_from(
    edges: &mut Vec<GraphEdge>,
    connections: &FxHashMap<u128, Vec<PathStep>>,
    primary_path: &[PathStep],
    from_id: u128,
    list: &Vec<PathStep>,
)
    requires
        collecting(old(edges)@, connections@, primary_path@),
        connections@.contains_key(from_id),
        list@ == connections@[from_id]@,
    ensures
        collecting(final(edges)@, connections@, primary_path@),
        forall|a: u128, b: u128| joins(old(edges)@, a, b) ==> joins(final(edges)@, a, b),
        forall|e: GraphEdge| #[trigger]
            is_context_edge(connections@, primary_path@, e) && e.from == from_id ==> joins(
                final(edges)@,
                e.from,
                e.to,
            ),
{
    let mut k: usize = 0;
    while k < list.len()
        invariant
            k <= list.len(),
            collecting(edges@, connections@, primary_path@),
            connections@.contains_key(from_id),
            list@ == connections@[from_id]@,
            forall|a: u128, b: u128| joins(old(edges)@, a, b) ==> joins(edges@, a, b),
            forall|j: int|
                0 <= j < k && is_context_edge(
                    connections@,
                    primary_path@,
                    (GraphEdge { from: from_id, to: (#[trigger] list@[j]).0, similarity: list@[j].1 }),
                ) ==> joins(edges@, from_id, list@[j].0),
        decreases list.len() - k,
    {
        let (to_id, similarity) = list[k];
        let ghost so_far = edges@;
        let ghost edge = GraphEdge { from: from_id, to: to_id, similarity };
        if id_map_contains(connections, to_id) && from_id != to_id {
            let already_exists = already_joined(edges, from_id, to_id);
            let is_reverse_of_path = path_steps(primary_path, to_id, from_id);
            if !already_exists && !is_reverse_of_path {
                proof {
                    assert(list@.contains((to_id, similarity)));
                    lemma_collect_one(so_far, connections@, primary_path@, edge);
                }
                edges.push(GraphEdge { from: from_id, to: to_id, similarity });
            }
        }
        proof {
            assert forall|a: u128, b: u128| joins(old(edges)@, a, b) implies joins(
                edges@,
                a,
                b,
            ) by {
                assert(joins(so_far, a, b));
                if edges@.len() > so_far.len() {
                    lemma_joins_grows(so_far, edge, a, b);
                }
            }
            assert forall|j: int|
                0 <= j < k + 1 && is_context_edge(
                    connections@,
                    primary_path@,
                    (GraphEdge { from: from_id, to: (#[trigger] list@[j]).0, similarity: list@[j].1 }),
                ) implies joins(edges@, from_id, list@[j].0) by {
                if j < k {
                    assert(joins(so_far, from_id, list@[j].0));
                    if edges@.len() > so_far.len() {
                        lemma_joins_grows(so_far, edge, from_id, list@[j].0);
                    }
                } else {
                    if edges@.len() > so_far.len() {
                        lemma_joins_grows(so_far, edge, from_id, to_id);
                    }
                }
            }
        }
        k = k + 1;
    }
    proof {
        assert forall|e: GraphEdge| #[trigger]
            is_context_edge(connections@, primary_path@, e) && e.from == from_id implies joins(
            edges@,
            e.from,
            e.to,
        ) by {
            let j = choose|j: int| 0 <= j < list@.len() && list@[j] == (e.to, e.similarity);
            assert(e == (GraphEdge { from: from_id, to: list@[j].0, similarity: list@[j].1 }));
        }
    }
}

/// The edges shown for a path and its neighbourhood: every step of the path
/// as an edge that carries the similarity of the step; then every other edge
/// kept between two artists whose edges were kept, unless it is a loop, its
/// pair of artists is joined already, or the path steps the other way.
pub fn build_graph_edges(
    connections: &FxHashMap<u128, Vec<PathStep>>,
    primary_path: &[PathStep],
) -> (r: Vec<GraphEdge>)
    ensures
        shows_path_graph(r@, connections@, primary_path@),
        steps_differ(primary_path@) ==> forall|i: int|
            0 <= i < r@.len() ==> (#[trigger] r@[i]).from != r@[i].to,
{
    let mut edges: Vec<GraphEdge> = Vec::new();
    let mut i: usize = 0;
    while i < primary_path.len() && i + 1 < primary_path.len()
        invariant
            i < primary_path.len() || primary_path.len() == 0,
            edges@.len() == i,
            i <= path_edges(primary_path@).len(),
            forall|j: int| 0 <= j < i ==> #[trigger] edges@[j] == path_edges(primary_path@)[j],
        decreases primary_path.len() - i,
    {
        edges.push(
            GraphEdge {
                from: primary_path[i].0,
                to: primary_path[i + 1].0,
                similarity: primary_path[i + 1].1,
            },
        );
        i = i + 1;
    }
    proof {
        assert(edges@ =~= path_edges(primary_path@));
        assert(edges@.take(edges@.len() as int) =~= edges@);
    }

    let keys = id_map_keys(connections);
    let mut n: usize = 0;
    while n < keys.len()
        invariant
            n <= keys.len(),
            keys@.to_set() == connections@.dom(),
            collecting(edges@, connections@, primary_path@),
            forall|e: GraphEdge| #[trigger]
                is_context_edge(connections@, primary_path@, e) && keys@.take(n as int).contains(
                    e.from,
                ) ==> joins(edges@, e.from, e.to),
        decreases keys.len() - n,
    {
        let from_id = keys[n];
        assert(keys@.contains(keys@[n as int]));
        assert(connections@.dom().contains(from_id));
        let list = id_map_get(connections, from_id).unwrap();
        let ghost before = edges@;
        collect_context_from(&mut edges, connections, primary_path, from_id, list);
        proof {
            let earlier = keys@.take(n as int);
            let now = keys@.take(n + 1);
            assert forall|e: GraphEdge| #[trigger]
                is_context_edge(connections@, primary_path@, e) && now.contains(
                    e.from,
                ) implies joins(edges@, e.from, e.to) by {
                if e.from != from_id {
                    let j = choose|j: int| 0 <= j < now.len() && now[j] == e.from;
                    assert(earlier[j] == e.from);
                    assert(joins(before, e.from, e.to));
                }
            }
        }
        n = n + 1;
    }
    proof {
        assert(keys@.take(keys.len() as int) =~= keys@);
        assert forall|e: GraphEdge| #[trigger]
            is_context_edge(connections@, primary_path@, e) implies joins(
            edges@,
            e.from,
            e.to,
        ) by {
            assert(keys@.to_set().contains(e.from));
            assert(keys@.contains(e.from));
        }
        if steps_differ(primary_path@) {
            let m = path_edges(primary_path@).len() as int;
            assert forall|i: int| 0 <= i < edges@.len() implies (#[trigger] edges@[i]).from
                != edges@[i].to by {
                if i < m {
                    assert(edges@[i] == edges@.take(m)[i]);
                    assert(primary_path@[i].0 != primary_path@[i + 1].0);
                }
            }
        }
    }
    edges
}

/// What the answer says where the path has more artists than the budget
/// allows.
pub open spec fn too_long_message(path_length: usize, minimum_budget_needed: usize) -> Seq<char> {
    "Path requires "@ + decimal(path_length as nat)
        + " artists but budget is insufficient. Increase budget to "@ + decimal(
        minimum_budget_needed as nat,
    ) + " to enable full exploration."@
}

/// Whether `response` answers with `result`.
pub open spec fn answers(
    response: EnhancedPathResponse,
    result: EnhancedPathResult,
    artists: Map<u128, Artist>,
) -> bool {
    match result {
        EnhancedPathResult::Success {
            primary_path,
            related_artists,
            connections,
            artists_visited,
            duration_ms,
        } => {
            &&& response.status@ == "success"@
            &&& response.error.is_none()
            &&& response.data.is_some()
            &&& response.data.unwrap().primary_path@.len() == primary_path@.len()
            &&& forall|i: int|
                0 <= i < primary_path@.len() ==> shows_path_step(
                    #[trigger] response.data.unwrap().primary_path@[i],
                    primary_path@,
                    i,
                    artists,
                )
            &&& forall|i: int|
                0 <= i < response.data.unwrap().nodes@.len() ==> shows_artist(
                    #[trigger] response.data.unwrap().nodes@[i],
                    related_artists@,
                    artists,
                )
            &&& shows_path_graph(response.data.unwrap().edges@, connections@, primary_path@)
            &&& response.data.unwrap().total_artists == related_artists@.len()
            &&& response.search_stats.artists_visited == artists_visited
            &&& response.search_stats.duration_ms == duration_ms
        },
        EnhancedPathResult::PathTooLong {
            primary_path,
            path_length,
            minimum_budget_needed,
            artists_visited,
            duration_ms,
        } => {
            &&& response.status@ == "path_too_long"@
            &&& response.data.is_none()
            &&& response.error.is_some()
            &&& response.error.unwrap().error_type@ == "path_too_long"@
            &&& response.error.unwrap().message@ == too_long_message(
                path_length,
                minimum_budget_needed,
            )
            &&& response.error.unwrap().path_length == Some(path_length)
            &&& response.error.unwrap().minimum_budget_needed == Some(minimum_budget_needed)
            &&& response.error.unwrap().primary_path.is_some()
            &&& response.error.unwrap().primary_path.unwrap()@.len() == primary_path@.len()
            &&& forall|i: int|
                0 <= i < primary_path@.len() ==> shows_path_step(
                    #[trigger] response.error.unwrap().primary_path.unwrap()@[i],
                    primary_path@,
                    i,
                    artists,
                )
            &&& response.search_stats.artists_visited == artists_visited
            &&& response.search_stats.duration_ms == duration_ms
        },
        EnhancedPathResult::NoPath { artists_visited, duration_ms } => {
            &&& response.status@ == "no_path"@
            &&& response.data.is_none()
            &&& response.error.is_some()
            &&& response.error.unwrap().error_type@ == "no_path"@
            &&& response.error.unwrap().message@ == "No path found between the specified artists"@
            &&& response.error.unwrap().path_length.is_none()
            &&& response.error.unwrap().minimum_budget_needed.is_none()
            &&& response.error.unwrap().primary_path.is_none()
            &&& response.search_stats.artists_visited == artists_visited
            &&& response.search_stats.duration_ms == duration_ms
        },
    }
}

/// Makes the answer to a search for a path with its neighbourhood.
pub fn build_enhanced_path_response(
    core_result: EnhancedPathResult,
    artist_metadata: &FxHashMap<u128, Artist>,
) -> (r: EnhancedPathResponse)
    requires
        path_in(core_result).is_some() ==> knows_path(
            artist_metadata@,
            path_in(core_result).unwrap(),
        ),
    ensures
        answers(r, core_result, artist_metadata@),
{
    match core_result {
        EnhancedPathResult::Success {
            primary_path,
            related_artists,
            connections,
            artists_visited,
            duration_ms,
        } => {
            let path_artists = convert_path_to_artists(primary_path.as_slice(), artist_metadata);
            let nodes = build_graph_nodes(&related_artists, artist_metadata);
            let edges = build_graph_edges(&connections, primary_path.as_slice());
            EnhancedPathResponse {
                status: String::from_str("success"),
                data: Some(
                    EnhancedPathData {
                        primary_path: path_artists,
                        nodes,
                        edges,
                        total_artists: id_map_len(&related_artists),
                    },
                ),
                error: None,
                search_stats: SearchStats { artists_visited, duration_ms },
            }
        },
        EnhancedPathResult::PathTooLong {
            primary_path,
            path_length,
            minimum_budget_needed,
            artists_visited,
            duration_ms,
        } => {
            let path_artists = convert_path_to_artists(primary_path.as_slice(), artist_metadata);
            let message = String::from_str("Path requires ");
            let message = message.concat(decimal_string(path_length).as_str());
            let message = message.concat(
                " artists but budget is insufficient. Increase budget to ",
            );
            let message = message.concat(decimal_string(minimum_budget_needed).as_str());
            let message = message.concat(" to enable full exploration.");
            EnhancedPathResponse {
                status: String::from_str("path_too_long"),
                data: None,
                error: Some(
                    EnhancedPathError {
                        error_type: String::from_str("path_too_long"),
                        message,
                        path_length: Some(path_length),
                        minimum_budget_needed: Some(minimum_budget_needed),
                        primary_path: Some(path_artists),
                    },
                ),
                search_stats: SearchStats { artists_visited, duration_ms },
            }
        },
        EnhancedPathResult::NoPath { artists_visited, duration_ms } => EnhancedPathResponse {
            status: String::from_str("no_path"),
            data: None,
            error: Some(
                EnhancedPathError {
                    error_type: String::from_str("no_path"),
                    message: String::from_str("No path found between the specified artists"),
                    path_length: None,
                    minimum_budget_needed: None,
                    primary_path: None,
                },
            ),
            search_stats: SearchStats { artists_visited, duration_ms },
        },
    }
}

/// Searches a path between two artists with the chosen algorithm, finds
/// the neighbourhood of the path within a budget of artists, and names the
/// artists. The search is weighted where the algorithm is. The table of
/// artists must know the artists of the path: those of the graph files and,
/// where a path exists, its two ends.
pub fn find_enhanced_path_between_artists(
    from_id: u128,
    to_id: u128,
    algorithm: Algorithm,
    min_similarity: u32,
    max_relations: usize,
    budget: usize,
    state: &AppState,
) -> (r: EnhancedPathResponse)
    requires
        state.names_graphs(),
        meets(
            state.forward_view(search_config(algorithm, min_similarity, max_relations)),
            state.reverse_view(search_config(algorithm, min_similarity, max_relations)),
            from_id,
            to_id,
        ) ==> state.artist_metadata@.contains_key(from_id) && state.artist_metadata@.contains_key(
            to_id,
        ),
    ensures
        exists|found: EnhancedPathResult|
            {
                &&& path_in(found) == found_path(
                    algorithm,
                    state.forward_view(search_config(algorithm, min_similarity, max_relations)),
                    state.reverse_view(search_config(algorithm, min_similarity, max_relations)),
                    from_id,
                    to_id,
                )
                &&& is_enhanced_result(
                    found,
                    state.forward_view(search_config(algorithm, min_similarity, max_relations)),
                    state.reverse_view(search_config(algorithm, min_similarity, max_relations)),
                    from_id,
                    to_id,
                    budget,
                )
                &&& #[trigger] answers(r, found, state.artist_metadata@)
            },
{
    let weighted = match algorithm {
        Algorithm::Dijkstra => true,
        Algorithm::Bfs => false,
    };
    let config = PathfindingConfig::new(min_similarity, max_relations, weighted);
    let graphs = BiDirectionalGraphs {
        forward: (state.graph_data, &state.graph_index),
        reverse: (state.reverse_graph_data, &state.reverse_graph_index),
    };
    let core_result = find_paths_with_exploration(from_id, to_id, algorithm, budget, graphs, &config);
    let ghost found = core_result;
    proof {
        let fwd = state.forward_view(config);
        let rev = state.reverse_view(config);
        assert(graphs.forward_view(config) == fwd);
        assert(graphs.reverse_view(config) == rev);
        if path_in(found).is_some() {
            let p = path_in(found).unwrap();
            assert(is_joined_path(fwd, rev, from_id, to_id, p));
            lemma_joined_path_in_graphs(fwd, rev, from_id, to_id, p);
            assert forall|i: int| 0 <= i < p.len() implies state.artist_metadata@.contains_key(
                (#[trigger] p[i]).0,
            ) by {
                if i == 0 {
                } else if i == p.len() - 1 {
                    assert(p[i] == p.last());
                } else {
                }
            }
        }
    }
    let response = build_enhanced_path_response(core_result, &state.artist_metadata);
    assert(answers(response, found, state.artist_metadata@));
    response
}

/// A path that a search found has no step that stays where it is.
pub proof fn lemma_found_steps_differ(
    fwd: GraphView,
    rev: GraphView,
    start: u128,
    target: u128,
    p: Seq<PathStep>,
)
    requires
        is_joined_path(fwd, rev, start, target, p),
    ensures
        steps_differ(p),
{
    let k = choose|k: int| joined_at(fwd, rev, p, k);
    assert forall|i: int| 0 <= i < p.len() - 1 implies (#[trigger] p[i]).0 != p[i + 1].0 by {
        if i < k {
            assert(forward_step(fwd, p, i));
        } else {
            assert(backward_step(rev, p, i));
        }
    }
}

} // verus!
