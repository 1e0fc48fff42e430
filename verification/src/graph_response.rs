//! The graph of an exploration as it is shown: its nodes and its edges.
//!
//! The maps of an exploration are walked in an order that is left open, so
//! the lists made here are described by what they hold, not by their order.

use crate::algorithm::Algorithm;
use crate::clock::instant_now;
use crate::clock::millis_since;
use crate::exploration::ExplorationResult;
use crate::exploration::bfs::explored_view;
use crate::exploration::explore_bfs;
use crate::exploration::explore_dijkstra;
use crate::exploration::is_exploration;
use crate::fx::id_map_contains;
use crate::fx::id_map_get;
use crate::fx::id_map_keys;
use crate::models::GraphExploreResponse;
use crate::models::SearchStats;
use crate::parsing::Artist;
use crate::pathfinding::utils::PathStep;
use crate::state::AppState;
use rustc_hash::FxHashMap;
use vstd::prelude::*;
use vstd::string::StringExecFns;

verus! {

/// An edge of the graph shown.
#[derive(Debug, Clone, Copy, PartialEq, Eq, Structural)]
pub struct GraphEdge {
    pub from: u128,
    pub to: u128,
    pub similarity: u32,
}

/// A node of the graph shown.
#[derive(Debug, Clone)]
pub struct GraphNode {
    pub id: u128,
    pub name: String,
    pub layer: usize,
    pub similarity: u32,
    pub url: Option<String>,
}

/// An artist of a path; the first carries no similarity.
#[derive(Debug, Clone)]
pub struct PathArtist {
    pub id: u128,
    pub name: String,
    pub url: String,
    pub similarity: Option<u32>,
}

/// Whether the edges kept for artist `u` hold one to `v` of similarity `s`.
pub open spec fn keeps_edge(connections: Map<u128, Vec<PathStep>>, u: u128, v: u128, s: u32) -> bool {
    connections.contains_key(u) && connections[u]@.contains((v, s))
}

/// Whether an edge is shown: it was kept, it leads to an artist that was
/// found, and it is no loop.
pub open spec fn is_shown_edge(
    found: Set<u128>,
    connections: Map<u128, Vec<PathStep>>,
    e: GraphEdge,
) -> bool {
    keeps_edge(connections, e.from, e.to, e.similarity) && found.contains(e.to) && e.from != e.to
}

/// The edge in the other direction.
pub open spec fn flipped(e: GraphEdge) -> GraphEdge {
    GraphEdge { from: e.to, to: e.from, similarity: e.similarity }
}

/// Whether one of the first `k` edges of `list` leads to `to` with
/// similarity `s`.
pub open spec fn listed_upto(list: Seq<PathStep>, k: int, to: u128, s: u32) -> bool {
    exists|j: int| 0 <= j < k && j < list.len() && #[trigger] list[j] == (to, s)
}

/// Whether an edge from `from` is shown on the strength of one of the first
/// `k` edges of `list`.
pub open spec fn shown_upto(found: Set<u128>, list: Seq<PathStep>, from: u128, k: int, e: GraphEdge) -> bool {
    e.from == from && e.from != e.to && found.contains(e.to) && listed_upto(
        list,
        k,
        e.to,
        e.similarity,
    )
}

/// Adds to `edges` the edges shown among those kept for one artist.
fn collect_edges_from(
    edges: &mut Vec<GraphEdge>,
    discovered: &FxHashMap<u128, (u32, usize)>,
    from_id: u128,
    list: &Vec<PathStep>,
)
    ensures
        forall|e: GraphEdge|
            #![trigger final(edges)@.contains(e)]
            final(edges)@.contains(e) <==> old(edges)@.contains(e) || shown_upto(
                discovered@.dom(),
                list@,
                from_id,
                list@.len() as int,
                e,
            ),
{
    let ghost found = discovered@.dom();
    let ghost before = edges@;
    let mut k: usize = 0;
    while k < list.len()
        invariant
            k <= list.len(),
            found == discovered@.dom(),
            before == old(edges)@,
            forall|e: GraphEdge|
                #![trigger edges@.contains(e)]
                edges@.contains(e) <==> before.contains(e) || shown_upto(
                    found,
                    list@,
                    from_id,
                    k as int,
                    e,
                ),
        decreases list.len() - k,
    {
        let (to_id, similarity) = list[k];
        let ghost so_far = edges@;
        let take = id_map_contains(discovered, to_id) && from_id != to_id;
        if take {
            edges.push(GraphEdge { from: from_id, to: to_id, similarity });
        }
        proof {
            let edge = GraphEdge { from: from_id, to: to_id, similarity };
            assert forall|e: GraphEdge|
                #![trigger edges@.contains(e)]
                edges@.contains(e) <==> before.contains(e) || shown_upto(
                    found,
                    list@,
                    from_id,
                    k + 1,
                    e,
                ) by {
                assert(so_far.contains(e) <==> before.contains(e) || shown_upto(
                    found,
                    list@,
                    from_id,
                    k as int,
                    e,
                ));
                if edges@.contains(e) {
                    let j = choose|j: int| 0 <= j < edges@.len() && edges@[j] == e;
                    if j < so_far.len() {
                        assert(so_far[j] == e);
                        assert(so_far.contains(e));
                        if shown_upto(found, list@, from_id, k as int, e) {
                            let w = choose|w: int|
                                0 <= w < k && w < list@.len() && #[trigger] list@[w] == (
                                    e.to,
                                    e.similarity,
                                );
                            assert(listed_upto(list@, k + 1, e.to, e.similarity));
                        }
                    } else {
                        assert(e == edge);
                        assert(list@[k as int] == (e.to, e.similarity));
                        assert(listed_upto(list@, k + 1, e.to, e.similarity));
                    }
                }
                if so_far.contains(e) {
                    let j = choose|j: int| 0 <= j < so_far.len() && so_far[j] == e;
                    assert(edges@[j] == e);
                }
                if shown_upto(found, list@, from_id, k + 1, e) {
                    let w = choose|w: int|
                        0 <= w < k + 1 && w < list@.len() && #[trigger] list@[w] == (
                            e.to,
                            e.similarity,
                        );
                    if w < k {
                        assert(listed_upto(list@, k as int, e.to, e.similarity));
                        assert(shown_upto(found, list@, from_id, k as int, e));
                        assert(so_far.contains(e));
                    } else {
                        assert(e == edge);
                        assert(take);
                        assert(edges@[so_far.len() as int] == e);
                    }
                }
            }
        }
        k = k + 1;
    }
}

/// Collects the edges shown among the edges kept.
fn collect_edges(
    discovered: &FxHashMap<u128, (u32, usize)>,
    connections: &FxHashMap<u128, Vec<PathStep>>,
) -> (r: Vec<GraphEdge>)
    ensures
        forall|e: GraphEdge| r@.contains(e) <==> is_shown_edge(discovered@.dom(), connections@, e),
{
    let mut edges: Vec<GraphEdge> = Vec::new();
    let keys = id_map_keys(connections);
    let ghost found = discovered@.dom();
    let mut i: usize = 0;
    while i < keys.len()
        invariant
            i <= keys.len(),
            found == discovered@.dom(),
            keys@.to_set() == connections@.dom(),
            forall|e: GraphEdge|
                #![trigger edges@.contains(e)]
                edges@.contains(e) <==> is_shown_edge(found, connections@, e) && keys@.take(
                    i as int,
                ).contains(e.from),
        decreases keys.len() - i,
    {
        let from_id = keys[i];
        assert(keys@.contains(keys@[i as int]));
        assert(connections@.dom().contains(from_id));
        let list = id_map_get(connections, from_id).unwrap();
        let ghost before = edges@;
        collect_edges_from(&mut edges, discovered, from_id, list);
        proof {
            let earlier = keys@.take(i as int);
            let now = keys@.take(i + 1);
            assert(now =~= earlier.push(from_id));
            assert(now[i as int] == from_id);
            assert forall|e: GraphEdge|
                #![trigger edges@.contains(e)]
                edges@.contains(e) <==> is_shown_edge(found, connections@, e) && now.contains(
                    e.from,
                ) by {
                assert(before.contains(e) <==> is_shown_edge(found, connections@, e)
                    && earlier.contains(e.from));
                if earlier.contains(e.from) {
                    let j = choose|j: int| 0 <= j < earlier.len() && earlier[j] == e.from;
                    assert(now[j] == e.from);
                }
                if now.contains(e.from) && e.from != from_id {
                    let j = choose|j: int| 0 <= j < now.len() && now[j] == e.from;
                    assert(earlier[j] == e.from);
                }
                if shown_upto(found, list@, from_id, list@.len() as int, e) {
                    let w = choose|w: int|
                        0 <= w < list@.len() && #[trigger] list@[w] == (e.to, e.similarity);
                    assert(list@.contains((e.to, e.similarity)));
                }
                if is_shown_edge(found, connections@, e) && e.from == from_id {
                    let w = choose|w: int|
                        0 <= w < list@.len() && list@[w] == (e.to, e.similarity);
                    assert(listed_upto(list@, list@.len() as int, e.to, e.similarity));
                }
            }
        }
        i = i + 1;
    }
    proof {
        assert(keys@.take(keys.len() as int) =~= keys@);
        assert forall|e: GraphEdge|
            edges@.contains(e) <==> is_shown_edge(found, connections@, e) by {
            if is_shown_edge(found, connections@, e) {
                assert(keys@.to_set().contains(e.from));
                assert(keys@.contains(e.from));
            }
        }
    }
    edges
}

/// The edges shown for an exploration of the forward graph: every edge kept
/// that leads to an artist that was found and is no loop.
pub fn build_graph_edges(exploration_result: &ExplorationResult) -> (r: Vec<GraphEdge>)
    ensures
        forall|e: GraphEdge|
            r@.contains(e) <==> is_shown_edge(
                exploration_result.discovered_artists@.dom(),
                exploration_result.connections@,
                e,
            ),
        forall|i: int| 0 <= i < r@.len() ==> (#[trigger] r@[i]).from != r@[i].to,
{
    let r = collect_edges(
        &exploration_result.discovered_artists,
        &exploration_result.connections,
    );
    assert forall|i: int| 0 <= i < r@.len() implies (#[trigger] r@[i]).from != r@[i].to by {
        assert(r@.contains(r@[i]));
    }
    r
}

/// The edges shown for an exploration of the reverse graph: every edge kept
/// that leads to an artist that was found and is no loop, turned round so
/// that it points the way the forward graph does.
pub fn build_reverse_graph_edges(exploration_result: &ExplorationResult) -> (r: Vec<GraphEdge>)
    ensures
        forall|e: GraphEdge|
            r@.contains(e) <==> is_shown_edge(
                exploration_result.discovered_artists@.dom(),
                exploration_result.connections@,
                flipped(e),
            ),
        forall|i: int| 0 <= i < r@.len() ==> (#[trigger] r@[i]).from != r@[i].to,
{
    let plain = collect_edges(
        &exploration_result.discovered_artists,
        &exploration_result.connections,
    );
    let mut edges: Vec<GraphEdge> = Vec::new();
    let mut i: usize = 0;
    while i < plain.len()
        invariant
            i <= plain.len(),
            edges@.len() == i,
            forall|j: int| 0 <= j < i ==> #[trigger] edges@[j] == flipped(plain@[j]),
        decreases plain.len() - i,
    {
        let e = plain[i];
        edges.push(GraphEdge { from: e.to, to: e.from, similarity: e.similarity });
        i = i + 1;
    }
    proof {
        assert forall|e: GraphEdge| edges@.contains(e) <==> plain@.contains(flipped(e)) by {
            if edges@.contains(e) {
                let j = choose|j: int| 0 <= j < edges@.len() && edges@[j] == e;
                assert(plain@[j] == flipped(e));
            }
            if plain@.contains(flipped(e)) {
                let j = choose|j: int| 0 <= j < plain@.len() && plain@[j] == flipped(e);
                assert(edges@[j] == e);
            }
        }
        assert forall|j: int| 0 <= j < edges@.len() implies (#[trigger] edges@[j]).from
            != edges@[j].to by {
            assert(plain@.contains(plain@[j]));
        }
    }
    edges
}

/// Whether a node shows artist `id` as it was found and as the table of
/// artists names it.
pub open spec fn shows_artist(
    node: GraphNode,
    found: Map<u128, (u32, usize)>,
    artists: Map<u128, Artist>,
) -> bool {
    &&& found.contains_key(node.id)
    &&& artists.contains_key(node.id)
    &&& node.similarity == found[node.id].0
    &&& node.layer == found[node.id].1
    &&& node.name@ == artists[node.id].name@
    &&& node.url.is_some()
    &&& node.url.unwrap()@ == artists[node.id].url@
}

/// The nodes shown for the artists that were found: one for each artist that
/// the table of artists knows.
pub fn build_graph_nodes(
    discovered: &FxHashMap<u128, (u32, usize)>,
    artist_metadata: &FxHashMap<u128, Artist>,
) -> (r: Vec<GraphNode>)
    ensures
        forall|i: int| 0 <= i < r@.len() ==> shows_artist(#[trigger] r@[i], discovered@, artist_metadata@),
        forall|i: int, j: int| 0 <= i < j < r@.len() ==> r@[i].id != r@[j].id,
        forall|id: u128|
            discovered@.contains_key(id) && artist_metadata@.contains_key(id) ==> exists|i: int|
                0 <= i < r@.len() && (#[trigger] r@[i]).id == id,
{
    let mut nodes: Vec<GraphNode> = Vec::new();
    let keys = id_map_keys(discovered);
    let ghost mut at: Seq<int> = Seq::empty();
    let mut i: usize = 0;
    while i < keys.len()
        invariant
            i <= keys.len(),
            keys@.no_duplicates(),
            keys@.to_set() == discovered@.dom(),
            at.len() == nodes@.len(),
            forall|n: int| 0 <= n < nodes@.len() ==> 0 <= #[trigger] at[n] < i && keys@[at[n]]
                == nodes@[n].id,
            forall|n: int, m: int| 0 <= n < m < nodes@.len() ==> at[n] < at[m],
            forall|n: int|
                0 <= n < nodes@.len() ==> shows_artist(
                    #[trigger] nodes@[n],
                    discovered@,
                    artist_metadata@,
                ),
            forall|j: int|
                0 <= j < i && artist_metadata@.contains_key(keys@[j]) ==> exists|n: int|
                    0 <= n < nodes@.len() && (#[trigger] nodes@[n]).id == keys@[j],
        decreases keys.len() - i,
    {
        let id = keys[i];
        assert(keys@.contains(keys@[i as int]));
        assert(discovered@.dom().contains(id));
        let (similarity, layer) = *id_map_get(discovered, id).unwrap();
        let ghost before = nodes@;
        match id_map_get(artist_metadata, id) {
            Some(artist) => {
                nodes.push(
                    GraphNode {
                        id,
                        name: artist.name.clone(),
                        layer,
                        similarity,
                        url: Some(artist.url.clone()),
                    },
                );
                proof {
                    at = at.push(i as int);
                    assert(nodes@[before.len() as int].id == id);
                    assert forall|j: int|
                        0 <= j < i + 1 && artist_metadata@.contains_key(
                            keys@[j],
                        ) implies exists|n: int|
                        0 <= n < nodes@.len() && (#[trigger] nodes@[n]).id == keys@[j] by {
                        if j < i {
                            let n = choose|n: int|
                                0 <= n < before.len() && (#[trigger] before[n]).id == keys@[j];
                            assert(nodes@[n].id == keys@[j]);
                        }
                    }
                }
            },
            None => {},
        }
        i = i + 1;
    }
    proof {
        assert forall|n: int, m: int| 0 <= n < m < nodes@.len() implies nodes@[n].id
            != nodes@[m].id by {
            assert(at[n] < at[m]);
            assert(keys@[at[n]] == nodes@[n].id);
            assert(keys@[at[m]] == nodes@[m].id);
        }
        assert forall|id: u128|
            discovered@.contains_key(id) && artist_metadata@.contains_key(id) implies exists|
            n: int,
        | 0 <= n < nodes@.len() && (#[trigger] nodes@[n]).id == id by {
            assert(keys@.to_set().contains(id));
            let j = choose|j: int| 0 <= j < keys@.len() && keys@[j] == id;
            assert(artist_metadata@.contains_key(keys@[j]));
        }
    }
    nodes
}


/// Whether `shown` is step `i` of the path as the table of artists names
/// it; the first step shows no similarity.
pub open spec fn shows_path_step(
    shown: PathArtist,
    path: Seq<PathStep>,
    i: int,
    artists: Map<u128, Artist>,
) -> bool {
    &&& shown.id == path[i].0
    &&& shown.name@ == artists[path[i].0].name@
    &&& shown.url@ == artists[path[i].0].url@
    &&& shown.similarity == (if i > 0 {
        Some(path[i].1)
    } else {
        None::<u32>
    })
}

/// Whether the table of artists knows every artist of the path.
pub open spec fn knows_path(artists: Map<u128, Artist>, path: Seq<PathStep>) -> bool {
    forall|i: int| 0 <= i < path.len() ==> artists.contains_key((#[trigger] path[i]).0)
}

/// Tests whether the table of artists knows every artist of the path.
pub fn path_is_known(path: &[PathStep], artist_metadata: &FxHashMap<u128, Artist>) -> (r: bool)
    ensures
        r == knows_path(artist_metadata@, path@),
{
    let mut index: usize = 0;
    while index < path.len()
        invariant
            index <= path.len(),
            forall|j: int| 0 <= j < index ==> artist_metadata@.contains_key((#[trigger] path@[j]).0),
        decreases path.len() - index,
    {
        if !id_map_contains(artist_metadata, path[index].0) {
            return false;
        }
        index = index + 1;
    }
    true
}

/// Names the artists of a path. The table of artists must know them all.
pub fn convert_path_to_artists(path: &[PathStep], artist_metadata: &FxHashMap<u128, Artist>) -> (r:
    Vec<PathArtist>)
    requires
        knows_path(artist_metadata@, path@),
    ensures
        r@.len() == path@.len(),
        forall|i: int|
            0 <= i < r@.len() ==> shows_path_step(#[trigger] r@[i], path@, i, artist_metadata@),
{
    let mut named: Vec<PathArtist> = Vec::new();
    let mut index: usize = 0;
    while index < path.len()
        invariant
            index <= path.len(),
            named@.len() == index,
            knows_path(artist_metadata@, path@),
            forall|j: int|
                0 <= j < index ==> shows_path_step(#[trigger] named@[j], path@, j, artist_metadata@),
        decreases path.len() - index,
    {
        let (artist_id, similarity) = path[index];
        assert(artist_metadata@.contains_key(path@[index as int].0));
        let artist = id_map_get(artist_metadata, artist_id).unwrap();
        named.push(
            PathArtist {
                id: artist_id,
                name: artist.name.clone(),
                url: artist.url.clone(),
                similarity: if index == 0 {
                    None
                } else {
                    Some(similarity)
                },
            },
        );
        index = index + 1;
    }
    named
}

/// Whether `shown` shows the centre of an exploration: the artist as the
/// table of artists names it, or an unknown artist without an address.
pub open spec fn shows_center(shown: PathArtist, center_id: u128, artists: Map<u128, Artist>) -> bool {
    &&& shown.similarity.is_none()
    &&& shown.id == center_id
    &&& artists.contains_key(center_id) ==> shown.name@ == artists[center_id].name@ && shown.url@
        == artists[center_id].url@
    &&& !artists.contains_key(center_id) ==> shown.name@ == "Unknown Artist"@ && shown.url@ == ""@
}

/// Names the centre of an exploration.
pub fn build_center_artist_info(center_id: u128, artist_metadata: &FxHashMap<u128, Artist>) -> (r:
    PathArtist)
    ensures
        shows_center(r, center_id, artist_metadata@),
{
    match id_map_get(artist_metadata, center_id) {
        Some(artist) => PathArtist {
            id: center_id,
            name: artist.name.clone(),
            url: artist.url.clone(),
            similarity: None,
        },
        None => PathArtist {
            id: center_id,
            name: String::from_str("Unknown Artist"),
            url: String::from_str(""),
            similarity: None,
        },
    }
}

/// Whether an answer shows nothing round its centre.
pub open spec fn shows_nothing(r: GraphExploreResponse) -> bool {
    &&& r.nodes@.len() == 0
    &&& r.edges@.len() == 0
    &&& r.total_found == 0
    &&& r.search_stats.artists_visited == 0
}

/// Whether an answer shows what an exploration of the forward graph found:
/// a node for every artist found that the table of artists knows, and
/// every edge kept that leads to an artist found and is no loop.
pub open spec fn shows_exploration(
    r: GraphExploreResponse,
    found: ExplorationResult,
    artists: Map<u128, Artist>,
) -> bool {
    &&& forall|i: int|
        0 <= i < r.nodes@.len() ==> shows_artist(
            #[trigger] r.nodes@[i],
            found.discovered_artists@,
            artists,
        )
    &&& forall|e: GraphEdge|
        r.edges@.contains(e) <==> is_shown_edge(
            found.discovered_artists@.dom(),
            found.connections@,
            e,
        )
    &&& forall|i: int| 0 <= i < r.edges@.len() ==> (#[trigger] r.edges@[i]).from != r.edges@[i].to
    &&& r.total_found == found.discovered_artists@.len()
    &&& r.search_stats.artists_visited == found.stats.artists_visited
    &&& r.search_stats.duration_ms == found.stats.duration_ms
}

/// Whether an answer shows what an exploration of the reverse graph found:
/// as for the forward graph, with every edge turned round.
pub open spec fn shows_reverse_exploration(
    r: GraphExploreResponse,
    found: ExplorationResult,
    artists: Map<u128, Artist>,
) -> bool {
    &&& forall|i: int|
        0 <= i < r.nodes@.len() ==> shows_artist(
            #[trigger] r.nodes@[i],
            found.discovered_artists@,
            artists,
        )
    &&& forall|e: GraphEdge|
        r.edges@.contains(e) <==> is_shown_edge(
            found.discovered_artists@.dom(),
            found.connections@,
            flipped(e),
        )
    &&& forall|i: int| 0 <= i < r.edges@.len() ==> (#[trigger] r.edges@[i]).from != r.edges@[i].to
    &&& r.total_found == found.discovered_artists@.len()
    &&& r.search_stats.artists_visited == found.stats.artists_visited
    &&& r.search_stats.duration_ms == found.stats.duration_ms
}

/// The answer to an exploration that found nothing.
pub fn build_empty_graph_response(center_artist: PathArtist, duration_ms: u64) -> (r:
    GraphExploreResponse)
    ensures
        r.center_artist == center_artist,
        shows_nothing(r),
        r.search_stats.duration_ms == duration_ms,
{
    GraphExploreResponse {
        center_artist,
        nodes: Vec::new(),
        edges: Vec::new(),
        total_found: 0,
        search_stats: SearchStats { artists_visited: 0, duration_ms },
    }
}

/// The answer to an exploration of the forward graph.
pub fn build_graph_response_from_exploration(
    center_artist: PathArtist,
    exploration_result: ExplorationResult,
    artist_metadata: &FxHashMap<u128, Artist>,
) -> (r: GraphExploreResponse)
    ensures
        r.center_artist == center_artist,
        shows_exploration(r, exploration_result, artist_metadata@),
{
    let nodes = build_graph_nodes(&exploration_result.discovered_artists, artist_metadata);
    let edges = build_graph_edges(&exploration_result);
    GraphExploreResponse {
        center_artist,
        nodes,
        edges,
        total_found: exploration_result.total_discovered(),
        search_stats: SearchStats {
            artists_visited: exploration_result.stats.artists_visited,
            duration_ms: exploration_result.stats.duration_ms,
        },
    }
}

/// The answer to an exploration of the reverse graph.
pub fn build_reverse_graph_response_from_exploration(
    center_artist: PathArtist,
    exploration_result: ExplorationResult,
    artist_metadata: &FxHashMap<u128, Artist>,
) -> (r: GraphExploreResponse)
    ensures
        r.center_artist == center_artist,
        shows_reverse_exploration(r, exploration_result, artist_metadata@),
{
    let nodes = build_graph_nodes(&exploration_result.discovered_artists, artist_metadata);
    let edges = build_reverse_graph_edges(&exploration_result);
    GraphExploreResponse {
        center_artist,
        nodes,
        edges,
        total_found: exploration_result.total_discovered(),
        search_stats: SearchStats {
            artists_visited: exploration_result.stats.artists_visited,
            duration_ms: exploration_result.stats.duration_ms,
        },
    }
}

/// Explores one graph round an artist with the chosen algorithm.
fn explore_with(
    center_id: u128,
    algorithm: Algorithm,
    budget: usize,
    max_relations: usize,
    min_similarity: u32,
    graph_data: &[u8],
    graph_index: &FxHashMap<u128, u64>,
) -> (r: ExplorationResult)
    requires
        algorithm is Dijkstra ==> budget >= 1,
    ensures
        is_exploration(
            r,
            algorithm,
            explored_view(graph_data@, graph_index@, min_similarity, max_relations),
            center_id,
            budget,
        ),
{
    match algorithm {
        Algorithm::Dijkstra => explore_dijkstra(
            center_id,
            budget,
            max_relations,
            min_similarity,
            graph_data,
            graph_index,
        ),
        Algorithm::Bfs => explore_bfs(
            center_id,
            budget,
            max_relations,
            min_similarity,
            graph_data,
            graph_index,
        ),
    }
}

/// Whether the centre of an answer is named as an unknown artist is.
fn is_unknown(center_artist: &PathArtist) -> (r: bool)
    ensures
        r == (center_artist.name@ == "Unknown Artist"@),
{
    let unknown = String::from_str("Unknown Artist");
    center_artist.name == unknown
}

/// Explores the forward graph round an artist and shows what was found.
/// Round an artist that the table of artists does not know, or one named
/// as an unknown artist is, nothing is explored.
pub fn explore_artist_network_graph(
    center_id: u128,
    algorithm: Algorithm,
    budget: usize,
    max_relations: usize,
    min_similarity: u32,
    state: &AppState,
) -> (r: GraphExploreResponse)
    requires
        algorithm is Dijkstra ==> budget >= 1,
    ensures
        shows_center(r.center_artist, center_id, state.artist_metadata@),
        r.center_artist.name@ == "Unknown Artist"@ ==> shows_nothing(r),
        r.center_artist.name@ != "Unknown Artist"@ ==> exists|found: ExplorationResult|
            is_exploration(
                found,
                algorithm,
                explored_view(
                    state.graph_data@,
                    state.graph_index@,
                    min_similarity,
                    max_relations,
                ),
                center_id,
                budget,
            ) && #[trigger] shows_exploration(r, found, state.artist_metadata@),
{
    let start_time = instant_now();
    let center_artist = build_center_artist_info(center_id, &state.artist_metadata);
    if is_unknown(&center_artist) {
        return build_empty_graph_response(center_artist, millis_since(&start_time));
    }
    let exploration_result = explore_with(
        center_id,
        algorithm,
        budget,
        max_relations,
        min_similarity,
        state.graph_data,
        &state.graph_index,
    );
    let ghost found = exploration_result;
    let response = build_graph_response_from_exploration(
        center_artist,
        exploration_result,
        &state.artist_metadata,
    );
    assert(shows_exploration(response, found, state.artist_metadata@));
    response
}

/// Explores the reverse graph round an artist and shows what was found,
/// every edge turned round. Round an artist that the table of artists does
/// not know, or one named as an unknown artist is, nothing is explored.
pub fn explore_artist_network_reverse_graph(
    center_id: u128,
    algorithm: Algorithm,
    budget: usize,
    max_relations: usize,
    min_similarity: u32,
    state: &AppState,
) -> (r: GraphExploreResponse)
    requires
        algorithm is Dijkstra ==> budget >= 1,
    ensures
        shows_center(r.center_artist, center_id, state.artist_metadata@),
        r.center_artist.name@ == "Unknown Artist"@ ==> shows_nothing(r),
        r.center_artist.name@ != "Unknown Artist"@ ==> exists|found: ExplorationResult|
            is_exploration(
                found,
                algorithm,
                explored_view(
                    state.reverse_graph_data@,
                    state.reverse_graph_index@,
                    min_similarity,
                    max_relations,
                ),
                center_id,
                budget,
            ) && #[trigger] shows_reverse_exploration(r, found, state.artist_metadata@),
{
    let start_time = instant_now();
    let center_artist = build_center_artist_info(center_id, &state.artist_metadata);
    if is_unknown(&center_artist) {
        return build_empty_graph_response(center_artist, millis_since(&start_time));
    }
    let exploration_result = explore_with(
        center_id,
        algorithm,
        budget,
        max_relations,
        min_similarity,
        state.reverse_graph_data,
        &state.reverse_graph_index,
    );
    let ghost found = exploration_result;
    let response = build_reverse_graph_response_from_exploration(
        center_artist,
        exploration_result,
        &state.artist_metadata,
    );
    assert(shows_reverse_exploration(response, found, state.artist_metadata@));
    response
}

} // verus!
