//! Exploration by nearness.
//!
//! An edge weighs one minus its similarity. Starting from the centre, the
//! artists are visited nearest first. Once as many artists as the budget
//! allows have been visited, the exploration goes on only as long as the
//! nearest artist that waits is no farther than the last of those, and the
//! artists found are the first of the budget's number to have been visited.
//!
//! The layer of an artist is a display value: zero for the centre, and for
//! every other artist one more than five times its distance, rounded down.

use crate::clock::instant_now;
use crate::clock::millis_since;
use crate::exploration::bfs::explored_view;
use crate::exploration::ExplorationResult;
use crate::fx::id_map_contains;
use crate::fx::id_map_get;
use crate::fx::id_map_insert;
use crate::fx::id_map_new;
use crate::pathfinding::dijkstra::costs_ok;
use crate::pathfinding::dijkstra::holds_at;
use crate::pathfinding::dijkstra::lemma_unvisited_beyond;
use crate::pathfinding::dijkstra::relaxed;
use crate::pathfinding::dijkstra::tree_costs;
use crate::pathfinding::dijkstra::DijkstraState;
use crate::pathfinding::dijkstra::Taken;
use crate::pathfinding::graph::closed;
use crate::pathfinding::graph::has_parent;
use crate::pathfinding::graph::is_forward_path;
use crate::pathfinding::graph::is_nearest;
use crate::pathfinding::graph::path_cost;
use crate::pathfinding::graph::is_walk;
use crate::pathfinding::graph::reaches;
use crate::pathfinding::graph::walk_step;
use crate::pathfinding::graph::side_tree;
use crate::pathfinding::graph::GraphView;
use crate::pathfinding::graph::SideView;
use crate::pathfinding::min_queue::DijkstraNode;
use crate::pathfinding::utils::get_artist_connections;
use crate::pathfinding::utils::PathStep;
use crate::pathfinding_config::PathfindingConfig;
use crate::similarity::edge_weight;
use crate::similarity::SIMILARITY_ONE;
use crate::similarity::UNIT_COST;
use rustc_hash::FxHashMap;
use vstd::prelude::*;

verus! {

/// The layer on which an artist at the given distance is shown.
pub open spec fn layer_of(cost: u128) -> usize {
    let layer = 1 + (5 * cost) / 0x1_0000_0000_0000_0000;
    if layer > usize::MAX {
        usize::MAX
    } else {
        layer as usize
    }
}

/// Computes the layer on which an artist at the given distance is shown.
pub fn cost_layer(cost: u128) -> (r: usize)
    ensures
        r == layer_of(cost),
{
    let whole = cost / UNIT_COST;
    let part = cost % UNIT_COST;
    let fives = 5 * whole + (5 * part) / UNIT_COST;
    assert(fives == (5 * cost) / 0x1_0000_0000_0000_0000) by (nonlinear_arith)
        requires
            whole == cost / 0x1_0000_0000_0000_0000,
            part == cost % 0x1_0000_0000_0000_0000,
            fives == 5 * whole + (5 * part) / 0x1_0000_0000_0000_0000,
    ;
    let layer = 1 + fives;
    if layer > usize::MAX as u128 {
        usize::MAX
    } else {
        layer as usize
    }
}

/// The edges of `edges` that lead to an artist of `found`, in their order.
pub open spec fn within(edges: Seq<PathStep>, found: Set<u128>) -> Seq<PathStep>
    decreases edges.len(),
{
    if edges.len() == 0 {
        Seq::empty()
    } else if found.contains(edges.last().0) {
        within(edges.drop_last(), found).push(edges.last())
    } else {
        within(edges.drop_last(), found)
    }
}

/// Whether `v`, an artist that was found, hangs on an edge from an artist
/// that was found, and is as far from the centre as that artist and the
/// weight of the edge further.
pub open spec fn hangs_at(
    g: GraphView,
    found: Map<u128, (u32, usize)>,
    dist: Map<u128, u128>,
    v: u128,
    u: u128,
) -> bool {
    &&& found.contains_key(u)
    &&& g.has_edge(u, v, found[v].0)
    &&& dist[v] == dist[u] + edge_weight(found[v].0)
}

/// Whether `found` is a surrounding of `center` by nearness with the
/// distances `dist`: the centre at distance zero on layer zero with
/// similarity one; every other artist hanging on an edge from another artist
/// found, with the similarity of that edge, on the layer of its distance.
pub open spec fn is_nearest_tree(
    g: GraphView,
    center: u128,
    found: Map<u128, (u32, usize)>,
    dist: Map<u128, u128>,
) -> bool {
    &&& found.dom().finite()
    &&& found.contains_key(center)
    &&& found[center] == (SIMILARITY_ONE, 0usize)
    &&& dist[center] == 0
    &&& forall|v: u128| #[trigger]
        found.contains_key(v) && v != center ==> found[v].1 == layer_of(dist[v]) && exists|u: u128|
            hangs_at(g, found, dist, v, u)
}

/// Whether the distance of every artist of `found` is the least that a path
/// along the graph covers from the centre to it.
pub open spec fn all_nearest(
    g: GraphView,
    center: u128,
    found: Set<u128>,
    dist: Map<u128, u128>,
) -> bool {
    forall|v: u128| #[trigger] found.contains(v) ==> is_nearest(g, center, v, dist[v] as int)
}

/// Whether no artist left out of `found` is nearer to the centre than one
/// of `found`: no path along the graph leads from the centre to an artist
/// left out over a shorter distance than that of an artist of `found`.
pub open spec fn none_nearer(
    g: GraphView,
    center: u128,
    found: Set<u128>,
    dist: Map<u128, u128>,
) -> bool {
    forall|v: u128, w: u128, p: Seq<PathStep>|
        #![trigger found.contains(v), is_forward_path(g, center, w, p)]
        found.contains(v) && !found.contains(w) && is_forward_path(g, center, w, p) ==> dist[v]
            <= path_cost(p)
}

/// The artists visited among the first `budget`.
pub open spec fn first_visited(s: SideView, budget: usize) -> Set<u128> {
    Set::new(|v: u128| s.visited.contains(v) && s.order[v] < budget)
}

/// Whether every edge from an artist of `found` leads to an artist of
/// `found`.
pub open spec fn is_closed(g: GraphView, found: Set<u128>) -> bool {
    forall|u: u128, k: int|
        found.contains(u) && 0 <= k < g.edges(u).len() ==> found.contains(
            (#[trigger] g.edges(u)[k]).0,
        )
}

/// Whether `connections` holds, for exactly the artists of `found`, those of
/// the edges of each that lead to an artist of `found`.
pub open spec fn holds_inner_edges(
    connections: Map<u128, Vec<PathStep>>,
    found: Set<u128>,
    g: GraphView,
) -> bool {
    &&& connections.dom() == found
    &&& forall|a: u128| #[trigger]
        connections.contains_key(a) ==> connections[a]@ == within(g.edges(a), found)
}

/// What holds of the artists visited so far, in the order of their visits:
/// each stands at the place of its visit with its distance, none nearer
/// than one visited before it, and the edges of each have been kept.
pub open spec fn visits_ok(
    g: GraphView,
    s: SideView,
    dist: Map<u128, u128>,
    settled: Seq<DijkstraNode>,
    kept: Map<u128, Vec<PathStep>>,
) -> bool {
    &&& settled.len() == s.visited.len()
    &&& forall|i: int|
        0 <= i < settled.len() ==> s.visited.contains((#[trigger] settled[i]).artist)
            && s.order[settled[i].artist] == i && settled[i].cost == dist[settled[i].artist]
    &&& forall|v: u128| #[trigger] s.visited.contains(v) ==> settled[s.order[v] as int].artist == v
    &&& forall|i: int, j: int|
        0 <= i <= j < settled.len() ==> (#[trigger] settled[i]).cost <= (#[trigger] settled[j]).cost
    &&& kept.dom() == s.visited
    &&& forall|a: u128| #[trigger] kept.contains_key(a) ==> kept[a]@ == g.edges(a)
}

/// A closed set of artists that holds the centre holds every artist that the
/// centre reaches.
pub proof fn lemma_closed_holds_walk(g: GraphView, center: u128, found: Set<u128>, w: Seq<u128>)
    requires
        found.contains(center),
        is_closed(g, found),
        is_walk(g, w),
        w[0] == center,
    ensures
        found.contains(w.last()),
    decreases w.len(),
{
    if w.len() > 1 {
        let t = w.drop_last();
        assert forall|i: int| 0 <= i < t.len() - 1 implies #[trigger] walk_step(g, t, i) by {
            assert(walk_step(g, w, i));
        }
        lemma_closed_holds_walk(g, center, found, t);
        let u = t.last();
        assert(u == w[w.len() - 2]);
        assert(walk_step(g, w, w.len() - 2));
        let s = choose|s: u32| #[trigger] g.has_edge(u, w.last(), s);
        let k = choose|k: int| 0 <= k < g.edges(u).len() && g.edges(u)[k] == (w.last(), s);
        assert(found.contains(g.edges(u)[k].0));
    }
}

/// An exploration uses its budget up where it can: where the centre reaches
/// at least as many artists as the budget allows, that many are found.
pub proof fn lemma_nearest_budget_is_used(
    g: GraphView,
    center: u128,
    found: Map<u128, (u32, usize)>,
    dist: Map<u128, u128>,
    budget: usize,
    within_reach: Set<u128>,
)
    requires
        is_nearest_tree(g, center, found, dist),
        found.len() < budget ==> is_closed(g, found.dom()),
        within_reach.finite(),
        within_reach.len() >= budget,
        forall|v: u128| #[trigger] within_reach.contains(v) ==> reaches(g, center, v),
    ensures
        found.len() >= budget,
{
    if found.len() < budget {
        assert forall|v: u128| within_reach.contains(v) implies found.dom().contains(v) by {
            let w = choose|w: Seq<u128>| is_walk(g, w) && w[0] == center && w.last() == v;
            lemma_closed_holds_walk(g, center, found.dom(), w);
        }
        vstd::set_lib::lemma_len_subset(within_reach, found.dom());
    }
}

/// The edges that lead to an artist that was found.
fn keep_within(edges: &Vec<PathStep>, found: &FxHashMap<u128, (u32, usize)>) -> (r: Vec<PathStep>)
    ensures
        r@ == within(edges@, found@.dom()),
{
    let mut filtered: Vec<PathStep> = Vec::new();
    let mut k: usize = 0;
    while k < edges.len()
        invariant
            k <= edges.len(),
            filtered@ == within(edges@.take(k as int), found@.dom()),
        decreases edges.len() - k,
    {
        proof {
            let upto = edges@.take(k + 1);
            assert(upto.drop_last() =~= edges@.take(k as int));
            assert(upto.last() == edges@[k as int]);
        }
        if id_map_contains(found, edges[k].0) {
            filtered.push(edges[k]);
        }
        k = k + 1;
    }
    assert(edges@.take(edges.len() as int) =~= edges@);
    filtered
}

/// At a moment when nothing in the queue is nearer than `bound`, and the
/// artist `v` among the first `budget` visited is no farther than `bound`,
/// no path from the centre to an artist that is not among them is shorter
/// than the distance of `v`.
proof fn lemma_left_out(
    g: GraphView,
    center: u128,
    s: SideView,
    dist: Map<u128, u128>,
    queue: Seq<DijkstraNode>,
    high: u128,
    settled: Seq<DijkstraNode>,
    kept: Map<u128, Vec<PathStep>>,
    budget: usize,
    bound: int,
    v: u128,
    w: u128,
    p: Seq<PathStep>,
)
    requires
        side_tree(g, center, s),
        costs_ok(g, center, s, dist, queue, high),
        relaxed(g, s, dist),
        visits_ok(g, s, dist, settled, kept),
        forall|i: int| 0 <= i < queue.len() ==> (#[trigger] queue[i]).cost >= bound,
        first_visited(s, budget).contains(v),
        dist[v] <= bound,
        !first_visited(s, budget).contains(w),
        is_forward_path(g, center, w, p),
    ensures
        dist[v] <= path_cost(p),
{
    if s.visited.contains(w) {
        assert(is_nearest(g, center, w, dist[w] as int));
        assert(settled[s.order[v] as int].artist == v);
        assert(settled[s.order[w] as int].artist == w);
        assert(settled[s.order[v] as int].cost <= settled[s.order[w] as int].cost);
    } else {
        lemma_unvisited_beyond(g, center, s, dist, queue, high, bound, w, p);
    }
}

/// Visits the artists around the centre nearest first, until the budget is
/// met and the nearest artist that waits is farther than the last artist
/// that the budget covers, or until nobody waits.
fn visit_nearest(
    state: &mut DijkstraState,
    center_id: u128,
    budget: usize,
    graph_data: &[u8],
    graph_index: &FxHashMap<u128, u64>,
    config: &PathfindingConfig,
    Ghost(g): Ghost<GraphView>,
) -> (r: (Vec<DijkstraNode>, FxHashMap<u128, Vec<PathStep>>))
    requires
        budget >= 1,
        g == (GraphView { data: graph_data@, index: graph_index@, config: *config }),
        old(state).inv(g, center_id),
        closed(g, old(state)@),
        relaxed(g, old(state)@, old(state).distances@),
        old(state)@ == SideView::initial(center_id),
    ensures
        side_tree(g, center_id, final(state)@),
        tree_costs(center_id, final(state)@, final(state).distances@),
        visits_ok(g, final(state)@, final(state).distances@, r.0@, r.1@),
        r.0@.len() >= 1,
        r.0@.len() < budget ==> closed(g, final(state)@) && forall|v: u128|
            !final(state)@.pending.contains(v),
        all_nearest(g, center_id, final(state)@.visited, final(state).distances@),
        none_nearer(
            g,
            center_id,
            first_visited(final(state)@, budget),
            final(state).distances@,
        ),
{
    let mut settled: Vec<DijkstraNode> = Vec::new();
    let mut connection_cache: FxHashMap<u128, Vec<PathStep>> = id_map_new();
    proof {
        assert(connection_cache@.dom() =~= state@.visited);
    }
    loop
        invariant_except_break
            budget >= 1,
            g == (GraphView { data: graph_data@, index: graph_index@, config: *config }),
            state.inv(g, center_id),
            closed(g, state@),
            relaxed(g, state@, state.distances@),
            visits_ok(g, state@, state.distances@, settled@, connection_cache@),
            settled@.len() == 0 ==> state.heap@.len() > 0,
        ensures
            side_tree(g, center_id, state@),
            tree_costs(center_id, state@, state.distances@),
            visits_ok(g, state@, state.distances@, settled@, connection_cache@),
            settled@.len() >= 1,
            settled@.len() < budget ==> closed(g, state@) && forall|v: u128|
                !state@.pending.contains(v),
            all_nearest(g, center_id, state@.visited, state.distances@),
            none_nearer(g, center_id, first_visited(state@, budget), state.distances@),
        decreases g.universe(center_id).difference(state.visited@).len(), state.heap@.len(),
    {
        let limit = if settled.len() >= budget {
            Some(settled[budget - 1].cost)
        } else {
            None
        };
        let ghost before = state@;
        let ghost dist_before = state.distances@;
        let ghost heap_before = state.heap@;
        let ghost high_before = state.high@;
        match state.take_next(limit, Ghost(g), Ghost(center_id)) {
            Taken::Nothing => {
                proof {
                    assert forall|v: u128| !state@.pending.contains(v) by {
                        if state@.pending.contains(v) {
                            assert(holds_at(state.heap@, v, state.distances@[v]));
                        }
                    }
                    assert forall|v: u128, w: u128, p: Seq<PathStep>|
                        #![trigger first_visited(before, budget).contains(v), is_forward_path(g, center_id, w, p)]
                        first_visited(before, budget).contains(v) && !first_visited(
                            before,
                            budget,
                        ).contains(w) && is_forward_path(g, center_id, w, p) implies dist_before[v]
                            <= path_cost(p) by {
                        lemma_left_out(
                            g,
                            center_id,
                            before,
                            dist_before,
                            heap_before,
                            high_before,
                            settled@,
                            connection_cache@,
                            budget,
                            dist_before[v] as int,
                            v,
                            w,
                            p,
                        );
                    }
                }
                break ;
            },
            Taken::Beyond => {
                proof {
                    let bound = settled@[budget - 1].cost;
                    assert forall|v: u128, w: u128, p: Seq<PathStep>|
                        #![trigger first_visited(before, budget).contains(v), is_forward_path(g, center_id, w, p)]
                        first_visited(before, budget).contains(v) && !first_visited(
                            before,
                            budget,
                        ).contains(w) && is_forward_path(g, center_id, w, p) implies dist_before[v]
                            <= path_cost(p) by {
                        assert(settled@[before.order[v] as int].artist == v);
                        assert(settled@[before.order[v] as int].cost <= settled@[budget - 1].cost);
                        lemma_left_out(
                            g,
                            center_id,
                            before,
                            dist_before,
                            heap_before,
                            high_before,
                            settled@,
                            connection_cache@,
                            budget,
                            bound as int,
                            v,
                            w,
                            p,
                        );
                    }
                }
                break ;
            },
            Taken::Stale => {},
            Taken::Fresh(node) => {
                let ghost old_settled = settled@;
                settled.push(node);
                let connections = get_artist_connections(
                    node.artist,
                    graph_data,
                    graph_index,
                    config,
                );
                state.expand(node.artist, node.cost, &connections, Ghost(g), Ghost(center_id));
                id_map_insert(&mut connection_cache, node.artist, connections);
                proof {
                    let s = state@;
                    assert(s.visited == before.visited.insert(node.artist));
                    assert(s.order == before.order.insert(node.artist, before.visited.len()));
                    assert(connection_cache@.dom() =~= s.visited);
                    assert forall|i: int| 0 <= i < settled@.len() implies s.visited.contains(
                        (#[trigger] settled@[i]).artist,
                    ) && s.order[settled@[i].artist] == i && settled@[i].cost
                        == state.distances@[settled@[i].artist] by {
                        if i < old_settled.len() {
                            assert(settled@[i] == old_settled[i]);
                            assert(before.visited.contains(old_settled[i].artist));
                        }
                    }
                    assert forall|v: u128| #[trigger] s.visited.contains(v) implies settled@[s.order[v] as int].artist
                        == v by {
                        if v != node.artist {
                            assert(before.visited.contains(v));
                            assert(old_settled[before.order[v] as int].artist == v);
                        }
                    }
                    assert forall|i: int, j: int| 0 <= i <= j < settled@.len() implies (
                    #[trigger] settled@[i]).cost <= (#[trigger] settled@[j]).cost by {
                        if j < old_settled.len() {
                            assert(settled@[i] == old_settled[i]);
                            assert(settled@[j] == old_settled[j]);
                        } else if i < old_settled.len() {
                            assert(settled@[i] == old_settled[i]);
                            assert(before.visited.contains(old_settled[i].artist));
                            assert(old_settled[i].cost == dist_before[old_settled[i].artist]);
                            assert(dist_before[old_settled[i].artist] <= high_before);
                        }
                    }
                }
            },
        }
    }
    (settled, connection_cache)
}

/// Whether `found` is what a nearest-first exploration from `center` owes
/// within `budget`: the centre and artists that each hang on another one
/// found, each at its least distance from the centre and none farther than
/// an artist left out; no more than the budget allows, nobody left out
/// where fewer were found, and the edges between those found.
pub open spec fn is_nearest_exploration(
    found: ExplorationResult,
    g: GraphView,
    center: u128,
    budget: usize,
) -> bool {
    &&& exists|dist: Map<u128, u128>|
        {
            &&& #[trigger] is_nearest_tree(g, center, found.discovered_artists@, dist)
            &&& all_nearest(g, center, found.discovered_artists@.dom(), dist)
            &&& none_nearer(g, center, found.discovered_artists@.dom(), dist)
        }
    &&& 1 <= found.discovered_artists@.len() <= budget
    &&& found.discovered_artists@.len() < budget ==> is_closed(g, found.discovered_artists@.dom())
    &&& holds_inner_edges(found.connections@, found.discovered_artists@.dom(), g)
    &&& found.stats.artists_visited >= found.discovered_artists@.len()
    &&& found.discovered_artists@.len() < budget ==> found.stats.artists_visited
        == found.discovered_artists@.len()
}

/// Explores the surroundings of `center_id` by nearness.
///
/// The centre is found on layer zero with similarity one. Every other artist
/// found hangs on an edge from another artist found, with the similarity of
/// that edge, and stands on the layer of its distance from the centre, the
/// least that a path along the graph covers. No more than `budget` artists
/// are found, and no artist left out is nearer to the centre than one that
/// was found; where fewer are found, every edge of an artist found leads to
/// an artist found. Of the edges of each artist found, those that lead to an
/// artist found are returned with them.
pub fn explore_dijkstra(
    center_id: u128,
    budget: usize,
    max_relations: usize,
    min_similarity: u32,
    graph_data: &[u8],
    graph_index: &FxHashMap<u128, u64>,
) -> (r: ExplorationResult)
    requires
        budget >= 1,
    ensures
        is_nearest_exploration(
            r,
            explored_view(graph_data@, graph_index@, min_similarity, max_relations),
            center_id,
            budget,
        ),
{
    let start_time = instant_now();
    let config = PathfindingConfig::new(min_similarity, max_relations, false);
    let ghost g = explored_view(graph_data@, graph_index@, min_similarity, max_relations);
    let data_len = graph_data.len();
    let mut state = DijkstraState::new(center_id, Ghost(g));
    let (settled, connection_cache) = visit_nearest(
        &mut state,
        center_id,
        budget,
        graph_data,
        graph_index,
        &config,
        Ghost(g),
    );
    let artists_visited = settled.len();
    let ghost s = state@;
    let ghost dist = state.distances@;

    let selected = if budget < settled.len() {
        budget
    } else {
        settled.len()
    };
    let mut discovered: FxHashMap<u128, (u32, usize)> = id_map_new();
    let mut i: usize = 0;
    proof {
        assert(s.visited.contains(center_id)) by {
            assert(s.visited.contains(settled@[0].artist));
            assert(s.visited.len() != 0);
        }
    }
    while i < selected
        invariant
            i <= selected <= settled@.len(),
            s == state@,
            dist == state.distances@,
            side_tree(g, center_id, s),
            tree_costs(center_id, s, dist),
            visits_ok(g, s, dist, settled@, connection_cache@),
            discovered@.dom().finite(),
            discovered@.len() == i,
            forall|v: u128|
                #![trigger discovered@.contains_key(v)]
                #![trigger s.visited.contains(v)]
                discovered@.contains_key(v) <==> s.visited.contains(v) && s.order[v] < i,
            forall|v: u128| #[trigger]
                discovered@.contains_key(v) ==> discovered@[v] == (if v == center_id {
                    (SIMILARITY_ONE, 0usize)
                } else {
                    (s.parent[v].1, layer_of(dist[v]))
                }),
        decreases selected - i,
    {
        let node = settled[i];
        let entry = if node.artist == center_id {
            (SIMILARITY_ONE, 0usize)
        } else {
            proof {
                assert(s.seen(node.artist));
                assert(has_parent(g, s, node.artist));
            }
            let similarity = match id_map_get(&state.parent_map, node.artist) {
                Some(step) => step.1,
                None => SIMILARITY_ONE,
            };
            (similarity, cost_layer(node.cost))
        };
        let ghost before = discovered@;
        proof {
            assert(!before.contains_key(node.artist));
        }
        id_map_insert(&mut discovered, node.artist, entry);
        proof {
            assert(settled@[i as int] == node);
            assert(s.visited.contains(node.artist) && s.order[node.artist] == i);
            assert forall|v: u128|
                discovered@.contains_key(v) <==> s.visited.contains(v) && s.order[v] < i
                    + 1 by {
                if s.visited.contains(v) && s.order[v] == i {
                    assert(settled@[s.order[v] as int].artist == v);
                    assert(v == node.artist);
                }
                if v != node.artist {
                    assert(before.contains_key(v) <==> s.visited.contains(v) && s.order[v] < i);
                    assert(discovered@.contains_key(v) == before.contains_key(v));
                }
            }
        }
        i = i + 1;
    }

    let mut final_connections: FxHashMap<u128, Vec<PathStep>> = id_map_new();
    let mut j: usize = 0;
    proof {
        assert(final_connections@.dom() =~= Set::new(
            |v: u128| s.visited.contains(v) && s.order[v] < 0,
        ));
    }
    while j < selected
        invariant
            j <= selected <= settled@.len(),
            visits_ok(g, s, dist, settled@, connection_cache@),
            forall|v: u128|
                #![trigger discovered@.contains_key(v)]
                #![trigger s.visited.contains(v)]
                discovered@.contains_key(v) <==> s.visited.contains(v) && s.order[v] < selected,
            final_connections@.dom() == Set::new(
                |v: u128| s.visited.contains(v) && s.order[v] < j,
            ),
            forall|a: u128| #[trigger]
                final_connections@.contains_key(a) ==> final_connections@[a]@ == within(
                    g.edges(a),
                    discovered@.dom(),
                ),
        decreases selected - j,
    {
        let artist_id = settled[j].artist;
        proof {
            assert(connection_cache@.contains_key(artist_id));
        }
        match id_map_get(&connection_cache, artist_id) {
            Some(cached_connections) => {
                let filtered = keep_within(cached_connections, &discovered);
                id_map_insert(&mut final_connections, artist_id, filtered);
            },
            None => {},
        }
        proof {
            assert(final_connections@.dom() =~= Set::new(
                |v: u128| s.visited.contains(v) && s.order[v] < j + 1,
            )) by {
                assert forall|v: u128|
                    final_connections@.dom().contains(v) <==> (s.visited.contains(v) && s.order[v]
                        < j + 1) by {
                    if s.visited.contains(v) && s.order[v] == j {
                        assert(settled@[s.order[v] as int].artist == v);
                    }
                }
            }
        }
        j = j + 1;
    }

    proof {
        let found = discovered@;
        assert(final_connections@.dom() =~= found.dom());
        assert(s.order[center_id] == 0) by {
            assert(tree_costs(center_id, s, dist));
            lemma_center_first(g, center_id, s, dist, settled@, connection_cache@);
        }
        assert(found.contains_key(center_id));
        assert forall|v: u128| #[trigger] found.contains_key(v) && v != center_id implies found[v].1
            == layer_of(dist[v]) && exists|u: u128| hangs_at(g, found, dist, v, u) by {
            assert(s.seen(v));
            assert(has_parent(g, s, v));
            let u = s.parent[v].0;
            assert(s.visited.contains(u));
            assert(s.order[u] < s.order[v]);
            assert(found.contains_key(u));
            assert(hangs_at(g, found, dist, v, u));
        }
        assert(is_nearest_tree(g, center_id, found, dist));
        assert(found.dom() =~= first_visited(s, budget)) by {
            assert forall|v: u128| s.visited.contains(v) implies s.order[v] < settled@.len() by {
                assert(s.order[v] < s.visited.len());
            }
        }
        assert(all_nearest(g, center_id, found.dom(), dist));
        assert(none_nearer(g, center_id, found.dom(), dist));
        if found.len() < budget {
            assert(selected == settled@.len());
            assert forall|u: u128, k: int|
                found.dom().contains(u) && 0 <= k < g.edges(u).len() implies found.dom().contains(
                (#[trigger] g.edges(u)[k]).0,
            ) by {
                assert(found.contains_key(u));
                assert(s.visited.contains(u));
                assert(s.seen(g.edges(u)[k].0));
                let w = g.edges(u)[k].0;
                assert(s.visited.contains(w));
                assert(s.order[w] < s.visited.len());
                assert(found.contains_key(w));
            }
        }
    }

    ExplorationResult::new(
        discovered,
        final_connections,
        artists_visited,
        millis_since(&start_time),
    )
}

/// The centre is the first artist to be visited.
proof fn lemma_center_first(
    g: GraphView,
    center: u128,
    s: SideView,
    dist: Map<u128, u128>,
    settled: Seq<DijkstraNode>,
    kept: Map<u128, Vec<PathStep>>,
)
    requires
        side_tree(g, center, s),
        visits_ok(g, s, dist, settled, kept),
        settled.len() >= 1,
        s.visited.contains(center),
    ensures
        s.order[center] == 0,
{
    let first = settled[0].artist;
    assert(s.visited.contains(first) && s.order[first] == 0);
    if first != center {
        assert(s.seen(first));
        assert(has_parent(g, s, first));
        assert(s.order[s.parent[first].0] < s.order[first]);
    }
}

} // verus!
