//! Bidirectional search by best similarity.
//!
//! An edge weighs one minus its similarity. Each side keeps the best distance
//! known for every artist it has seen and visits the nearest artist that
//! waits. The search ends when an artist is visited that the other side has
//! visited already, or when neither side has anything left.

use crate::clock::instant_now;
use crate::clock::micros_since;
use crate::fx::id_map_get;
use crate::fx::id_map_insert;
use crate::fx::id_map_new;
use crate::fx::id_set_contains;
use crate::fx::id_set_insert;
use crate::fx::id_set_len;
use crate::fx::id_set_new;
use crate::pathfinding::bfs::state::reconstruct_bidirectional_path;
use crate::pathfinding::graph::closed;
use crate::pathfinding::graph::closed_except;
use crate::pathfinding::graph::forward_step;
use crate::pathfinding::graph::has_parent;
use crate::pathfinding::graph::is_forward_path;
use crate::pathfinding::graph::is_joined_path;
use crate::pathfinding::dijkstra_model::dijkstra_path;
use crate::pathfinding::dijkstra_model::dijkstra_visited;
use crate::pathfinding::dijkstra_model::round;
use crate::pathfinding::dijkstra_model::search;
use crate::pathfinding::dijkstra_model::DijkstraModel;
use crate::pathfinding::dijkstra_model::Meeting;
use crate::pathfinding::dijkstra_model::Round;
use crate::pathfinding::bfs::model::joined;
use crate::pathfinding::bfs::model::round_limit;
use crate::pathfinding::bfs::state::path_view;
use crate::pathfinding::graph::is_nearest;
use crate::pathfinding::graph::lemma_degree;
use crate::pathfinding::graph::lemma_work_left;
use crate::pathfinding::graph::lemma_work_start;
use crate::pathfinding::graph::lemma_work_visit;
use crate::pathfinding::graph::work_left;
use crate::pathfinding::graph::is_nearest_meeting;
use crate::pathfinding::graph::tree_step;
use crate::pathfinding::graph::tree_step_back;
use crate::pathfinding::graph::lemma_edge_in_universe;
use crate::pathfinding::graph::lemma_first_outside;
use crate::pathfinding::graph::lemma_path_beginning;
use crate::pathfinding::graph::lemma_path_cost_grows;
use crate::pathfinding::graph::lemma_universe_size;
use crate::pathfinding::graph::lemma_weight_range;
use crate::pathfinding::graph::path_cost;
use crate::pathfinding::graph::lemma_adopt;
use crate::pathfinding::graph::lemma_closed;
use crate::pathfinding::graph::lemma_exhausted_both;
use crate::pathfinding::graph::lemma_initial;
use crate::pathfinding::graph::lemma_joined_path_meets;
use crate::pathfinding::graph::lemma_no_meeting;
use crate::pathfinding::graph::lemma_settle;
use crate::pathfinding::graph::lemma_skip_edge;
use crate::pathfinding::graph::lemma_two_elements;
use crate::pathfinding::graph::meets;
use crate::pathfinding::graph::reached_by_either;
use crate::pathfinding::graph::side_tree;
use crate::pathfinding::graph::GraphView;
use crate::pathfinding::graph::SideView;
use crate::pathfinding::min_queue::first_min;
use crate::pathfinding::min_queue::DijkstraNode;
use crate::pathfinding::min_queue::MinQueue;
use crate::pathfinding::utils::get_artist_connections;
use crate::pathfinding::utils::PathResult;
use crate::pathfinding::utils::PathStep;
use crate::pathfinding_config::PathfindingConfig;
use crate::similarity::add_cost;
use crate::similarity::edge_cost;
use crate::similarity::edge_weight;
use rustc_hash::FxHashMap;
use rustc_hash::FxHashSet;
use vstd::prelude::*;

verus! {

/// Whether the queue holds an entry for artist `v` at distance `cost`.
pub open spec fn holds_at(s: Seq<DijkstraNode>, v: u128, cost: u128) -> bool {
    exists|i: int| 0 <= i < s.len() && #[trigger] s[i] == (DijkstraNode { cost, artist: v })
}

/// What holds of the distances of one side: the root is at distance zero and
/// is the first to be visited; every other artist seen is as far as the
/// artist it hangs on, and the weight of the edge further.
pub open spec fn tree_costs(root: u128, s: SideView, dist: Map<u128, u128>) -> bool {
    &&& forall|v: u128| #[trigger] s.seen(v) ==> dist.contains_key(v)
    &&& forall|v: u128| #[trigger] dist.contains_key(v) ==> s.seen(v)
    &&& dist[root] == 0
    &&& s.visited.len() > 0 ==> s.visited.contains(root)
    &&& s.visited.len() == 0 ==> forall|v: u128| #[trigger] s.pending.contains(v) ==> v == root
    &&& forall|v: u128| #[trigger]
        s.seen(v) && v != root ==> dist[v] == dist[s.parent[v].0] + edge_weight(s.parent[v].1)
}

/// What holds of the queue of one side: it holds every waiting artist at its
/// distance, and no artist nearer than that.
pub open spec fn queue_costs(s: SideView, dist: Map<u128, u128>, queue: Seq<DijkstraNode>) -> bool {
    &&& forall|i: int|
        0 <= i < queue.len() ==> s.seen((#[trigger] queue[i]).artist) && queue[i].cost
            >= dist[queue[i].artist]
    &&& forall|v: u128| #[trigger] s.pending.contains(v) ==> holds_at(queue, v, dist[v])
}

/// The distance that an artist can have at most: one for every artist
/// visited before it, or visited so far where it still waits.
pub open spec fn reach_limit(s: SideView, v: u128) -> int {
    if s.visited.contains(v) {
        s.order[v] as int * 0x1_0000_0000_0000_0000
    } else {
        s.visited.len() as int * 0x1_0000_0000_0000_0000
    }
}

/// What holds of the order of visits: no artist is farther than its limit;
/// no artist visited is farther than the last one visited, and nothing in
/// the queue is nearer; and no path along the graph to an artist visited is
/// shorter than its distance.
pub open spec fn nearest_first(
    g: GraphView,
    root: u128,
    s: SideView,
    dist: Map<u128, u128>,
    queue: Seq<DijkstraNode>,
    high: u128,
) -> bool {
    &&& g.data.len() <= usize::MAX
    &&& forall|v: u128| #[trigger] s.seen(v) ==> dist[v] <= reach_limit(s, v)
    &&& forall|v: u128| #[trigger] s.visited.contains(v) ==> dist[v] <= high
    &&& forall|i: int| 0 <= i < queue.len() ==> (#[trigger] queue[i]).cost >= high
    &&& forall|v: u128| #[trigger] s.visited.contains(v) ==> is_nearest(g, root, v, dist[v] as int)
}

/// What holds of the distances and the queue of one side.
pub open spec fn costs_ok(
    g: GraphView,
    root: u128,
    s: SideView,
    dist: Map<u128, u128>,
    queue: Seq<DijkstraNode>,
    high: u128,
) -> bool {
    tree_costs(root, s, dist) && queue_costs(s, dist, queue) && nearest_first(
        g,
        root,
        s,
        dist,
        queue,
        high,
    )
}

/// Whether the target of edge `k` of artist `u` is no farther than `u` and
/// the weight of the edge.
pub open spec fn edge_relaxed(g: GraphView, dist: Map<u128, u128>, u: u128, k: int) -> bool {
    dist.contains_key(g.edges(u)[k].0) && dist[g.edges(u)[k].0] <= dist[u] + edge_weight(
        g.edges(u)[k].1,
    )
}

/// Whether every edge of a visited artist has been followed, but for the
/// edges of `cur` from index `done` on.
pub open spec fn relaxed_except(
    g: GraphView,
    s: SideView,
    dist: Map<u128, u128>,
    cur: u128,
    done: int,
) -> bool {
    forall|u: u128, k: int|
        s.visited.contains(u) && 0 <= k < g.edges(u).len() && (u != cur || k < done)
            ==> #[trigger] edge_relaxed(g, dist, u, k)
}

/// Whether every edge of a visited artist has been followed.
pub open spec fn relaxed(g: GraphView, s: SideView, dist: Map<u128, u128>) -> bool {
    forall|u: u128, k: int|
        s.visited.contains(u) && 0 <= k < g.edges(u).len() ==> #[trigger] edge_relaxed(
            g,
            dist,
            u,
            k,
        )
}

/// An entry taken out of the queue leaves the entries of all other artists
/// in it.
proof fn lemma_queue_without(queue: Seq<DijkstraNode>, at: int, v: u128, c: u128)
    requires
        0 <= at < queue.len(),
        holds_at(queue, v, c),
        queue[at].artist != v,
    ensures
        holds_at(queue.remove(at), v, c),
{
    let i = choose|i: int|
        0 <= i < queue.len() && #[trigger] queue[i] == (DijkstraNode { cost: c, artist: v });
    if i < at {
        assert(queue.remove(at)[i] == queue[i]);
    } else {
        assert(queue.remove(at)[i - 1] == queue[i]);
    }
}

/// Taking an entry for a visited artist out of the queue changes nothing
/// else.
proof fn lemma_take_stale(
    g: GraphView,
    root: u128,
    s: SideView,
    dist: Map<u128, u128>,
    queue: Seq<DijkstraNode>,
    high: u128,
    at: int,
)
    requires
        side_tree(g, root, s),
        costs_ok(g, root, s, dist, queue, high),
        0 <= at < queue.len(),
        s.visited.contains(queue[at].artist),
    ensures
        costs_ok(g, root, s, dist, queue.remove(at), high),
{
    let rest = queue.remove(at);
    assert forall|i: int| 0 <= i < rest.len() implies s.seen((#[trigger] rest[i]).artist)
        && rest[i].cost >= dist[rest[i].artist] && rest[i].cost >= high by {
        if i < at {
            assert(rest[i] == queue[i]);
        } else {
            assert(rest[i] == queue[i + 1]);
        }
    }
    assert forall|v: u128| #[trigger] s.pending.contains(v) implies holds_at(rest, v, dist[v]) by {
        lemma_queue_without(queue, at, v, dist[v]);
    }
}

/// The nearest artist that waits is no farther than any path along the
/// graph leads to it.
proof fn lemma_nearest_waiting(
    g: GraphView,
    root: u128,
    s: SideView,
    dist: Map<u128, u128>,
    queue: Seq<DijkstraNode>,
    high: u128,
    at: int,
    p: Seq<PathStep>,
)
    requires
        side_tree(g, root, s),
        costs_ok(g, root, s, dist, queue, high),
        relaxed(g, s, dist),
        0 <= at < queue.len(),
        forall|i: int| 0 <= i < queue.len() ==> queue[at].cost <= (#[trigger] queue[i]).cost,
        !s.visited.contains(queue[at].artist),
        is_forward_path(g, root, queue[at].artist, p),
    ensures
        queue[at].cost <= path_cost(p),
{
    let v = queue[at].artist;
    let c = queue[at].cost;
    lemma_path_cost_grows(p, 0);
    assert(p.take(p.len() as int) =~= p);
    lemma_path_cost_grows(p, p.len() as int);
    if s.visited.len() == 0 {
        assert(s.seen(v));
        assert(s.pending.contains(v));
        assert(v == root);
        assert(c >= dist[v]);
        assert(holds_at(queue, v, dist[v]));
        let i = choose|i: int|
            0 <= i < queue.len() && #[trigger] queue[i] == (DijkstraNode {
                cost: dist[v],
                artist: v,
            });
        assert(queue[at].cost <= queue[i].cost);
    } else {
        lemma_unvisited_beyond(g, root, s, dist, queue, high, c as int, v, p);
    }
}

/// Where at least one artist has been visited, no path along the graph to
/// an artist not visited yet is shorter than the nearest entry of the
/// queue.
pub proof fn lemma_unvisited_beyond(
    g: GraphView,
    root: u128,
    s: SideView,
    dist: Map<u128, u128>,
    queue: Seq<DijkstraNode>,
    high: u128,
    bound: int,
    w: u128,
    p: Seq<PathStep>,
)
    requires
        side_tree(g, root, s),
        costs_ok(g, root, s, dist, queue, high),
        relaxed(g, s, dist),
        s.visited.len() > 0,
        forall|i: int| 0 <= i < queue.len() ==> (#[trigger] queue[i]).cost >= bound,
        is_forward_path(g, root, w, p),
        !s.visited.contains(w),
    ensures
        bound <= path_cost(p),
{
    lemma_path_cost_grows(p, 0);
    assert(p.take(p.len() as int) =~= p);
    lemma_path_cost_grows(p, p.len() as int);
    let i = lemma_first_outside(p, s.visited);
    assert(i >= 1) by {
        if i == 0 {
            assert(p[0].0 == root);
        }
    }
    let u = p[i - 1].0;
    let x = p[i].0;
    assert(s.visited.contains(p[i - 1].0));
    assert(forward_step(g, p, i - 1));
    let k = choose|k: int| 0 <= k < g.edges(u).len() && g.edges(u)[k] == (x, p[i].1);
    assert(edge_relaxed(g, dist, u, k));
    lemma_path_beginning(g, root, w, p, i);
    assert(is_nearest(g, root, u, dist[u] as int));
    assert(dist[u] <= path_cost(p.take(i)));
    let upto = p.take(i + 1);
    assert(upto.drop_last() =~= p.take(i));
    assert(upto.last() == p[i]);
    assert(path_cost(upto) == path_cost(p.take(i)) + edge_weight(p[i].1));
    lemma_path_cost_grows(p, i + 1);
    assert(dist[x] <= path_cost(p));
    assert(s.seen(x));
    assert(s.pending.contains(x));
    assert(holds_at(queue, x, dist[x]));
    let j = choose|j: int|
        0 <= j < queue.len() && #[trigger] queue[j] == (DijkstraNode { cost: dist[x], artist: x });
    assert(queue[j].cost >= bound);
}

/// Visiting the nearest artist that waits keeps the distances in order.
proof fn lemma_take_fresh(
    g: GraphView,
    root: u128,
    s: SideView,
    dist: Map<u128, u128>,
    queue: Seq<DijkstraNode>,
    high: u128,
    at: int,
)
    requires
        side_tree(g, root, s),
        side_tree(g, root, s.settle(queue[at].artist)),
        costs_ok(g, root, s, dist, queue, high),
        relaxed(g, s, dist),
        0 <= at < queue.len(),
        forall|i: int| 0 <= i < queue.len() ==> queue[at].cost <= (#[trigger] queue[i]).cost,
        !s.visited.contains(queue[at].artist),
    ensures
        queue[at].cost == dist[queue[at].artist],
        costs_ok(
            g,
            root,
            s.settle(queue[at].artist),
            dist,
            queue.remove(at),
            queue[at].cost,
        ),
        relaxed_except(g, s.settle(queue[at].artist), dist, queue[at].artist, 0),
{
    let v = queue[at].artist;
    let c = queue[at].cost;
    let t = s.settle(v);
    let rest = queue.remove(at);
    assert(s.seen(v));
    assert(s.pending.contains(v));
    assert(holds_at(queue, v, dist[v]));
    let own = choose|i: int|
        0 <= i < queue.len() && #[trigger] queue[i] == (DijkstraNode { cost: dist[v], artist: v });
    assert(queue[at].cost <= queue[own].cost);
    assert(c == dist[v]);
    assert(c >= high);
    assert(t.visited.len() == s.visited.len() + 1);
    assert forall|w: u128| #[trigger] t.seen(w) implies dist.contains_key(w) by {
        assert(s.seen(w));
    }
    assert forall|w: u128| #[trigger] dist.contains_key(w) implies t.seen(w) by {
        assert(s.seen(w));
    }
    if s.visited.len() == 0 {
        assert(v == root);
    }
    assert(t.visited.contains(root)) by {
        if s.visited.len() > 0 {
            assert(s.visited.contains(root));
        }
    }
    assert forall|w: u128| #[trigger] t.seen(w) && w != root implies dist[w] == dist[t.parent[w].0]
        + edge_weight(t.parent[w].1) by {
        assert(s.seen(w));
    }
    assert forall|i: int| 0 <= i < rest.len() implies t.seen((#[trigger] rest[i]).artist)
        && rest[i].cost >= dist[rest[i].artist] && rest[i].cost >= c by {
        if i < at {
            assert(rest[i] == queue[i]);
        } else {
            assert(rest[i] == queue[i + 1]);
        }
        assert(s.seen(rest[i].artist));
    }
    assert forall|w: u128| #[trigger] t.pending.contains(w) implies holds_at(rest, w, dist[w]) by {
        assert(s.pending.contains(w));
        lemma_queue_without(queue, at, w, dist[w]);
    }
    assert forall|w: u128| #[trigger] t.seen(w) implies dist[w] <= reach_limit(t, w) by {
        assert(s.seen(w));
        assert(dist[w] <= reach_limit(s, w));
    }
    assert forall|w: u128| #[trigger] t.visited.contains(w) implies dist[w] <= c by {
        if w != v {
            assert(s.visited.contains(w));
        }
    }
    assert forall|w: u128| #[trigger] t.visited.contains(w) implies is_nearest(
        g,
        root,
        w,
        dist[w] as int,
    ) by {
        if w == v {
            assert forall|p: Seq<PathStep>| #[trigger]
                is_forward_path(g, root, v, p) implies dist[v] <= path_cost(p) by {
                lemma_nearest_waiting(g, root, s, dist, queue, high, at, p);
            }
        } else {
            assert(s.visited.contains(w));
        }
    }
    assert forall|u: u128, k: int|
        t.visited.contains(u) && 0 <= k < g.edges(u).len() && (u != v || k < 0)
            implies #[trigger] edge_relaxed(g, dist, u, k) by {
        assert(s.visited.contains(u));
    }
}

/// Passing over an edge of the artist being visited: its target has been
/// visited, or is no farther than over this edge.
proof fn lemma_relax_skip(
    g: GraphView,
    root: u128,
    s: SideView,
    dist: Map<u128, u128>,
    queue: Seq<DijkstraNode>,
    high: u128,
    cur: u128,
    k: int,
)
    requires
        side_tree(g, root, s),
        costs_ok(g, root, s, dist, queue, high),
        relaxed_except(g, s, dist, cur, k),
        s.visited.contains(cur),
        dist[cur] == high,
        0 <= k < g.edges(cur).len(),
        s.visited.contains(g.edges(cur)[k].0) || (dist.contains_key(g.edges(cur)[k].0)
            && dist[g.edges(cur)[k].0] <= dist[cur] + edge_weight(g.edges(cur)[k].1)),
    ensures
        relaxed_except(g, s, dist, cur, k + 1),
{
    let e = g.edges(cur)[k];
    lemma_weight_range(e.1);
    if s.visited.contains(e.0) {
        assert(s.seen(e.0));
        assert(dist[e.0] <= high);
    }
    assert(edge_relaxed(g, dist, cur, k));
}

/// The sum of the distance of the artist being visited and the weight of
/// one of its edges fits the machine.
proof fn lemma_sum_fits(
    g: GraphView,
    root: u128,
    s: SideView,
    dist: Map<u128, u128>,
    queue: Seq<DijkstraNode>,
    high: u128,
    cur: u128,
    k: int,
)
    requires
        side_tree(g, root, s),
        costs_ok(g, root, s, dist, queue, high),
        s.visited.contains(cur),
        0 <= k < g.edges(cur).len(),
        !s.visited.contains(g.edges(cur)[k].0),
    ensures
        0 <= edge_weight(g.edges(cur)[k].1) <= 0x1_0000_0000_0000_0000,
        dist[cur] + edge_weight(g.edges(cur)[k].1) <= s.visited.len() * 0x1_0000_0000_0000_0000,
        dist[cur] + edge_weight(g.edges(cur)[k].1) <= u128::MAX,
{
    let e = g.edges(cur)[k];
    lemma_weight_range(e.1);
    assert(s.seen(cur));
    assert(dist[cur] <= reach_limit(s, cur));
    assert(s.order[cur] < s.visited.len());
    lemma_edge_in_universe(g, cur, k, root);
    lemma_universe_size(g, root);
    let u = g.universe(root);
    assert(s.visited.subset_of(u.remove(e.0)));
    vstd::set_lib::lemma_len_subset(s.visited, u.remove(e.0));
    assert(s.visited.len() <= g.data.len());
    assert(s.visited.len() <= 0xffff_ffff_ffff_ffff);
}

/// Hanging the target of an edge of the artist being visited on that edge,
/// where it comes nearer over it than it was, keeps the distances in order.
proof fn lemma_relax_adopt(
    g: GraphView,
    root: u128,
    s: SideView,
    dist: Map<u128, u128>,
    queue: Seq<DijkstraNode>,
    high: u128,
    cur: u128,
    k: int,
)
    requires
        side_tree(g, root, s),
        side_tree(g, root, s.adopt(g.edges(cur)[k].0, cur, g.edges(cur)[k].1)),
        costs_ok(g, root, s, dist, queue, high),
        relaxed_except(g, s, dist, cur, k),
        s.visited.contains(cur),
        dist[cur] == high,
        0 <= k < g.edges(cur).len(),
        !s.visited.contains(g.edges(cur)[k].0),
        dist.contains_key(g.edges(cur)[k].0) ==> dist[cur] + edge_weight(g.edges(cur)[k].1)
            < dist[g.edges(cur)[k].0],
    ensures
        dist[cur] + edge_weight(g.edges(cur)[k].1) <= u128::MAX,
        costs_ok(
            g,
            root,
            s.adopt(g.edges(cur)[k].0, cur, g.edges(cur)[k].1),
            dist.insert(
                g.edges(cur)[k].0,
                (dist[cur] + edge_weight(g.edges(cur)[k].1)) as u128,
            ),
            queue.push(
                (DijkstraNode {
                    cost: (dist[cur] + edge_weight(g.edges(cur)[k].1)) as u128,
                    artist: g.edges(cur)[k].0,
                }),
            ),
            high,
        ),
        relaxed_except(
            g,
            s.adopt(g.edges(cur)[k].0, cur, g.edges(cur)[k].1),
            dist.insert(
                g.edges(cur)[k].0,
                (dist[cur] + edge_weight(g.edges(cur)[k].1)) as u128,
            ),
            cur,
            k + 1,
        ),
{
    let e = g.edges(cur)[k];
    let v = e.0;
    lemma_sum_fits(g, root, s, dist, queue, high, cur, k);
    let new_cost = (dist[cur] + edge_weight(e.1)) as u128;
    let t = s.adopt(v, cur, e.1);
    let now = dist.insert(v, new_cost);
    let node = DijkstraNode { cost: new_cost, artist: v };
    let more = queue.push(node);
    assert(s.visited.len() > 0) by {
        assert(s.visited.len() != 0);
    }
    assert(v != root);
    assert(v != cur);
    assert(more[queue.len() as int] == node);
    assert forall|w: u128| #[trigger] t.seen(w) implies now.contains_key(w) by {
        if w != v {
            assert(s.seen(w));
        }
    }
    assert forall|w: u128| #[trigger] now.contains_key(w) implies t.seen(w) by {
        if w != v {
            assert(s.seen(w));
        }
    }
    assert forall|w: u128| #[trigger] t.seen(w) && w != root implies now[w] == now[t.parent[w].0]
        + edge_weight(t.parent[w].1) by {
        if w != v {
            assert(s.seen(w));
            assert(has_parent(g, s, w));
            assert(s.visited.contains(s.parent[w].0));
        }
    }
    assert forall|i: int| 0 <= i < more.len() implies t.seen((#[trigger] more[i]).artist)
        && more[i].cost >= now[more[i].artist] && more[i].cost >= high by {
        if i < queue.len() {
            assert(more[i] == queue[i]);
            assert(s.seen(queue[i].artist));
        }
    }
    assert forall|w: u128| #[trigger] t.pending.contains(w) implies holds_at(more, w, now[w]) by {
        if w != v {
            assert(holds_at(queue, w, dist[w]));
            let i = choose|i: int|
                0 <= i < queue.len() && #[trigger] queue[i] == (DijkstraNode {
                    cost: dist[w],
                    artist: w,
                });
            assert(more[i] == queue[i]);
        }
    }
    assert forall|w: u128| #[trigger] t.seen(w) implies now[w] <= reach_limit(t, w) by {
        if w != v {
            assert(s.seen(w));
            assert(dist[w] <= reach_limit(s, w));
        }
    }
    assert forall|w: u128| #[trigger] t.visited.contains(w) implies now[w] <= high && is_nearest(
        g,
        root,
        w,
        now[w] as int,
    ) by {
        assert(s.visited.contains(w));
    }
    assert forall|u: u128, j: int|
        t.visited.contains(u) && 0 <= j < g.edges(u).len() && (u != cur || j < k + 1)
            implies #[trigger] edge_relaxed(g, now, u, j) by {
        if u == cur && j == k {
        } else {
            assert(edge_relaxed(g, dist, u, j));
        }
    }
}

/// Once all edges of the artist being visited have been followed, every
/// edge of a visited artist has been.
proof fn lemma_relaxed(g: GraphView, s: SideView, dist: Map<u128, u128>, cur: u128, done: int)
    requires
        relaxed_except(g, s, dist, cur, done),
        done >= g.edges(cur).len(),
    ensures
        relaxed(g, s, dist),
{
}

/// What taking the next entry of a side's queue gave.
pub(crate) enum Taken {
    /// The queue was empty.
    Nothing,
    /// The entry was for an artist that had been visited already.
    Stale,
    /// The entry's artist has now been visited.
    Fresh(DijkstraNode),
    /// The entry lay beyond the limit that the caller gave.
    Beyond,
}

/// One side of the search.
pub(crate) struct DijkstraState {
    pub(crate) heap: MinQueue,
    pub(crate) distances: FxHashMap<u128, u128>,
    pub(crate) parent_map: FxHashMap<u128, PathStep>,
    pub(crate) visited: FxHashSet<u128>,
    pub(crate) pending: Ghost<Set<u128>>,
    pub(crate) order: Ghost<Map<u128, nat>>,
    pub(crate) high: Ghost<u128>,
}

impl DijkstraState {
    pub(crate) open spec fn view(&self) -> SideView {
        SideView {
            visited: self.visited@,
            pending: self.pending@,
            parent: self.parent_map@,
            order: self.order@,
        }
    }

    /// The side as the search computes with it.
    pub(crate) open spec fn model(&self) -> DijkstraModel {
        DijkstraModel {
            heap: self.heap@,
            distances: self.distances@,
            parent: self.parent_map@,
            visited: self.visited@,
        }
    }

    /// The side and its distances are in order.
    pub(crate) open spec fn inv(&self, g: GraphView, root: u128) -> bool {
        &&& side_tree(g, root, self@)
        &&& costs_ok(g, root, self@, self.distances@, self.heap@, self.high@)
    }

    pub(crate) fn new(start: u128, Ghost(g): Ghost<GraphView>) -> (r: Self)
        requires
            g.data.len() <= usize::MAX,
        ensures
            r.inv(g, start),
            closed(g, r@),
            relaxed(g, r@, r.distances@),
            r.visited@ == Set::<u128>::empty(),
            r@ == SideView::initial(start),
            r.model() == DijkstraModel::start(start),
    {
        let mut heap = MinQueue::new();
        let mut distances = id_map_new();
        heap.push(DijkstraNode { cost: 0, artist: start });
        id_map_insert(&mut distances, start, 0u128);
        let r = DijkstraState {
            heap,
            distances,
            parent_map: id_map_new(),
            visited: id_set_new(),
            pending: Ghost(Set::empty().insert(start)),
            order: Ghost(Map::empty()),
            high: Ghost(0),
        };
        proof {
            lemma_initial(g, start);
            assert(r.parent_map@ =~= Map::empty());
            assert(r@ == SideView::initial(start));
            assert(r.heap@[0] == (DijkstraNode { cost: 0, artist: start }));
            assert(r.distances@.dom() =~= Set::<u128>::empty().insert(start));
            assert(r.heap@ =~= seq![DijkstraNode { cost: 0, artist: start }]);
            assert(r.distances@ =~= Map::<u128, u128>::empty().insert(start, 0u128));
        }
        r
    }

    /// Takes the nearest entry from the queue. Where it lies beyond the limit
    /// it is dropped and nothing else is done. Else, where its artist has not
    /// been visited yet, it is visited now; the entry handed back carries the
    /// artist's distance, and no path along the graph is shorter.
    pub(crate) fn take_next(
        &mut self,
        limit: Option<u128>,
        Ghost(g): Ghost<GraphView>,
        Ghost(root): Ghost<u128>,
    ) -> (r: Taken)
        requires
            old(self).inv(g, root),
            closed(g, old(self)@),
            relaxed(g, old(self)@, old(self).distances@),
        ensures
            side_tree(g, root, final(self)@),
            tree_costs(root, final(self)@, final(self).distances@),
            final(self).distances@ == old(self).distances@,
            final(self).parent_map@ == old(self).parent_map@,
            match r {
                Taken::Nothing => {
                    &&& old(self).heap@.len() == 0
                    &&& final(self).heap@.len() == 0
                    &&& final(self)@ == old(self)@
                    &&& final(self).model() == old(self).model()
                    &&& final(self).inv(g, root)
                    &&& closed(g, final(self)@)
                    &&& relaxed(g, final(self)@, final(self).distances@)
                },
                Taken::Stale => {
                    &&& final(self).heap@.len() == old(self).heap@.len() - 1
                    &&& final(self)@ == old(self)@
                    &&& old(self).visited@.contains(old(self).model().nearest().artist)
                    &&& final(self).model() == old(self).model().pop()
                    &&& final(self).inv(g, root)
                    &&& closed(g, final(self)@)
                    &&& relaxed(g, final(self)@, final(self).distances@)
                },
                Taken::Beyond => {
                    &&& limit.is_some()
                    &&& old(self).heap@.len() > 0
                    &&& final(self)@ == old(self)@
                    &&& forall|i: int|
                        0 <= i < old(self).heap@.len() ==> (#[trigger] old(self).heap@[i]).cost
                            > limit.unwrap()
                },
                Taken::Fresh(node) => {
                    &&& final(self).heap@.len() == old(self).heap@.len() - 1
                    &&& final(self).inv(g, root)
                    &&& node == old(self).model().nearest()
                    &&& final(self).model() == old(self).model().visit()
                    &&& work_left(g, root, final(self).visited@, final(self).heap@.len())
                        == work_left(g, root, old(self).visited@, old(self).heap@.len()) - (
                    g.data.len() + 2)
                    &&& !old(self).visited@.contains(node.artist)
                    &&& final(self)@ == old(self)@.settle(node.artist)
                    &&& node.cost == final(self).distances@[node.artist]
                    &&& node.cost == final(self).high@
                    &&& node.cost >= old(self).high@
                    &&& closed_except(g, final(self)@, node.artist, 0)
                    &&& relaxed_except(g, final(self)@, final(self).distances@, node.artist, 0)
                    &&& g.universe(root).difference(final(self).visited@).len() < g.universe(
                        root,
                    ).difference(old(self).visited@).len()
                },
            },
    {
        let ghost before = self@;
        let ghost old_heap = self.heap@;
        let ghost dist = self.distances@;
        let ghost high = self.high@;
        let node = match self.heap.pop() {
            Some(node) => node,
            None => {
                return Taken::Nothing;
            },
        };
        let current = node.artist;
        let ghost at = first_min(old_heap);
        proof {
            crate::pathfinding::min_queue::lemma_first_min(old_heap);
            assert(old_heap[at] == node);
        }
        match limit {
            Some(bound) => {
                if node.cost > bound {
                    return Taken::Beyond;
                }
            },
            None => {},
        }
        if id_set_contains(&self.visited, current) {
            proof {
                lemma_take_stale(g, root, before, dist, old_heap, high, at);
            }
            return Taken::Stale;
        }
        id_set_insert(&mut self.visited, current);
        proof {
            self.pending = Ghost(before.pending.remove(current));
            self.order = Ghost(before.order.insert(current, before.visited.len()));
            self.high = Ghost(node.cost);
            assert(before.seen(current));
            lemma_settle(g, root, before, current);
            assert(self@ == before.settle(current));
            lemma_take_fresh(g, root, before, dist, old_heap, high, at);
            lemma_work_visit(g, root, before.visited, current, self.heap@.len());
        }
        Taken::Fresh(node)
    }

    /// Follows one edge of the artist being visited. Where the neighbour has
    /// not been visited and comes nearer over this edge than it was, it is
    /// hung on the edge and put in the queue at its new distance.
    pub(crate) fn visit_neighbor(
        &mut self,
        neighbor: u128,
        current: u128,
        similarity: u32,
        current_cost: u128,
        Ghost(g): Ghost<GraphView>,
        Ghost(root): Ghost<u128>,
        Ghost(k): Ghost<int>,
    )
        requires
            old(self).inv(g, root),
            closed_except(g, old(self)@, current, k),
            relaxed_except(g, old(self)@, old(self).distances@, current, k),
            old(self).visited@.contains(current),
            current_cost == old(self).distances@[current],
            current_cost == old(self).high@,
            0 <= k < g.edges(current).len(),
            g.edges(current)[k] == (neighbor, similarity),
        ensures
            final(self).inv(g, root),
            closed_except(g, final(self)@, current, k + 1),
            relaxed_except(g, final(self)@, final(self).distances@, current, k + 1),
            final(self).visited@ == old(self).visited@,
            final(self).order@ == old(self).order@,
            final(self).high@ == old(self).high@,
            final(self).distances@[current] == current_cost,
            final(self).heap@.len() <= old(self).heap@.len() + 1,
            final(self).model() == old(self).model().relax(
                current,
                current_cost,
                (neighbor, similarity),
            ),
            forall|v: u128| #[trigger]
                old(self).visited@.contains(v) ==> final(self).parent_map@[v] == old(
                    self,
                ).parent_map@[v] && final(self).distances@[v] == old(self).distances@[v],
    {
        let ghost before = self@;
        let ghost old_heap = self.heap@;
        let ghost dist = self.distances@;
        let ghost high = self.high@;
        if id_set_contains(&self.visited, neighbor) {
            proof {
                lemma_skip_edge(g, before, current, k);
                lemma_relax_skip(g, root, before, dist, old_heap, high, current, k);
            }
            return ;
        }
        proof {
            lemma_sum_fits(g, root, before, dist, old_heap, high, current, k);
        }
        let weight = edge_cost(similarity);
        let new_cost = add_cost(current_cost, weight);
        match id_map_get(&self.distances, neighbor) {
            Some(existing_cost) => {
                if new_cost >= *existing_cost {
                    proof {
                        assert(self.distances@.contains_key(neighbor));
                        lemma_skip_edge(g, before, current, k);
                        lemma_relax_skip(g, root, before, dist, old_heap, high, current, k);
                    }
                    return ;
                }
            },
            None => {},
        }
        id_map_insert(&mut self.distances, neighbor, new_cost);
        id_map_insert(&mut self.parent_map, neighbor, (current, similarity));
        self.heap.push(DijkstraNode { cost: new_cost, artist: neighbor });
        proof {
            self.pending = Ghost(before.pending.insert(neighbor));
            lemma_adopt(g, root, before, current, k);
            assert(self@ == before.adopt(neighbor, current, similarity));
            lemma_relax_adopt(g, root, before, dist, old_heap, high, current, k);
            assert(neighbor != current);
        }
    }

    /// Follows all edges of the artist just visited.
    pub(crate) fn expand(
        &mut self,
        current: u128,
        current_cost: u128,
        connections: &Vec<PathStep>,
        Ghost(g): Ghost<GraphView>,
        Ghost(root): Ghost<u128>,
    )
        requires
            old(self).inv(g, root),
            closed_except(g, old(self)@, current, 0),
            relaxed_except(g, old(self)@, old(self).distances@, current, 0),
            old(self).visited@.contains(current),
            current_cost == old(self).distances@[current],
            current_cost == old(self).high@,
            connections@ == g.edges(current),
        ensures
            final(self).inv(g, root),
            closed(g, final(self)@),
            relaxed(g, final(self)@, final(self).distances@),
            final(self).visited@ == old(self).visited@,
            final(self).order@ == old(self).order@,
            final(self).heap@.len() <= old(self).heap@.len() + connections@.len(),
            final(self).model() == old(self).model().expand(current, current_cost, connections@),
            forall|v: u128| #[trigger]
                old(self).visited@.contains(v) ==> final(self).parent_map@[v] == old(
                    self,
                ).parent_map@[v] && final(self).distances@[v] == old(self).distances@[v],
    {
        let mut k: usize = 0;
        while k < connections.len()
            invariant
                k <= connections.len(),
                connections@ == g.edges(current),
                self.inv(g, root),
                closed_except(g, self@, current, k as int),
                relaxed_except(g, self@, self.distances@, current, k as int),
                self.visited@ == old(self).visited@,
                self.order@ == old(self).order@,
                self.high@ == old(self).high@,
                self.visited@.contains(current),
                current_cost == self.distances@[current],
                current_cost == self.high@,
                self.heap@.len() <= old(self).heap@.len() + k,
                self.model() == old(self).model().expand(
                    current,
                    current_cost,
                    connections@.take(k as int),
                ),
                forall|v: u128| #[trigger]
                    old(self).visited@.contains(v) ==> self.parent_map@[v] == old(
                        self,
                    ).parent_map@[v] && self.distances@[v] == old(self).distances@[v],
            decreases connections.len() - k,
        {
            let (neighbor, similarity) = connections[k];
            proof {
                let upto = connections@.take(k + 1);
                assert(upto.drop_last() =~= connections@.take(k as int));
                assert(upto.last() == (neighbor, similarity));
            }
            self.visit_neighbor(
                neighbor,
                current,
                similarity,
                current_cost,
                Ghost(g),
                Ghost(root),
                Ghost(k as int),
            );
            k = k + 1;
        }
        proof {
            lemma_closed(g, self@, current, k as int);
            lemma_relaxed(g, self@, self.distances@, current, k as int);
            assert(connections@.take(k as int) =~= connections@);
        }
    }
}

/// The distance of an artist is the distance that the steps of its tree
/// cover from the root.
pub proof fn lemma_tree_cost(root: u128, s: SideView, dist: Map<u128, u128>, p: Seq<PathStep>, j: int)
    requires
        tree_costs(root, s, dist),
        0 <= j < p.len(),
        p[0].0 == root,
        forall|i: int| 0 <= i < j ==> #[trigger] tree_step(s, root, p, i),
    ensures
        path_cost(p.take(j + 1)) == dist[p[j].0],
    decreases j,
{
    if j > 0 {
        lemma_tree_cost(root, s, dist, p, j - 1);
        let upto = p.take(j + 1);
        assert(upto.drop_last() =~= p.take(j));
        assert(upto.last() == p[j]);
        assert(tree_step(s, root, p, j - 1));
        assert(s.seen(p[j].0));
    }
}

/// The distance of an artist on the way to the root of a side is the
/// distance that the steps of its tree cover up to the root.
pub proof fn lemma_tree_cost_back(
    root: u128,
    s: SideView,
    dist: Map<u128, u128>,
    p: Seq<PathStep>,
    k: int,
    j: int,
)
    requires
        tree_costs(root, s, dist),
        0 <= k <= j < p.len(),
        p.last().0 == root,
        forall|i: int| k <= i < p.len() - 1 ==> #[trigger] tree_step_back(s, root, p, i),
    ensures
        dist[p[j].0] == path_cost(p) - path_cost(p.take(j + 1)),
    decreases p.len() - j,
{
    if j == p.len() - 1 {
        assert(p.take(j + 1) =~= p);
    } else {
        lemma_tree_cost_back(root, s, dist, p, k, j + 1);
        let upto = p.take(j + 2);
        assert(upto.drop_last() =~= p.take(j + 1));
        assert(upto.last() == p[j + 1]);
        assert(tree_step_back(s, root, p, j));
        assert(s.seen(p[j].0));
    }
}

/// Joins the parents of the two sides into one path through the artist at
/// which they met. Neither part of the path could be shorter.
fn reconstruct_bidirectional_dijkstra_path(
    forward_state: &DijkstraState,
    reverse_state: &DijkstraState,
    start: u128,
    target: u128,
    meeting_point: u128,
    Ghost(fwd): Ghost<GraphView>,
    Ghost(rev): Ghost<GraphView>,
) -> (path: Vec<PathStep>)
    requires
        forward_state.inv(fwd, start),
        reverse_state.inv(rev, target),
        forward_state.visited@.contains(meeting_point),
        reverse_state.visited@.contains(meeting_point),
    ensures
        is_joined_path(fwd, rev, start, target, path@),
        path@ == joined(
            forward_state.parent_map@,
            reverse_state.parent_map@,
            start,
            target,
            meeting_point,
            forward_state.visited@.len(),
            reverse_state.visited@.len(),
        ),
        exists|k: int| is_nearest_meeting(fwd, rev, path@, k),
        forall|i: int|
            0 <= i < path@.len() ==> forward_state.visited@.contains((#[trigger] path@[i]).0)
                || reverse_state.visited@.contains(path@[i].0),
{
    let (path, Ghost(k)) = reconstruct_bidirectional_path(
        &forward_state.parent_map,
        &reverse_state.parent_map,
        start,
        target,
        meeting_point,
        Ghost(fwd),
        Ghost(rev),
        Ghost(forward_state@),
        Ghost(reverse_state@),
    );
    proof {
        lemma_tree_cost(start, forward_state@, forward_state.distances@, path@, k);
        lemma_tree_cost_back(target, reverse_state@, reverse_state.distances@, path@, k, k);
        assert(is_nearest(
            fwd,
            start,
            meeting_point,
            forward_state.distances@[meeting_point] as int,
        ));
        assert(is_nearest(
            rev,
            target,
            meeting_point,
            reverse_state.distances@[meeting_point] as int,
        ));
        assert(is_nearest_meeting(fwd, rev, path@, k));
    }
    path
}

#[verifier::rlimit(60)]
/// Searches a path from `start` to `target` by best similarity, from both
/// ends.
///
/// Returns the path where the two artists meet, the number of artists
/// visited, and the time taken in microseconds. The path is the one that
/// the search, taken round by round, comes to: the same query gives the
/// same path. It goes along the
/// forward graph to the artist at which the two sides met, and no path
/// along the forward graph leads there over a shorter distance; from there
/// it goes against the reverse graph, and no path along the reverse graph
/// leads from the target to that artist over a shorter distance. Where the
/// two artists do not meet, every artist that either of them reaches has
/// been visited.
pub fn dijkstra_find_path(
    start: u128,
    target: u128,
    forward_graph_data: &[u8],
    forward_graph_index: &FxHashMap<u128, u64>,
    reverse_graph_data: &[u8],
    reverse_graph_index: &FxHashMap<u128, u64>,
    config: &PathfindingConfig,
) -> (r: PathResult)
    ensures
        path_view(r.0) == dijkstra_path(
            (GraphView { data: forward_graph_data@, index: forward_graph_index@, config: *config }),
            (GraphView { data: reverse_graph_data@, index: reverse_graph_index@, config: *config }),
            start,
            target,
        ),
        r.0.is_some() == meets(
            (GraphView { data: forward_graph_data@, index: forward_graph_index@, config: *config }),
            (GraphView { data: reverse_graph_data@, index: reverse_graph_index@, config: *config }),
            start,
            target,
        ),
        r.0.is_some() ==> is_joined_path(
            (GraphView { data: forward_graph_data@, index: forward_graph_index@, config: *config }),
            (GraphView { data: reverse_graph_data@, index: reverse_graph_index@, config: *config }),
            start,
            target,
            r.0.unwrap()@,
        ),
        r.0.is_some() ==> exists|k: int|
            is_nearest_meeting(
                (GraphView {
                    data: forward_graph_data@,
                    index: forward_graph_index@,
                    config: *config,
                }),
                (GraphView {
                    data: reverse_graph_data@,
                    index: reverse_graph_index@,
                    config: *config,
                }),
                r.0.unwrap()@,
                k,
            ),
        r.0.is_some() ==> r.1 >= 1 && (start != target ==> r.1 >= 2),
        r.0.is_some() ==> r.1 == dijkstra_visited(
            (GraphView { data: forward_graph_data@, index: forward_graph_index@, config: *config }),
            (GraphView { data: reverse_graph_data@, index: reverse_graph_index@, config: *config }),
            start,
            target,
        ).unwrap().len(),
        r.0.is_none() ==> r.1 == reached_by_either(
            (GraphView { data: forward_graph_data@, index: forward_graph_index@, config: *config }),
            (GraphView { data: reverse_graph_data@, index: reverse_graph_index@, config: *config }),
            start,
            target,
        ).len(),
{
    let ghost fwd = GraphView {
        data: forward_graph_data@,
        index: forward_graph_index@,
        config: *config,
    };
    let ghost rev = GraphView {
        data: reverse_graph_data@,
        index: reverse_graph_index@,
        config: *config,
    };
    let search_timer = instant_now();
    let forward_len = forward_graph_data.len();
    let reverse_len = reverse_graph_data.len();
    let mut forward_state = DijkstraState::new(start, Ghost(fwd));
    let mut reverse_state = DijkstraState::new(target, Ghost(rev));
    let mut all_visited: FxHashSet<u128> = id_set_new();
    let ghost mut rounds: nat = round_limit(fwd, start) + round_limit(rev, target);
    let ghost answer = search(fwd, rev, forward_state.model(), reverse_state.model(), rounds);
    proof {
        lemma_work_start(fwd, start);
        lemma_work_start(rev, target);
    }

    loop
        invariant_except_break
            forward_state.inv(fwd, start),
            closed(fwd, forward_state@),
            relaxed(fwd, forward_state@, forward_state.distances@),
            reverse_state.inv(rev, target),
            closed(rev, reverse_state@),
            relaxed(rev, reverse_state@, reverse_state.distances@),
            forall|v: u128|
                forward_state.visited@.contains(v) ==> !reverse_state.visited@.contains(v),
            all_visited@ == forward_state.visited@.union(reverse_state.visited@),
            fwd == (GraphView {
                data: forward_graph_data@,
                index: forward_graph_index@,
                config: *config,
            }),
            rev == (GraphView {
                data: reverse_graph_data@,
                index: reverse_graph_index@,
                config: *config,
            }),
            search(fwd, rev, forward_state.model(), reverse_state.model(), rounds) == answer,
            answer == search(
                fwd,
                rev,
                DijkstraModel::start(start),
                DijkstraModel::start(target),
                round_limit(fwd, start) + round_limit(rev, target),
            ),
            rounds >= work_left(fwd, start, forward_state.visited@, forward_state.heap@.len())
                + work_left(rev, target, reverse_state.visited@, reverse_state.heap@.len()),
        ensures
            forward_state.inv(fwd, start),
            closed(fwd, forward_state@),
            reverse_state.inv(rev, target),
            closed(rev, reverse_state@),
            forall|v: u128|
                forward_state.visited@.contains(v) ==> !reverse_state.visited@.contains(v),
            all_visited@ == forward_state.visited@.union(reverse_state.visited@),
            forward_state.heap@.len() == 0,
            reverse_state.heap@.len() == 0,
            answer.is_none(),
        decreases
                fwd.universe(start).difference(forward_state.visited@).len() + rev.universe(
                    target,
                ).difference(reverse_state.visited@).len(),
                forward_state.heap@.len() + reverse_state.heap@.len(),
    {
        let ghost f0 = forward_state.model();
        let ghost r0 = reverse_state.model();
        proof {
            lemma_work_left(fwd, start, forward_state.visited@, forward_state.heap@.len());
            lemma_work_left(rev, target, reverse_state.visited@, reverse_state.heap@.len());
            if f0.heap.len() > 0 || r0.heap.len() > 0 {
                assert(rounds >= 1);
                assert(search(fwd, rev, f0, r0, rounds) == (match round(fwd, rev, f0, r0) {
                    Round::Met(m) => Some(m),
                    Round::On(f2, r2) => search(fwd, rev, f2, r2, (rounds - 1) as nat),
                }));
                rounds = (rounds - 1) as nat;
            } else {
                assert(answer.is_none());
            }
        }
        let forward_finished = match forward_state.take_next(None, Ghost(fwd), Ghost(start)) {
            Taken::Fresh(node) => {
                let forward_current = node.artist;
                id_set_insert(&mut all_visited, forward_current);
                assert(all_visited@ =~= forward_state.visited@.union(reverse_state.visited@));
                if id_set_contains(&reverse_state.visited, forward_current) {
                    let path = reconstruct_bidirectional_dijkstra_path(
                        &forward_state,
                        &reverse_state,
                        start,
                        target,
                        forward_current,
                        Ghost(fwd),
                        Ghost(rev),
                    );
                    let elapsed_time = micros_since(&search_timer);
                    let visited_count = id_set_len(&all_visited);
                    proof {
                        lemma_joined_path_meets(fwd, rev, start, target, path@);
                        assert(all_visited@.contains(path@[0].0));
                        assert(all_visited@.contains(path@[path@.len() - 1].0));
                        lemma_count(all_visited@, path@, start, target);
                        assert(answer == Some(
                            Meeting {
                                at: forward_current,
                                forward: forward_state.model(),
                                reverse: reverse_state.model(),
                            },
                        ));
                    }
                    return (Some(path), visited_count, elapsed_time);
                }
                let connections = get_artist_connections(
                    forward_current,
                    forward_graph_data,
                    forward_graph_index,
                    config,
                );
                proof {
                    lemma_degree(fwd, forward_current);
                }
                forward_state.expand(
                    forward_current,
                    node.cost,
                    &connections,
                    Ghost(fwd),
                    Ghost(start),
                );
                false
            },
            Taken::Stale => false,
            Taken::Beyond => false,
            Taken::Nothing => true,
        };

        let reverse_finished = match reverse_state.take_next(None, Ghost(rev), Ghost(target)) {
            Taken::Fresh(node) => {
                let reverse_current = node.artist;
                id_set_insert(&mut all_visited, reverse_current);
                assert(all_visited@ =~= forward_state.visited@.union(reverse_state.visited@));
                if id_set_contains(&forward_state.visited, reverse_current) {
                    let path = reconstruct_bidirectional_dijkstra_path(
                        &forward_state,
                        &reverse_state,
                        start,
                        target,
                        reverse_current,
                        Ghost(fwd),
                        Ghost(rev),
                    );
                    let elapsed_time = micros_since(&search_timer);
                    let visited_count = id_set_len(&all_visited);
                    proof {
                        lemma_joined_path_meets(fwd, rev, start, target, path@);
                        assert(all_visited@.contains(path@[0].0));
                        assert(all_visited@.contains(path@[path@.len() - 1].0));
                        lemma_count(all_visited@, path@, start, target);
                        assert(answer == Some(
                            Meeting {
                                at: reverse_current,
                                forward: forward_state.model(),
                                reverse: reverse_state.model(),
                            },
                        ));
                    }
                    return (Some(path), visited_count, elapsed_time);
                }
                let connections = get_artist_connections(
                    reverse_current,
                    reverse_graph_data,
                    reverse_graph_index,
                    config,
                );
                proof {
                    lemma_degree(rev, reverse_current);
                }
                reverse_state.expand(
                    reverse_current,
                    node.cost,
                    &connections,
                    Ghost(rev),
                    Ghost(target),
                );
                false
            },
            Taken::Stale => false,
            Taken::Beyond => false,
            Taken::Nothing => true,
        };

        if forward_finished && reverse_finished {
            break ;
        }
    }

    let elapsed_time = micros_since(&search_timer);
    let visited_count = id_set_len(&all_visited);
    proof {
        assert forall|v: u128| !forward_state@.pending.contains(v) by {
            if forward_state.pending@.contains(v) {
                assert(holds_at(forward_state.heap@, v, forward_state.distances@[v]));
            }
        }
        assert forall|v: u128| !reverse_state@.pending.contains(v) by {
            if reverse_state.pending@.contains(v) {
                assert(holds_at(reverse_state.heap@, v, reverse_state.distances@[v]));
            }
        }
        lemma_no_meeting(fwd, rev, start, target, forward_state@, reverse_state@);
        lemma_exhausted_both(fwd, rev, start, target, forward_state@, reverse_state@);
    }
    (None, visited_count, elapsed_time)
}

/// A search that has visited both ends of its path has visited at least one
/// artist, and two where the ends differ.
proof fn lemma_count(seen: Set<u128>, p: Seq<PathStep>, start: u128, target: u128)
    requires
        seen.finite(),
        p.len() >= 1,
        p[0].0 == start,
        p.last().0 == target,
        seen.contains(start),
        seen.contains(target),
    ensures
        seen.len() >= 1,
        start != target ==> seen.len() >= 2,
{
    if start != target {
        lemma_two_elements(seen, start, target);
    } else {
        assert(seen.len() != 0);
    }
}

} // verus!
