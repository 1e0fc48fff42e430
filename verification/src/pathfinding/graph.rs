//! The graph that a query sees, as a mathematical object.
//!
//! An adjacency file, its index and a policy together fix, for every artist,
//! the list of edges that a search may follow. Walks, reachability and the
//! shape of a found path are stated over that view.

use crate::codec::id_at;
use crate::pathfinding::utils::connections_of;
use crate::pathfinding::utils::first_n;
use crate::pathfinding::utils::keep_passing;
use crate::pathfinding::utils::lemma_keep_passing;
use crate::pathfinding::utils::lemma_sort_by_similarity;
use crate::pathfinding::utils::record_at;
use crate::pathfinding::utils::sort_by_similarity;
use crate::pathfinding::utils::stored_connections;
use crate::pathfinding::utils::PathStep;
use crate::pathfinding_config::PathfindingConfig;
use crate::similarity::edge_weight;
use crate::similarity::sim_rank;
use crate::similarity::SIMILARITY_ONE;
use crate::similarity::SIMILARITY_ZERO;
use vstd::prelude::*;

verus! {

/// An adjacency file, its index and the policy of a query.
pub struct GraphView {
    pub data: Seq<u8>,
    pub index: Map<u128, u64>,
    pub config: PathfindingConfig,
}

/// The identifiers that stand at one of the first `n` offsets of `data`.
pub open spec fn ids_before(data: Seq<u8>, n: int) -> Set<u128> {
    Set::new(|x: u128| exists|o: int| 0 <= o < n && x == #[trigger] id_at(data, o))
}

/// The identifiers that stand at some offset of `data`.
pub open spec fn ids_in(data: Seq<u8>) -> Set<u128> {
    ids_before(data, data.len() as int)
}

impl GraphView {
    /// The edges that leave `u`, most similar first.
    pub open spec fn edges(self, u: u128) -> Seq<PathStep> {
        connections_of(u, self.data, self.index, self.config)
    }

    /// Whether an edge leads from `u` to `v` with similarity `s`.
    pub open spec fn has_edge(self, u: u128, v: u128, s: u32) -> bool {
        self.edges(u).contains((v, s))
    }

    /// Whether some edge leads from `u` to `v`.
    pub open spec fn links(self, u: u128, v: u128) -> bool {
        exists|s: u32| self.has_edge(u, v, s)
    }

    /// A finite set that holds `root` and every artist that an edge leads to.
    pub open spec fn universe(self, root: u128) -> Set<u128> {
        ids_in(self.data).insert(root)
    }
}

/// Whether the artist at index `i` of `w` is linked to the next.
pub open spec fn walk_step(g: GraphView, w: Seq<u128>, i: int) -> bool {
    g.links(w[i], w[i + 1])
}

/// Whether each artist of `w` is linked to the next; a walk has at least one
/// artist.
pub open spec fn is_walk(g: GraphView, w: Seq<u128>) -> bool {
    w.len() >= 1 && forall|i: int| 0 <= i < w.len() - 1 ==> #[trigger] walk_step(g, w, i)
}

/// Whether a walk leads from `a` to `b`.
pub open spec fn reaches(g: GraphView, a: u128, b: u128) -> bool {
    exists|w: Seq<u128>| is_walk(g, w) && w[0] == a && w.last() == b
}

/// Whether a walk from `start` in `fwd` and a walk from `target` in `rev` end
/// at a common artist.
pub open spec fn meets(fwd: GraphView, rev: GraphView, start: u128, target: u128) -> bool {
    exists|m: u128| reaches(fwd, start, m) && reaches(rev, target, m)
}

/// Whether `p` leads from `start` to `target`: its first part along edges of
/// `fwd`, the rest against edges of `rev`, each step leading to another
/// artist and carrying the similarity of the edge that it took, the first
/// step carrying zero.
pub open spec fn is_joined_path(
    fwd: GraphView,
    rev: GraphView,
    start: u128,
    target: u128,
    p: Seq<PathStep>,
) -> bool {
    &&& p.len() >= 1
    &&& p[0] == (start, SIMILARITY_ZERO)
    &&& p.last().0 == target
    &&& exists|k: int| joined_at(fwd, rev, p, k)
}

/// Whether the step behind index `i` of `p` leads to another artist along
/// an edge of `g` and carries its similarity.
pub open spec fn forward_step(g: GraphView, p: Seq<PathStep>, i: int) -> bool {
    g.has_edge(p[i].0, p[i + 1].0, p[i + 1].1) && p[i].0 != p[i + 1].0
}

/// Whether the step behind index `i` of `p` leads to another artist against
/// an edge of `g` and carries its similarity.
pub open spec fn backward_step(g: GraphView, p: Seq<PathStep>, i: int) -> bool {
    g.has_edge(p[i + 1].0, p[i].0, p[i + 1].1) && p[i].0 != p[i + 1].0
}

/// Whether `p` goes along `fwd` up to index `k` and against `rev` from there.
pub open spec fn joined_at(fwd: GraphView, rev: GraphView, p: Seq<PathStep>, k: int) -> bool {
    &&& 0 <= k < p.len()
    &&& forall|i: int| 0 <= i < k ==> #[trigger] forward_step(fwd, p, i)
    &&& forall|i: int| k <= i < p.len() - 1 ==> #[trigger] backward_step(rev, p, i)
}

/// Every artist reaches itself.
pub proof fn lemma_reaches_self(g: GraphView, a: u128)
    ensures
        reaches(g, a, a),
{
    let w = seq![a];
    assert(is_walk(g, w) && w[0] == a && w.last() == a);
}

/// A walk can be made one edge longer.
pub proof fn lemma_reaches_step(g: GraphView, a: u128, b: u128, c: u128)
    requires
        reaches(g, a, b),
        g.links(b, c),
    ensures
        reaches(g, a, c),
{
    let w = choose|w: Seq<u128>| is_walk(g, w) && w[0] == a && w.last() == b;
    let x = w.push(c);
    assert forall|i: int| 0 <= i < x.len() - 1 implies #[trigger] walk_step(g, x, i) by {
        if i < w.len() - 1 {
            assert(walk_step(g, w, i));
        }
    }
    assert(is_walk(g, x) && x[0] == a && x.last() == c);
}

/// The universe is finite.
pub proof fn lemma_universe_finite(g: GraphView, root: u128)
    ensures
        g.universe(root).finite(),
{
    lemma_universe_size(g, root);
}

/// Every edge leads to an artist that stands in the data, and so into the
/// universe.
pub proof fn lemma_edge_in_universe(g: GraphView, u: u128, k: int, root: u128)
    requires
        0 <= k < g.edges(u).len(),
    ensures
        ids_in(g.data).contains(g.edges(u)[k].0),
        g.universe(root).contains(g.edges(u)[k].0),
{
    let stored = stored_connections(u, g.data, g.index);
    let kept = keep_passing(stored, g.config.min_match);
    let sorted = sort_by_similarity(kept);
    let e = g.edges(u)[k];
    assert(g.edges(u) == first_n(sorted, g.config.top_related as int));
    assert(sorted[k] == e);
    assert(sorted.contains(e));
    lemma_sort_by_similarity(kept);
    assert(kept.contains(e));
    lemma_keep_passing(stored, g.config.min_match);
    assert(stored.contains(e));
    let i = choose|i: int| 0 <= i < stored.len() && stored[i] == e;
    let pos = g.index[u] as int;
    assert(record_at(g.data, pos, u) is Ok);
    let o = pos + 20 + 20 * i;
    assert(e.0 == id_at(g.data, o));
    assert(ids_in(g.data).contains(e.0));
}


/// One side of a search from `root`, as the sets and maps it has built.
pub struct SideView {
    /// The artists whose edges have been followed.
    pub visited: Set<u128>,
    /// The artists that wait to be visited.
    pub pending: Set<u128>,
    /// For each artist but the root, the artist it was reached from and the
    /// similarity of that edge.
    pub parent: Map<u128, PathStep>,
    /// For each visited artist, how many were visited before it.
    pub order: Map<u128, nat>,
}

impl SideView {
    /// Whether the search has come across `v`.
    pub open spec fn seen(self, v: u128) -> bool {
        self.visited.contains(v) || self.pending.contains(v)
    }

    /// The side before its first step: only the root, waiting.
    pub open spec fn initial(root: u128) -> SideView {
        SideView {
            visited: Set::empty(),
            pending: Set::empty().insert(root),
            parent: Map::empty(),
            order: Map::empty(),
        }
    }

    /// The side after `v` has been taken from the waiting artists.
    pub open spec fn settle(self, v: u128) -> SideView {
        SideView {
            visited: self.visited.insert(v),
            pending: self.pending.remove(v),
            parent: self.parent,
            order: self.order.insert(v, self.visited.len()),
        }
    }

    /// The side after `v` has been reached from `u` over an edge of
    /// similarity `s`.
    pub open spec fn adopt(self, v: u128, u: u128, s: u32) -> SideView {
        SideView {
            visited: self.visited,
            pending: self.pending.insert(v),
            parent: self.parent.insert(v, (u, s)),
            order: self.order,
        }
    }
}

/// Whether `v` was reached over an edge from an artist visited before.
pub open spec fn has_parent(g: GraphView, s: SideView, v: u128) -> bool {
    &&& s.parent.contains_key(v)
    &&& s.visited.contains(s.parent[v].0)
    &&& g.has_edge(s.parent[v].0, v, s.parent[v].1)
}

/// What holds of one side of a search at every moment: the root has been
/// seen; every artist seen is reachable from the root and, but for the root,
/// hangs on an edge from an artist that was visited earlier.
pub open spec fn side_tree(g: GraphView, root: u128, s: SideView) -> bool {
    &&& s.visited.finite()
    &&& s.seen(root)
    &&& forall|v: u128| #[trigger] s.visited.contains(v) ==> !s.pending.contains(v)
    &&& forall|v: u128| #[trigger]
        s.visited.contains(v) ==> g.universe(root).contains(v) && reaches(g, root, v)
            && s.order.contains_key(v) && s.order[v] < s.visited.len()
    &&& forall|v: u128| #[trigger]
        s.pending.contains(v) ==> g.universe(root).contains(v) && reaches(g, root, v)
    &&& forall|v: u128| #[trigger] s.seen(v) && v != root ==> has_parent(g, s, v)
    &&& forall|v: u128| #[trigger]
        s.visited.contains(v) && v != root ==> s.order[s.parent[v].0] < s.order[v]
}

/// Whether every edge of a visited artist leads to an artist that has been
/// seen, but for the edges of `cur` from index `done` on.
pub open spec fn closed_except(g: GraphView, s: SideView, cur: u128, done: int) -> bool {
    forall|u: u128, k: int|
        s.visited.contains(u) && 0 <= k < g.edges(u).len() && (u != cur || k < done)
            ==> s.seen(#[trigger] g.edges(u)[k].0)
}

/// Whether every edge of a visited artist leads to an artist that has been
/// seen.
pub open spec fn closed(g: GraphView, s: SideView) -> bool {
    forall|u: u128, k: int|
        s.visited.contains(u) && 0 <= k < g.edges(u).len() ==> s.seen(#[trigger] g.edges(u)[k].0)
}

/// The side before its first step is in order.
pub proof fn lemma_initial(g: GraphView, root: u128)
    ensures
        side_tree(g, root, SideView::initial(root)),
        closed(g, SideView::initial(root)),
{
    lemma_reaches_self(g, root);
    let s = SideView::initial(root);
    assert(s.pending.contains(root));
}

/// Visiting a waiting artist keeps the side in order, leaves only that
/// artist's edges to follow, and uses up one artist of the universe.
pub proof fn lemma_settle(g: GraphView, root: u128, s: SideView, v: u128)
    requires
        side_tree(g, root, s),
        closed(g, s),
        s.pending.contains(v),
    ensures
        side_tree(g, root, s.settle(v)),
        closed_except(g, s.settle(v), v, 0),
        g.universe(root).difference(s.settle(v).visited).len() < g.universe(root).difference(
            s.visited,
        ).len(),
{
    let t = s.settle(v);
    lemma_universe_finite(g, root);
    assert(!s.visited.contains(v));
    assert(t.visited.len() == s.visited.len() + 1);
    assert forall|w: u128| #[trigger] t.seen(w) && w != root implies has_parent(g, t, w) by {
        assert(s.seen(w));
        assert(has_parent(g, s, w));
    }
    assert forall|w: u128| #[trigger] t.visited.contains(w) && w != root implies t.order[t.parent[w].0]
        < t.order[w] by {
        assert(s.seen(w));
        assert(has_parent(g, s, w));
        assert(s.visited.contains(s.parent[w].0));
    }
    assert forall|u: u128, k: int|
        t.visited.contains(u) && 0 <= k < g.edges(u).len() && (u != v || k < 0) implies t.seen(
        #[trigger] g.edges(u)[k].0,
    ) by {
        assert(s.visited.contains(u));
        assert(s.seen(g.edges(u)[k].0));
    }
    let u = g.universe(root);
    assert(u.difference(s.visited).contains(v));
    assert(u.difference(t.visited) =~= u.difference(s.visited).remove(v));
}

/// Following the next edge of the artist being visited to an artist that has
/// been seen changes nothing.
pub proof fn lemma_skip_edge(g: GraphView, s: SideView, cur: u128, k: int)
    requires
        closed_except(g, s, cur, k),
        0 <= k < g.edges(cur).len(),
        s.seen(g.edges(cur)[k].0),
    ensures
        closed_except(g, s, cur, k + 1),
{
}

/// Following the next edge of the artist being visited to an artist that has
/// not been visited, and hanging that artist on the edge, keeps the side in
/// order.
pub proof fn lemma_adopt(g: GraphView, root: u128, s: SideView, cur: u128, k: int)
    requires
        side_tree(g, root, s),
        closed_except(g, s, cur, k),
        s.visited.contains(cur),
        0 <= k < g.edges(cur).len(),
        !s.visited.contains(g.edges(cur)[k].0),
    ensures
        side_tree(g, root, s.adopt(g.edges(cur)[k].0, cur, g.edges(cur)[k].1)),
        closed_except(g, s.adopt(g.edges(cur)[k].0, cur, g.edges(cur)[k].1), cur, k + 1),
{
    let e = g.edges(cur)[k];
    let v = e.0;
    let t = s.adopt(v, cur, e.1);
    lemma_edge_in_universe(g, cur, k, root);
    assert(g.edges(cur).contains(e));
    assert(g.has_edge(cur, v, e.1));
    assert(g.links(cur, v));
    lemma_reaches_step(g, root, cur, v);
    assert(t.seen(root)) by {
        assert(s.seen(root));
    }
    assert forall|w: u128| #[trigger] t.seen(w) && w != root implies has_parent(g, t, w) by {
        if w != v {
            assert(s.seen(w));
            assert(has_parent(g, s, w));
        }
    }
    assert forall|w: u128| #[trigger] t.visited.contains(w) && w != root implies t.order[t.parent[w].0]
        < t.order[w] by {
        assert(w != v);
    }
    assert forall|u: u128, j: int|
        t.visited.contains(u) && 0 <= j < g.edges(u).len() && (u != cur || j < k + 1)
            implies t.seen(#[trigger] g.edges(u)[j].0) by {
        if u == cur && j == k {
        } else {
            assert(s.seen(g.edges(u)[j].0));
        }
    }
}

/// Once all edges of the artist being visited have been followed, every edge
/// of a visited artist leads to an artist that has been seen.
pub proof fn lemma_closed(g: GraphView, s: SideView, cur: u128, done: int)
    requires
        closed_except(g, s, cur, done),
        done >= g.edges(cur).len(),
    ensures
        closed(g, s),
{
}

/// Where nothing waits any more, every artist that the root reaches has been
/// visited.
pub proof fn lemma_exhausted(g: GraphView, root: u128, s: SideView, w: Seq<u128>)
    requires
        side_tree(g, root, s),
        closed(g, s),
        forall|v: u128| !s.pending.contains(v),
        is_walk(g, w),
        w[0] == root,
    ensures
        s.visited.contains(w.last()),
    decreases w.len(),
{
    if w.len() == 1 {
        assert(s.seen(root));
    } else {
        let t = w.drop_last();
        assert forall|i: int| 0 <= i < t.len() - 1 implies #[trigger] walk_step(g, t, i) by {
            assert(walk_step(g, w, i));
        }
        lemma_exhausted(g, root, s, t);
        let u = t.last();
        assert(u == w[w.len() - 2]);
        assert(walk_step(g, w, w.len() - 2));
        let sim = choose|sim: u32| g.has_edge(u, w.last(), sim);
        let k = choose|k: int| 0 <= k < g.edges(u).len() && g.edges(u)[k] == (w.last(), sim);
        assert(s.seen(g.edges(u)[k].0));
    }
}

/// Two sides that have nothing left waiting and have visited no artist in
/// common show that the two roots do not meet.
pub proof fn lemma_no_meeting(
    fwd: GraphView,
    rev: GraphView,
    start: u128,
    target: u128,
    f: SideView,
    r: SideView,
)
    requires
        side_tree(fwd, start, f),
        closed(fwd, f),
        forall|v: u128| !f.pending.contains(v),
        side_tree(rev, target, r),
        closed(rev, r),
        forall|v: u128| !r.pending.contains(v),
        forall|v: u128| f.visited.contains(v) ==> !r.visited.contains(v),
    ensures
        !meets(fwd, rev, start, target),
{
    if meets(fwd, rev, start, target) {
        let m = choose|m: u128| reaches(fwd, start, m) && reaches(rev, target, m);
        let wf = choose|w: Seq<u128>| is_walk(fwd, w) && w[0] == start && w.last() == m;
        let wr = choose|w: Seq<u128>| is_walk(rev, w) && w[0] == target && w.last() == m;
        lemma_exhausted(fwd, start, f, wf);
        lemma_exhausted(rev, target, r, wr);
    }
}

/// A joined path shows that its two ends meet.
pub proof fn lemma_joined_path_meets(
    fwd: GraphView,
    rev: GraphView,
    start: u128,
    target: u128,
    p: Seq<PathStep>,
)
    requires
        is_joined_path(fwd, rev, start, target, p),
    ensures
        meets(fwd, rev, start, target),
{
    let k = choose|k: int| joined_at(fwd, rev, p, k);
    lemma_forward_part(fwd, p, k, k);
    lemma_backward_part(rev, p, k, k);
}

/// The first part of a joined path is a walk in the forward graph.
proof fn lemma_forward_part(fwd: GraphView, p: Seq<PathStep>, k: int, j: int)
    requires
        0 <= j <= k < p.len(),
        forall|i: int| 0 <= i < k ==> #[trigger] forward_step(fwd, p, i),
    ensures
        reaches(fwd, p[0].0, p[j].0),
    decreases j,
{
    if j == 0 {
        lemma_reaches_self(fwd, p[0].0);
    } else {
        lemma_forward_part(fwd, p, k, j - 1);
        assert(forward_step(fwd, p, j - 1));
        assert(fwd.links(p[j - 1].0, p[j].0));
        lemma_reaches_step(fwd, p[0].0, p[j - 1].0, p[j].0);
    }
}

/// The rest of a joined path, read from its end, is a walk in the reverse
/// graph.
proof fn lemma_backward_part(rev: GraphView, p: Seq<PathStep>, k: int, j: int)
    requires
        0 <= k <= j < p.len(),
        forall|i: int| k <= i < p.len() - 1 ==> #[trigger] backward_step(rev, p, i),
    ensures
        reaches(rev, p.last().0, p[j].0),
    decreases p.len() - j,
{
    if j == p.len() - 1 {
        lemma_reaches_self(rev, p.last().0);
    } else {
        lemma_backward_part(rev, p, k, j + 1);
        assert(backward_step(rev, p, j));
        assert(rev.links(p[j + 1].0, p[j].0));
        lemma_reaches_step(rev, p.last().0, p[j + 1].0, p[j].0);
    }
}


/// The artists that `start` reaches in `fwd`, and those that `target` reaches
/// in `rev`.
pub open spec fn reached_by_either(fwd: GraphView, rev: GraphView, start: u128, target: u128) -> Set<
    u128,
> {
    Set::new(|v: u128| reaches(fwd, start, v) || reaches(rev, target, v))
}

/// Two sides that have nothing left waiting have visited, between them,
/// exactly the artists that one of the roots reaches.
pub proof fn lemma_exhausted_both(
    fwd: GraphView,
    rev: GraphView,
    start: u128,
    target: u128,
    f: SideView,
    r: SideView,
)
    requires
        side_tree(fwd, start, f),
        closed(fwd, f),
        forall|v: u128| !f.pending.contains(v),
        side_tree(rev, target, r),
        closed(rev, r),
        forall|v: u128| !r.pending.contains(v),
    ensures
        f.visited.union(r.visited) == reached_by_either(fwd, rev, start, target),
{
    let all = reached_by_either(fwd, rev, start, target);
    assert forall|v: u128| all.contains(v) implies f.visited.union(r.visited).contains(v) by {
        if reaches(fwd, start, v) {
            let w = choose|w: Seq<u128>| is_walk(fwd, w) && w[0] == start && w.last() == v;
            lemma_exhausted(fwd, start, f, w);
        } else {
            let w = choose|w: Seq<u128>| is_walk(rev, w) && w[0] == target && w.last() == v;
            lemma_exhausted(rev, target, r, w);
        }
    }
    assert(f.visited.union(r.visited) =~= all);
}

/// A finite set that holds two different values has at least two elements.
pub proof fn lemma_two_elements(s: Set<u128>, a: u128, b: u128)
    requires
        s.finite(),
        s.contains(a),
        s.contains(b),
        a != b,
    ensures
        s.len() >= 2,
{
    let pair = Set::<u128>::empty().insert(a).insert(b);
    vstd::set_lib::lemma_len_subset(pair, s);
}



/// No more identifiers stand at the first `n` offsets than there are
/// offsets.
proof fn lemma_ids_before(data: Seq<u8>, n: int)
    requires
        0 <= n,
    ensures
        ids_before(data, n).finite(),
        ids_before(data, n).len() <= n,
    decreases n,
{
    if n == 0 {
        assert(ids_before(data, 0) =~= Set::<u128>::empty());
    } else {
        lemma_ids_before(data, n - 1);
        let less = ids_before(data, n - 1);
        let last = id_at(data, n - 1);
        assert(ids_before(data, n) =~= less.insert(last)) by {
            assert forall|x: u128| ids_before(data, n).contains(x) <==> less.insert(last).contains(
                x,
            ) by {
                if ids_before(data, n).contains(x) {
                    let o = choose|o: int| 0 <= o < n && x == #[trigger] id_at(data, o);
                    if o < n - 1 {
                        assert(less.contains(x));
                    }
                }
                if less.contains(x) {
                    let o = choose|o: int| 0 <= o < n - 1 && x == #[trigger] id_at(data, o);
                    assert(ids_before(data, n).contains(x));
                }
            }
        }
    }
}

/// The universe holds at most one artist more than the data has bytes.
pub proof fn lemma_universe_size(g: GraphView, root: u128)
    ensures
        g.universe(root).finite(),
        g.universe(root).len() <= g.data.len() + 1,
{
    lemma_ids_before(g.data, g.data.len() as int);
}

/// The distance that a path covers: the weights of its steps, the first
/// step weighing nothing.
pub open spec fn path_cost(p: Seq<PathStep>) -> int
    decreases p.len(),
{
    if p.len() <= 1 {
        0
    } else {
        path_cost(p.drop_last()) + edge_weight(p.last().1)
    }
}

/// No weight is below zero, and none above one.
pub proof fn lemma_weight_range(s: u32)
    ensures
        0 <= edge_weight(s) <= 0x1_0000_0000_0000_0000,
{
    let bits = s;
    if sim_rank(bits) > 0 && bits < SIMILARITY_ONE {
        let exponent = bits as int / 0x80_0000;
        let mantissa = 0x80_0000 + bits as int % 0x80_0000;
        if exponent >= 86 {
            let shift = (exponent - 86) as nat;
            vstd::arithmetic::power2::lemma2_to64_rest();
            vstd::arithmetic::power2::lemma_pow2_pos(shift);
            if shift < 40 {
                vstd::arithmetic::power2::lemma_pow2_strictly_increases(shift, 40);
            }
            assert(mantissa * vstd::arithmetic::power2::pow2(shift) <= 0xff_ffff * 0x100_0000_0000)
                by (nonlinear_arith)
                requires
                    0 <= mantissa <= 0xff_ffff,
                    0 < vstd::arithmetic::power2::pow2(shift) <= 0x100_0000_0000,
            ;
            assert(0 <= mantissa * vstd::arithmetic::power2::pow2(shift)) by (nonlinear_arith)
                requires
                    0 <= mantissa,
                    0 < vstd::arithmetic::power2::pow2(shift),
            ;
        } else if exponent > 0 {
            let shift = (86 - exponent) as nat;
            vstd::arithmetic::power2::lemma_pow2_pos(shift);
            let d = vstd::arithmetic::power2::pow2(shift) as int;
            assert(0 <= mantissa / d <= mantissa) by (nonlinear_arith)
                requires
                    0 <= mantissa,
                    0 < d,
            ;
        }
    }
}

/// A path covers no distance below zero, and a beginning of a path no more
/// than the path.
pub proof fn lemma_path_cost_grows(p: Seq<PathStep>, k: int)
    requires
        0 <= k <= p.len(),
    ensures
        0 <= path_cost(p.take(k)) <= path_cost(p),
    decreases p.len(),
{
    if p.len() <= 1 {
        assert(path_cost(p.take(k)) == 0);
    } else if k == p.len() {
        assert(p.take(k) =~= p);
        lemma_path_cost_grows(p.drop_last(), k - 1);
        assert(p.drop_last().take(k - 1) =~= p.drop_last());
        lemma_weight_range(p.last().1);
    } else {
        lemma_path_cost_grows(p.drop_last(), k);
        assert(p.drop_last().take(k) =~= p.take(k));
        lemma_weight_range(p.last().1);
    }
}

/// A beginning of a path along the graph is a path along the graph.
pub proof fn lemma_path_beginning(g: GraphView, a: u128, b: u128, p: Seq<PathStep>, k: int)
    requires
        is_forward_path(g, a, b, p),
        1 <= k <= p.len(),
    ensures
        is_forward_path(g, a, p[k - 1].0, p.take(k)),
{
    let q = p.take(k);
    assert forall|i: int| 0 <= i < q.len() - 1 implies #[trigger] forward_step(g, q, i) by {
        assert(forward_step(g, p, i));
    }
}

/// Whether `d` is no more than the distance of any path along the graph
/// from `root` to `v`.
pub open spec fn is_nearest(g: GraphView, root: u128, v: u128, d: int) -> bool {
    forall|p: Seq<PathStep>| #[trigger] is_forward_path(g, root, v, p) ==> d <= path_cost(p)
}

/// The first place of a path that lies outside a set of artists, where its
/// last place does.
pub proof fn lemma_first_outside(p: Seq<PathStep>, inside: Set<u128>) -> (i: int)
    requires
        p.len() >= 1,
        !inside.contains(p.last().0),
    ensures
        0 <= i < p.len(),
        !inside.contains(p[i].0),
        forall|j: int| 0 <= j < i ==> inside.contains((#[trigger] p[j]).0),
{
    lemma_first_outside_scan(p, inside, 0)
}

/// The first place from `from` on that lies outside a set of artists.
proof fn lemma_first_outside_scan(p: Seq<PathStep>, inside: Set<u128>, from: int) -> (i: int)
    requires
        0 <= from < p.len(),
        !inside.contains(p.last().0),
        forall|j: int| 0 <= j < from ==> inside.contains((#[trigger] p[j]).0),
    ensures
        0 <= i < p.len(),
        !inside.contains(p[i].0),
        forall|j: int| 0 <= j < i ==> inside.contains((#[trigger] p[j]).0),
    decreases p.len() - from,
{
    if !inside.contains(p[from].0) {
        from
    } else {
        assert(from < p.len() - 1);
        lemma_first_outside_scan(p, inside, from + 1)
    }
}


/// Whether the step behind index `i` of `p` is the one on which the artist
/// it leads to hangs in the tree of a side.
pub open spec fn tree_step(s: SideView, root: u128, p: Seq<PathStep>, i: int) -> bool {
    &&& p[i + 1].0 != root
    &&& s.visited.contains(p[i + 1].0)
    &&& s.parent[p[i + 1].0] == (p[i].0, p[i + 1].1)
}

/// Whether the step behind index `i` of `p` is, read from its end, the one
/// on which the artist it comes from hangs in the tree of a side.
pub open spec fn tree_step_back(s: SideView, root: u128, p: Seq<PathStep>, i: int) -> bool {
    &&& p[i].0 != root
    &&& s.visited.contains(p[i].0)
    &&& s.parent[p[i].0] == (p[i + 1].0, p[i + 1].1)
}

/// A step of the tree of a side is a step along the graph to another
/// artist.
pub proof fn lemma_tree_step_is_edge(g: GraphView, root: u128, s: SideView, child: u128)
    requires
        side_tree(g, root, s),
        s.visited.contains(child),
        child != root,
    ensures
        s.parent.contains_key(child),
        g.has_edge(s.parent[child].0, child, s.parent[child].1),
        s.parent[child].0 != child,
        s.visited.contains(s.parent[child].0),
{
    assert(s.seen(child));
    assert(has_parent(g, s, child));
    assert(s.order[s.parent[child].0] < s.order[child]);
}

/// Whether `p` leads from `a` to `b` along the graph and no path along the
/// graph from `a` to `b` is shorter.
pub open spec fn is_shortest_path(g: GraphView, a: u128, b: u128, p: Seq<PathStep>) -> bool {
    is_forward_path(g, a, b, p) && is_nearest(g, a, b, path_cost(p))
}

/// Whether `p` goes along `fwd` up to index `k` and against `rev` from
/// there, and neither part could be shorter: no path along `fwd` leads from
/// the start of `p` to the artist at `k` over a shorter distance than the
/// first part, and no path along `rev` from the end of `p` to that artist
/// over a shorter distance than the rest.
pub open spec fn is_nearest_meeting(
    fwd: GraphView,
    rev: GraphView,
    p: Seq<PathStep>,
    k: int,
) -> bool {
    &&& joined_at(fwd, rev, p, k)
    &&& is_nearest(fwd, p[0].0, p[k].0, path_cost(p.take(k + 1)))
    &&& is_nearest(rev, p.last().0, p[k].0, path_cost(p) - path_cost(p.take(k + 1)))
}


/// No artist has more edges than the data has bytes.
pub proof fn lemma_degree(g: GraphView, u: u128)
    ensures
        g.edges(u).len() <= g.data.len(),
{
    let stored = stored_connections(u, g.data, g.index);
    let kept = keep_passing(stored, g.config.min_match);
    lemma_keep_passing(stored, g.config.min_match);
    lemma_sort_by_similarity(kept);
}

/// The work that a side has left at most: an entry to take for each one
/// that waits, and for every artist of the universe not visited yet a visit
/// and an entry for every byte of the data.
pub open spec fn work_left(g: GraphView, root: u128, visited: Set<u128>, waiting: nat) -> int {
    waiting as int + g.universe(root).difference(visited).len() as int * (g.data.len() as int + 1)
}

/// A visit takes its share off the work that is left.
pub proof fn lemma_work_visit(g: GraphView, root: u128, visited: Set<u128>, v: u128, waiting: nat)
    requires
        g.universe(root).contains(v),
        !visited.contains(v),
    ensures
        work_left(g, root, visited.insert(v), waiting) == work_left(g, root, visited, waiting) - (
        g.data.len() + 1),
{
    lemma_universe_finite(g, root);
    let u = g.universe(root);
    assert(u.difference(visited).contains(v));
    assert(u.difference(visited.insert(v)) =~= u.difference(visited).remove(v));
    let n = u.difference(visited).len() as int;
    let m = (g.data.len() + 1) as int;
    assert((n - 1) * m == n * m - m) by (nonlinear_arith);
}

/// Before the first step, the work that is left is the limit of rounds.
pub proof fn lemma_work_start(g: GraphView, root: u128)
    ensures
        work_left(g, root, Set::<u128>::empty(), 1) == 1 + g.universe(root).len() * (g.data.len()
            + 1),
{
    assert(g.universe(root).difference(Set::<u128>::empty()) =~= g.universe(root));
}

/// There is never less than no work left.
pub proof fn lemma_work_left(g: GraphView, root: u128, visited: Set<u128>, waiting: nat)
    ensures
        work_left(g, root, visited, waiting) >= waiting,
{
    let n = g.universe(root).difference(visited).len() as int;
    let m = (g.data.len() + 1) as int;
    assert(n * m >= 0) by (nonlinear_arith)
        requires
            n >= 0,
            m >= 0,
    ;
}

/// Whether `rev` holds exactly the edges of `fwd`, each under its target.
pub open spec fn transposed(fwd: GraphView, rev: GraphView) -> bool {
    forall|u: u128, v: u128, s: u32| #[trigger] rev.has_edge(v, u, s) <==> fwd.has_edge(u, v, s)
}

/// Whether `p` leads from `start` to `target` along edges of `g`, each step
/// leading to another artist and carrying the similarity of its edge, the
/// first step carrying zero.
pub open spec fn is_forward_path(g: GraphView, start: u128, target: u128, p: Seq<PathStep>) -> bool {
    &&& p.len() >= 1
    &&& p[0] == (start, SIMILARITY_ZERO)
    &&& p.last().0 == target
    &&& forall|i: int| 0 <= i < p.len() - 1 ==> #[trigger] forward_step(g, p, i)
}

/// Every artist of a path along the graph but the first stands in the
/// graph's data.
pub proof fn lemma_forward_path_in_graph(g: GraphView, start: u128, target: u128, p: Seq<PathStep>)
    requires
        is_forward_path(g, start, target, p),
    ensures
        forall|i: int| 1 <= i < p.len() ==> ids_in(g.data).contains((#[trigger] p[i]).0),
{
    assert forall|i: int| 1 <= i < p.len() implies ids_in(g.data).contains((#[trigger] p[i]).0) by {
        assert(forward_step(g, p, i - 1));
        lemma_edge_stands_in_data(g, p[i - 1].0, p[i].0, p[i].1);
    }
}

/// Every artist of a joined path but its two ends stands in the data of one
/// of the two graphs.
pub proof fn lemma_joined_path_in_graphs(
    fwd: GraphView,
    rev: GraphView,
    start: u128,
    target: u128,
    p: Seq<PathStep>,
)
    requires
        is_joined_path(fwd, rev, start, target, p),
    ensures
        forall|i: int|
            1 <= i < p.len() - 1 ==> ids_in(fwd.data).contains((#[trigger] p[i]).0) || ids_in(
                rev.data,
            ).contains(p[i].0),
{
    let k = choose|k: int| joined_at(fwd, rev, p, k);
    assert forall|i: int| 1 <= i < p.len() - 1 implies ids_in(fwd.data).contains(
        (#[trigger] p[i]).0,
    ) || ids_in(rev.data).contains(p[i].0) by {
        if i <= k {
            assert(forward_step(fwd, p, i - 1));
            lemma_edge_stands_in_data(fwd, p[i - 1].0, p[i].0, p[i].1);
        } else {
            assert(backward_step(rev, p, i));
            lemma_edge_stands_in_data(rev, p[i + 1].0, p[i].0, p[i + 1].1);
        }
    }
}

/// The artist that an edge leads to stands in the graph's data.
pub proof fn lemma_edge_stands_in_data(g: GraphView, u: u128, v: u128, s: u32)
    requires
        g.has_edge(u, v, s),
    ensures
        ids_in(g.data).contains(v),
{
    let k = choose|k: int| 0 <= k < g.edges(u).len() && g.edges(u)[k] == (v, s);
    lemma_edge_in_universe(g, u, k, u);
}

/// Where the reverse graph is the forward graph transposed, a joined path
/// goes along edges of the forward graph from its first step to its last.
pub proof fn lemma_joined_path_is_forward(
    fwd: GraphView,
    rev: GraphView,
    start: u128,
    target: u128,
    p: Seq<PathStep>,
)
    requires
        transposed(fwd, rev),
        is_joined_path(fwd, rev, start, target, p),
    ensures
        is_forward_path(fwd, start, target, p),
{
    let k = choose|k: int| joined_at(fwd, rev, p, k);
    assert forall|i: int| 0 <= i < p.len() - 1 implies #[trigger] forward_step(fwd, p, i) by {
        if i >= k {
            assert(backward_step(rev, p, i));
            assert(rev.has_edge(p[i + 1].0, p[i].0, p[i + 1].1));
        }
    }
}

/// One walk behind another is a walk.
pub proof fn lemma_reaches_onward(g: GraphView, a: u128, b: u128, c: u128)
    requires
        reaches(g, a, b),
        reaches(g, b, c),
    ensures
        reaches(g, a, c),
{
    let w = choose|w: Seq<u128>| is_walk(g, w) && w[0] == b && w.last() == c;
    lemma_walk_onward(g, a, w, w.len() - 1);
}

/// Whoever reaches the start of a walk reaches every artist on it.
proof fn lemma_walk_onward(g: GraphView, a: u128, w: Seq<u128>, j: int)
    requires
        is_walk(g, w),
        reaches(g, a, w[0]),
        0 <= j < w.len(),
    ensures
        reaches(g, a, w[j]),
    decreases j,
{
    if j > 0 {
        lemma_walk_onward(g, a, w, j - 1);
        assert(walk_step(g, w, j - 1));
        lemma_reaches_step(g, a, w[j - 1], w[j]);
    }
}

/// Where the reverse graph is the forward graph transposed, every artist on
/// a walk of the reverse graph reaches the start of that walk in the forward
/// graph.
proof fn lemma_walk_back(fwd: GraphView, rev: GraphView, w: Seq<u128>, j: int)
    requires
        transposed(fwd, rev),
        is_walk(rev, w),
        0 <= j < w.len(),
    ensures
        reaches(fwd, w[j], w[0]),
    decreases j,
{
    if j == 0 {
        lemma_reaches_self(fwd, w[0]);
    } else {
        lemma_walk_back(fwd, rev, w, j - 1);
        assert(walk_step(rev, w, j - 1));
        let s = choose|s: u32| #[trigger] rev.has_edge(w[j - 1], w[j], s);
        assert(fwd.has_edge(w[j], w[j - 1], s));
        assert(fwd.links(w[j], w[j - 1]));
        lemma_reaches_self(fwd, w[j]);
        lemma_reaches_step(fwd, w[j], w[j], w[j - 1]);
        lemma_reaches_onward(fwd, w[j], w[j - 1], w[0]);
    }
}

/// Where the reverse graph is the forward graph transposed, two artists meet
/// exactly when the first reaches the second in the forward graph. So a
/// search finds a path exactly when there is one, and ends without one when
/// there is none.
pub proof fn lemma_meets_is_reaches(fwd: GraphView, rev: GraphView, start: u128, target: u128)
    requires
        transposed(fwd, rev),
    ensures
        meets(fwd, rev, start, target) <==> reaches(fwd, start, target),
{
    if reaches(fwd, start, target) {
        lemma_reaches_self(rev, target);
    }
    if meets(fwd, rev, start, target) {
        let m = choose|m: u128| reaches(fwd, start, m) && reaches(rev, target, m);
        let w = choose|w: Seq<u128>| is_walk(rev, w) && w[0] == target && w.last() == m;
        lemma_walk_back(fwd, rev, w, w.len() - 1);
        lemma_reaches_onward(fwd, start, m, target);
    }
}

} // verus!
