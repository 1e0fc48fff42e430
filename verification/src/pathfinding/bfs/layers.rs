//! The layers of a breadth-first search: how many steps each artist lies
//! from the root, and why no path has fewer.

use crate::pathfinding::graph::closed;
use crate::pathfinding::graph::forward_step;
use crate::pathfinding::graph::has_parent;
use crate::pathfinding::graph::is_forward_path;
use crate::pathfinding::graph::joined_at;
use crate::pathfinding::graph::lemma_path_beginning;
use crate::pathfinding::graph::side_tree;
use crate::pathfinding::graph::tree_step;
use crate::pathfinding::graph::tree_step_back;
use crate::pathfinding::graph::GraphView;
use crate::pathfinding::graph::SideView;
use crate::pathfinding::utils::PathStep;
use vstd::prelude::*;

verus! {

/// Whether no path along the graph leads from `root` to `v` in fewer than
/// `n` steps.
pub open spec fn is_fewest(g: GraphView, root: u128, v: u128, n: int) -> bool {
    forall|q: Seq<PathStep>| #[trigger] is_forward_path(g, root, v, q) ==> n <= q.len() - 1
}

/// Whether `p` leads from `a` to `b` along the graph and no path along the
/// graph from `a` to `b` has fewer steps.
pub open spec fn is_fewest_path(g: GraphView, a: u128, b: u128, p: Seq<PathStep>) -> bool {
    is_forward_path(g, a, b, p) && is_fewest(g, a, b, p.len() - 1)
}

/// Whether `p` goes along `fwd` up to index `k` and against `rev` from
/// there, and neither part could have fewer steps: no path along `fwd` leads
/// from the start of `p` to the artist at `k` in fewer steps than the first
/// part, and no path along `rev` from the end of `p` to that artist in fewer
/// steps than the rest.
pub open spec fn is_fewest_meeting(fwd: GraphView, rev: GraphView, p: Seq<PathStep>, k: int) -> bool {
    &&& joined_at(fwd, rev, p, k)
    &&& is_fewest(fwd, p[0].0, p[k].0, k)
    &&& is_fewest(rev, p.last().0, p[k].0, p.len() - 1 - k)
}

/// What holds of the layers of one side of a breadth-first search: the root
/// lies on layer zero and every other artist seen one layer behind the
/// artist it hangs on; the queue stands in the order of the layers, on the
/// layer `level` or the next; no artist visited lies behind `level`; no path
/// leads to an artist seen in fewer steps than its layer; and every artist
/// within `level` steps has been seen.
pub open spec fn in_steps(
    g: GraphView,
    root: u128,
    s: SideView,
    queue: Seq<u128>,
    depth: Map<u128, nat>,
    level: nat,
) -> bool {
    &&& depth[root] == 0
    &&& forall|v: u128| #[trigger] s.seen(v) && v != root ==> depth[v] == depth[s.parent[v].0] + 1
    &&& forall|i: int, j: int|
        0 <= i <= j < queue.len() ==> depth[#[trigger] queue[i]] <= depth[#[trigger] queue[j]]
    &&& forall|i: int| 0 <= i < queue.len() ==> level <= depth[#[trigger] queue[i]] <= level + 1
    &&& forall|v: u128| #[trigger] s.visited.contains(v) ==> depth[v] <= level
    &&& forall|v: u128| #[trigger] s.seen(v) ==> is_fewest(g, root, v, depth[v] as int)
    &&& forall|v: u128, q: Seq<PathStep>|
        #![trigger is_forward_path(g, root, v, q)]
        is_forward_path(g, root, v, q) && q.len() - 1 <= level ==> s.seen(v)
}

/// Before the first step only the root has been seen, on layer zero.
pub proof fn lemma_steps_initial(g: GraphView, root: u128)
    ensures
        in_steps(
            g,
            root,
            SideView::initial(root),
            seq![root],
            Map::<u128, nat>::empty().insert(root, 0nat),
            0,
        ),
{
    let s = SideView::initial(root);
    assert(s.pending.contains(root));
    assert forall|v: u128, q: Seq<PathStep>|
        #![trigger is_forward_path(g, root, v, q)]
        is_forward_path(g, root, v, q) && q.len() - 1 <= 0 implies s.seen(v) by {
        assert(q.last() == q[0]);
    }
}

/// Dropping the first entry of the queue, where its artist has been visited
/// before, leaves the layers as they are.
pub proof fn lemma_steps_stale(
    g: GraphView,
    root: u128,
    s: SideView,
    queue: Seq<u128>,
    depth: Map<u128, nat>,
    level: nat,
)
    requires
        in_steps(g, root, s, queue, depth, level),
        queue.len() > 0,
    ensures
        in_steps(g, root, s, queue.subrange(1, queue.len() as int), depth, level),
{
    let rest = queue.subrange(1, queue.len() as int);
    assert forall|i: int, j: int| 0 <= i <= j < rest.len() implies depth[#[trigger] rest[i]]
        <= depth[#[trigger] rest[j]] by {
        assert(rest[i] == queue[i + 1]);
        assert(rest[j] == queue[j + 1]);
    }
    assert forall|i: int| 0 <= i < rest.len() implies level <= depth[#[trigger] rest[i]] <= level
        + 1 by {
        assert(rest[i] == queue[i + 1]);
    }
}

/// Where the first entry of the queue lies one layer behind the artists
/// visited so far, every artist of that layer has been seen: the path to it
/// leads over an artist that has been visited.
proof fn lemma_next_layer_seen(
    g: GraphView,
    root: u128,
    s: SideView,
    queue: Seq<u128>,
    depth: Map<u128, nat>,
    level: nat,
    v: u128,
    q: Seq<PathStep>,
)
    requires
        side_tree(g, root, s),
        closed(g, s),
        in_steps(g, root, s, queue, depth, level),
        forall|x: u128| #[trigger] s.pending.contains(x) ==> queue.contains(x),
        queue.len() > 0,
        depth[queue[0]] == level + 1,
        is_forward_path(g, root, v, q),
        q.len() - 1 == level + 1,
    ensures
        s.seen(v),
{
    let n = q.len() - 1;
    let t = q.take(n);
    let u = q[n - 1].0;
    lemma_path_beginning(g, root, v, q, n);
    assert(is_forward_path(g, root, u, t));
    assert(s.seen(u));
    assert(is_fewest(g, root, u, depth[u] as int));
    assert(depth[u] <= level);
    if s.pending.contains(u) {
        assert(queue.contains(u));
        let i = choose|i: int| 0 <= i < queue.len() && queue[i] == u;
        assert(depth[queue[0]] <= depth[queue[i]]);
    }
    assert(s.visited.contains(u));
    assert(forward_step(g, q, n - 1));
    assert(q[n] == q.last());
    let k = choose|k: int| 0 <= k < g.edges(u).len() && g.edges(u)[k] == (v, q[n].1);
    assert(s.seen(g.edges(u)[k].0));
}

/// Visiting the artist that has waited longest: its layer is the layer of
/// the artists visited from now on.
pub proof fn lemma_steps_visit(
    g: GraphView,
    root: u128,
    s: SideView,
    queue: Seq<u128>,
    depth: Map<u128, nat>,
    level: nat,
)
    requires
        side_tree(g, root, s),
        closed(g, s),
        in_steps(g, root, s, queue, depth, level),
        forall|x: u128| #[trigger] s.pending.contains(x) ==> queue.contains(x),
        queue.len() > 0,
        s.pending.contains(queue[0]),
    ensures
        in_steps(
            g,
            root,
            s.settle(queue[0]),
            queue.subrange(1, queue.len() as int),
            depth,
            depth[queue[0]],
        ),
{
    let x = queue[0];
    let t = s.settle(x);
    let rest = queue.subrange(1, queue.len() as int);
    let next = depth[x];
    assert(level <= next <= level + 1);
    assert forall|v: u128| t.seen(v) == s.seen(v) by {}
    assert forall|v: u128| #[trigger] t.seen(v) && v != root implies depth[v] == depth[t.parent[v].0]
        + 1 by {
        assert(s.seen(v));
    }
    assert forall|i: int, j: int| 0 <= i <= j < rest.len() implies depth[#[trigger] rest[i]]
        <= depth[#[trigger] rest[j]] by {
        assert(rest[i] == queue[i + 1]);
        assert(rest[j] == queue[j + 1]);
    }
    assert forall|i: int| 0 <= i < rest.len() implies next <= depth[#[trigger] rest[i]] <= next
        + 1 by {
        assert(rest[i] == queue[i + 1]);
        assert(depth[queue[0]] <= depth[queue[i + 1]]);
    }
    assert forall|v: u128| #[trigger] t.visited.contains(v) implies depth[v] <= next by {
        if v != x {
            assert(s.visited.contains(v));
        }
    }
    assert forall|v: u128| #[trigger] t.seen(v) implies is_fewest(g, root, v, depth[v] as int) by {
        assert(s.seen(v));
    }
    assert forall|v: u128, q: Seq<PathStep>|
        #![trigger is_forward_path(g, root, v, q)]
        is_forward_path(g, root, v, q) && q.len() - 1 <= next implies t.seen(v) by {
        if q.len() - 1 > level {
            lemma_next_layer_seen(g, root, s, queue, depth, level, v, q);
        }
        assert(s.seen(v));
    }
}

/// Hanging an artist that has not been seen on an edge of the artist being
/// visited puts it on the next layer.
pub proof fn lemma_steps_adopt(
    g: GraphView,
    root: u128,
    s: SideView,
    queue: Seq<u128>,
    depth: Map<u128, nat>,
    level: nat,
    current: u128,
    neighbor: u128,
    similarity: u32,
)
    requires
        side_tree(g, root, s),
        in_steps(g, root, s, queue, depth, level),
        forall|i: int| 0 <= i < queue.len() ==> s.seen(#[trigger] queue[i]),
        s.visited.contains(current),
        depth[current] == level,
        !s.seen(neighbor),
    ensures
        in_steps(
            g,
            root,
            s.adopt(neighbor, current, similarity),
            queue.push(neighbor),
            depth.insert(neighbor, level + 1),
            level,
        ),
{
    let t = s.adopt(neighbor, current, similarity);
    let queue2 = queue.push(neighbor);
    let depth2 = depth.insert(neighbor, level + 1);
    assert(s.seen(root));
    assert forall|v: u128| #[trigger] t.seen(v) && v != root implies depth2[v] == depth2[t.parent[v].0]
        + 1 by {
        if v != neighbor {
            assert(s.seen(v));
            assert(has_parent(g, s, v));
            assert(s.seen(s.parent[v].0));
        }
    }
    assert forall|i: int| 0 <= i < queue2.len() implies level <= depth2[#[trigger] queue2[i]]
        <= level + 1 by {
        if i < queue.len() {
            assert(queue2[i] == queue[i]);
            assert(level <= depth[queue[i]] <= level + 1);
        }
    }
    assert forall|i: int, j: int| 0 <= i <= j < queue2.len() implies depth2[#[trigger] queue2[i]]
        <= depth2[#[trigger] queue2[j]] by {
        if j < queue.len() {
            assert(queue2[i] == queue[i]);
            assert(queue2[j] == queue[j]);
            assert(depth[queue[i]] <= depth[queue[j]]);
        } else if i < queue.len() {
            assert(queue2[i] == queue[i]);
            assert(level <= depth[queue[i]] <= level + 1);
        }
    }
    assert forall|v: u128| #[trigger] t.visited.contains(v) implies depth2[v] <= level by {
        assert(s.visited.contains(v));
    }
    assert forall|v: u128| #[trigger] t.seen(v) implies is_fewest(g, root, v, depth2[v] as int) by {
        if v == neighbor {
            assert forall|q: Seq<PathStep>| #[trigger]
                is_forward_path(g, root, v, q) implies level + 1 <= q.len() - 1 by {
                if q.len() - 1 <= level {
                    assert(s.seen(v));
                }
            }
        } else {
            assert(s.seen(v));
        }
    }
    assert forall|v: u128, q: Seq<PathStep>|
        #![trigger is_forward_path(g, root, v, q)]
        is_forward_path(g, root, v, q) && q.len() - 1 <= level implies t.seen(v) by {
        assert(s.seen(v));
    }
}

/// An artist that a path down the tree of a side comes to after `j` steps
/// lies on layer `j`.
pub proof fn lemma_tree_layer(
    g: GraphView,
    root: u128,
    s: SideView,
    queue: Seq<u128>,
    depth: Map<u128, nat>,
    level: nat,
    p: Seq<PathStep>,
    j: int,
)
    requires
        in_steps(g, root, s, queue, depth, level),
        0 <= j < p.len(),
        p[0].0 == root,
        forall|i: int| 0 <= i < j ==> #[trigger] tree_step(s, root, p, i),
    ensures
        depth[p[j].0] == j,
    decreases j,
{
    if j > 0 {
        lemma_tree_layer(g, root, s, queue, depth, level, p, j - 1);
        assert(tree_step(s, root, p, j - 1));
        assert(s.seen(p[j].0));
    }
}

/// An artist from which a path up the tree of a side comes to the root at
/// the end of `p` lies as many layers from the root as the path has steps
/// from it.
pub proof fn lemma_tree_layer_back(
    g: GraphView,
    root: u128,
    s: SideView,
    queue: Seq<u128>,
    depth: Map<u128, nat>,
    level: nat,
    p: Seq<PathStep>,
    k: int,
    j: int,
)
    requires
        in_steps(g, root, s, queue, depth, level),
        0 <= k <= j < p.len(),
        p.last().0 == root,
        forall|i: int| k <= i < p.len() - 1 ==> #[trigger] tree_step_back(s, root, p, i),
    ensures
        depth[p[j].0] == p.len() - 1 - j,
    decreases p.len() - j,
{
    if j < p.len() - 1 {
        lemma_tree_layer_back(g, root, s, queue, depth, level, p, k, j + 1);
        assert(tree_step_back(s, root, p, j));
        assert(s.seen(p[j].0));
    }
}

/// A path down the tree of a side to an artist that has been seen has the
/// fewest steps of all paths along the graph to that artist.
pub proof fn lemma_tree_path_fewest(
    g: GraphView,
    root: u128,
    s: SideView,
    queue: Seq<u128>,
    depth: Map<u128, nat>,
    level: nat,
    target: u128,
    p: Seq<PathStep>,
)
    requires
        in_steps(g, root, s, queue, depth, level),
        s.seen(target),
        is_forward_path(g, root, target, p),
        forall|i: int| 0 <= i < p.len() - 1 ==> #[trigger] tree_step(s, root, p, i),
    ensures
        is_fewest_path(g, root, target, p),
{
    lemma_tree_layer(g, root, s, queue, depth, level, p, p.len() - 1);
    assert(p[p.len() - 1] == p.last());
    assert(is_fewest(g, root, target, depth[target] as int));
}

/// Where a path goes down the tree of one side to an artist and from there
/// up the tree of the other side, neither part could have fewer steps.
pub proof fn lemma_fewest_meeting(
    fwd: GraphView,
    rev: GraphView,
    start: u128,
    target: u128,
    f: SideView,
    forward_queue: Seq<u128>,
    forward_depth: Map<u128, nat>,
    forward_level: nat,
    r: SideView,
    reverse_queue: Seq<u128>,
    reverse_depth: Map<u128, nat>,
    reverse_level: nat,
    p: Seq<PathStep>,
    k: int,
)
    requires
        in_steps(fwd, start, f, forward_queue, forward_depth, forward_level),
        in_steps(rev, target, r, reverse_queue, reverse_depth, reverse_level),
        joined_at(fwd, rev, p, k),
        p[0].0 == start,
        p.last().0 == target,
        forall|i: int| 0 <= i < k ==> #[trigger] tree_step(f, start, p, i),
        forall|i: int| k <= i < p.len() - 1 ==> #[trigger] tree_step_back(r, target, p, i),
        f.seen(p[k].0),
        r.seen(p[k].0),
    ensures
        is_fewest_meeting(fwd, rev, p, k),
{
    lemma_tree_layer(fwd, start, f, forward_queue, forward_depth, forward_level, p, k);
    lemma_tree_layer_back(rev, target, r, reverse_queue, reverse_depth, reverse_level, p, k, k);
    assert(is_fewest(fwd, start, p[k].0, forward_depth[p[k].0] as int));
    assert(is_fewest(rev, target, p[k].0, reverse_depth[p[k].0] as int));
}

} // verus!
