//! Bidirectional breadth-first search.
//!
//! One frontier grows from the start over the forward graph, the other from
//! the target over the reverse graph, one artist at a time in turn. The
//! search ends when an artist is visited that the other side has visited
//! already, or when neither side has anything left.

use crate::fx::id_map_get;
use crate::fx::id_map_insert;
use crate::fx::id_map_new;
use crate::fx::id_set_contains;
use crate::fx::id_set_insert;
use crate::fx::id_set_len;
use crate::fx::id_set_new;
use crate::fx::id_set_remove;
use crate::pathfinding::bfs::model::bfs_path;
use crate::pathfinding::bfs::model::bfs_visited;
use crate::pathfinding::bfs::model::chain_down;
use crate::pathfinding::bfs::model::chain_up;
use crate::pathfinding::bfs::model::joined;
use crate::pathfinding::bfs::model::round;
use crate::pathfinding::bfs::model::round_limit;
use crate::pathfinding::bfs::model::search;
use crate::pathfinding::bfs::model::BfsModel;
use crate::pathfinding::bfs::model::Meeting;
use crate::pathfinding::bfs::model::Round;
use crate::pathfinding::graph::lemma_degree;
use crate::pathfinding::graph::lemma_work_left;
use crate::pathfinding::graph::lemma_work_start;
use crate::pathfinding::graph::lemma_work_visit;
use crate::pathfinding::graph::work_left;
use crate::pathfinding::graph::backward_step;
use crate::pathfinding::graph::closed;
use crate::pathfinding::graph::closed_except;
use crate::pathfinding::graph::forward_step;
use crate::pathfinding::graph::has_parent;
use crate::pathfinding::graph::is_forward_path;
use crate::pathfinding::graph::is_joined_path;
use crate::pathfinding::graph::joined_at;
use crate::pathfinding::graph::lemma_adopt;
use crate::pathfinding::graph::lemma_closed;
use crate::pathfinding::graph::lemma_exhausted_both;
use crate::pathfinding::graph::lemma_initial;
use crate::pathfinding::graph::lemma_joined_path_meets;
use crate::pathfinding::graph::lemma_no_meeting;
use crate::pathfinding::graph::lemma_settle;
use crate::pathfinding::graph::lemma_tree_step_is_edge;
use crate::pathfinding::graph::tree_step;
use crate::pathfinding::graph::tree_step_back;
use crate::pathfinding::graph::lemma_skip_edge;
use crate::pathfinding::graph::meets;
use crate::pathfinding::graph::reached_by_either;
use crate::pathfinding::graph::side_tree;
use crate::pathfinding::graph::GraphView;
use crate::pathfinding::graph::SideView;
use crate::pathfinding::utils::get_artist_connections;
use crate::pathfinding::utils::PathStep;
use crate::pathfinding_config::PathfindingConfig;
use crate::similarity::SIMILARITY_ZERO;
use rustc_hash::FxHashMap;
use rustc_hash::FxHashSet;
use std::collections::VecDeque;
use crate::pathfinding::bfs::layers::in_steps;
use crate::pathfinding::bfs::layers::is_fewest_meeting;
use crate::pathfinding::bfs::layers::is_fewest_path;
use crate::pathfinding::bfs::layers::lemma_fewest_meeting;
use crate::pathfinding::bfs::layers::lemma_tree_path_fewest;
use crate::pathfinding::bfs::layers::lemma_steps_adopt;
use crate::pathfinding::bfs::layers::lemma_steps_initial;
use crate::pathfinding::bfs::layers::lemma_steps_stale;
use crate::pathfinding::bfs::layers::lemma_steps_visit;
use vstd::prelude::*;

verus! {

/// Whether entry `i` of a walk up the parents hangs in the tree on the entry
/// behind it, or on `top` where it is the last.
pub open spec fn hangs_up(s: SideView, root: u128, q: Seq<PathStep>, top: u128, i: int) -> bool {
    let above = if i + 1 < q.len() {
        q[i + 1].0
    } else {
        top
    };
    q[i].0 != root && s.visited.contains(q[i].0) && s.parent.contains_key(q[i].0) && s.parent[q[i].0]
        == (above, q[i].1)
}

/// Whether the entry before entry `i` of a walk towards the target, or
/// `from` where `i` is the first, hangs in the tree on entry `i`.
pub open spec fn hangs_down(s: SideView, root: u128, t: Seq<PathStep>, from: u128, i: int) -> bool {
    let before = if i == 0 {
        from
    } else {
        t[i - 1].0
    };
    before != root && s.visited.contains(before) && s.parent.contains_key(before)
        && s.parent[before] == t[i]
}

/// A walk up the tree of a side is no longer than the side has visited
/// artists.
proof fn lemma_walk_short(g: GraphView, root: u128, s: SideView, q: Seq<PathStep>, i: int)
    requires
        side_tree(g, root, s),
        forall|j: int| 0 <= j < q.len() ==> #[trigger] hangs_up(s, root, q, root, j),
        0 <= i < q.len(),
    ensures
        s.order[q[i].0] >= q.len() - 1 - i,
        q.len() <= s.visited.len() + i,
    decreases q.len() - i,
{
    assert(hangs_up(s, root, q, root, i));
    if i + 1 < q.len() {
        lemma_walk_short(g, root, s, q, i + 1);
        assert(hangs_up(s, root, q, root, i + 1));
        lemma_tree_step_is_edge(g, root, s, q[i].0);
        assert(s.seen(q[i].0));
        assert(s.order[s.parent[q[i].0].0] < s.order[q[i].0]);
    }
    assert(s.order[q[i].0] < s.visited.len());
}

/// A walk along the tree of a side towards its root is no longer than the
/// side has visited artists.
proof fn lemma_walk_down_short(
    g: GraphView,
    root: u128,
    s: SideView,
    t: Seq<PathStep>,
    from: u128,
    i: int,
)
    requires
        side_tree(g, root, s),
        forall|j: int| 0 <= j < t.len() ==> #[trigger] hangs_down(s, root, t, from, j),
        0 <= i < t.len(),
    ensures
        s.order[if i == 0 {
            from
        } else {
            t[i - 1].0
        }] >= t.len() - i,
        t.len() <= s.visited.len() + i,
    decreases t.len() - i,
{
    let before = if i == 0 {
        from
    } else {
        t[i - 1].0
    };
    assert(hangs_down(s, root, t, from, i));
    lemma_tree_step_is_edge(g, root, s, before);
    assert(s.seen(before));
    assert(s.order[s.parent[before].0] < s.order[before]);
    if i + 1 < t.len() {
        lemma_walk_down_short(g, root, s, t, from, i + 1);
    }
    assert(s.order[before] < s.visited.len());
}

/// A walk up the tree of a side is the chain of its parents.
proof fn lemma_chain_up(root: u128, s: SideView, q: Seq<PathStep>, from: u128, steps: nat)
    requires
        forall|j: int| 0 <= j < q.len() ==> #[trigger] hangs_up(s, root, q, root, j),
        q.len() == 0 ==> from == root,
        q.len() > 0 ==> q[0].0 == from,
        steps >= q.len(),
    ensures
        chain_up(s.parent, root, from, steps) == q,
    decreases q.len(),
{
    if q.len() == 0 {
        assert(chain_up(s.parent, root, from, steps) =~= q);
    } else {
        let rest = q.subrange(1, q.len() as int);
        assert(hangs_up(s, root, q, root, 0));
        let above = if 1 < q.len() {
            q[1].0
        } else {
            root
        };
        assert forall|j: int| 0 <= j < rest.len() implies #[trigger] hangs_up(
            s,
            root,
            rest,
            root,
            j,
        ) by {
            assert(hangs_up(s, root, q, root, j + 1));
        }
        lemma_chain_up(root, s, rest, above, (steps - 1) as nat);
        assert(seq![q[0]] + rest =~= q);
    }
}

/// A walk along the tree of a side towards its root is the chain of the
/// parents.
proof fn lemma_chain_down(root: u128, s: SideView, t: Seq<PathStep>, from: u128, steps: nat)
    requires
        forall|j: int| 0 <= j < t.len() ==> #[trigger] hangs_down(s, root, t, from, j),
        from == root <==> t.len() == 0,
        t.len() > 0 ==> t.last().0 == root,
        steps >= t.len(),
    ensures
        chain_down(s.parent, root, from, steps) == t,
    decreases t.len(),
{
    if t.len() == 0 {
        assert(chain_down(s.parent, root, from, steps) =~= t);
    } else {
        let rest = t.subrange(1, t.len() as int);
        assert(hangs_down(s, root, t, from, 0));
        assert forall|j: int| 0 <= j < rest.len() implies #[trigger] hangs_down(
            s,
            root,
            rest,
            t[0].0,
            j,
        ) by {
            assert(hangs_down(s, root, t, from, j + 1));
        }
        if rest.len() == 0 {
            assert(t[0].0 == root);
        } else {
            assert(hangs_down(s, root, t, from, 1));
            assert(rest.last() == t.last());
        }
        lemma_chain_down(root, s, rest, t[0].0, (steps - 1) as nat);
        assert(seq![t[0]] + rest =~= t);
    }
}

/// Walks from `from` up the parents of a side to its root. The walk is
/// returned as it was made: its first entry is `from` with the similarity
/// of the edge on which it hangs, its last the artist that hangs on the
/// root. It is empty where `from` is the root.
fn walk_up(
    parent_map: &FxHashMap<u128, PathStep>,
    root: u128,
    from: u128,
    Ghost(g): Ghost<GraphView>,
    Ghost(side): Ghost<SideView>,
) -> (walk: Vec<PathStep>)
    requires
        side_tree(g, root, side),
        side.parent == parent_map@,
        side.visited.contains(from),
    ensures
        walk@.len() == 0 ==> from == root,
        walk@.len() > 0 ==> walk@[0].0 == from,
        forall|i: int| 0 <= i < walk@.len() ==> #[trigger] hangs_up(side, root, walk@, root, i),
        walk@ == chain_up(side.parent, root, from, side.visited.len()),
{
    let mut current = from;
    let mut walk: Vec<PathStep> = Vec::new();
    while current != root
        invariant_except_break
            side_tree(g, root, side),
            side.parent == parent_map@,
            side.visited.contains(current),
            walk@.len() == 0 ==> current == from,
            walk@.len() > 0 ==> walk@[0].0 == from,
            forall|i: int| 0 <= i < walk@.len() ==> #[trigger] hangs_up(side, root, walk@, current, i),
        ensures
            current == root,
            walk@.len() == 0 ==> current == from,
            walk@.len() > 0 ==> walk@[0].0 == from,
            forall|i: int| 0 <= i < walk@.len() ==> #[trigger] hangs_up(side, root, walk@, current, i),
        decreases side.order[current],
    {
        proof {
            lemma_tree_step_is_edge(g, root, side, current);
            assert(side.seen(current));
            assert(has_parent(g, side, current));
        }
        match id_map_get(parent_map, current) {
            Some(step) => {
                let (parent, similarity) = *step;
                let ghost before = walk@;
                walk.push((current, similarity));
                proof {
                    assert forall|i: int| 0 <= i < walk@.len() implies #[trigger] hangs_up(
                        side,
                        root,
                        walk@,
                        parent,
                        i,
                    ) by {
                        if i < before.len() {
                            assert(hangs_up(side, root, before, current, i));
                        }
                    }
                }
                current = parent;
            },
            None => {
                break ;
            },
        }
    }
    proof {
        if walk@.len() > 0 {
            lemma_walk_short(g, root, side, walk@, 0);
        }
        lemma_chain_up(root, side, walk@, from, side.visited.len());
    }
    walk
}

/// The walk read from its end, behind the root: the path from the root to
/// the artist that the walk started from.
fn path_down(walk: &Vec<PathStep>, root: u128, Ghost(g): Ghost<GraphView>, Ghost(side): Ghost<
    SideView,
>, Ghost(from): Ghost<u128>) -> (path: Vec<PathStep>)
    requires
        side_tree(g, root, side),
        side.visited.contains(from),
        walk@.len() == 0 ==> from == root,
        walk@.len() > 0 ==> walk@[0].0 == from,
        forall|i: int| 0 <= i < walk@.len() ==> #[trigger] hangs_up(side, root, walk@, root, i),
    ensures
        path@.len() == walk@.len() + 1,
        path@ == seq![(root, SIMILARITY_ZERO)] + walk@.reverse(),
        is_forward_path(g, root, from, path@),
        forall|i: int| 0 <= i < path@.len() - 1 ==> #[trigger] tree_step(side, root, path@, i),
        forall|i: int| 0 <= i < path@.len() ==> side.visited.contains((#[trigger] path@[i]).0),
{
    let mut path: Vec<PathStep> = Vec::new();
    path.push((root, SIMILARITY_ZERO));
    let mut n = walk.len();
    while n > 0
        invariant
            n <= walk@.len(),
            path@.len() == walk@.len() - n + 1,
            path@[0] == (root, SIMILARITY_ZERO),
            forall|i: int|
                1 <= i < path@.len() ==> #[trigger] path@[i] == walk@[walk@.len() - i],
        decreases n,
    {
        n = n - 1;
        path.push(walk[n]);
    }
    proof {
        let up = walk@;
        let k = path@.len() - 1;
        assert(path@ =~= seq![(root, SIMILARITY_ZERO)] + up.reverse());
        assert(path@[k].0 == from) by {
            if up.len() > 0 {
                assert(path@[k] == up[0]);
            }
        }
        assert forall|i: int| 0 <= i < k implies #[trigger] tree_step(side, root, path@, i) by {
            let j = up.len() - 1 - i;
            assert(path@[i + 1] == up[j]);
            assert(hangs_up(side, root, up, root, j));
            if i > 0 {
                assert(path@[i] == up[j + 1]);
            }
        }
        assert forall|i: int| 0 <= i < k implies #[trigger] forward_step(g, path@, i) by {
            assert(tree_step(side, root, path@, i));
            lemma_tree_step_is_edge(g, root, side, path@[i + 1].0);
        }
        assert forall|i: int| 0 <= i < path@.len() implies side.visited.contains(
            (#[trigger] path@[i]).0,
        ) by {
            if i == 0 {
                if up.len() == 0 {
                } else {
                    assert(tree_step(side, root, path@, 0));
                    lemma_tree_step_is_edge(g, root, side, path@[1].0);
                }
            } else {
                assert(tree_step(side, root, path@, i - 1));
            }
        }
    }
    path
}

/// Walks from `target` up the parents to `start` and returns the walk from
/// `start` to `target`: a path along the graph, each of its steps the one on
/// which the artist it leads to hangs.
pub(crate) fn path_along_tree(
    parent_map: &FxHashMap<u128, PathStep>,
    start: u128,
    target: u128,
    Ghost(g): Ghost<GraphView>,
    Ghost(side): Ghost<SideView>,
) -> (path: Vec<PathStep>)
    requires
        side_tree(g, start, side),
        side.parent == parent_map@,
        side.visited.contains(target),
    ensures
        is_forward_path(g, start, target, path@),
        forall|i: int| 0 <= i < path@.len() - 1 ==> #[trigger] tree_step(side, start, path@, i),
{
    let walk = walk_up(parent_map, start, target, Ghost(g), Ghost(side));
    path_down(&walk, start, Ghost(g), Ghost(side), Ghost(target))
}

/// Walks from `meeting_point` up the forward parents to `start`, and up the
/// reverse parents to `target`, and joins the two walks into one path from
/// `start` to `target`. With the path comes the place of the meeting point
/// on it.
pub(crate) fn reconstruct_bidirectional_path(
    forward_parent: &FxHashMap<u128, PathStep>,
    reverse_parent: &FxHashMap<u128, PathStep>,
    start: u128,
    target: u128,
    meeting_point: u128,
    Ghost(fwd): Ghost<GraphView>,
    Ghost(rev): Ghost<GraphView>,
    Ghost(f): Ghost<SideView>,
    Ghost(r): Ghost<SideView>,
) -> (found: (Vec<PathStep>, Ghost<int>))
    requires
        side_tree(fwd, start, f),
        side_tree(rev, target, r),
        f.parent == forward_parent@,
        r.parent == reverse_parent@,
        f.visited.contains(meeting_point),
        r.visited.contains(meeting_point),
    ensures
        is_joined_path(fwd, rev, start, target, found.0@),
        found.0@ == joined(
            f.parent,
            r.parent,
            start,
            target,
            meeting_point,
            f.visited.len(),
            r.visited.len(),
        ),
        joined_at(fwd, rev, found.0@, found.1@),
        found.0@[found.1@].0 == meeting_point,
        forall|i: int| 0 <= i < found.1@ ==> #[trigger] tree_step(f, start, found.0@, i),
        forall|i: int|
            found.1@ <= i < found.0@.len() - 1 ==> #[trigger] tree_step_back(
                r,
                target,
                found.0@,
                i,
            ),
        forall|i: int|
            0 <= i < found.0@.len() ==> f.visited.contains((#[trigger] found.0@[i]).0)
                || r.visited.contains(found.0@[i].0),
{
    let walk = walk_up(forward_parent, start, meeting_point, Ghost(fwd), Ghost(f));
    let mut path = path_down(&walk, start, Ghost(fwd), Ghost(f), Ghost(meeting_point));
    let ghost first = path@;
    let ghost k = first.len() - 1;

    let mut current = meeting_point;
    let mut path_to_target: Vec<PathStep> = Vec::new();
    while current != target
        invariant_except_break
            side_tree(rev, target, r),
            r.parent == reverse_parent@,
            r.visited.contains(current),
            current == (if path_to_target@.len() == 0 {
                meeting_point
            } else {
                path_to_target@.last().0
            }),
            forall|i: int|
                0 <= i < path_to_target@.len() ==> r.visited.contains(
                    (#[trigger] path_to_target@[i]).0,
                ),
            forall|i: int|
                0 <= i < path_to_target@.len() ==> #[trigger] hangs_down(
                    r,
                    target,
                    path_to_target@,
                    meeting_point,
                    i,
                ),
        ensures
            current == target,
            current == (if path_to_target@.len() == 0 {
                meeting_point
            } else {
                path_to_target@.last().0
            }),
            forall|i: int|
                0 <= i < path_to_target@.len() ==> r.visited.contains(
                    (#[trigger] path_to_target@[i]).0,
                ),
            forall|i: int|
                0 <= i < path_to_target@.len() ==> #[trigger] hangs_down(
                    r,
                    target,
                    path_to_target@,
                    meeting_point,
                    i,
                ),
        decreases r.order[current],
    {
        proof {
            lemma_tree_step_is_edge(rev, target, r, current);
        }
        match id_map_get(reverse_parent, current) {
            Some(step) => {
                let (parent, similarity) = *step;
                let ghost before = path_to_target@;
                path_to_target.push((parent, similarity));
                proof {
                    assert forall|i: int|
                        0 <= i < path_to_target@.len() implies #[trigger] hangs_down(
                        r,
                        target,
                        path_to_target@,
                        meeting_point,
                        i,
                    ) by {
                        if i < before.len() {
                            assert(hangs_down(r, target, before, meeting_point, i));
                        }
                    }
                }
                current = parent;
            },
            None => {
                break ;
            },
        }
    }
    let ghost second = path_to_target@;
    path.append(&mut path_to_target);
    proof {
        assert(path@ =~= first + second);
        if second.len() > 0 {
            assert(hangs_down(r, target, second, meeting_point, 0));
            lemma_walk_down_short(rev, target, r, second, meeting_point, 0);
        }
        lemma_chain_down(target, r, second, meeting_point, r.visited.len());
        assert(path@[k].0 == meeting_point);
        assert forall|i: int| 0 <= i < k implies #[trigger] forward_step(fwd, path@, i) by {
            assert(forward_step(fwd, first, i));
        }
        assert forall|i: int| 0 <= i < k implies #[trigger] tree_step(f, start, path@, i) by {
            assert(tree_step(f, start, first, i));
        }
        assert forall|i: int| k <= i < path@.len() - 1 implies #[trigger] tree_step_back(
            r,
            target,
            path@,
            i,
        ) by {
            assert(hangs_down(r, target, second, meeting_point, i - k));
        }
        assert forall|i: int| k <= i < path@.len() - 1 implies #[trigger] backward_step(
            rev,
            path@,
            i,
        ) by {
            assert(tree_step_back(r, target, path@, i));
            lemma_tree_step_is_edge(rev, target, r, path@[i].0);
        }
        assert(joined_at(fwd, rev, path@, k));
        assert forall|i: int| 0 <= i < path@.len() implies f.visited.contains(
            (#[trigger] path@[i]).0,
        ) || r.visited.contains(path@[i].0) by {
            if i < first.len() {
                assert(f.visited.contains(first[i].0));
            } else {
                assert(r.visited.contains(second[i - first.len()].0));
            }
        }
    }
    (path, Ghost(k))
}

/// One frontier of the search: the artists that wait, in the order in which
/// they were found, and what is known of the artists seen so far.
pub(crate) struct BfsSide {
    pub(crate) queue: VecDeque<u128>,
    pub(crate) visited: FxHashSet<u128>,
    pub(crate) queued: FxHashSet<u128>,
    pub(crate) parent: FxHashMap<u128, PathStep>,
    pub(crate) order: Ghost<Map<u128, nat>>,
    /// For each artist seen, how many steps it lies from the root.
    pub(crate) depth: Ghost<Map<u128, nat>>,
    /// The layer of the artist visited last.
    pub(crate) level: Ghost<nat>,
}

impl BfsSide {
    pub(crate) open spec fn view(&self) -> SideView {
        SideView {
            visited: self.visited@,
            pending: self.queued@,
            parent: self.parent@,
            order: self.order@,
        }
    }

    /// The side as the search computes with it.
    pub(crate) open spec fn model(&self) -> BfsModel {
        BfsModel {
            queue: self.queue@,
            visited: self.visited@,
            queued: self.queued@,
            parent: self.parent@,
        }
    }

    /// The layers of the side are in order.
    #[verifier::opaque]
    pub(crate) open spec fn layered(&self, g: GraphView, root: u128) -> bool {
        in_steps(g, root, self@, self.queue@, self.depth@, self.level@)
    }

    /// Whether `v` lies on the layer of the artist visited last.
    pub(crate) open spec fn at_level(&self, v: u128) -> bool {
        self.depth@[v] == self.level@
    }

    /// The side is in order, the queue holds the waiting artists and
    /// nothing that has not been seen, and the layers are in order.
    pub(crate) open spec fn inv(&self, g: GraphView, root: u128) -> bool {
        &&& side_tree(g, root, self@)
        &&& self.layered(g, root)
        &&& forall|v: u128| #[trigger] self.queued@.contains(v) ==> self.queue@.contains(v)
        &&& forall|i: int| 0 <= i < self.queue@.len() ==> self@.seen(#[trigger] self.queue@[i])
    }

    pub(crate) fn new(root: u128, Ghost(g): Ghost<GraphView>) -> (r: Self)
        ensures
            r.inv(g, root),
            closed(g, r@),
            r.visited@ == Set::<u128>::empty(),
            r.queue@.len() == 1,
            r.model() == BfsModel::start(root),
    {
        let mut queue = VecDeque::new();
        let mut queued = id_set_new();
        queue.push_back(root);
        id_set_insert(&mut queued, root);
        let r = BfsSide {
            queue,
            visited: id_set_new(),
            queued,
            parent: id_map_new(),
            order: Ghost(Map::empty()),
            depth: Ghost(Map::empty().insert(root, 0nat)),
            level: Ghost(0nat),
        };
        proof {
            lemma_initial(g, root);
            assert(r.parent@ =~= Map::empty());
            assert(r@ == SideView::initial(root));
            assert(r.queue@[0] == root);
            assert(r.queue@ =~= seq![root]);
            lemma_steps_initial(g, root);
            reveal(BfsSide::layered);
        }
        r
    }

    /// Takes the artist that has waited longest. Where it has not been
    /// visited yet it is visited now and returned.
    pub(crate) fn take_next(&mut self, Ghost(g): Ghost<GraphView>, Ghost(root): Ghost<u128>) -> (r:
        Option<u128>)
        requires
            old(self).inv(g, root),
            closed(g, old(self)@),
            old(self).queue@.len() > 0,
        ensures
            final(self).inv(g, root),
            final(self).queue@.len() == old(self).queue@.len() - 1,
            match r {
                Some(current) => {
                    &&& current == old(self).queue@[0]
                    &&& !old(self).visited@.contains(current)
                    &&& final(self).at_level(current)
                    &&& final(self).visited@ == old(self).visited@.insert(current)
                    &&& final(self).model() == old(self).model().visit()
                    &&& closed_except(g, final(self)@, current, 0)
                    &&& g.universe(root).difference(final(self).visited@).len() < g.universe(
                        root,
                    ).difference(old(self).visited@).len()
                    &&& work_left(g, root, final(self).visited@, final(self).queue@.len())
                        == work_left(g, root, old(self).visited@, old(self).queue@.len()) - (
                    g.data.len() + 2)
                },
                None => {
                    &&& old(self).visited@.contains(old(self).queue@[0])
                    &&& final(self).visited@ == old(self).visited@
                    &&& final(self).model() == old(self).model().pop()
                    &&& closed(g, final(self)@)
                },
            },
    {
        let ghost before = self@;
        let ghost old_queue = self.queue@;
        let ghost depth = self.depth@;
        let ghost level = self.level@;
        let current = self.queue.pop_front().unwrap();
        assert(old_queue[0] == current);
        assert(before.seen(current));
        assert(in_steps(g, root, before, old_queue, depth, level)) by {
            reveal(BfsSide::layered);
        }
        assert forall|i: int| 0 <= i < self.queue@.len() implies before.seen(
            #[trigger] self.queue@[i],
        ) by {
            assert(self.queue@[i] == old_queue[i + 1]);
        }
        if id_set_contains(&self.visited, current) {
            proof {
                assert(self.queue@ =~= old_queue.subrange(1, old_queue.len() as int));
                assert forall|v: u128| #[trigger] self.queued@.contains(v) implies self.queue@.contains(
                    v,
                ) by {
                    let i = choose|i: int| 0 <= i < old_queue.len() && old_queue[i] == v;
                    assert(i > 0);
                    assert(self.queue@[i - 1] == v);
                }
                lemma_steps_stale(g, root, before, old_queue, depth, level);
                reveal(BfsSide::layered);
            }
            return None;
        }
        id_set_insert(&mut self.visited, current);
        id_set_remove(&mut self.queued, current);
        proof {
            self.order = Ghost(before.order.insert(current, before.visited.len()));
            lemma_settle(g, root, before, current);
            assert(self@ == before.settle(current));
            assert(self.queue@ =~= old_queue.subrange(1, old_queue.len() as int));
            assert(before.pending.contains(current));
            lemma_work_visit(g, root, before.visited, current, self.queue@.len());
            assert forall|v: u128| #[trigger] self.queued@.contains(v) implies self.queue@.contains(
                v,
            ) by {
                assert(before.pending.contains(v));
                let i = choose|i: int| 0 <= i < old_queue.len() && old_queue[i] == v;
                assert(i > 0);
                assert(self.queue@[i - 1] == v);
            }
            assert forall|i: int| 0 <= i < self.queue@.len() implies self@.seen(
                #[trigger] self.queue@[i],
            ) by {
                assert(before.seen(self.queue@[i]));
            }
            assert forall|x: u128| #[trigger] before.pending.contains(x) implies old_queue.contains(
                x,
            ) by {}
            lemma_steps_visit(g, root, before, old_queue, depth, level);
            self.level = Ghost(depth[current]);
            reveal(BfsSide::layered);
        }
        Some(current)
    }

    /// Follows the edges of the artist just visited: every neighbour that has
    /// not been seen is hung on its edge and put in the queue.
    pub(crate) fn expand(
        &mut self,
        current: u128,
        connections: Vec<PathStep>,
        Ghost(g): Ghost<GraphView>,
        Ghost(root): Ghost<u128>,
    )
        requires
            old(self).inv(g, root),
            closed_except(g, old(self)@, current, 0),
            old(self).visited@.contains(current),
            old(self).at_level(current),
            connections@ == g.edges(current),
        ensures
            final(self).inv(g, root),
            closed(g, final(self)@),
            final(self).visited@ == old(self).visited@,
            final(self).queue@.len() >= old(self).queue@.len(),
            final(self).queue@.len() <= old(self).queue@.len() + connections@.len(),
            final(self).model() == old(self).model().expand(current, connections@),
    {
        let mut k: usize = 0;
        while k < connections.len()
            invariant
                k <= connections.len(),
                connections@ == g.edges(current),
                self.inv(g, root),
                closed_except(g, self@, current, k as int),
                self.visited@ == old(self).visited@,
                self.visited@.contains(current),
                self.at_level(current),
                self.queue@.len() >= old(self).queue@.len(),
                self.queue@.len() <= old(self).queue@.len() + k,
                self.model() == old(self).model().expand(current, connections@.take(k as int)),
            decreases connections.len() - k,
        {
            let (neighbor, similarity) = connections[k];
            let ghost before = self@;
            let ghost old_queue = self.queue@;
            let ghost depth = self.depth@;
            let ghost level = self.level@;
            proof {
                assert(in_steps(g, root, before, old_queue, depth, level)) by {
                    reveal(BfsSide::layered);
                }
                let upto = connections@.take(k + 1);
                assert(upto.drop_last() =~= connections@.take(k as int));
                assert(upto.last() == (neighbor, similarity));
            }
            if !id_set_contains(&self.visited, neighbor) && !id_set_contains(
                &self.queued,
                neighbor,
            ) {
                id_map_insert(&mut self.parent, neighbor, (current, similarity));
                self.queue.push_back(neighbor);
                id_set_insert(&mut self.queued, neighbor);
                proof {
                    lemma_adopt(g, root, before, current, k as int);
                    assert(self@ == before.adopt(neighbor, current, similarity));
                    assert(self.queue@[old_queue.len() as int] == neighbor);
                    lemma_steps_adopt(
                        g,
                        root,
                        before,
                        old_queue,
                        depth,
                        level,
                        current,
                        neighbor,
                        similarity,
                    );
                    self.depth = Ghost(depth.insert(neighbor, level + 1));
                    assert(self.queue@ =~= old_queue.push(neighbor));
                    reveal(BfsSide::layered);
                    assert forall|v: u128| #[trigger] self.queued@.contains(v) implies self.queue@.contains(
                    v) by {
                        if v != neighbor {
                            let i = choose|i: int| 0 <= i < old_queue.len() && old_queue[i] == v;
                            assert(self.queue@[i] == v);
                        }
                    }
                    assert forall|i: int| 0 <= i < self.queue@.len() implies self@.seen(
                        #[trigger] self.queue@[i],
                    ) by {
                        if i < old_queue.len() {
                            assert(before.seen(old_queue[i]));
                        }
                    }
                }
            } else {
                proof {
                    lemma_skip_edge(g, before, current, k as int);
                }
            }
            k = k + 1;
        }
        proof {
            lemma_closed(g, self@, current, k as int);
            assert(connections@.take(k as int) =~= connections@);
        }
    }
}

/// A path down the tree of a side to an artist that it has visited has the
/// fewest steps of all paths along the graph to that artist.
pub(crate) proof fn lemma_side_fewest(
    side: BfsSide,
    g: GraphView,
    root: u128,
    target: u128,
    p: Seq<PathStep>,
)
    requires
        side.inv(g, root),
        side.visited@.contains(target),
        is_forward_path(g, root, target, p),
        forall|i: int| 0 <= i < p.len() - 1 ==> #[trigger] tree_step(side@, root, p, i),
    ensures
        is_fewest_path(g, root, target, p),
{
    reveal(BfsSide::layered);
    lemma_tree_path_fewest(g, root, side@, side.queue@, side.depth@, side.level@, target, p);
}

/// Where two sides have both visited an artist, and a path goes down the
/// tree of the one to it and from there up the tree of the other, neither
/// part could have fewer steps.
pub(crate) proof fn lemma_sides_meet(
    forward: BfsSide,
    reverse: BfsSide,
    fwd: GraphView,
    rev: GraphView,
    start: u128,
    target: u128,
    p: Seq<PathStep>,
    k: int,
)
    requires
        forward.inv(fwd, start),
        reverse.inv(rev, target),
        is_joined_path(fwd, rev, start, target, p),
        joined_at(fwd, rev, p, k),
        forall|i: int| 0 <= i < k ==> #[trigger] tree_step(forward@, start, p, i),
        forall|i: int| k <= i < p.len() - 1 ==> #[trigger] tree_step_back(reverse@, target, p, i),
        forward.visited@.contains(p[k].0),
        reverse.visited@.contains(p[k].0),
    ensures
        is_fewest_meeting(fwd, rev, p, k),
{
    reveal(BfsSide::layered);
    lemma_fewest_meeting(
        fwd,
        rev,
        start,
        target,
        forward@,
        forward.queue@,
        forward.depth@,
        forward.level@,
        reverse@,
        reverse.queue@,
        reverse.depth@,
        reverse.level@,
        p,
        k,
    );
}

/// A breadth-first search from one artist.
pub struct BfsState {
    queue: VecDeque<u128>,
    /// The artists that the last search visited, on either side.
    pub visited: FxHashSet<u128>,
}

impl BfsState {
    /// Whether the state holds the artist that it was made for.
    pub closed spec fn wf(&self) -> bool {
        self.queue@.len() >= 1
    }

    /// The artist that searches start from.
    pub closed spec fn start(&self) -> u128 {
        self.queue@[0]
    }

    /// What the field `visited` holds.
    pub closed spec fn visited_ids(&self) -> Set<u128> {
        self.visited@
    }

    /// A state for searches that start from `start`.
    pub fn new(start: u128) -> (r: Self)
        ensures
            r.wf(),
            r.start() == start,
            r.visited_ids() == Set::<u128>::empty().insert(start),
    {
        let mut queue = VecDeque::new();
        let mut visited = id_set_new();
        queue.push_back(start);
        id_set_insert(&mut visited, start);
        Self { queue, visited }
    }

    /// The number of artists that the last search visited.
    pub fn visited_count(&self) -> (r: usize)
        ensures
            r == self.visited_ids().len(),
    {
        id_set_len(&self.visited)
    }

    #[verifier::rlimit(60)]
    /// Searches a path to `target`, from both ends at once.
    ///
    /// There is a path exactly when a walk from the start along the forward
    /// graph and a walk from the target along the reverse graph come to a
    /// common artist. The path returned goes along forward edges up to such
    /// an artist and against reverse edges from there on, and neither part
    /// could have fewer steps. It is the path that the search, taken round
    /// by round, comes to: the same query gives the same path.
    pub fn find_path_to_target(
        &mut self,
        target: u128,
        forward_graph_data: &[u8],
        forward_graph_index: &FxHashMap<u128, u64>,
        reverse_graph_data: &[u8],
        reverse_graph_index: &FxHashMap<u128, u64>,
        config: &PathfindingConfig,
    ) -> (r: Option<Vec<PathStep>>)
        requires
            old(self).wf(),
        ensures
            final(self).wf(),
            final(self).start() == old(self).start(),
            path_view(r) == bfs_path(
                (GraphView {
                    data: forward_graph_data@,
                    index: forward_graph_index@,
                    config: *config,
                }),
                (GraphView {
                    data: reverse_graph_data@,
                    index: reverse_graph_index@,
                    config: *config,
                }),
                old(self).start(),
                target,
            ),
            r.is_some() == meets(
                (GraphView {
                    data: forward_graph_data@,
                    index: forward_graph_index@,
                    config: *config,
                }),
                (GraphView {
                    data: reverse_graph_data@,
                    index: reverse_graph_index@,
                    config: *config,
                }),
                old(self).start(),
                target,
            ),
            r.is_some() ==> is_joined_path(
                (GraphView {
                    data: forward_graph_data@,
                    index: forward_graph_index@,
                    config: *config,
                }),
                (GraphView {
                    data: reverse_graph_data@,
                    index: reverse_graph_index@,
                    config: *config,
                }),
                old(self).start(),
                target,
                r.unwrap()@,
            ),
            r.is_some() ==> exists|k: int|
                is_fewest_meeting(
                    (GraphView {
                        data: forward_graph_data@,
                        index: forward_graph_index@,
                        config: *config,
                    }),
                    (GraphView {
                        data: reverse_graph_data@,
                        index: reverse_graph_index@,
                        config: *config,
                    }),
                    r.unwrap()@,
                    k,
                ),
            r.is_some() ==> forall|i: int|
                0 <= i < r.unwrap()@.len() ==> final(self).visited_ids().contains(
                    #[trigger] r.unwrap()@[i].0,
                ),
            r.is_some() ==> bfs_visited(
                (GraphView {
                    data: forward_graph_data@,
                    index: forward_graph_index@,
                    config: *config,
                }),
                (GraphView {
                    data: reverse_graph_data@,
                    index: reverse_graph_index@,
                    config: *config,
                }),
                old(self).start(),
                target,
            ) == Some(final(self).visited_ids()),
            final(self).visited_ids().finite(),
            r.is_none() ==> final(self).visited_ids() == reached_by_either(
                (GraphView {
                    data: forward_graph_data@,
                    index: forward_graph_index@,
                    config: *config,
                }),
                (GraphView {
                    data: reverse_graph_data@,
                    index: reverse_graph_index@,
                    config: *config,
                }),
                old(self).start(),
                target,
            ),
    {
        let ghost fwd = GraphView {
            data: forward_graph_data@,
            index: forward_graph_index@,
            config: *config,
        };
        let ghost rev = GraphView {
            data: reverse_graph_data@,
            index: reverse_graph_index@,
            config: *config,
        };
        let start = self.queue[0];
        let mut forward = BfsSide::new(start, Ghost(fwd));
        let mut reverse = BfsSide::new(target, Ghost(rev));
        self.visited = id_set_new();
        let ghost mut rounds: nat = round_limit(fwd, start) + round_limit(rev, target);
        let ghost answer = search(fwd, rev, forward.model(), reverse.model(), rounds);
        proof {
            lemma_work_start(fwd, start);
            lemma_work_start(rev, target);
        }

        while forward.queue.len() > 0 || reverse.queue.len() > 0
            invariant
                self.wf(),
                self.start() == start,
                forward.inv(fwd, start),
                closed(fwd, forward@),
                reverse.inv(rev, target),
                closed(rev, reverse@),
                forall|v: u128| forward.visited@.contains(v) ==> !reverse.visited@.contains(v),
                self.visited@ == forward.visited@.union(reverse.visited@),
                start == old(self).start(),
                fwd == (GraphView {
                    data: forward_graph_data@,
                    index: forward_graph_index@,
                    config: *config,
                }),
                rev == (GraphView {
                    data: reverse_graph_data@,
                    index: reverse_graph_index@,
                    config: *config,
                }),
                search(fwd, rev, forward.model(), reverse.model(), rounds) == answer,
                answer == search(
                    fwd,
                    rev,
                    BfsModel::start(start),
                    BfsModel::start(target),
                    round_limit(fwd, start) + round_limit(rev, target),
                ),
                rounds >= work_left(fwd, start, forward.visited@, forward.queue@.len())
                    + work_left(rev, target, reverse.visited@, reverse.queue@.len()),
            decreases
                    fwd.universe(start).difference(forward.visited@).len() + rev.universe(
                        target,
                    ).difference(reverse.visited@).len(),
                    forward.queue@.len() + reverse.queue@.len(),
        {
            let ghost f0 = forward.model();
            let ghost r0 = reverse.model();
            proof {
                lemma_work_left(fwd, start, forward.visited@, forward.queue@.len());
                lemma_work_left(rev, target, reverse.visited@, reverse.queue@.len());
                assert(rounds >= 1);
                assert(search(fwd, rev, f0, r0, rounds) == (match round(fwd, rev, f0, r0) {
                    Round::Met(m) => Some(m),
                    Round::On(f2, r2) => search(fwd, rev, f2, r2, (rounds - 1) as nat),
                }));
                rounds = (rounds - 1) as nat;
            }
            if forward.queue.len() > 0 {
                match forward.take_next(Ghost(fwd), Ghost(start)) {
                    Some(current) => {
                        id_set_insert(&mut self.visited, current);
                        assert(self.visited@ =~= forward.visited@.union(reverse.visited@));
                        if id_set_contains(&reverse.visited, current) {
                            let (path, Ghost(k)) = reconstruct_bidirectional_path(
                                &forward.parent,
                                &reverse.parent,
                                start,
                                target,
                                current,
                                Ghost(fwd),
                                Ghost(rev),
                                Ghost(forward@),
                                Ghost(reverse@),
                            );
                            proof {
                                lemma_sides_meet(
                                    forward,
                                    reverse,
                                    fwd,
                                    rev,
                                    start,
                                    target,
                                    path@,
                                    k,
                                );
                                lemma_joined_path_meets(fwd, rev, start, target, path@);
                                assert(answer == Some(
                                    Meeting {
                                        at: current,
                                        forward: forward.model(),
                                        reverse: reverse.model(),
                                    },
                                ));
                            }
                            return Some(path);
                        }
                        let connections = get_artist_connections(
                            current,
                            forward_graph_data,
                            forward_graph_index,
                            config,
                        );
                        proof {
                            lemma_degree(fwd, current);
                        }
                        forward.expand(current, connections, Ghost(fwd), Ghost(start));
                    },
                    None => {
                        continue ;
                    },
                }
            }
            if reverse.queue.len() > 0 {
                match reverse.take_next(Ghost(rev), Ghost(target)) {
                    Some(current) => {
                        id_set_insert(&mut self.visited, current);
                        assert(self.visited@ =~= forward.visited@.union(reverse.visited@));
                        if id_set_contains(&forward.visited, current) {
                            let (path, Ghost(k)) = reconstruct_bidirectional_path(
                                &forward.parent,
                                &reverse.parent,
                                start,
                                target,
                                current,
                                Ghost(fwd),
                                Ghost(rev),
                                Ghost(forward@),
                                Ghost(reverse@),
                            );
                            proof {
                                lemma_sides_meet(
                                    forward,
                                    reverse,
                                    fwd,
                                    rev,
                                    start,
                                    target,
                                    path@,
                                    k,
                                );
                                lemma_joined_path_meets(fwd, rev, start, target, path@);
                                assert(answer == Some(
                                    Meeting {
                                        at: current,
                                        forward: forward.model(),
                                        reverse: reverse.model(),
                                    },
                                ));
                            }
                            return Some(path);
                        }
                        let connections = get_artist_connections(
                            current,
                            reverse_graph_data,
                            reverse_graph_index,
                            config,
                        );
                        proof {
                            lemma_degree(rev, current);
                        }
                        reverse.expand(current, connections, Ghost(rev), Ghost(target));
                    },
                    None => {},
                }
            }
        }
        proof {
            assert forall|v: u128| !forward@.pending.contains(v) by {
                if forward.queued@.contains(v) {
                    assert(forward.queue@.contains(v));
                }
            }
            assert forall|v: u128| !reverse@.pending.contains(v) by {
                if reverse.queued@.contains(v) {
                    assert(reverse.queue@.contains(v));
                }
            }
            lemma_no_meeting(fwd, rev, start, target, forward@, reverse@);
            lemma_exhausted_both(fwd, rev, start, target, forward@, reverse@);
            assert(answer.is_none());
        }
        None
    }
}

/// The path of a result as a sequence.
pub open spec fn path_view(r: Option<Vec<PathStep>>) -> Option<Seq<PathStep>> {
    match r {
        Some(p) => Some(p@),
        None => None,
    }
}

} // verus!
