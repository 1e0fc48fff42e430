//! What the search from both ends computes, step by step.
//!
//! The search is a function of the two graphs and the two artists: the same
//! query gives the same path. The function is written out here over plain
//! sequences, sets and maps, and the search is proved to compute it.

use crate::pathfinding::graph::GraphView;
use crate::pathfinding::utils::PathStep;
use crate::similarity::SIMILARITY_ZERO;
use vstd::prelude::*;

verus! {

/// One side of the search: the artists that wait, in their order; the
/// artists visited; the artists that wait, as a set; and for each artist
/// reached the artist it was reached from, with the similarity of the edge.
pub struct BfsModel {
    pub queue: Seq<u128>,
    pub visited: Set<u128>,
    pub queued: Set<u128>,
    pub parent: Map<u128, PathStep>,
}

impl BfsModel {
    /// A side before its first step: only the root, waiting.
    pub open spec fn start(root: u128) -> BfsModel {
        BfsModel {
            queue: seq![root],
            visited: Set::empty(),
            queued: Set::empty().insert(root),
            parent: Map::empty(),
        }
    }

    /// The side after the first artist that waits has been dropped.
    pub open spec fn pop(self) -> BfsModel {
        BfsModel { queue: self.queue.subrange(1, self.queue.len() as int), ..self }
    }

    /// The side after the first artist that waits has been visited.
    pub open spec fn visit(self) -> BfsModel {
        BfsModel {
            queue: self.queue.subrange(1, self.queue.len() as int),
            visited: self.visited.insert(self.queue[0]),
            queued: self.queued.remove(self.queue[0]),
            parent: self.parent,
        }
    }

    /// The side after one edge of `cur` has been followed: its target is
    /// hung on the edge and waits, unless it has been seen.
    pub open spec fn relax(self, cur: u128, e: PathStep) -> BfsModel {
        if !self.visited.contains(e.0) && !self.queued.contains(e.0) {
            BfsModel {
                queue: self.queue.push(e.0),
                visited: self.visited,
                queued: self.queued.insert(e.0),
                parent: self.parent.insert(e.0, (cur, e.1)),
            }
        } else {
            self
        }
    }

    /// The side after the edges of `cur` have been followed in their order.
    pub open spec fn expand(self, cur: u128, edges: Seq<PathStep>) -> BfsModel
        decreases edges.len(),
    {
        if edges.len() == 0 {
            self
        } else {
            self.expand(cur, edges.drop_last()).relax(cur, edges.last())
        }
    }
}

/// The artist at which two sides met, and the sides as they were then.
pub struct Meeting {
    pub at: u128,
    pub forward: BfsModel,
    pub reverse: BfsModel,
}

/// What one round of the search gives: a meeting, or the two sides after
/// the round.
pub enum Round {
    Met(Meeting),
    On(BfsModel, BfsModel),
}

/// The reverse half of a round.
pub open spec fn reverse_half(rev: GraphView, f: BfsModel, r: BfsModel) -> Round {
    if r.queue.len() == 0 {
        Round::On(f, r)
    } else if r.visited.contains(r.queue[0]) {
        Round::On(f, r.pop())
    } else if f.visited.contains(r.queue[0]) {
        Round::Met(Meeting { at: r.queue[0], forward: f, reverse: r.visit() })
    } else {
        Round::On(f, r.visit().expand(r.queue[0], rev.edges(r.queue[0])))
    }
}

/// One round of the search: the forward side takes its next artist, then
/// the reverse side takes its own. Where the forward side finds an artist
/// that it has visited already, the reverse side stands still for the
/// round.
pub open spec fn round(fwd: GraphView, rev: GraphView, f: BfsModel, r: BfsModel) -> Round {
    if f.queue.len() == 0 {
        reverse_half(rev, f, r)
    } else if f.visited.contains(f.queue[0]) {
        Round::On(f.pop(), r)
    } else if r.visited.contains(f.queue[0]) {
        Round::Met(Meeting { at: f.queue[0], forward: f.visit(), reverse: r })
    } else {
        reverse_half(rev, f.visit().expand(f.queue[0], fwd.edges(f.queue[0])), r)
    }
}

/// The meeting that the search comes to within `rounds` rounds.
pub open spec fn search(fwd: GraphView, rev: GraphView, f: BfsModel, r: BfsModel, rounds: nat) -> Option<
    Meeting,
>
    decreases rounds,
{
    if f.queue.len() == 0 && r.queue.len() == 0 {
        None
    } else if rounds == 0 {
        None
    } else {
        match round(fwd, rev, f, r) {
            Round::Met(m) => Some(m),
            Round::On(f2, r2) => search(fwd, rev, f2, r2, (rounds - 1) as nat),
        }
    }
}

/// The walk from `from` up the parents to `root`, in at most `steps` steps:
/// each artist with the similarity of the edge on which it hangs.
pub open spec fn chain_up(parent: Map<u128, PathStep>, root: u128, from: u128, steps: nat) -> Seq<
    PathStep,
>
    decreases steps,
{
    if from == root || steps == 0 || !parent.contains_key(from) {
        Seq::empty()
    } else {
        seq![(from, parent[from].1)] + chain_up(parent, root, parent[from].0, (steps - 1) as nat)
    }
}

/// The walk from `from` along the parents to `root`, in at most `steps`
/// steps: each artist reached with the similarity of the edge that led to
/// it.
pub open spec fn chain_down(parent: Map<u128, PathStep>, root: u128, from: u128, steps: nat) -> Seq<
    PathStep,
>
    decreases steps,
{
    if from == root || steps == 0 || !parent.contains_key(from) {
        Seq::empty()
    } else {
        seq![parent[from]] + chain_down(parent, root, parent[from].0, (steps - 1) as nat)
    }
}

/// The path through a meeting: from the start down the forward parents to
/// the artist at which the sides met, and from there along the reverse
/// parents to the target.
pub open spec fn joined(
    forward_parent: Map<u128, PathStep>,
    reverse_parent: Map<u128, PathStep>,
    start: u128,
    target: u128,
    at: u128,
    forward_steps: nat,
    reverse_steps: nat,
) -> Seq<PathStep> {
    seq![(start, SIMILARITY_ZERO)] + chain_up(forward_parent, start, at, forward_steps).reverse()
        + chain_down(reverse_parent, target, at, reverse_steps)
}

/// The number of rounds within which a search over a graph ends: one for
/// the root, and for every artist of the universe one and one for every
/// byte of the data.
pub open spec fn round_limit(g: GraphView, root: u128) -> nat {
    1 + g.universe(root).len() * (g.data.len() + 1)
}

/// The path that the search from both ends finds.
pub open spec fn bfs_path(fwd: GraphView, rev: GraphView, start: u128, target: u128) -> Option<
    Seq<PathStep>,
> {
    match search(
        fwd,
        rev,
        BfsModel::start(start),
        BfsModel::start(target),
        round_limit(fwd, start) + round_limit(rev, target),
    ) {
        Some(m) => Some(
            joined(
                m.forward.parent,
                m.reverse.parent,
                start,
                target,
                m.at,
                m.forward.visited.len(),
                m.reverse.visited.len(),
            ),
        ),
        None => None,
    }
}

/// The artists that the search from both ends has visited, on either
/// side, when it finds a path.
pub open spec fn bfs_visited(fwd: GraphView, rev: GraphView, start: u128, target: u128) -> Option<
    Set<u128>,
> {
    match search(
        fwd,
        rev,
        BfsModel::start(start),
        BfsModel::start(target),
        round_limit(fwd, start) + round_limit(rev, target),
    ) {
        Some(m) => Some(m.forward.visited.union(m.reverse.visited)),
        None => None,
    }
}

} // verus!
