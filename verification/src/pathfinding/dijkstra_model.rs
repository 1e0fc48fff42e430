//! What the search by best similarity computes, step by step.
//!
//! The search is a function of the two graphs and the two artists: the same
//! query gives the same path. The function is written out here over plain
//! sequences, sets and maps, and the search is proved to compute it.

use crate::pathfinding::bfs::model::joined;
use crate::pathfinding::bfs::model::round_limit;
use crate::pathfinding::graph::GraphView;
use crate::pathfinding::min_queue::first_min;
use crate::pathfinding::min_queue::DijkstraNode;
use crate::pathfinding::utils::PathStep;
use crate::similarity::cost_sum;
use crate::similarity::edge_weight;
use vstd::prelude::*;

verus! {

/// One side of the search: the entries that wait, in the order in which
/// they were put in; the best distance known of every artist seen; for each
/// artist reached the artist it was reached from, with the similarity of
/// the edge; and the artists visited.
pub struct DijkstraModel {
    pub heap: Seq<DijkstraNode>,
    pub distances: Map<u128, u128>,
    pub parent: Map<u128, PathStep>,
    pub visited: Set<u128>,
}

impl DijkstraModel {
    /// A side before its first step: only the root, at distance zero.
    pub open spec fn start(root: u128) -> DijkstraModel {
        DijkstraModel {
            heap: seq![DijkstraNode { cost: 0, artist: root }],
            distances: Map::empty().insert(root, 0u128),
            parent: Map::empty(),
            visited: Set::empty(),
        }
    }

    /// The nearest entry that waits; of entries equally near, the first.
    pub open spec fn nearest(self) -> DijkstraNode {
        self.heap[first_min(self.heap)]
    }

    /// The side after the nearest entry has been dropped.
    pub open spec fn pop(self) -> DijkstraModel {
        DijkstraModel { heap: self.heap.remove(first_min(self.heap)), ..self }
    }

    /// The side after the artist of the nearest entry has been visited.
    pub open spec fn visit(self) -> DijkstraModel {
        DijkstraModel {
            heap: self.heap.remove(first_min(self.heap)),
            distances: self.distances,
            parent: self.parent,
            visited: self.visited.insert(self.nearest().artist),
        }
    }

    /// The side after one edge of `cur`, which lies at distance `cost`, has
    /// been followed: its target is hung on the edge and waits at its new
    /// distance, unless it has been visited or was as near before.
    pub open spec fn relax(self, cur: u128, cost: u128, e: PathStep) -> DijkstraModel {
        let new_cost = cost_sum(cost, edge_weight(e.1) as u128);
        if self.visited.contains(e.0) {
            self
        } else if self.distances.contains_key(e.0) && new_cost >= self.distances[e.0] {
            self
        } else {
            DijkstraModel {
                heap: self.heap.push(DijkstraNode { cost: new_cost, artist: e.0 }),
                distances: self.distances.insert(e.0, new_cost),
                parent: self.parent.insert(e.0, (cur, e.1)),
                visited: self.visited,
            }
        }
    }

    /// The side after the edges of `cur` have been followed in their order.
    pub open spec fn expand(self, cur: u128, cost: u128, edges: Seq<PathStep>) -> DijkstraModel
        decreases edges.len(),
    {
        if edges.len() == 0 {
            self
        } else {
            self.expand(cur, cost, edges.drop_last()).relax(cur, cost, edges.last())
        }
    }
}

/// The artist at which two sides met, and the sides as they were then.
pub struct Meeting {
    pub at: u128,
    pub forward: DijkstraModel,
    pub reverse: DijkstraModel,
}

/// What one round of the search gives: a meeting, or the two sides after
/// the round.
pub enum Round {
    Met(Meeting),
    On(DijkstraModel, DijkstraModel),
}

/// The reverse half of a round.
pub open spec fn reverse_half(rev: GraphView, f: DijkstraModel, r: DijkstraModel) -> Round {
    if r.heap.len() == 0 {
        Round::On(f, r)
    } else if r.visited.contains(r.nearest().artist) {
        Round::On(f, r.pop())
    } else if f.visited.contains(r.nearest().artist) {
        Round::Met(Meeting { at: r.nearest().artist, forward: f, reverse: r.visit() })
    } else {
        Round::On(
            f,
            r.visit().expand(
                r.nearest().artist,
                r.nearest().cost,
                rev.edges(r.nearest().artist),
            ),
        )
    }
}

/// One round of the search: the forward side takes its nearest entry, then
/// the reverse side takes its own.
pub open spec fn round(fwd: GraphView, rev: GraphView, f: DijkstraModel, r: DijkstraModel) -> Round {
    if f.heap.len() == 0 {
        reverse_half(rev, f, r)
    } else if f.visited.contains(f.nearest().artist) {
        reverse_half(rev, f.pop(), r)
    } else if r.visited.contains(f.nearest().artist) {
        Round::Met(Meeting { at: f.nearest().artist, forward: f.visit(), reverse: r })
    } else {
        reverse_half(
            rev,
            f.visit().expand(
                f.nearest().artist,
                f.nearest().cost,
                fwd.edges(f.nearest().artist),
            ),
            r,
        )
    }
}

/// The meeting that the search comes to within `rounds` rounds.
pub open spec fn search(
    fwd: GraphView,
    rev: GraphView,
    f: DijkstraModel,
    r: DijkstraModel,
    rounds: nat,
) -> Option<Meeting>
    decreases rounds,
{
    if f.heap.len() == 0 && r.heap.len() == 0 {
        None
    } else if rounds == 0 {
        None
    } else {
        match round(fwd, rev, f, r) {
            Round::Met(m) => Some(m),
            Round::On(f2, r2) => search(fwd, rev, f2, r2, (rounds - 1) as nat),
        }
    }
}

/// The path that the search by best similarity finds.
pub open spec fn dijkstra_path(fwd: GraphView, rev: GraphView, start: u128, target: u128) -> Option<
    Seq<PathStep>,
> {
    match search(
        fwd,
        rev,
        DijkstraModel::start(start),
        DijkstraModel::start(target),
        round_limit(fwd, start) + round_limit(rev, target),
    ) {
        Some(m) => Some(
            joined(
                m.forward.parent,
                m.reverse.parent,
                start,
                target,
                m.at,
                m.forward.visited.len(),
                m.reverse.visited.len(),
            ),
        ),
        None => None,
    }
}

/// The artists that the search by best similarity has visited, on either
/// side, when it finds a path.
pub open spec fn dijkstra_visited(
    fwd: GraphView,
    rev: GraphView,
    start: u128,
    target: u128,
) -> Option<Set<u128>> {
    match search(
        fwd,
        rev,
        DijkstraModel::start(start),
        DijkstraModel::start(target),
        round_limit(fwd, start) + round_limit(rev, target),
    ) {
        Some(m) => Some(m.forward.visited.union(m.reverse.visited)),
        None => None,
    }
}

} // verus!
