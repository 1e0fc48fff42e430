//! Breadth-first searches that count their own work.
//!
//! The searches are the ones that run without counting; beside the path they
//! return how often they touched the queue, the hash sets and the graph
//! file, and how long that took. Counts and times stop at the largest value
//! that their type holds.

use crate::clock::duration_as_micros;
use crate::clock::duration_as_millis;
use crate::clock::instant_elapsed;
use crate::clock::instant_now;
use crate::fx::id_set_contains;
use crate::pathfinding::bfs::layers::is_fewest_meeting;
use crate::pathfinding::bfs::layers::is_fewest_path;
use crate::pathfinding::bfs::state::lemma_side_fewest;
use crate::pathfinding::bfs::state::lemma_sides_meet;
use crate::pathfinding::bfs::state::reconstruct_bidirectional_path;
use crate::pathfinding::bfs::state::path_along_tree;
use crate::pathfinding::bfs::state::BfsSide;
use crate::pathfinding::graph::closed;
use crate::pathfinding::graph::is_joined_path;
use crate::pathfinding::graph::is_walk;
use crate::pathfinding::graph::lemma_exhausted;
use crate::pathfinding::graph::lemma_joined_path_meets;
use crate::pathfinding::graph::lemma_no_meeting;
use crate::pathfinding::graph::meets;
use crate::pathfinding::graph::reaches;
use crate::pathfinding::graph::GraphView;
use crate::pathfinding::utils::get_artist_connections;
use crate::pathfinding::utils::PathStep;
use crate::pathfinding_config::PathfindingConfig;
use rustc_hash::FxHashMap;
use std::time::Instant;
use vstd::prelude::*;

verus! {

/// The work that a search did.
#[derive(Debug, Clone, Copy)]
pub struct ProfilingMetrics {
    pub total_time_ms: u128,
    pub memory_access_time_ms: u128,
    pub queue_operations_time_ms: u128,
    pub hash_operations_time_ms: u128,
    pub path_reconstruction_time_ms: u128,
    pub memory_accesses: usize,
    pub queue_operations: usize,
    pub hash_lookups: usize,
    pub nodes_explored_forward: usize,
    pub nodes_explored_reverse: usize,
    pub nodes_in_queue_forward: usize,
    pub nodes_in_queue_reverse: usize,
    pub meeting_point_found_at: Option<usize>,
}

impl ProfilingMetrics {
    /// No work yet.
    pub fn new() -> (r: Self)
        ensures
            r.total_time_ms == 0,
            r.memory_access_time_ms == 0,
            r.queue_operations_time_ms == 0,
            r.hash_operations_time_ms == 0,
            r.path_reconstruction_time_ms == 0,
            r.memory_accesses == 0,
            r.queue_operations == 0,
            r.hash_lookups == 0,
            r.nodes_explored_forward == 0,
            r.nodes_explored_reverse == 0,
            r.nodes_in_queue_forward == 0,
            r.nodes_in_queue_reverse == 0,
            r.meeting_point_found_at.is_none(),
    {
        Self {
            total_time_ms: 0,
            memory_access_time_ms: 0,
            queue_operations_time_ms: 0,
            hash_operations_time_ms: 0,
            path_reconstruction_time_ms: 0,
            memory_accesses: 0,
            queue_operations: 0,
            hash_lookups: 0,
            nodes_explored_forward: 0,
            nodes_explored_reverse: 0,
            nodes_in_queue_forward: 0,
            nodes_in_queue_reverse: 0,
            meeting_point_found_at: None,
        }
    }
}

/// The microseconds since `since`.
fn micros(since: &Instant) -> u128 {
    let d = instant_elapsed(since);
    duration_as_micros(&d)
}

/// The milliseconds since `since`.
fn millis(since: &Instant) -> u128 {
    let d = instant_elapsed(since);
    duration_as_millis(&d)
}

/// Which side of a search took a step.
#[derive(Debug, Clone, Copy, PartialEq, Eq, Structural)]
enum Direction {
    Forward,
    Reverse,
}

/// A count with `n` more; the largest count where the sum does not fit.
pub open spec fn counted(count: usize, n: usize) -> usize {
    if count + n > usize::MAX {
        usize::MAX
    } else {
        (count + n) as usize
    }
}

/// A time with `t` more; the largest time where the sum does not fit.
pub open spec fn timed(time: u128, t: u128) -> u128 {
    if time + t > u128::MAX {
        u128::MAX
    } else {
        (time + t) as u128
    }
}

/// Counts the visit of one artist: the entry taken from the queue, the two
/// sets changed, and the look into the other side's set. One operation on
/// the queue and three looks into the sets are counted, and one artist
/// explored on the side that took the step. The time since each of the two
/// moments is added to the time spent on the queue and on the sets; what
/// the clock says is not known, so these two times are only known not to
/// fall. Nothing else changes.
fn count_visit(metrics: &mut ProfilingMetrics, direction: Direction, queue_timer: &Instant, hash_timer: &Instant)
    ensures
        final(metrics).queue_operations == counted(old(metrics).queue_operations, 1),
        final(metrics).hash_lookups == counted(old(metrics).hash_lookups, 3),
        final(metrics).nodes_explored_forward == (if direction is Forward {
            counted(old(metrics).nodes_explored_forward, 1)
        } else {
            old(metrics).nodes_explored_forward
        }),
        final(metrics).nodes_explored_reverse == (if direction is Reverse {
            counted(old(metrics).nodes_explored_reverse, 1)
        } else {
            old(metrics).nodes_explored_reverse
        }),
        final(metrics).queue_operations_time_ms >= old(metrics).queue_operations_time_ms,
        final(metrics).hash_operations_time_ms >= old(metrics).hash_operations_time_ms,
        final(metrics).total_time_ms == old(metrics).total_time_ms,
        final(metrics).memory_access_time_ms == old(metrics).memory_access_time_ms,
        final(metrics).path_reconstruction_time_ms == old(metrics).path_reconstruction_time_ms,
        final(metrics).memory_accesses == old(metrics).memory_accesses,
        final(metrics).nodes_in_queue_forward == old(metrics).nodes_in_queue_forward,
        final(metrics).nodes_in_queue_reverse == old(metrics).nodes_in_queue_reverse,
        final(metrics).meeting_point_found_at == old(metrics).meeting_point_found_at,
{
    metrics.queue_operations = metrics.queue_operations.saturating_add(1);
    metrics.queue_operations_time_ms = metrics.queue_operations_time_ms.saturating_add(
        micros(queue_timer),
    );
    metrics.hash_lookups = metrics.hash_lookups.saturating_add(3);
    metrics.hash_operations_time_ms = metrics.hash_operations_time_ms.saturating_add(
        micros(hash_timer),
    );
    match direction {
        Direction::Forward => {
            metrics.nodes_explored_forward = metrics.nodes_explored_forward.saturating_add(1);
        },
        Direction::Reverse => {
            metrics.nodes_explored_reverse = metrics.nodes_explored_reverse.saturating_add(1);
        },
    }
}

/// Counts the reading of one artist's edges and the handling of each of
/// them: one reading that took `read_time`, two looks into the sets for
/// every edge, and an entry put in the queue for every neighbour that was
/// new. The time since the moment given is added to the time spent on the
/// sets; what the clock says is not known, so that time is only known not
/// to fall. Nothing else changes.
fn count_expansion(
    metrics: &mut ProfilingMetrics,
    edges: usize,
    queued: usize,
    read_time: u128,
    hash_timer: &Instant,
)
    ensures
        final(metrics).memory_accesses == counted(old(metrics).memory_accesses, 1),
        final(metrics).memory_access_time_ms == timed(
            old(metrics).memory_access_time_ms,
            read_time,
        ),
        final(metrics).queue_operations == counted(old(metrics).queue_operations, queued),
        final(metrics).hash_lookups == counted(counted(old(metrics).hash_lookups, edges), edges),
        final(metrics).hash_operations_time_ms >= old(metrics).hash_operations_time_ms,
        final(metrics).total_time_ms == old(metrics).total_time_ms,
        final(metrics).queue_operations_time_ms == old(metrics).queue_operations_time_ms,
        final(metrics).path_reconstruction_time_ms == old(metrics).path_reconstruction_time_ms,
        final(metrics).nodes_explored_forward == old(metrics).nodes_explored_forward,
        final(metrics).nodes_explored_reverse == old(metrics).nodes_explored_reverse,
        final(metrics).nodes_in_queue_forward == old(metrics).nodes_in_queue_forward,
        final(metrics).nodes_in_queue_reverse == old(metrics).nodes_in_queue_reverse,
        final(metrics).meeting_point_found_at == old(metrics).meeting_point_found_at,
{
    metrics.memory_accesses = metrics.memory_accesses.saturating_add(1);
    metrics.memory_access_time_ms = metrics.memory_access_time_ms.saturating_add(read_time);
    metrics.queue_operations = metrics.queue_operations.saturating_add(queued);
    metrics.hash_lookups = metrics.hash_lookups.saturating_add(edges).saturating_add(edges);
    metrics.hash_operations_time_ms = metrics.hash_operations_time_ms.saturating_add(
        micros(hash_timer),
    );
}

/// Searches a path from `start` to `target` breadth first, from both ends,
/// and counts the work.
///
/// There is a path exactly when a walk from the start along the forward
/// graph and a walk from the target along the reverse graph come to a common
/// artist; the round in which they did is counted with the work. Neither
/// part of the path, to that artist from the start and from the target,
/// could have fewer steps.
pub fn profiled_bidirectional_bfs(
    start: u128,
    target: u128,
    forward_graph_data: &[u8],
    forward_graph_index: &FxHashMap<u128, u64>,
    reverse_graph_data: &[u8],
    reverse_graph_index: &FxHashMap<u128, u64>,
    config: &PathfindingConfig,
) -> (r: (Option<Vec<PathStep>>, ProfilingMetrics))
    ensures
        r.0.is_some() == meets(
            (GraphView { data: forward_graph_data@, index: forward_graph_index@, config: *config }),
            (GraphView { data: reverse_graph_data@, index: reverse_graph_index@, config: *config }),
            start,
            target,
        ),
        r.0.is_some() ==> is_joined_path(
            (GraphView { data: forward_graph_data@, index: forward_graph_index@, config: *config }),
            (GraphView { data: reverse_graph_data@, index: reverse_graph_index@, config: *config }),
            start,
            target,
            r.0.unwrap()@,
        ),
        r.0.is_some() ==> exists|k: int|
            is_fewest_meeting(
                (GraphView {
                    data: forward_graph_data@,
                    index: forward_graph_index@,
                    config: *config,
                }),
                (GraphView {
                    data: reverse_graph_data@,
                    index: reverse_graph_index@,
                    config: *config,
                }),
                r.0.unwrap()@,
                k,
            ),
        r.1.meeting_point_found_at.is_some() == r.0.is_some(),
{
    let ghost fwd = GraphView {
        data: forward_graph_data@,
        index: forward_graph_index@,
        config: *config,
    };
    let ghost rev = GraphView {
        data: reverse_graph_data@,
        index: reverse_graph_index@,
        config: *config,
    };
    let total_timer = instant_now();
    let mut metrics = ProfilingMetrics::new();
    let mut forward = BfsSide::new(start, Ghost(fwd));
    let mut reverse = BfsSide::new(target, Ghost(rev));
    let mut iterations: usize = 0;

    while forward.queue.len() > 0 || reverse.queue.len() > 0
        invariant
            forward.inv(fwd, start),
            closed(fwd, forward@),
            reverse.inv(rev, target),
            closed(rev, reverse@),
            forall|v: u128| forward.visited@.contains(v) ==> !reverse.visited@.contains(v),
            metrics.meeting_point_found_at.is_none(),
            fwd == (GraphView {
                data: forward_graph_data@,
                index: forward_graph_index@,
                config: *config,
            }),
            rev == (GraphView {
                data: reverse_graph_data@,
                index: reverse_graph_index@,
                config: *config,
            }),
        decreases
                fwd.universe(start).difference(forward.visited@).len() + rev.universe(
                    target,
                ).difference(reverse.visited@).len(),
                forward.queue@.len() + reverse.queue@.len(),
    {
        iterations = iterations.saturating_add(1);
        metrics.nodes_in_queue_forward = forward.queue.len();
        metrics.nodes_in_queue_reverse = reverse.queue.len();

        if forward.queue.len() > 0 {
            let queue_timer = instant_now();
            let hash_timer = instant_now();
            match forward.take_next(Ghost(fwd), Ghost(start)) {
                Some(current) => {
                    let met = id_set_contains(&reverse.visited, current);
                    count_visit(&mut metrics, Direction::Forward, &queue_timer, &hash_timer);
                    if met {
                        metrics.meeting_point_found_at = Some(iterations);
                        let path_timer = instant_now();
                        let (path, Ghost(k)) = reconstruct_bidirectional_path(
                            &forward.parent,
                            &reverse.parent,
                            start,
                            target,
                            current,
                            Ghost(fwd),
                            Ghost(rev),
                            Ghost(forward@),
                            Ghost(reverse@),
                        );
                        metrics.path_reconstruction_time_ms = millis(&path_timer);
                        metrics.total_time_ms = millis(&total_timer);
                        proof {
                            lemma_sides_meet(forward, reverse, fwd, rev, start, target, path@, k);
                            assert(is_fewest_meeting(fwd, rev, path@, k));
                            lemma_joined_path_meets(fwd, rev, start, target, path@);
                        }
                        return (Some(path), metrics);
                    }
                    let mem_timer = instant_now();
                    let connections = get_artist_connections(
                        current,
                        forward_graph_data,
                        forward_graph_index,
                        config,
                    );
                    let read_time = micros(&mem_timer);
                    let edges = connections.len();
                    let waiting = forward.queue.len();
                    let hash_timer = instant_now();
                    forward.expand(current, connections, Ghost(fwd), Ghost(start));
                    count_expansion(
                        &mut metrics,
                        edges,
                        forward.queue.len() - waiting,
                        read_time,
                        &hash_timer,
                    );
                },
                None => {
                    metrics.queue_operations = metrics.queue_operations.saturating_add(1);
                    continue ;
                },
            }
        }
        if reverse.queue.len() > 0 {
            let queue_timer = instant_now();
            let hash_timer = instant_now();
            match reverse.take_next(Ghost(rev), Ghost(target)) {
                Some(current) => {
                    let met = id_set_contains(&forward.visited, current);
                    count_visit(&mut metrics, Direction::Reverse, &queue_timer, &hash_timer);
                    if met {
                        metrics.meeting_point_found_at = Some(iterations);
                        let path_timer = instant_now();
                        let (path, Ghost(k)) = reconstruct_bidirectional_path(
                            &forward.parent,
                            &reverse.parent,
                            start,
                            target,
                            current,
                            Ghost(fwd),
                            Ghost(rev),
                            Ghost(forward@),
                            Ghost(reverse@),
                        );
                        metrics.path_reconstruction_time_ms = millis(&path_timer);
                        metrics.total_time_ms = millis(&total_timer);
                        proof {
                            lemma_sides_meet(forward, reverse, fwd, rev, start, target, path@, k);
                            assert(is_fewest_meeting(fwd, rev, path@, k));
                            lemma_joined_path_meets(fwd, rev, start, target, path@);
                        }
                        return (Some(path), metrics);
                    }
                    let mem_timer = instant_now();
                    let connections = get_artist_connections(
                        current,
                        reverse_graph_data,
                        reverse_graph_index,
                        config,
                    );
                    let read_time = micros(&mem_timer);
                    let edges = connections.len();
                    let waiting = reverse.queue.len();
                    let hash_timer = instant_now();
                    reverse.expand(current, connections, Ghost(rev), Ghost(target));
                    count_expansion(
                        &mut metrics,
                        edges,
                        reverse.queue.len() - waiting,
                        read_time,
                        &hash_timer,
                    );
                },
                None => {
                    metrics.queue_operations = metrics.queue_operations.saturating_add(1);
                },
            }
        }
    }
    proof {
        assert forall|v: u128| !forward@.pending.contains(v) by {
            if forward.queued@.contains(v) {
                assert(forward.queue@.contains(v));
            }
        }
        assert forall|v: u128| !reverse@.pending.contains(v) by {
            if reverse.queued@.contains(v) {
                assert(reverse.queue@.contains(v));
            }
        }
        lemma_no_meeting(fwd, rev, start, target, forward@, reverse@);
    }
    metrics.total_time_ms = millis(&total_timer);
    (None, metrics)
}

/// Searches a path from `start` to `target` breadth first, from the start
/// alone, and counts the work.
///
/// There is a path exactly when the start reaches the target. The path
/// returned goes along edges of the graph, and no path along the graph from
/// the start to the target has fewer steps.
pub fn profiled_unidirectional_bfs(
    start: u128,
    target: u128,
    graph_data: &[u8],
    graph_index: &FxHashMap<u128, u64>,
    config: &PathfindingConfig,
) -> (r: (Option<Vec<PathStep>>, ProfilingMetrics))
    ensures
        r.0.is_some() == reaches(
            (GraphView { data: graph_data@, index: graph_index@, config: *config }),
            start,
            target,
        ),
        r.0.is_some() ==> is_fewest_path(
            (GraphView { data: graph_data@, index: graph_index@, config: *config }),
            start,
            target,
            r.0.unwrap()@,
        ),
{
    let ghost g = GraphView { data: graph_data@, index: graph_index@, config: *config };
    let total_timer = instant_now();
    let mut metrics = ProfilingMetrics::new();
    let mut side = BfsSide::new(start, Ghost(g));

    while side.queue.len() > 0
        invariant
            side.inv(g, start),
            closed(g, side@),
            !side.visited@.contains(target),
            g == (GraphView { data: graph_data@, index: graph_index@, config: *config }),
        decreases g.universe(start).difference(side.visited@).len(), side.queue@.len(),
    {
        let queue_timer = instant_now();
        match side.take_next(Ghost(g), Ghost(start)) {
            Some(current) => {
                metrics.queue_operations = metrics.queue_operations.saturating_add(1);
                metrics.queue_operations_time_ms = metrics.queue_operations_time_ms.saturating_add(
                    micros(&queue_timer),
                );
                metrics.nodes_explored_forward = metrics.nodes_explored_forward.saturating_add(1);
                if current == target {
                    let path_timer = instant_now();
                    let path = path_along_tree(
                        &side.parent,
                        start,
                        target,
                        Ghost(g),
                        Ghost(side@),
                    );
                    metrics.path_reconstruction_time_ms = millis(&path_timer);
                    metrics.total_time_ms = millis(&total_timer);
                    proof {
                        assert(side@.visited.contains(target));
                        lemma_side_fewest(side, g, start, target, path@);
                    }
                    return (Some(path), metrics);
                }
                let mem_timer = instant_now();
                let connections = get_artist_connections(current, graph_data, graph_index, config);
                let read_time = micros(&mem_timer);
                let edges = connections.len();
                let waiting = side.queue.len();
                let hash_timer = instant_now();
                side.expand(current, connections, Ghost(g), Ghost(start));
                metrics.memory_accesses = metrics.memory_accesses.saturating_add(1);
                metrics.memory_access_time_ms = metrics.memory_access_time_ms.saturating_add(
                    read_time,
                );
                metrics.queue_operations = metrics.queue_operations.saturating_add(
                    side.queue.len() - waiting,
                );
                metrics.hash_lookups = metrics.hash_lookups.saturating_add(edges);
                metrics.hash_operations_time_ms = metrics.hash_operations_time_ms.saturating_add(
                    micros(&hash_timer),
                );
            },
            None => {
                metrics.queue_operations = metrics.queue_operations.saturating_add(1);
            },
        }
    }
    proof {
        assert forall|v: u128| !side@.pending.contains(v) by {
            if side.queued@.contains(v) {
                assert(side.queue@.contains(v));
            }
        }
        if reaches(g, start, target) {
            let w = choose|w: Seq<u128>| is_walk(g, w) && w[0] == start && w.last() == target;
            lemma_exhausted(g, start, side@, w);
        }
    }
    metrics.total_time_ms = millis(&total_timer);
    (None, metrics)
}

} // verus!
