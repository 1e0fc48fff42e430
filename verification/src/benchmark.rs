//! The outcome of one measured search.

use crate::pathfinding::profiled_bfs::ProfilingMetrics;
use crate::pathfinding::utils::PathStep;
use vstd::prelude::*;
use vstd::string::StringExecFns;

verus! {

#[derive(Debug, Clone)]
pub struct BenchmarkResult {
    pub algorithm: String,
    pub path_found: bool,
    pub path_length: usize,
    pub nodes_explored: usize,
    pub total_time_ms: u128,
    pub memory_access_time_ms: u128,
    pub queue_operations_time_ms: u128,
    pub hash_operations_time_ms: u128,
    pub memory_accesses: usize,
    pub queue_operations: usize,
    pub hash_lookups: usize,
    pub cache_state: String,
}

/// The artists visited on both sides together; the largest count where the
/// sum does not fit.
pub open spec fn explored(metrics: ProfilingMetrics) -> usize {
    if metrics.nodes_explored_forward + metrics.nodes_explored_reverse > usize::MAX {
        usize::MAX
    } else {
        (metrics.nodes_explored_forward + metrics.nodes_explored_reverse) as usize
    }
}

impl BenchmarkResult {
    /// The outcome of a search of the named algorithm, with the work it did,
    /// the path it found and the state that the file cache was in.
    pub fn from_run(
        algorithm: &str,
        metrics: &ProfilingMetrics,
        path: Option<&Vec<PathStep>>,
        cache_state: &str,
    ) -> (r: Self)
        ensures
            r.algorithm@ == algorithm@,
            r.path_found == path.is_some(),
            r.path_length == (match path {
                Some(p) => p@.len(),
                None => 0,
            }),
            r.nodes_explored == explored(*metrics),
            r.total_time_ms == metrics.total_time_ms,
            r.memory_access_time_ms == metrics.memory_access_time_ms,
            r.queue_operations_time_ms == metrics.queue_operations_time_ms,
            r.hash_operations_time_ms == metrics.hash_operations_time_ms,
            r.memory_accesses == metrics.memory_accesses,
            r.queue_operations == metrics.queue_operations,
            r.hash_lookups == metrics.hash_lookups,
            r.cache_state@ == cache_state@,
    {
        let path_length = match path {
            Some(p) => p.len(),
            None => 0,
        };
        Self {
            algorithm: String::from_str(algorithm),
            path_found: path.is_some(),
            path_length,
            nodes_explored: metrics.nodes_explored_forward.saturating_add(
                metrics.nodes_explored_reverse,
            ),
            total_time_ms: metrics.total_time_ms,
            memory_access_time_ms: metrics.memory_access_time_ms,
            queue_operations_time_ms: metrics.queue_operations_time_ms,
            hash_operations_time_ms: metrics.hash_operations_time_ms,
            memory_accesses: metrics.memory_accesses,
            queue_operations: metrics.queue_operations,
            hash_lookups: metrics.hash_lookups,
            cache_state: String::from_str(cache_state),
        }
    }
}

} // verus!
