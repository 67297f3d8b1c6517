//! Per-worker routing scratch state: each worker keeps its own round-robin
//! and weighted cursors, so no cross-worker lock guards them.

use vstd::prelude::*;

verus! {

/// The round-robin cursor of one worker.
#[derive(Debug, Clone, Copy, PartialEq, Eq, Structural)]
pub struct RoundRobinRouterInfo {
    pub route_index: i32,
}

/// The weighted-walk cursors of one worker.
#[derive(Debug, Clone, Copy, PartialEq, Eq, Structural)]
pub struct WeightedRouterInfo {
    pub index: i32,
    pub off_set: i32,
}

/// The routing cursors of one worker.
#[derive(Debug, Clone, Copy, PartialEq, Eq, Structural)]
pub struct ThreadLocalRouteInfo {
    pub round_robin_info: RoundRobinRouterInfo,
    pub weighted_info: WeightedRouterInfo,
}

/// All per-worker state.
#[derive(Debug, Clone, Copy, PartialEq, Eq, Structural)]
pub struct ThreadLocalInfo {
    pub thread_local_route_info: ThreadLocalRouteInfo,
}

impl ThreadLocalInfo {
    /// Fresh per-worker state: every cursor at zero.
    pub fn new() -> (r: ThreadLocalInfo)
        ensures
            r.thread_local_route_info.round_robin_info.route_index == 0,
            r.thread_local_route_info.weighted_info.index == 0,
            r.thread_local_route_info.weighted_info.off_set == 0,
    {
        ThreadLocalInfo {
            thread_local_route_info: ThreadLocalRouteInfo {
                round_robin_info: RoundRobinRouterInfo { route_index: 0 },
                weighted_info: WeightedRouterInfo { index: 0, off_set: 0 },
            },
        }
    }
}

} // verus!
