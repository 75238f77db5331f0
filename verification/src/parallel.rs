//! Parallel / multi-run helpers for the agent runtime.
use vstd::prelude::*;

use crate::provider::AgentEvent;

verus! {

/// Hard cap on concurrent runs.
pub const MAX_PARALLEL_RUNS: usize = 8;

/// Opaque id for one agent run (Ask/Edit/Agent loop).
#[derive(Debug, Clone, Copy, PartialEq, Eq, Hash, Structural)]
pub struct RunId(pub u64);

/// Agent event tagged with the run that produced it.
#[derive(Debug)]
pub struct TaggedAgentEvent {
    pub run_id: RunId,
    pub event: AgentEvent,
}

/// `n` clamped to `1..=8` (`0` is treated as 1).
pub open spec fn spec_clamp_max_parallel(n: int) -> int {
    if n < 1 {
        1
    } else if n > 8 {
        8
    } else {
        n
    }
}

/// How many concurrent runs are allowed (`0` → treat as 1, hard cap 8).
pub fn clamp_max_parallel(n: usize) -> (r: usize)
    ensures
        r == spec_clamp_max_parallel(n as int),
{
    if n < 1 {
        1
    } else if n > MAX_PARALLEL_RUNS {
        MAX_PARALLEL_RUNS
    } else {
        n
    }
}

/// Decide whether another run may start given current load and config.
pub fn can_start_another_run(active: usize, max_parallel: usize) -> (r: bool)
    ensures
        r == (active < spec_clamp_max_parallel(max_parallel as int)),
{
    active < clamp_max_parallel(max_parallel)
}

/// The allowed number of concurrent runs always lies in `1..=8`, and a value
/// already in that range is kept as it is.
pub proof fn law_clamp_max_parallel_bounds(n: int)
    ensures
        1 <= spec_clamp_max_parallel(n) <= 8,
        1 <= n <= 8 ==> spec_clamp_max_parallel(n) == n,
{
}

/// No run may start once the clamped cap is reached, and one may always start
/// while nothing runs.
pub proof fn law_can_start_respects_cap(active: int, max_parallel: int)
    ensures
        active >= spec_clamp_max_parallel(max_parallel) ==> !(active < spec_clamp_max_parallel(max_parallel)),
        active == 0 ==> active < spec_clamp_max_parallel(max_parallel),
{
}

} // verus!
