//! Performance counters for the physics part of the engine.
//!
//! Plain single-writer accumulators: the host adds the wall time its solver
//! and ray-cast calls took and resets them once per reporting interval.

use vstd::prelude::*;

verus! {

/// Cumulative wall time spent in simulation steps and in ray casts, in
/// nanoseconds.
#[derive(Clone, Copy, PartialEq, Eq, Structural, Debug)]
pub struct PhysicsPerformanceStatistics {
    /// Time spent performing simulation steps.
    pub step_time_nanos: u64,
    /// Time spent performing ray casts.
    pub total_ray_cast_time_nanos: u64,
}

impl PhysicsPerformanceStatistics {
    /// Fresh counters at zero.
    pub fn new() -> (r: PhysicsPerformanceStatistics)
        ensures
            r.step_time_nanos == 0,
            r.total_ray_cast_time_nanos == 0,
    {
        PhysicsPerformanceStatistics { step_time_nanos: 0, total_ray_cast_time_nanos: 0 }
    }

    /// Clears both counters, as the host does once per reporting interval.
    pub fn reset(&mut self)
        ensures
            final(self).step_time_nanos == 0,
            final(self).total_ray_cast_time_nanos == 0,
    {
        self.step_time_nanos = 0;
        self.total_ray_cast_time_nanos = 0;
    }

    /// Accumulates the wall time of one simulation step, saturating rather
    /// than wrapping if the counter would overflow.
    pub fn add_step_time(&mut self, nanos: u64)
        ensures
            final(self).step_time_nanos == if old(self).step_time_nanos + nanos <= u64::MAX {
                old(self).step_time_nanos + nanos
            } else {
                u64::MAX as int
            },
            final(self).total_ray_cast_time_nanos == old(self).total_ray_cast_time_nanos,
    {
        self.step_time_nanos = saturating_add_u64(self.step_time_nanos, nanos);
    }

    /// Accumulates the wall time of one ray cast, saturating rather than
    /// wrapping if the counter would overflow.
    pub fn add_ray_cast_time(&mut self, nanos: u64)
        ensures
            final(self).total_ray_cast_time_nanos == if old(self).total_ray_cast_time_nanos + nanos
                <= u64::MAX {
                old(self).total_ray_cast_time_nanos + nanos
            } else {
                u64::MAX as int
            },
            final(self).step_time_nanos == old(self).step_time_nanos,
    {
        self.total_ray_cast_time_nanos = saturating_add_u64(self.total_ray_cast_time_nanos, nanos);
    }
}

impl Default for PhysicsPerformanceStatistics {
    /// Fresh counters at zero.
    fn default() -> (r: PhysicsPerformanceStatistics)
        ensures
            r.step_time_nanos == 0,
            r.total_ray_cast_time_nanos == 0,
    {
        PhysicsPerformanceStatistics::new()
    }
}

/// Adds two counters, saturating at the largest representable value.
fn saturating_add_u64(a: u64, b: u64) -> (r: u64)
    ensures
        r == if a + b <= u64::MAX {
            a + b
        } else {
            u64::MAX as int
        },
{
    if a <= u64::MAX - b {
        a + b
    } else {
        u64::MAX
    }
}

} // verus!
