//! Counters of a worker and of the whole fuzzer.
//!
//! Each worker counts for itself and from time to time drains what it
//! counted into the global counters. Counters stop at their maximum.

use crate::status::StatusType;
use vstd::prelude::*;

verus! {

/// The sum of two counters, stopping at the maximum.
pub open spec fn capped_sum(a: u64, b: u64) -> u64 {
    if a + b > u64::MAX {
        u64::MAX
    } else {
        (a + b) as u64
    }
}

/// Executable form of [`capped_sum`].
pub fn capped_add(a: u64, b: u64) -> (r: u64)
    ensures
        r == capped_sum(a, b),
{
    if a > u64::MAX - b {
        u64::MAX
    } else {
        a + b
    }
}

/// What one worker counted since it last drained its counters.
#[derive(Clone, Copy, Debug, PartialEq, Eq, Structural)]
pub struct LocalStats {
    /// Runs of the target.
    pub num_exec: u64,
    /// New paths found by inputs that ran normally.
    pub num_inputs: u64,
    /// New paths found by inputs that timed out.
    pub num_hangs: u64,
    /// New paths found by inputs that crashed.
    pub num_crashes: u64,
    /// Microseconds spent in tracking runs.
    pub track_time: u64,
}

impl LocalStats {
    /// Counters that have counted nothing.
    pub open spec fn zero() -> LocalStats {
        LocalStats { num_exec: 0, num_inputs: 0, num_hangs: 0, num_crashes: 0, track_time: 0 }
    }

    /// The counters after one more run.
    pub open spec fn ran(self) -> LocalStats {
        LocalStats { num_exec: capped_sum(self.num_exec, 1), ..self }
    }

    /// The counters after a new path was found by an input of this status.
    pub open spec fn found(self, status: StatusType) -> LocalStats {
        match status {
            StatusType::Normal => LocalStats { num_inputs: capped_sum(self.num_inputs, 1), ..self },
            StatusType::Timeout => LocalStats { num_hangs: capped_sum(self.num_hangs, 1), ..self },
            StatusType::Crash => LocalStats { num_crashes: capped_sum(self.num_crashes, 1), ..self },
            _ => self,
        }
    }

    /// The sum of two sets of counters.
    pub open spec fn plus(self, other: LocalStats) -> LocalStats {
        LocalStats {
            num_exec: capped_sum(self.num_exec, other.num_exec),
            num_inputs: capped_sum(self.num_inputs, other.num_inputs),
            num_hangs: capped_sum(self.num_hangs, other.num_hangs),
            num_crashes: capped_sum(self.num_crashes, other.num_crashes),
            track_time: capped_sum(self.track_time, other.track_time),
        }
    }

    pub fn new() -> (r: Self)
        ensures
            r == LocalStats::zero(),
    {
        LocalStats { num_exec: 0, num_inputs: 0, num_hangs: 0, num_crashes: 0, track_time: 0 }
    }

    /// Counts one run.
    pub fn count_exec(&mut self)
        ensures
            *final(self) == old(self).ran(),
    {
        self.num_exec = capped_add(self.num_exec, 1);
    }

    /// Counts a new path found by an input of this status.
    pub fn find_new(&mut self, status: &StatusType)
        ensures
            *final(self) == old(self).found(*status),
    {
        match status {
            StatusType::Normal => {
                self.num_inputs = capped_add(self.num_inputs, 1);
            },
            StatusType::Timeout => {
                self.num_hangs = capped_add(self.num_hangs, 1);
            },
            StatusType::Crash => {
                self.num_crashes = capped_add(self.num_crashes, 1);
            },
            _ => {},
        }
    }

    /// Counts time spent tracking.
    pub fn add_track_time(&mut self, micros: u64)
        ensures
            *final(self) == (LocalStats {
                track_time: capped_sum(old(self).track_time, micros),
                ..*old(self)
            }),
    {
        self.track_time = capped_add(self.track_time, micros);
    }
}

/// What all workers counted, as far as they drained their counters.
#[derive(Clone, Copy, Debug, PartialEq, Eq, Structural)]
pub struct ChartStats {
    pub totals: LocalStats,
}

impl ChartStats {
    pub fn new() -> (r: Self)
        ensures
            r.totals == LocalStats::zero(),
    {
        ChartStats { totals: LocalStats::new() }
    }

    /// Drains a worker's counters into the global ones: what the worker
    /// counted is added here and the worker starts again from zero.
    pub fn sync_from_local(&mut self, local: &mut LocalStats)
        ensures
            final(self).totals == old(self).totals.plus(*old(local)),
            *final(local) == LocalStats::zero(),
    {
        self.totals = LocalStats {
            num_exec: capped_add(self.totals.num_exec, local.num_exec),
            num_inputs: capped_add(self.totals.num_inputs, local.num_inputs),
            num_hangs: capped_add(self.totals.num_hangs, local.num_hangs),
            num_crashes: capped_add(self.totals.num_crashes, local.num_crashes),
            track_time: capped_add(self.totals.track_time, local.track_time),
        };
        *local = LocalStats::new();
    }
}

} // verus!
