//! The outcome of one execution of the target.

use vstd::prelude::*;

verus! {

/// How a single run of the target ended, as seen by the fuzzer.
#[derive(Clone, Copy, Debug, PartialEq, Eq, Structural)]
pub enum StatusType {
    /// The target exited by itself without tripping a sanitiser.
    Normal,
    /// The target did not report back within the time limit.
    Timeout,
    /// The target was killed by a signal or reported a sanitiser error.
    Crash,
    /// The run is not to be accounted: the condition under solving is given up.
    Skip,
    /// The channel to the target failed.
    Error,
}

impl StatusType {
    /// Whether inputs ending in this status are filed in one of the depot's
    /// buckets (queue, hangs or crashes).
    pub open spec fn is_filed(self) -> bool {
        self == StatusType::Normal || self == StatusType::Timeout || self == StatusType::Crash
    }

    /// Executable form of [`StatusType::is_filed`].
    pub fn filed(&self) -> (r: bool)
        ensures
            r == self.is_filed(),
    {
        match self {
            StatusType::Normal | StatusType::Timeout | StatusType::Crash => true,
            _ => false,
        }
    }
}

} // verus!
