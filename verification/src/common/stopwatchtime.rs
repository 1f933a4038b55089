//! Time as a stopwatch counts it.

use vstd::prelude::*;

verus! {

/// A reading of a stopwatch, in ticks.
pub struct StopwatchTime {
    pub ticks: i64,
}

impl StopwatchTime {
    /// The reading zero.
    pub fn default() -> (t: StopwatchTime)
        ensures
            t.ticks == 0,
    {
        StopwatchTime { ticks: 0 }
    }

    pub fn new(ticks: i64) -> (t: StopwatchTime)
        ensures
            t.ticks == ticks,
    {
        StopwatchTime { ticks }
    }
}

} // verus!
