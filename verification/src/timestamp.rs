//! Instants on the UTC time line.

use vstd::prelude::*;

verus! {

/// An instant, held as whole nanoseconds since the Unix epoch
/// (midnight, 1 January 1970, UTC). Instants before the epoch are negative.
#[derive(Clone, Copy, Debug, PartialEq, Eq, Structural)]
pub struct Timestamp {
    pub nanos: i128,
}

impl Timestamp {
    /// The instant that lies `nanos` nanoseconds after the Unix epoch.
    pub fn from_unix_nanos(nanos: i128) -> (t: Timestamp)
        ensures
            t.nanos == nanos,
    {
        Timestamp { nanos }
    }

    /// The Unix epoch itself.
    pub fn unix_epoch() -> (t: Timestamp)
        ensures
            t.nanos == 0,
    {
        Timestamp { nanos: 0 }
    }

    /// Nanoseconds from the Unix epoch to this instant.
    pub fn unix_nanos(&self) -> (n: i128)
        ensures
            n == self.nanos,
    {
        self.nanos
    }

    /// The instant `nanos` nanoseconds after this one, or `None` where that
    /// instant cannot be represented.
    pub fn checked_add_nanos(&self, nanos: i128) -> (r: Option<Timestamp>)
        ensures
            r == if i128::MIN <= self.nanos + nanos <= i128::MAX {
                Some(Timestamp { nanos: (self.nanos + nanos) as i128 })
            } else {
                None
            },
    {
        match self.nanos.checked_add(nanos) {
            Some(n) => Some(Timestamp { nanos: n }),
            None => None,
        }
    }

    /// Whether `earlier` lies at least `interval` nanoseconds before this
    /// instant. The difference is taken over the integers, so the answer is
    /// right for every pair of instants.
    pub fn has_elapsed_since(&self, earlier: Timestamp, interval: i128) -> (r: bool)
        ensures
            r == (self.nanos - earlier.nanos >= interval),
    {
        match self.nanos.checked_sub(earlier.nanos) {
            Some(d) => d >= interval,
            None => self.nanos >= 0,
        }
    }
}

} // verus!
