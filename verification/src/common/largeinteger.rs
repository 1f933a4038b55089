//! Integers of 128 bits, held as two halves.

use vstd::prelude::*;

verus! {

/// A 128-bit integer as its low and its high 64 bits. Two of them are equal
/// where both halves are.
#[derive(Copy, Clone, Debug, PartialEq, Eq, Structural, Hash)]
pub struct LargeInteger {
    pub low: u64,
    pub high: u64,
}

impl LargeInteger {
    /// Zero.
    pub fn default() -> (n: LargeInteger)
        ensures
            n.low == 0,
            n.high == 0,
    {
        LargeInteger { low: 0, high: 0 }
    }

    pub fn new(low: u64, high: u64) -> (n: LargeInteger)
        ensures
            n.low == low,
            n.high == high,
    {
        LargeInteger { low, high }
    }
}

} // verus!
