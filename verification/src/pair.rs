//! The unit of storage: a 128-bit hash value held as two 64-bit halves,
//! ordered lexicographically on `(high, low)`.

use vstd::prelude::*;

verus! {

/// A 128-bit hash value, split into a high and a low 64-bit half.
#[derive(PartialEq, Eq, Structural, Clone, Copy, Debug)]
pub struct HashPair {
    pub high: u64,
    pub low: u64,
}

/// The total order on hash pairs: lexicographic on `(high, low)`.
pub open spec fn pair_lt(a: HashPair, b: HashPair) -> bool {
    a.high < b.high || (a.high == b.high && a.low < b.low)
}

impl HashPair {
    pub fn new(high: u64, low: u64) -> (r: HashPair)
        ensures
            r.high == high,
            r.low == low,
    {
        HashPair { high, low }
    }

    /// Decides the total order, strictly-less-than.
    pub fn lt(&self, other: &HashPair) -> (r: bool)
        ensures
            r == pair_lt(*self, *other),
    {
        self.high < other.high || (self.high == other.high && self.low < other.low)
    }
}

} // verus!
