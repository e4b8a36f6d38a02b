//! The generation clock of a progress tree.

use vstd::prelude::*;

verus! {

/// A generation: the name of one change point in the history of a tree.
///
/// Generations are totally ordered by their raw counter value. A tree's clock
/// starts at the smallest generation and advances by one with every change.
#[derive(Copy, Clone, PartialEq, Eq, Structural, PartialOrd, Ord, Hash, Default, Debug)]
pub struct Generation(pub usize);

impl Generation {
    /// Returns the smallest possible generation, at which every clock starts.
    pub fn min_value() -> (first: Generation)
        ensures
            first.0 == 0,
    {
        Generation(0)
    }

    /// Returns the largest possible generation.
    pub fn max_value() -> (last: Generation)
        ensures
            last.0 == usize::MAX,
    {
        Generation(usize::MAX)
    }

    /// The generation that follows `self` on a clock: one later, wrapping
    /// around to the smallest generation after the largest.
    pub open spec fn successor(self) -> Generation {
        if self.0 == usize::MAX {
            Generation(0)
        } else {
            Generation((self.0 + 1) as usize)
        }
    }

    /// The later of two generations.
    pub open spec fn later(self, other: Generation) -> Generation {
        if self.0 >= other.0 {
            self
        } else {
            other
        }
    }

    /// Returns the raw counter value.
    pub fn as_raw(&self) -> (raw: usize)
        ensures
            raw == self.0,
    {
        self.0
    }

    /// Advances `self` by `increment`, wrapping around at the end of the
    /// counter's range. The flag tells whether the counter wrapped.
    pub fn add(self, increment: usize) -> (sum: (Generation, bool))
        ensures
            sum.1 == (self.0 + increment > usize::MAX),
            !sum.1 ==> sum.0.0 == self.0 + increment,
            sum.1 ==> sum.0.0 == self.0 + increment - usize::MAX - 1,
            increment == 1 ==> sum.0 == self.successor(),
    {
        match self.0.checked_add(increment) {
            Some(value) => (Generation(value), false),
            None => (Generation(self.0.wrapping_add(increment)), true),
        }
    }

    /// Returns the later of `self` and `other`.
    pub fn max(self, other: Generation) -> (later: Generation)
        ensures
            later == self.later(other),
    {
        if self.0 >= other.0 {
            self
        } else {
            other
        }
    }

    /// Tells whether `self` is strictly later than `other`.
    pub fn is_after(self, other: Generation) -> (after: bool)
        ensures
            after == (self.0 > other.0),
    {
        self.0 > other.0
    }
}

} // verus!
