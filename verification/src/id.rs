//! Identifiers of progress nodes.

use vstd::prelude::*;

verus! {

/// The unique identifier of a progress node.
///
/// Semantically opaque: equality is all that matters. An identifier is handed
/// out once by an [`IdAllocator`] and stays with its node for the node's
/// lifetime.
#[derive(Copy, Clone, PartialEq, Eq, Structural, PartialOrd, Ord, Hash, Debug)]
pub struct ProgressId(pub usize);

impl ProgressId {
    /// Returns the raw identifier value.
    pub fn as_raw(&self) -> (raw: usize)
        ensures
            raw == self.0,
    {
        self.0
    }
}

/// A source of fresh [`ProgressId`]s.
///
/// Identifiers are handed out in strictly increasing order, starting at zero.
/// The counter is not defended against exhaustion: after `usize::MAX` it
/// starts over.
///
/// The model of an allocator is the raw value of the identifier that it
/// hands out next.
#[derive(Debug)]
pub struct IdAllocator {
    next: usize,
}

impl View for IdAllocator {
    type V = usize;

    closed spec fn view(&self) -> usize {
        self.next
    }
}

impl IdAllocator {
    /// The raw value that follows `raw` on the counter: one more, or zero
    /// after `usize::MAX`.
    pub open spec fn following(raw: usize) -> usize {
        if raw == usize::MAX {
            0
        } else {
            (raw + 1) as usize
        }
    }

    /// The raw value of the identifier that an allocator whose next raw
    /// value is `raw` hands out in its `k`-th allocation from now on,
    /// counting from zero.
    pub open spec fn nth(raw: usize, k: nat) -> usize
        decreases k,
    {
        if k == 0 {
            raw
        } else {
            Self::nth(Self::following(raw), (k - 1) as nat)
        }
    }

    /// Creates an allocator whose first identifier is zero.
    pub fn new() -> (ids: IdAllocator)
        ensures
            ids@ == 0,
    {
        IdAllocator { next: 0 }
    }

    /// Hands out the next identifier.
    pub fn new_unique(&mut self) -> (id: ProgressId)
        ensures
            id.0 == old(self)@,
            final(self)@ == Self::following(old(self)@),
    {
        let id = ProgressId(self.next);
        self.next = if self.next == usize::MAX {
            0
        } else {
            self.next + 1
        };
        id
    }

    /// Unique identity: as long as the counter does not start over, the
    /// `k`-th allocation hands out the raw value `raw + k`. So the
    /// identifiers of any two allocations are in the order of the
    /// allocations: they are strictly increasing and pairwise distinct.
    pub proof fn lemma_ids_strictly_increasing(raw: usize, j: nat, k: nat)
        requires
            j < k,
            raw + k <= usize::MAX,
        ensures
            Self::nth(raw, j) == raw + j,
            Self::nth(raw, k) == raw + k,
            Self::nth(raw, j) < Self::nth(raw, k),
    {
        Self::lemma_nth(raw, j);
        Self::lemma_nth(raw, k);
    }

    /// As long as the counter does not start over, the `k`-th allocation
    /// hands out the raw value `raw + k`.
    pub proof fn lemma_nth(raw: usize, k: nat)
        requires
            raw + k <= usize::MAX,
        ensures
            Self::nth(raw, k) == raw + k,
        decreases k,
    {
        if k > 0 {
            Self::lemma_nth(Self::following(raw), (k - 1) as nat);
        }
    }
}

} // verus!
