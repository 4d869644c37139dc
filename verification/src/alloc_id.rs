//! Monotonic allocator for request identifiers.
//!
//! Request identifiers are unsigned 64-bit integers handed out in strictly
//! increasing order starting from 0. An identifier is never reused within a
//! process lifetime; every outbound activation or can-you-answer probe
//! consumes a fresh one.
use vstd::prelude::*;

verus! {

/// Monotonic counter for request identifiers, starting at 0.
pub struct IdAllocator {
    next: u64,
}

impl IdAllocator {
    /// The identifier the next call to `allocate` will return.
    pub closed spec fn next_id(self) -> u64 {
        self.next
    }

    /// A fresh allocator; the first identifier handed out is 0.
    pub fn new() -> (r: IdAllocator)
        ensures
            r.next_id() == 0,
    {
        IdAllocator { next: 0 }
    }

    /// Hands out the next identifier and advances the counter, so no
    /// identifier is ever returned twice.
    pub fn allocate(&mut self) -> (r: u64)
        requires
            old(self).next_id() < u64::MAX,
        ensures
            r == old(self).next_id(),
            final(self).next_id() == old(self).next_id() + 1,
    {
        let id = self.next;
        self.next = self.next + 1;
        id
    }
}

/// Identifiers from consecutive allocations are strictly increasing: a later
/// allocation always yields a larger identifier than an earlier one, since
/// each allocation advances the counter and never rolls it back.
pub proof fn lemma_ids_strictly_increase(a0: IdAllocator, a1: IdAllocator, k0: u64, k1: u64)
    requires
        k0 == a0.next_id(),
        a1.next_id() > a0.next_id(),
        k1 == a1.next_id(),
    ensures
        k1 > k0,
{
}

} // verus!
