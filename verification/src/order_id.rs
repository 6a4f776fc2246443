//! The order-id allocator: unique, strictly increasing identifiers.

use vstd::prelude::*;

verus! {

/// Issues order ids starting at 1. Every id it has returned is strictly
/// below `next`, so ids are unique and strictly increasing. Exhaustion
/// of the 64-bit space is out of scope; callers keep `next` below
/// `u64::MAX`.
pub struct OrderIdAllocator {
    pub next: u64,
}

impl OrderIdAllocator {
    /// Ids start at 1 and never return to 0.
    pub open spec fn wf(self) -> bool {
        self.next >= 1
    }

    pub fn new() -> (r: OrderIdAllocator)
        ensures
            r.wf(),
            r.next == 1,
    {
        OrderIdAllocator { next: 1 }
    }

    /// Returns the next id and moves past it: the result is strictly
    /// greater than every id returned before (all of which are below
    /// `old(self).next`) and strictly below every id returned after.
    pub fn next_id(&mut self) -> (r: u64)
        requires
            old(self).wf(),
            old(self).next < u64::MAX,
        ensures
            final(self).wf(),
            r == old(self).next,
            final(self).next == old(self).next + 1,
            r >= 1,
    {
        let id = self.next;
        self.next = self.next + 1;
        id
    }
}

} // verus!
