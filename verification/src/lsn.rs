//! Log sequence numbers and their allocator.

use vstd::prelude::*;

verus! {

broadcast use crate::power::lemma_wrap_near;

/// A log sequence number. Zero is "no entry"; the first entry is 1.
#[derive(Debug, Clone, Copy, PartialEq, Eq, PartialOrd, Ord, Hash, Structural)]
pub struct LSN(pub u64);

/// The LSN that comes `n` entries after `first`, on the wrapping counter.
pub open spec fn lsn_after(first: LSN, n: int) -> LSN {
    LSN(crate::power::wrap(first.0 + n))
}

/// Hands out consecutive LSNs.
#[derive(Debug)]
pub struct LsnAllocator {
    next: u64,
}

impl View for LsnAllocator {
    type V = u64;

    /// The LSN that is handed out next.
    closed spec fn view(&self) -> u64 {
        self.next
    }
}

impl LsnAllocator {
    /// An allocator whose first LSN is 1.
    pub fn new() -> (allocator: Self)
        ensures
            allocator@ == 1,
    {
        LsnAllocator { next: 1 }
    }

    /// Hand out one LSN.
    pub fn allocate(&mut self) -> (lsn: LSN)
        ensures
            lsn == LSN(old(self)@),
            final(self)@ == lsn_after(lsn, 1).0,
    {
        self.allocate_batch(1)
    }

    /// Reserve `count` consecutive LSNs and return the first.
    pub fn allocate_batch(&mut self, count: u64) -> (first: LSN)
        ensures
            first == LSN(old(self)@),
            final(self)@ == lsn_after(first, count as int).0,
    {
        let first: u64 = self.next;
        self.next = first.wrapping_add(count);
        LSN(first)
    }

    /// The LSN that will be handed out next.
    pub fn current(&self) -> (lsn: LSN)
        ensures
            lsn == LSN(self@),
    {
        LSN(self.next)
    }

    /// Raise the next LSN to `lsn`. A value that was already passed is
    /// ignored, so recovery can never hand out an LSN twice.
    pub fn set_next(&mut self, lsn: LSN)
        ensures
            final(self)@ == if lsn.0 > old(self)@ {
                lsn.0
            } else {
                old(self)@
            },
            final(self)@ >= old(self)@,
    {
        if lsn.0 > self.next {
            self.next = lsn.0;
        }
    }
}

/// LSNs are handed out once and in order: those of a reservation increase, and
/// they lie below all LSNs of a reservation that is made after it, until the
/// counter is used up. `second` is the first LSN of the later reservation:
/// nothing that happens in between lowers the counter.
pub proof fn lemma_lsns_are_handed_out_once(
    first: LSN,
    count: u64,
    second: LSN,
    more: u64,
    i: int,
    j: int,
)
    requires
        first.0 + count <= second.0,
        second.0 + more <= u64::MAX,
        0 <= i < count,
    ensures
        first.0 <= lsn_after(first, i).0 < lsn_after(first, count as int).0 <= second.0,
        i < j < count ==> lsn_after(first, i).0 < lsn_after(first, j).0,
        0 <= j < more ==> lsn_after(first, i).0 < lsn_after(second, j).0,
{
}

} // verus!
