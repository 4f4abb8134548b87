//! One stripe of the log: a ring buffer with its number.

use vstd::prelude::*;

use crate::backpressure::{default_backpressure, SpinBackoff};
use crate::deadline::AppendDeadline;
use crate::entry::PendingEntry;
use crate::power::{is_next_power_of_two, max_rounded};
use crate::ring_buffer::{
    deadline_when_blocked, empty_ring, lemma_append_is_drained_last, spins_when_blocked,
    turn_when_blocked, BlockedTurn, RingView, WalRingBuffer,
};

verus! {

/// What a stripe holds, for monitoring.
#[derive(Debug, Clone, Copy, PartialEq, Eq, Structural)]
pub struct StripeMetrics {
    /// The number of the stripe.
    pub stripe_id: usize,
    /// How many entries wait to be drained.
    pub pending_count: usize,
    /// How many entries fit.
    pub capacity: usize,
}

/// One stripe of the log.
#[derive(Debug)]
pub struct WalStripe {
    number: usize,
    ring: WalRingBuffer,
}

impl View for WalStripe {
    type V = RingView;

    closed spec fn view(&self) -> RingView {
        self.ring@
    }
}

/// What [`WalStripe::metrics`] reports of a stripe.
pub open spec fn metrics_of(id: int, ring: RingView) -> StripeMetrics {
    StripeMetrics {
        stripe_id: id as usize,
        pending_count: ring.pending.len() as usize,
        capacity: ring.capacity as usize,
    }
}

impl WalStripe {
    /// The ring of a stripe uses the default backpressure, and every position
    /// that is claimed in it holds its entry.
    pub closed spec fn wf(&self) -> bool {
        &&& self.ring.wf()
        &&& self.ring.config() == default_backpressure()
        &&& self.ring@.ready().len() == self.ring@.pending.len()
    }

    /// The number of the stripe.
    pub closed spec fn spec_id(&self) -> usize {
        self.number
    }

    /// A stripe never holds more than its capacity, which fits in `usize`, and
    /// all that it holds is ready to be drained.
    pub proof fn lemma_bounds(&self)
        requires
            self.wf(),
        ensures
            self@.pending.len() <= self@.capacity <= usize::MAX,
            self@.capacity > 0,
            self@.ready().len() == self@.pending.len(),
    {
        self.ring.lemma_bounds();
    }

    /// A stripe whose ring holds `capacity` entries, rounded up to a power of 2.
    pub fn with_capacity(id: usize, capacity: usize) -> (stripe: Self)
        requires
            0 < capacity <= max_rounded(),
        ensures
            stripe.wf(),
            stripe.spec_id() == id,
            is_next_power_of_two(stripe@.capacity as int, capacity as int),
            stripe@ == empty_ring(stripe@.capacity),
    {
        WalStripe { number: id, ring: WalRingBuffer::new(capacity) }
    }

    /// The number of the stripe.
    pub fn id(&self) -> (id: usize)
        ensures
            id == self.spec_id(),
    {
        self.number
    }

    /// Append `entry` if the stripe is open and has room.
    pub fn try_append(&mut self, entry: PendingEntry) -> (result: Result<(), PendingEntry>)
        requires
            old(self).wf(),
        ensures
            final(self).wf(),
            final(self).spec_id() == old(self).spec_id(),
            result is Ok <==> !old(self)@.closed && !old(self)@.is_full(),
            result is Ok ==> final(self)@ == old(self)@.appended(entry),
            result matches Err(back) ==> back == entry && final(self)@ == old(self)@,
    {
        proof {
            lemma_append_is_drained_last(self.ring@, entry);
        }
        self.ring.try_append(entry)
    }

    /// One turn of an append that found the stripe full or closed.
    pub fn blocked_turn(
        &self,
        entry: PendingEntry,
        deadline: &mut AppendDeadline,
        backoff: &mut SpinBackoff,
        sleep_us: u64,
        now: u64,
    ) -> (turn: BlockedTurn)
        requires
            self.wf(),
        ensures
            turn == turn_when_blocked(
                self@,
                default_backpressure(),
                entry,
                old(deadline)@,
                old(backoff)@,
                sleep_us,
                now,
            ),
            final(deadline)@ == deadline_when_blocked(
                self@,
                old(deadline)@,
                old(backoff)@,
                now,
            ),
            final(backoff)@ == spins_when_blocked(
                self@,
                default_backpressure(),
                old(backoff)@,
            ),
    {
        self.ring.blocked_turn(entry, deadline, backoff, sleep_us, now)
    }

    /// Drain all entries.
    pub fn drain(&mut self) -> (entries: Vec<PendingEntry>)
        requires
            old(self).wf(),
        ensures
            final(self).wf(),
            final(self).spec_id() == old(self).spec_id(),
            entries@ == old(self)@.ready(),
            final(self)@ == old(self)@.drained(entries@.len() as int),
            final(self)@.pending.len() == 0,
    {
        self.ring.drain()
    }

    /// How many entries wait to be drained.
    pub fn pending_count(&self) -> (count: usize)
        requires
            self.wf(),
        ensures
            count == self@.pending.len(),
    {
        self.ring.len_approx()
    }

    /// What the stripe holds.
    pub fn metrics(&self) -> (metrics: StripeMetrics)
        requires
            self.wf(),
        ensures
            metrics == metrics_of(self.spec_id() as int, self@),
    {
        StripeMetrics {
            stripe_id: self.number,
            pending_count: self.ring.len_approx(),
            capacity: self.ring.capacity(),
        }
    }

    /// Refuse further appends.
    pub fn close(&mut self)
        requires
            old(self).wf(),
        ensures
            final(self).wf(),
            final(self).spec_id() == old(self).spec_id(),
            final(self)@ == (RingView { closed: true, ..old(self)@ }),
    {
        self.ring.close()
    }

    /// Whether appends are refused.
    pub fn is_closed(&self) -> (closed: bool)
        ensures
            closed == self@.closed,
    {
        self.ring.is_closed()
    }
}

} // verus!
