//! The ring buffer between writers and the flush thread.
//!
//! Each slot carries a sequence number that tells its state for the position
//! that maps to it:
//! - equal to the position: free, or claimed by a writer that has not
//!   published its entry yet;
//! - one more than the position: holds an entry, ready for reading.
//!
//! Positions are `u64` counters that wrap around. [`WalRingBuffer::claim`],
//! [`WalRingBuffer::publish`] and [`WalRingBuffer::take_next`] are the atomic
//! steps of the protocol; any interleaving of them by any number of writers
//! and one reader keeps the invariant of the buffer.

use vstd::arithmetic::power2::lemma2_to64;
use vstd::prelude::*;

use crate::backpressure::{
    default_backpressure, doubled, fresh_spins, BackpressureConfig, SpinBackoff,
};
use crate::completion::CompletionBoard;
use crate::deadline::{AppendBlockedKind, AppendDeadline, DeadlineView};
use crate::entry::{all_discarded, discard_all, PendingEntry};
use crate::power::{
    counter_span, is_next_power_of_two, is_power_of_two, lemma_mask, lemma_mod_distinct,
    lemma_mod_period, lemma_wrap_mod, max_rounded, next_power_of_two, wrap,
};

verus! {

broadcast use crate::power::lemma_wrap_near;

/// Default capacity for WAL ring buffers.
pub const DEFAULT_RING_BUFFER_CAPACITY: usize = 1024;

/// One slot of the buffer.
#[derive(Debug)]
struct Slot {
    entry: Option<PendingEntry>,
    sequence: u64,
}

/// The value of a [`WalRingBuffer`].
#[verifier::ext_equal]
pub ghost struct RingView {
    /// How many positions may be claimed and not drained at a time.
    pub capacity: nat,
    /// The position that is drained next.
    pub read_pos: u64,
    /// The claimed positions from `read_pos` on, in order: `None` where the
    /// writer has not published its entry yet.
    pub pending: Seq<Option<PendingEntry>>,
    /// Whether appends are refused.
    pub closed: bool,
}

impl RingView {
    /// The position that is claimed next.
    pub open spec fn write_pos(self) -> u64 {
        wrap(self.read_pos + self.pending.len())
    }

    /// Whether every claimed position may be drained or is being written.
    pub open spec fn is_full(self) -> bool {
        self.pending.len() >= self.capacity
    }

    /// How far `pos` lies behind the read position.
    pub open spec fn offset_of(self, pos: u64) -> int {
        wrap(pos - self.read_pos) as int
    }

    /// Whether `pos` is claimed by a writer that has not published yet.
    pub open spec fn awaits(self, pos: u64) -> bool {
        &&& self.offset_of(pos) < self.pending.len()
        &&& self.pending[self.offset_of(pos)] is None
    }

    /// How far the number of the slot that `pos` maps to lies behind `pos`, for
    /// a position of a later cycle.
    pub open spec fn lag_of(self, pos: u64) -> int {
        let k = self.offset_of(pos) % (self.capacity as int);
        if k < self.pending.len() && self.pending[k] is Some {
            self.offset_of(pos) - k - 1
        } else {
            self.offset_of(pos) - k
        }
    }

    /// What a writer meets that wants to claim `pos`: the position is to be
    /// had only while it is the write position of a buffer that is not full. A
    /// writer that comes too late finds it stale, and one that is a cycle ahead
    /// finds its slot occupied.
    pub open spec fn claim_of(self, pos: u64) -> ClaimOutcome {
        if pos == self.write_pos() {
            if self.is_full() {
                ClaimOutcome::Full
            } else {
                ClaimOutcome::Claimed
            }
        } else if self.offset_of(pos) < self.capacity {
            ClaimOutcome::Stale
        } else if self.lag_of(pos) <= self.capacity {
            ClaimOutcome::Full
        } else {
            ClaimOutcome::Stale
        }
    }

    /// The buffer after one position was claimed.
    pub open spec fn claimed(self) -> RingView {
        RingView { pending: self.pending.push(None), ..self }
    }

    /// The buffer after `entry` was published at `pos`.
    pub open spec fn published(self, pos: u64, entry: PendingEntry) -> RingView {
        RingView { pending: self.pending.update(self.offset_of(pos), Some(entry)), ..self }
    }

    /// The buffer after `entry` was appended.
    pub open spec fn appended(self, entry: PendingEntry) -> RingView {
        RingView { pending: self.pending.push(Some(entry)), ..self }
    }

    /// The buffer after its first `n` positions were drained.
    pub open spec fn drained(self, n: int) -> RingView {
        RingView {
            read_pos: wrap(self.read_pos + n),
            pending: self.pending.skip(n),
            ..self
        }
    }

    /// The entries that a drain hands out: those before the first position
    /// that is claimed and not published.
    pub open spec fn ready(self) -> Seq<PendingEntry> {
        ready_prefix(self.pending)
    }
}

/// The entries before the first hole of `pending`.
pub open spec fn ready_prefix(pending: Seq<Option<PendingEntry>>) -> Seq<PendingEntry>
    decreases pending.len(),
{
    if pending.len() > 0 && pending[0] is Some {
        seq![pending[0]->0] + ready_prefix(pending.skip(1))
    } else {
        Seq::empty()
    }
}

/// A freshly made buffer of `capacity` slots.
pub open spec fn empty_ring(capacity: nat) -> RingView {
    RingView { capacity, read_pos: 0, pending: Seq::empty(), closed: false }
}

/// What a claim of a position met.
#[derive(Debug, Clone, Copy, PartialEq, Eq, Structural)]
pub enum ClaimOutcome {
    /// The position now belongs to the caller, who must publish an entry at it.
    Claimed,
    /// The slot is still occupied by a previous cycle.
    Full,
    /// Another writer was faster; retry with a fresh position.
    Stale,
}

/// A blocking append that did not place its entry. The entry is handed back
/// intact, so that the caller can retry it, report it, or drop it.
#[derive(Debug)]
pub struct AppendBlocked {
    /// The entry that was not appended.
    pub entry: PendingEntry,
    /// Why the append gave up.
    pub kind: AppendBlockedKind,
}

/// What an append does next that could not place its entry.
#[derive(Debug)]
pub enum BlockedTurn {
    /// The append gave up.
    Refused(AppendBlocked),
    /// The buffer is full: the caller spins once and calls again with `entry`.
    Spin { entry: PendingEntry },
    /// The buffer is full: the caller sleeps for `nap_ns` nanoseconds, or
    /// yields if that is `None`, and calls again with `entry` and
    /// `next_sleep_us`.
    Wait { entry: PendingEntry, nap_ns: Option<u64>, next_sleep_us: u64 },
}

/// How long a writer that tries every `sleep_us` microseconds naps before its
/// next attempt: never past `limit`, and not at all if `sleep_us` is zero.
pub open spec fn nap_turn(
    config: BackpressureConfig,
    entry: PendingEntry,
    limit: Option<u64>,
    sleep_us: u64,
    now: u64,
) -> BlockedTurn {
    let full_nap = if sleep_us * 1000 <= u64::MAX {
        sleep_us * 1000
    } else {
        u64::MAX as int
    };
    let nap = match limit {
        Some(end) => if end - now < full_nap {
            end - now
        } else {
            full_nap
        },
        None => full_nap,
    };
    if sleep_us > 0 {
        BlockedTurn::Wait {
            entry,
            nap_ns: Some(nap as u64),
            next_sleep_us: doubled(sleep_us as int, config.max_sleep_us as int) as u64,
        }
    } else {
        BlockedTurn::Wait { entry, nap_ns: None, next_sleep_us: 0 }
    }
}

/// What a writer does that could not place `entry` at `now`: while it may spin
/// `spins` times it does so, and only then it looks at its deadline.
pub open spec fn turn_when_blocked(
    ring: RingView,
    config: BackpressureConfig,
    entry: PendingEntry,
    deadline: DeadlineView,
    spins: nat,
    sleep_us: u64,
    now: u64,
) -> BlockedTurn {
    if ring.closed {
        BlockedTurn::Refused(AppendBlocked { entry, kind: AppendBlockedKind::Closed })
    } else if spins > 1 {
        BlockedTurn::Spin { entry }
    } else {
        match deadline.limit_at(now) {
            Some(limit) => if now >= limit {
                BlockedTurn::Refused(
                    AppendBlocked {
                        entry,
                        kind: AppendBlockedKind::TimedOut {
                            waited_ns: deadline.armed_by(now).waited_at(now),
                        },
                    },
                )
            } else {
                nap_turn(config, entry, Some(limit), sleep_us, now)
            },
            None => nap_turn(config, entry, None, sleep_us, now),
        }
    }
}

/// The deadline of a writer that could not place its entry at `now`.
pub open spec fn deadline_when_blocked(
    ring: RingView,
    deadline: DeadlineView,
    spins: nat,
    now: u64,
) -> DeadlineView {
    if ring.closed || spins > 1 {
        deadline
    } else {
        deadline.armed_by(now)
    }
}

/// How often a writer may still spin that could not place its entry: every nap
/// is followed by a spin phase of its own.
pub open spec fn spins_when_blocked(
    ring: RingView,
    config: BackpressureConfig,
    spins: nat,
) -> nat {
    if ring.closed {
        spins
    } else if spins > 1 {
        (spins - 1) as nat
    } else {
        fresh_spins(config)
    }
}

/// Multi-producer single-consumer ring buffer for WAL entries.
#[derive(Debug)]
pub struct WalRingBuffer {
    slots: Vec<Slot>,
    capacity: usize,
    mask: usize,
    write_pos: u64,
    read_pos: u64,
    closed: bool,
    backpressure: BackpressureConfig,
}

impl View for WalRingBuffer {
    type V = RingView;

    closed spec fn view(&self) -> RingView {
        RingView {
            capacity: self.capacity as nat,
            read_pos: self.read_pos,
            pending: Seq::new(self.count(), |k: int| self.slot_at(k).entry),
            closed: self.closed,
        }
    }
}

impl WalRingBuffer {
    /// How many positions are claimed and not drained.
    spec fn count(&self) -> nat {
        wrap(self.write_pos - self.read_pos) as nat
    }

    /// The slot of the position `k` after the read position.
    #[verifier::opaque]
    spec fn slot_at(&self, k: int) -> Slot {
        self.slots@[(self.read_pos + k) % (self.capacity as int)]
    }

    /// Whether the slot of the position `k` after the read position is in a
    /// state that the protocol allows.
    spec fn slot_ok(&self, k: int) -> bool {
        let slot = self.slot_at(k);
        if k < self.count() && slot.entry is Some {
            slot.sequence == wrap(self.read_pos + k + 1)
        } else {
            slot.entry is None && slot.sequence == wrap(self.read_pos + k)
        }
    }

    /// The invariant of the buffer.
    pub closed spec fn wf(&self) -> bool {
        &&& is_power_of_two(self.capacity as int)
        &&& self.capacity <= max_rounded()
        &&& self.mask == self.capacity - 1
        &&& self.slots@.len() == self.capacity
        &&& self.count() <= self.capacity
        &&& forall|k: int| 0 <= k < self.capacity ==> #[trigger] self.slot_ok(k)
    }

    /// The backpressure configuration.
    pub closed spec fn config(&self) -> BackpressureConfig {
        self.backpressure
    }

    /// What the invariant says in terms of the value: the capacity is a power
    /// of two and is never exceeded.
    pub proof fn lemma_bounds(&self)
        requires
            self.wf(),
        ensures
            is_power_of_two(self@.capacity as int),
            0 < self@.capacity <= max_rounded(),
            self@.pending.len() <= self@.capacity,
    {
        lemma_wrap_mod(0, self.capacity as int);
    }

    /// Create a new ring buffer with the specified capacity and default
    /// backpressure. The capacity is rounded up to the next power of 2.
    pub fn new(capacity: usize) -> (ring: Self)
        requires
            0 < capacity <= max_rounded(),
        ensures
            ring.wf(),
            is_next_power_of_two(ring@.capacity as int, capacity as int),
            ring@ == empty_ring(ring@.capacity),
            ring.config() == default_backpressure(),
    {
        Self::with_config(capacity, BackpressureConfig::default())
    }

    /// Create a new ring buffer with the specified capacity and backpressure
    /// configuration. The capacity is rounded up to the next power of 2.
    pub fn with_config(capacity: usize, backpressure: BackpressureConfig) -> (ring: Self)
        requires
            0 < capacity <= max_rounded(),
            backpressure.is_valid(),
        ensures
            ring.wf(),
            is_next_power_of_two(ring@.capacity as int, capacity as int),
            ring@ == empty_ring(ring@.capacity),
            ring.config() == backpressure,
    {
        let capacity = next_power_of_two(capacity);
        let mut slots: Vec<Slot> = Vec::with_capacity(capacity);
        let mut i: usize = 0;
        while i < capacity
            invariant
                i <= capacity,
                slots@.len() == i,
                forall|k: int|
                    0 <= k < i ==> (#[trigger] slots@[k]).entry is None && slots@[k].sequence == k,
            decreases capacity - i,
        {
            slots.push(Slot { entry: None, sequence: i as u64 });
            i = i + 1;
        }
        let ring = WalRingBuffer {
            slots,
            capacity,
            mask: capacity - 1,
            write_pos: 0,
            read_pos: 0,
            closed: false,
            backpressure,
        };
        proof {
            reveal(WalRingBuffer::slot_at);
            assert forall|k: int| 0 <= k < capacity implies #[trigger] ring.slot_ok(k) by {
                vstd::arithmetic::div_mod::lemma_small_mod(k as nat, capacity as nat);
                assert(ring.slot_at(k) == slots@[k]);
            }
            assert(ring@.pending =~= Seq::empty());
        }
        ring
    }

    /// Create a new ring buffer with the default capacity and backpressure.
    pub fn with_default_capacity() -> (ring: Self)
        ensures
            ring.wf(),
            ring@ == empty_ring(DEFAULT_RING_BUFFER_CAPACITY as nat),
            ring.config() == default_backpressure(),
    {
        proof {
            lemma2_to64();
        }
        Self::new(DEFAULT_RING_BUFFER_CAPACITY)
    }

    /// Get the capacity of the ring buffer.
    pub fn capacity(&self) -> (capacity: usize)
        ensures
            capacity == self@.capacity,
    {
        self.capacity
    }

    /// Check if the buffer has been closed.
    pub fn is_closed(&self) -> (closed: bool)
        ensures
            closed == self@.closed,
    {
        self.closed
    }

    /// Close the buffer, preventing new appends. Existing entries can still be
    /// drained.
    pub fn close(&mut self)
        requires
            old(self).wf(),
        ensures
            final(self).wf(),
            final(self).config() == old(self).config(),
            final(self)@ == (RingView { closed: true, ..old(self)@ }),
    {
        self.closed = true;
        proof {
            reveal(WalRingBuffer::slot_at);
            assert forall|k: int| 0 <= k < self.capacity implies #[trigger] self.slot_ok(k) by {
                assert(old(self).slot_ok(k));
            }
            assert(self@.pending =~= old(self)@.pending);
        }
    }

    /// The index of the slot that `pos` maps to.
    fn index_of(&self, pos: u64) -> (idx: usize)
        requires
            self.wf(),
        ensures
            idx < self.slots@.len(),
            idx == pos as int % (self.capacity as int),
    {
        proof {
            lemma_mask(pos, self.capacity as u64);
        }
        (pos & (self.mask as u64)) as usize
    }

    /// The position that the next claim has to name.
    pub fn write_pos(&self) -> (pos: u64)
        requires
            self.wf(),
        ensures
            pos == self@.write_pos(),
    {
        self.write_pos
    }

    /// The position that is drained next.
    pub fn read_pos(&self) -> (pos: u64)
        ensures
            pos == self@.read_pos,
    {
        self.read_pos
    }

    /// The two rings differ in the slot of position `k0` only.
    proof fn lemma_other_slots(before: Self, after: Self, k0: int, slot: Slot)
        requires
            before.wf(),
            after.capacity == before.capacity,
            after.read_pos == before.read_pos,
            0 <= k0 < before.capacity,
            after.slots@ == before.slots@.update(
                (before.read_pos + k0) % (before.capacity as int),
                slot,
            ),
        ensures
            after.slot_at(k0) == slot,
            forall|k: int|
                0 <= k < before.capacity && k != k0 ==> #[trigger] after.slot_at(k)
                    == before.slot_at(k),
    {
        reveal(WalRingBuffer::slot_at);
        lemma_wrap_mod(0, before.capacity as int);
        assert forall|k: int| 0 <= k < before.capacity && k != k0 implies #[trigger] after.slot_at(
            k,
        ) == before.slot_at(k) by {
            if k < k0 {
                lemma_mod_distinct(before.read_pos + k, before.read_pos + k0, before.capacity as int);
            } else {
                lemma_mod_distinct(before.read_pos + k0, before.read_pos + k, before.capacity as int);
            }
        }
    }

    /// The slot that `pos` maps to is the slot of its offset.
    proof fn lemma_slot_of(&self, pos: u64)
        requires
            self.wf(),
        ensures
            self.capacity > 0,
            self@.offset_of(pos) < self.capacity ==> self.slots@[pos as int % (
            self.capacity as int)] == self.slot_at(self@.offset_of(pos)),
            self@.offset_of(pos) == self.capacity ==> self.slots@[pos as int % (
            self.capacity as int)] == self.slot_at(0),
    {
        reveal(WalRingBuffer::slot_at);
        let cap = self.capacity as int;
        let k = self@.offset_of(pos);
        lemma_wrap_mod(self.read_pos + k, cap);
        assert(wrap(self.read_pos + k) == pos);
        lemma_mod_period(self.read_pos as int, cap);
    }

    /// Claiming the write position of a buffer with a free slot keeps the
    /// invariant.
    proof fn lemma_claim(before: Self, after: Self)
        requires
            before.wf(),
            before.count() < before.capacity,
            after == (WalRingBuffer {
                write_pos: wrap(before.write_pos + 1),
                ..before
            }),
        ensures
            after.wf(),
            after@ == before@.claimed(),
    {
        reveal(WalRingBuffer::slot_at);
        assert(after.count() == before.count() + 1);
        assert forall|k: int| 0 <= k < after.capacity implies #[trigger] after.slot_ok(k) by {
            assert(before.slot_ok(k));
            assert(after.slot_at(k) == before.slot_at(k));
        }
        assert(before.slot_ok(before.count() as int));
        assert forall|k: int| 0 <= k < after.count() implies after.slot_at(k) == before.slot_at(
            k,
        ) by {}
        assert(after@.pending =~= before@.pending.push(None));
    }

    /// What the sequence number of the slot of `pos` tells a writer that
    /// wants to claim `pos`.
    proof fn lemma_sequence_of(&self, pos: u64)
        requires
            self.wf(),
        ensures
            ({
                let sequence = self.slots@[pos as int % (self.capacity as int)].sequence;
                let k = self@.offset_of(pos);
                &&& pos == self.write_pos <==> k == self.count()
                &&& k == self.count() < self.capacity ==> sequence == pos
                &&& k == self.count() == self.capacity ==> wrap(pos - sequence) <= self.capacity
                &&& k < self.capacity && sequence != pos ==> wrap(pos - sequence) > self.capacity
                &&& k >= self.capacity ==> wrap(pos - sequence) == self@.lag_of(pos)
                &&& k >= self.capacity && sequence == pos ==> pos == self.write_pos
            }),
    {
        let k = self@.offset_of(pos);
        self.lemma_slot_of(pos);
        assert(wrap(self.read_pos + k) == pos);
        if k < self.capacity {
            assert(self.slot_ok(k));
        } else {
            let cap = self.capacity as int;
            let j = k % cap;
            vstd::arithmetic::div_mod::lemma_mod_bound(k, cap);
            assert(self.slots@[pos as int % cap] == self.slot_at(j)) by {
                reveal(WalRingBuffer::slot_at);
                lemma_wrap_mod(self.read_pos + k, cap);
                vstd::arithmetic::div_mod::lemma_add_mod_noop(self.read_pos as int, k, cap);
                vstd::arithmetic::div_mod::lemma_add_mod_noop(self.read_pos as int, j, cap);
                vstd::arithmetic::div_mod::lemma_mod_twice(k, cap);
            }
            assert(self.slot_ok(j));
        }
        if k == self.capacity {
            assert(self.slot_ok(0));
        }
    }

    /// Claim the position `observed` for writing. The claim succeeds only if
    /// `observed` is still the write position and its slot is free.
    pub fn claim(&mut self, observed: u64) -> (outcome: ClaimOutcome)
        requires
            old(self).wf(),
        ensures
            final(self).wf(),
            final(self).config() == old(self).config(),
            outcome == old(self)@.claim_of(observed),
            final(self)@ == if outcome is Claimed {
                old(self)@.claimed()
            } else {
                old(self)@
            },
    {
        let idx = self.index_of(observed);
        let current: u64 = self.slots[idx].sequence;
        proof {
            self.lemma_sequence_of(observed);
        }
        if current == observed {
            // The slot looks free for this position: take it unless another
            // writer did.
            if self.write_pos != observed {
                return ClaimOutcome::Stale;
            }
            // With a single slot, "published" and "free for the next cycle"
            // carry the same number: only the positions tell them apart.
            if self.write_pos.wrapping_sub(self.read_pos) >= self.capacity as u64 {
                return ClaimOutcome::Full;
            }
            self.write_pos = observed.wrapping_add(1);
            proof {
                Self::lemma_claim(*old(self), *self);
            }
            return ClaimOutcome::Claimed;
        }
        let distance_behind: u64 = observed.wrapping_sub(current);
        if distance_behind <= self.capacity as u64 {
            ClaimOutcome::Full
        } else {
            ClaimOutcome::Stale
        }
    }

    /// Publishing an entry at a claimed position keeps the invariant.
    proof fn lemma_publish(before: Self, after: Self, pos: u64, entry: PendingEntry)
        requires
            before.wf(),
            before@.awaits(pos),
            after == (WalRingBuffer { slots: after.slots, ..before }),
            after.slots@ == before.slots@.update(
                pos as int % (before.capacity as int),
                Slot { entry: Some(entry), sequence: wrap(pos + 1) },
            ),
        ensures
            after.wf(),
            after@ == before@.published(pos, entry),
    {
        let k0 = before@.offset_of(pos);
        let slot = Slot { entry: Some(entry), sequence: wrap(pos + 1) };
        assert(wrap(before.read_pos + k0) == pos);
        lemma_wrap_mod(before.read_pos + k0, before.capacity as int);
        Self::lemma_other_slots(before, after, k0, slot);
        assert forall|k: int| 0 <= k < after.capacity implies #[trigger] after.slot_ok(k) by {
            assert(before.slot_ok(k));
            assert(after.slot_at(k) == if k == k0 {
                slot
            } else {
                before.slot_at(k)
            });
        }
        assert(after@.pending =~= before@.published(pos, entry).pending);
    }

    /// Publish `entry` at the position `pos` that the caller claimed. The entry
    /// is handed back if no writer owes one at `pos`.
    pub fn publish(&mut self, pos: u64, entry: PendingEntry) -> (result: Result<(), PendingEntry>)
        requires
            old(self).wf(),
        ensures
            final(self).wf(),
            final(self).config() == old(self).config(),
            result is Ok <==> old(self)@.awaits(pos),
            result is Ok ==> final(self)@ == old(self)@.published(pos, entry),
            result matches Err(back) ==> back == entry && final(self)@ == old(self)@,
    {
        let held: u64 = self.write_pos.wrapping_sub(self.read_pos);
        let offset: u64 = pos.wrapping_sub(self.read_pos);
        if offset >= held {
            return Err(entry);
        }
        let idx = self.index_of(pos);
        proof {
            self.lemma_slot_of(pos);
            assert(self.slot_ok(offset as int));
        }
        if self.slots[idx].entry.is_some() {
            return Err(entry);
        }
        self.slots[idx] = Slot { entry: Some(entry), sequence: pos.wrapping_add(1) };
        proof {
            Self::lemma_publish(*old(self), *self, pos, entry);
        }
        Ok(())
    }

    /// Try to append an entry to the ring buffer.
    ///
    /// - `Ok(())` if the entry was appended
    /// - `Err(entry)` if the buffer is full or closed
    pub fn try_append(&mut self, entry: PendingEntry) -> (result: Result<(), PendingEntry>)
        requires
            old(self).wf(),
        ensures
            final(self).wf(),
            final(self).config() == old(self).config(),
            result is Ok <==> !old(self)@.closed && !old(self)@.is_full(),
            result is Ok ==> final(self)@ == old(self)@.appended(entry),
            result matches Err(back) ==> back == entry && final(self)@ == old(self)@,
    {
        if self.is_closed() {
            return Err(entry);
        }
        let pos = self.write_pos();
        match self.claim(pos) {
            ClaimOutcome::Claimed => {
                proof {
                    assert(self@.offset_of(pos) == old(self)@.pending.len());
                    assert(self@.published(pos, entry) =~= old(self)@.appended(entry));
                }
                self.publish(pos, entry)
            },
            _ => Err(entry),
        }
    }

    /// Draining the first position keeps the invariant.
    proof fn lemma_take(before: Self, after: Self)
        requires
            before.wf(),
            before@.pending.len() > 0,
            before@.pending[0] is Some,
            after == (WalRingBuffer {
                slots: after.slots,
                read_pos: wrap(before.read_pos + 1),
                ..before
            }),
            after.slots@ == before.slots@.update(
                before.read_pos as int % (before.capacity as int),
                Slot { entry: None, sequence: wrap(before.read_pos + before.capacity) },
            ),
        ensures
            after.wf(),
            after@ == before@.drained(1),
    {
        let cap = before.capacity as int;
        let slot = Slot { entry: None, sequence: wrap(before.read_pos + before.capacity) };
        let middle = WalRingBuffer { slots: after.slots, ..before };
        Self::lemma_other_slots(before, middle, 0, slot);
        assert(after.count() == before.count() - 1);
        assert forall|k: int| 0 <= k < cap implies #[trigger] after.slot_at(k) == if k + 1 == cap {
            slot
        } else {
            before.slot_at(k + 1)
        } by {
            reveal(WalRingBuffer::slot_at);
            lemma_wrap_mod(after.read_pos + k, cap);
            lemma_wrap_mod(before.read_pos + k + 1, cap);
            assert(wrap(after.read_pos + k) == wrap(before.read_pos + k + 1));
            assert(after.slot_at(k) == middle.slots@[(before.read_pos + k + 1) % cap]);
            if k + 1 == cap {
                lemma_mod_period(before.read_pos as int, cap);
            } else {
                assert(middle.slot_at(k + 1) == before.slot_at(k + 1));
            }
        }
        assert forall|k: int| 0 <= k < cap implies #[trigger] after.slot_ok(k) by {
            if k + 1 < cap {
                assert(before.slot_ok(k + 1));
            }
        }
        assert(after@.pending =~= before@.pending.skip(1));
    }

    /// Take the entry at the read position, if it has been published.
    pub fn take_next(&mut self) -> (entry: Option<PendingEntry>)
        requires
            old(self).wf(),
        ensures
            final(self).wf(),
            final(self).config() == old(self).config(),
            entry == if old(self)@.pending.len() > 0 {
                old(self)@.pending[0]
            } else {
                None
            },
            final(self)@ == if entry is Some {
                old(self)@.drained(1)
            } else {
                old(self)@
            },
    {
        let pos: u64 = self.read_pos;
        let idx = self.index_of(pos);
        let expected: u64 = pos.wrapping_add(1);
        proof {
            self.lemma_slot_of(pos);
            assert(self.slot_ok(0));
        }
        if self.slots[idx].sequence != expected {
            return None;
        }
        self.read_pos = expected;
        let entry = self.slots[idx].entry.take();
        self.slots[idx].sequence = pos.wrapping_add(self.capacity as u64);
        proof {
            assert(self.slots@ =~= old(self).slots@.update(
                idx as int,
                Slot { entry: None, sequence: wrap(pos + self.capacity) },
            ));
            Self::lemma_take(*old(self), *self);
        }
        entry
    }

    /// Drain all available entries, in the order in which their positions were
    /// claimed, up to the first one that is not published yet.
    pub fn drain(&mut self) -> (entries: Vec<PendingEntry>)
        requires
            old(self).wf(),
        ensures
            final(self).wf(),
            final(self).config() == old(self).config(),
            entries@ == old(self)@.ready(),
            final(self)@ == old(self)@.drained(entries@.len() as int),
    {
        let mut entries: Vec<PendingEntry> = Vec::new();
        proof {
            assert(self@.drained(0) =~= self@);
        }
        loop
            invariant_except_break
                self.wf(),
                self.config() == old(self).config(),
                entries@.len() <= old(self)@.pending.len(),
                self@ == old(self)@.drained(entries@.len() as int),
                entries@ + self@.ready() == old(self)@.ready(),
            ensures
                self.wf(),
                self.config() == old(self).config(),
                entries@ == old(self)@.ready(),
                self@ == old(self)@.drained(entries@.len() as int),
            decreases self@.pending.len(),
        {
            let ghost before = *self;
            match self.take_next() {
                Some(entry) => {
                    proof {
                        let n = entries@.len() as int;
                        assert(before@.ready() == seq![entry] + self@.ready());
                        assert(entries@.push(entry) + self@.ready() =~= entries@ + (seq![entry]
                            + self@.ready()));
                        assert(old(self)@.drained(n + 1) =~= old(self)@.drained(n).drained(1)) by {
                            lemma_drain_steps(old(self)@, n);
                        }
                    }
                    entries.push(entry);
                },
                None => {
                    assert(entries@ + self@.ready() =~= entries@);
                    break;
                },
            }
        }
        entries
    }

    /// One turn of an append that found the buffer full or closed at `now`:
    /// whether it gives up, spins, or sleeps before it tries again.
    ///
    /// A closed buffer is reported before an elapsed deadline: "shut down" is
    /// a permanent answer, while "timed out" only says that waiting did not
    /// help.
    pub fn blocked_turn(
        &self,
        entry: PendingEntry,
        deadline: &mut AppendDeadline,
        backoff: &mut SpinBackoff,
        sleep_us: u64,
        now: u64,
    ) -> (turn: BlockedTurn)
        requires
            self.wf(),
        ensures
            turn == turn_when_blocked(
                self@,
                self.config(),
                entry,
                old(deadline)@,
                old(backoff)@,
                sleep_us,
                now,
            ),
            final(deadline)@ == deadline_when_blocked(
                self@,
                old(deadline)@,
                old(backoff)@,
                now,
            ),
            final(backoff)@ == spins_when_blocked(self@, self.config(), old(backoff)@),
    {
        if self.is_closed() {
            return BlockedTurn::Refused(
                AppendBlocked { entry, kind: AppendBlockedKind::Closed },
            );
        }
        if backoff.spin() {
            return BlockedTurn::Spin { entry };
        }
        *backoff = SpinBackoff::new(&self.backpressure);
        let mut nap_ns: u64 = if sleep_us <= u64::MAX / 1000 {
            sleep_us * 1000
        } else {
            u64::MAX
        };
        match deadline.limit(now) {
            Some(limit) => {
                if now >= limit {
                    let waited_ns: u64 = deadline.waited(now);
                    return BlockedTurn::Refused(
                        AppendBlocked { entry, kind: AppendBlockedKind::TimedOut { waited_ns } },
                    );
                }
                // Never sleep past the deadline.
                if limit - now < nap_ns {
                    nap_ns = limit - now;
                }
            },
            None => {},
        }
        if sleep_us > 0 {
            let next_sleep_us: u64 = self.backpressure.next_sleep(sleep_us);
            BlockedTurn::Wait { entry, nap_ns: Some(nap_ns), next_sleep_us }
        } else {
            BlockedTurn::Wait { entry, nap_ns: None, next_sleep_us: 0 }
        }
    }

    /// One turn of an append that blocks until space is available or
    /// `deadline` runs out. The first turn of an entry passes a fresh `backoff`
    /// and `base_sleep_us` of the configuration for `sleep_us`; the next ones
    /// pass what the turn before said.
    ///
    /// `now` is looked at only if the entry cannot be placed.
    pub fn append_blocking_until(
        &mut self,
        entry: PendingEntry,
        deadline: &mut AppendDeadline,
        backoff: &mut SpinBackoff,
        sleep_us: u64,
        now: u64,
    ) -> (result: Result<(), BlockedTurn>)
        requires
            old(self).wf(),
        ensures
            final(self).wf(),
            final(self).config() == old(self).config(),
            result is Ok <==> !old(self)@.closed && !old(self)@.is_full(),
            result is Ok ==> final(self)@ == old(self)@.appended(entry) && final(deadline)@
                == old(deadline)@ && final(backoff)@ == old(backoff)@,
            result matches Err(turn) ==> {
                &&& final(self)@ == old(self)@
                &&& final(deadline)@ == deadline_when_blocked(
                    old(self)@,
                    old(deadline)@,
                    old(backoff)@,
                    now,
                )
                &&& final(backoff)@ == spins_when_blocked(
                    old(self)@,
                    old(self).config(),
                    old(backoff)@,
                )
                &&& turn == turn_when_blocked(
                    old(self)@,
                    old(self).config(),
                    entry,
                    old(deadline)@,
                    old(backoff)@,
                    sleep_us,
                    now,
                )
            },
    {
        match self.try_append(entry) {
            Ok(()) => Ok(()),
            Err(back) => Err(self.blocked_turn(back, deadline, backoff, sleep_us, now)),
        }
    }

    /// One turn of an append that blocks for as long as it takes. It is refused
    /// only once the buffer is closed.
    pub fn append_blocking(
        &mut self,
        entry: PendingEntry,
        backoff: &mut SpinBackoff,
        sleep_us: u64,
    ) -> (result: Result<(), BlockedTurn>)
        requires
            old(self).wf(),
        ensures
            final(self).wf(),
            final(self).config() == old(self).config(),
            result is Ok <==> !old(self)@.closed && !old(self)@.is_full(),
            final(self)@ == if result is Ok {
                old(self)@.appended(entry)
            } else {
                old(self)@
            },
            final(backoff)@ == if result is Ok {
                old(backoff)@
            } else {
                spins_when_blocked(old(self)@, old(self).config(), old(backoff)@)
            },
            result matches Err(turn) ==> turn == if old(self)@.closed {
                BlockedTurn::Refused(AppendBlocked { entry, kind: AppendBlockedKind::Closed })
            } else if old(backoff)@ > 1 {
                BlockedTurn::Spin { entry }
            } else {
                nap_turn(old(self).config(), entry, None, sleep_us, 0)
            },
    {
        let mut deadline = AppendDeadline::unbounded();
        self.append_blocking_until(entry, &mut deadline, backoff, sleep_us, 0)
    }

    /// Get the number of entries in the buffer, including those that are being
    /// written. Meant for monitoring.
    pub fn len_approx(&self) -> (len: usize)
        requires
            self.wf(),
        ensures
            len == self@.pending.len(),
    {
        self.write_pos.wrapping_sub(self.read_pos) as usize
    }

    /// Check if the buffer is empty. Meant for monitoring.
    pub fn is_empty_approx(&self) -> (empty: bool)
        requires
            self.wf(),
        ensures
            empty == (self@.pending.len() == 0),
    {
        self.len_approx() == 0
    }

    /// The sequence number of the slot of `pos`, for a position that is
    /// claimed or free to be claimed.
    pub fn sequence_of(&self, pos: u64) -> (sequence: Option<u64>)
        requires
            self.wf(),
        ensures
            sequence == if self@.offset_of(pos) >= self@.capacity {
                None
            } else if self@.offset_of(pos) < self@.pending.len() && !self@.awaits(pos) {
                Some(wrap(pos + 1))
            } else {
                Some(pos)
            },
    {
        let offset: u64 = pos.wrapping_sub(self.read_pos);
        if offset >= self.capacity as u64 {
            return None;
        }
        let idx = self.index_of(pos);
        proof {
            self.lemma_slot_of(pos);
            assert(self.slot_ok(offset as int));
            assert(wrap(self.read_pos + offset) == pos);
        }
        Some(self.slots[idx].sequence)
    }

    /// Let an empty buffer go on at position `pos`. Returns whether it was
    /// empty; a buffer with claimed positions stays as it is.
    pub fn restart_at(&mut self, pos: u64) -> (done: bool)
        requires
            old(self).wf(),
        ensures
            final(self).wf(),
            final(self).config() == old(self).config(),
            done == (old(self)@.pending.len() == 0),
            final(self)@ == if done {
                RingView { read_pos: pos, ..old(self)@ }
            } else {
                old(self)@
            },
    {
        if !self.is_empty_approx() {
            return false;
        }
        let capacity: usize = self.capacity;
        let mask: usize = self.mask;
        let mut slots: Vec<Slot> = Vec::with_capacity(capacity);
        let mut i: usize = 0;
        while i < capacity
            invariant
                i <= capacity,
                slots@.len() == i,
                forall|j: int| 0 <= j < i ==> (#[trigger] slots@[j]).entry is None,
            decreases capacity - i,
        {
            slots.push(Slot { entry: None, sequence: 0 });
            i = i + 1;
        }
        let mut k: usize = 0;
        while k < capacity
            invariant
                k <= capacity <= max_rounded(),
                is_power_of_two(capacity as int),
                mask == capacity - 1,
                slots@.len() == capacity,
                forall|j: int| 0 <= j < capacity ==> (#[trigger] slots@[j]).entry is None,
                forall|j: int|
                    0 <= j < k ==> slots@[#[trigger] ((pos + j) % (capacity as int))].sequence
                        == wrap(pos + j),
            decreases capacity - k,
        {
            let at: u64 = pos.wrapping_add(k as u64);
            proof {
                lemma_mask(at, capacity as u64);
                lemma_wrap_mod(pos + k, capacity as int);
                assert(wrap(pos + k) == at);
                assert forall|j: int| 0 <= j < k implies #[trigger] ((pos + j) % (capacity as int))
                    != (pos + k) % (capacity as int) by {
                    lemma_mod_distinct(pos + j, pos + k, capacity as int);
                }
                assert forall|j: int| 0 <= j < k implies 0 <= #[trigger] ((pos + j) % (
                capacity as int)) < capacity by {
                    vstd::arithmetic::div_mod::lemma_mod_bound(pos + j, capacity as int);
                }
            }
            let idx: usize = (at & (mask as u64)) as usize;
            slots[idx].sequence = at;
            k = k + 1;
        }
        self.slots = slots;
        self.read_pos = pos;
        self.write_pos = pos;
        proof {
            assert forall|j: int| 0 <= j < self.capacity implies #[trigger] self.slot_ok(j) by {
                reveal(WalRingBuffer::slot_at);
                lemma_wrap_mod(0, capacity as int);
                vstd::arithmetic::div_mod::lemma_mod_bound(pos + j, capacity as int);
                assert(self.slot_at(j) == slots@[(pos + j) % (capacity as int)]);
            }
            assert(self@.pending =~= old(self)@.pending);
        }
        true
    }

    /// Close the buffer and throw away what can still be drained. Waiters of
    /// the entries are told that these were not flushed. Returns how many
    /// entries were thrown away.
    pub fn discard_remaining(&mut self, board: &mut CompletionBoard) -> (count: usize)
        requires
            old(self).wf(),
        ensures
            final(self).wf(),
            count == old(self)@.ready().len(),
            final(self)@ == (RingView { closed: true, ..old(self)@.drained(count as int) }),
            final(board)@ == all_discarded(old(board)@, old(self)@.ready()),
            final(board).next_ticket() == old(board).next_ticket(),
    {
        self.close();
        let remaining = self.drain();
        let count = remaining.len();
        discard_all(remaining, board);
        count
    }
}

/// Draining `n` positions and then one more is draining `n + 1`.
proof fn lemma_drain_steps(ring: RingView, n: int)
    requires
        0 <= n < ring.pending.len() < 0x1_0000_0000_0000_0000,
    ensures
        ring.drained(n + 1) == ring.drained(n).drained(1),
{
    reveal(wrap);
    assert(ring.drained(n + 1).pending =~= ring.drained(n).drained(1).pending);
}

/// One atomic step of a writer or of the reader.
pub ghost enum RingStep {
    /// A writer claims the write position.
    Claim,
    /// A writer publishes its entry at the position that it claimed.
    Publish(u64, PendingEntry),
    /// The reader takes the entry at the read position.
    Take,
    /// The buffer is closed.
    Close,
}

/// A buffer together with its history.
pub ghost struct RingRun {
    pub ring: RingView,
    /// What the reader took, in order.
    pub taken: Seq<PendingEntry>,
    /// For each claim so far, in order, the entry that was published at it.
    pub claims: Seq<Option<PendingEntry>>,
}

impl RingRun {
    /// The run after `step`; a step that the buffer refuses changes nothing.
    pub open spec fn after(self, step: RingStep) -> RingRun {
        match step {
            RingStep::Claim => if self.ring.is_full() {
                self
            } else {
                RingRun { ring: self.ring.claimed(), claims: self.claims.push(None), ..self }
            },
            RingStep::Publish(pos, entry) => if self.ring.awaits(pos) {
                RingRun {
                    ring: self.ring.published(pos, entry),
                    claims: self.claims.update(
                        self.taken.len() + self.ring.offset_of(pos),
                        Some(entry),
                    ),
                    ..self
                }
            } else {
                self
            },
            RingStep::Take => if self.ring.pending.len() > 0 && self.ring.pending[0] is Some {
                RingRun {
                    ring: self.ring.drained(1),
                    taken: self.taken.push(self.ring.pending[0]->0),
                    ..self
                }
            } else {
                self
            },
            RingStep::Close => RingRun {
                ring: RingView { closed: true, ..self.ring },
                ..self
            },
        }
    }
}

/// The run of `steps` from an empty buffer.
pub open spec fn ring_run(capacity: nat, steps: Seq<RingStep>) -> RingRun
    decreases steps.len(),
{
    if steps.len() == 0 {
        RingRun { ring: empty_ring(capacity), taken: Seq::empty(), claims: Seq::empty() }
    } else {
        ring_run(capacity, steps.drop_last()).after(steps.last())
    }
}

/// Nothing is lost, duplicated or reordered, whatever the interleaving: what
/// was taken, followed by what is pending, is exactly what was claimed, in the
/// order of the claims. And the capacity is never exceeded.
pub proof fn lemma_fifo(capacity: nat, steps: Seq<RingStep>)
    ensures
        ({
            let run = ring_run(capacity, steps);
            &&& run.claims == run.taken.map_values(|e: PendingEntry| Some(e)) + run.ring.pending
            &&& run.ring.pending.len() <= capacity
            &&& run.ring.capacity == capacity
        }),
    decreases steps.len(),
{
    let run = ring_run(capacity, steps);
    let some = |e: PendingEntry| Some(e);
    if steps.len() == 0 {
        assert(run.claims =~= run.taken.map_values(some) + run.ring.pending);
    } else {
        lemma_fifo(capacity, steps.drop_last());
        let before = ring_run(capacity, steps.drop_last());
        match steps.last() {
            RingStep::Take => {
                if before.ring.pending.len() > 0 && before.ring.pending[0] is Some {
                    let first = before.ring.pending[0]->0;
                    assert(before.taken.push(first).map_values(some)
                        =~= before.taken.map_values(some).push(Some(first)));
                    assert(run.claims =~= run.taken.map_values(some) + run.ring.pending);
                }
            },
            _ => {
                assert(run.claims =~= run.taken.map_values(some) + run.ring.pending);
            },
        }
    }
}

/// No position is handed out twice: a writer that names one which was claimed
/// before, drained or not, finds it stale and takes a fresh one. This holds
/// until the counter comes round to within two cycles of that position.
pub proof fn lemma_late_claim_is_stale(ring: RingView, pos: u64)
    requires
        0 < ring.capacity <= max_rounded(),
        ring.pending.len() <= ring.capacity,
        ring.offset_of(pos) < ring.pending.len() || 0 < wrap(ring.read_pos - pos)
            < counter_span() - 2 * ring.capacity,
    ensures
        ring.claim_of(pos) is Stale,
{
    let cap = ring.capacity as int;
    assert(ring.write_pos() != pos);
    if ring.offset_of(pos) >= cap {
        vstd::arithmetic::div_mod::lemma_mod_bound(ring.offset_of(pos), cap);
    }
}

/// A drain hands out the entries of the first positions and stops exactly at
/// the first hole, never past it.
pub proof fn lemma_ready_stops_at_hole(ring: RingView)
    ensures
        ring.ready().len() <= ring.pending.len(),
        forall|i: int|
            0 <= i < ring.ready().len() ==> ring.pending[i] == Some(#[trigger] ring.ready()[i]),
        ring.ready().len() < ring.pending.len() ==> ring.pending[ring.ready().len() as int] is None,
    decreases ring.pending.len(),
{
    if ring.pending.len() > 0 && ring.pending[0] is Some {
        let rest = RingView { pending: ring.pending.skip(1), ..ring };
        lemma_ready_stops_at_hole(rest);
        assert forall|i: int| 0 <= i < ring.ready().len() implies ring.pending[i] == Some(
            #[trigger] ring.ready()[i],
        ) by {
            if i > 0 {
                assert(ring.ready()[i] == rest.ready()[i - 1]);
                assert(ring.pending[i] == rest.pending[i - 1]);
            }
        }
    }
}

/// An entry appended to a buffer without holes is drained right after what was
/// there before; and an entry behind a hole has to wait for it.
pub proof fn lemma_append_is_drained_last(ring: RingView, entry: PendingEntry)
    ensures
        ring.ready().len() == ring.pending.len() ==> ring.appended(entry).ready()
            == ring.ready().push(entry),
        ring.ready().len() < ring.pending.len() ==> ring.appended(entry).ready() == ring.ready(),
    decreases ring.pending.len(),
{
    lemma_ready_stops_at_hole(ring);
    if ring.pending.len() == 0 {
        assert(ring.appended(entry).pending.skip(1) =~= Seq::empty());
        assert(ready_prefix(ring.appended(entry).pending.skip(1)) =~= Seq::empty());
        assert(ring.appended(entry).ready() =~= ring.ready().push(entry));
    } else if ring.pending[0] is Some {
        let rest = RingView { pending: ring.pending.skip(1), ..ring };
        lemma_append_is_drained_last(rest, entry);
        assert(ring.appended(entry).pending.skip(1) =~= rest.appended(entry).pending);
        assert(ring.appended(entry).ready() =~= seq![ring.pending[0]->0] + rest.appended(
            entry,
        ).ready());
        if ring.ready().len() == ring.pending.len() {
            assert(ring.appended(entry).ready() =~= ring.ready().push(entry));
        }
    }
}

/// Whether two buffers differ at most in the numbers of their positions.
pub open spec fn same_but_positions(a: RingView, b: RingView) -> bool {
    a.capacity == b.capacity && a.pending == b.pending && a.closed == b.closed
}

/// The counter wraparound is invisible: what a buffer does never depends on
/// where its positions stand.
pub proof fn lemma_positions_do_not_matter(a: RingView, b: RingView, entry: PendingEntry, n: int)
    requires
        same_but_positions(a, b),
    ensures
        a.is_full() == b.is_full(),
        a.ready() == b.ready(),
        same_but_positions(a.claimed(), b.claimed()),
        same_but_positions(a.appended(entry), b.appended(entry)),
        same_but_positions(a.drained(n), b.drained(n)),
{
}

/// Closing keeps what was appended: the drain after it hands out the same
/// entries as the drain before it would have.
pub proof fn lemma_close_keeps_entries(ring: RingView)
    ensures
        (RingView { closed: true, ..ring }).ready() == ring.ready(),
{
}

/// Shutdown beats a deadline that has run out: on a closed buffer no deadline
/// turns the refusal into a timeout.
pub proof fn lemma_closed_beats_timeout(
    ring: RingView,
    config: BackpressureConfig,
    entry: PendingEntry,
    deadline: DeadlineView,
    spins: nat,
    sleep_us: u64,
    now: u64,
)
    requires
        ring.closed,
    ensures
        turn_when_blocked(ring, config, entry, deadline, spins, sleep_us, now) == BlockedTurn::Refused(
            AppendBlocked { entry, kind: AppendBlockedKind::Closed },
        ),
{
}

/// A bounded writer is answered by its deadline: once it has spun out, a nap
/// that it takes before then ends no later, and from then on it is refused.
pub proof fn lemma_bounded_wait(
    ring: RingView,
    config: BackpressureConfig,
    entry: PendingEntry,
    deadline: DeadlineView,
    spins: nat,
    sleep_us: u64,
    now: u64,
)
    requires
        !ring.closed,
        spins <= 1,
        deadline.limit_at(now) is Some,
    ensures
        ({
            let limit = deadline.limit_at(now)->0;
            let turn = turn_when_blocked(ring, config, entry, deadline, spins, sleep_us, now);
            &&& turn is Refused <==> now >= limit
            &&& turn matches BlockedTurn::Wait { nap_ns: Some(nap), .. } ==> now + nap <= limit
        }),
{
}

/// A writer does not spin for ever: each turn that spins leaves one less, so
/// that it looks at its deadline after as many turns as it had spins.
pub proof fn lemma_spinning_ends(
    ring: RingView,
    config: BackpressureConfig,
    entry: PendingEntry,
    deadline: DeadlineView,
    spins: nat,
    sleep_us: u64,
    now: u64,
)
    ensures
        turn_when_blocked(ring, config, entry, deadline, spins, sleep_us, now) is Spin ==> 0
            < spins_when_blocked(ring, config, spins) < spins,
{
}

/// A timeout is reported only after a full bound without progress.
pub proof fn lemma_timeout_covers_the_bound(
    ring: RingView,
    config: BackpressureConfig,
    entry: PendingEntry,
    deadline: DeadlineView,
    spins: nat,
    sleep_us: u64,
    now: u64,
)
    ensures
        turn_when_blocked(ring, config, entry, deadline, spins, sleep_us, now) matches
            BlockedTurn::Refused(blocked) ==> (blocked.kind matches AppendBlockedKind::TimedOut {
            waited_ns,
        } ==> deadline.bound_ms is Some && waited_ns >= deadline.bound_ms->0 * 1_000_000),
{
}

} // verus!
