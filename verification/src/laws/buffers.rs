//! What the ring buffers, the stripes and the LSN allocator hand out.

use vstd::arithmetic::power2::pow2;
use vstd::prelude::*;

use crate::backpressure::{BackpressureConfig, SpinBackoff};
use crate::completion::{CompletionBoard, CompletionState};
use crate::deadline::{AppendBlockedKind, AppendDeadline};
use crate::entry::{lemma_discarded_entries_are_answered, PendingEntry};
use crate::lsn::{LsnAllocator, LSN};
use crate::power::next_power_of_two;
use crate::ring_buffer::{
    lemma_append_is_drained_last, lemma_ready_stops_at_hole, BlockedTurn, ClaimOutcome,
    RingView, WalRingBuffer,
};
use crate::sort::{lemma_sort_is_a_permutation, sort_by_lsn, with_lsn};
use crate::stripe::{StripeMetrics, WalStripe};

verus! {

broadcast use crate::power::lemma_wrap_near;

/// Rounding up gives the first power of two that is large enough.
pub proof fn lemma_rounding_up(n: usize, p: usize)
    requires
        call_ensures(next_power_of_two, (n,), p),
    ensures
        exists|e: nat| p == #[trigger] pow2(e),
        n <= p,
        n >= 1 ==> p < 2 * n,
        n <= 1 ==> p == 1,
        forall|e: nat| n <= #[trigger] pow2(e) ==> p <= pow2(e),
{
    vstd::arithmetic::power2::lemma2_to64();
    if n <= 1 {
        assert(n <= pow2(0) ==> p <= pow2(0));
        let e = choose|e: nat| p == #[trigger] pow2(e);
        vstd::arithmetic::power2::lemma_pow2_pos(e);
    }
}

/// A new buffer is open and empty, and has room for what was asked for, rounded
/// up to a power of two.
pub proof fn lemma_new_buffer_has_the_room_asked_for(capacity: usize, ring: WalRingBuffer)
    requires
        call_ensures(WalRingBuffer::new, (capacity,), ring),
    ensures
        capacity <= ring@.capacity,
        exists|e: nat| ring@.capacity == #[trigger] pow2(e),
        forall|e: nat| capacity <= #[trigger] pow2(e) ==> ring@.capacity <= pow2(e),
        ring@.pending.len() == 0,
        !ring@.closed,
        ring@.read_pos == 0,
        ring.config().initial_spins == 10 && ring.config().max_spins == 1000,
        ring.config().base_sleep_us == 1 && ring.config().max_sleep_us == 1000,
{
}

/// The same for a buffer with a backpressure of its own, and for one with the
/// default capacity of 1024 slots.
pub proof fn lemma_new_buffer_is_as_configured(
    capacity: usize,
    config: BackpressureConfig,
    ring: WalRingBuffer,
    standard: WalRingBuffer,
    pos: u64,
)
    requires
        call_ensures(WalRingBuffer::with_config, (capacity, config), ring),
        call_ensures(WalRingBuffer::with_default_capacity, (), standard),
        call_ensures(WalRingBuffer::read_pos, (&ring,), pos),
    ensures
        capacity <= ring@.capacity,
        exists|e: nat| ring@.capacity == #[trigger] pow2(e),
        forall|e: nat| capacity <= #[trigger] pow2(e) ==> ring@.capacity <= pow2(e),
        ring@.pending.len() == 0,
        !ring@.closed,
        pos == 0,
        ring.config() == config,
        standard@.capacity == 1024,
        standard@.pending.len() == 0,
        !standard@.closed,
        standard@.read_pos == 0,
        standard.config().initial_spins == 10 && standard.config().max_spins == 1000,
        standard.config().base_sleep_us == 1 && standard.config().max_sleep_us == 1000,
{
}

/// Only an empty buffer is set to another position, and nothing else of it
/// changes.
pub proof fn lemma_only_an_empty_buffer_restarts(
    ring: &mut WalRingBuffer,
    pos: u64,
    done: bool,
    at: u64,
)
    requires
        call_ensures(WalRingBuffer::restart_at, (ring, pos), done),
        call_ensures(WalRingBuffer::read_pos, (&*final(ring),), at),
    ensures
        done <==> old(ring)@.pending.len() == 0,
        done ==> at == pos && final(ring)@ == (RingView { read_pos: pos, ..old(ring)@ }),
        !done ==> final(ring)@ == old(ring)@,
{
}

/// A position that may be claimed or holds an entry has a slot: its number is
/// the position until an entry is published at it, and one more from then on.
pub proof fn lemma_slot_numbers_tell_what_is_published(
    ring: &WalRingBuffer,
    k: int,
    pos: u64,
    sequence: Option<u64>,
)
    requires
        ring.wf(),
        0 <= k < ring@.capacity,
        ring@.read_pos + k < u64::MAX,
        pos == ring@.read_pos + k,
        call_ensures(WalRingBuffer::sequence_of, (ring, pos), sequence),
    ensures
        k < ring@.pending.len() && ring@.pending[k] is Some ==> (sequence matches Some(number)
            && number == pos + 1),
        k < ring@.pending.len() && ring@.pending[k] is None ==> sequence == Some(pos),
        k >= ring@.pending.len() ==> sequence == Some(pos),
{
}

/// An append succeeds on an open buffer that is not full, and on no other: the
/// entry is placed behind all others. Otherwise it is handed back, and nothing
/// has changed.
pub proof fn lemma_append_takes_the_next_slot(
    ring: &mut WalRingBuffer,
    entry: PendingEntry,
    result: Result<(), PendingEntry>,
)
    requires
        call_ensures(WalRingBuffer::try_append, (ring, entry), result),
    ensures
        result is Ok <==> !old(ring)@.closed && old(ring)@.pending.len() < old(ring)@.capacity,
        result is Ok ==> {
            &&& final(ring)@.pending == old(ring)@.pending.push(Some(entry))
            &&& final(ring)@.read_pos == old(ring)@.read_pos
            &&& final(ring)@.capacity == old(ring)@.capacity
            &&& !final(ring)@.closed
        },
        result matches Err(back) ==> back == entry && final(ring)@ == old(ring)@,
{
}

/// A drain hands out, in the order in which their slots were taken, the entries
/// up to the first slot whose entry is still missing, and exactly those leave
/// the buffer.
pub proof fn lemma_drain_hands_out_in_order(ring: &mut WalRingBuffer, entries: Vec<PendingEntry>)
    requires
        call_ensures(WalRingBuffer::drain, (ring,), entries),
    ensures
        entries@.len() <= old(ring)@.pending.len(),
        forall|i: int|
            0 <= i < entries@.len() ==> old(ring)@.pending[i] == Some(#[trigger] entries@[i]),
        entries@.len() < old(ring)@.pending.len() ==> old(ring)@.pending[entries@.len() as int]
            is None,
        final(ring)@.pending == old(ring)@.pending.skip(entries@.len() as int),
        final(ring)@.read_pos as int == (old(ring)@.read_pos + entries@.len())
            % 0x1_0000_0000_0000_0000,
        final(ring)@.capacity == old(ring)@.capacity,
        final(ring)@.closed == old(ring)@.closed,
{
    reveal(crate::power::wrap);
    lemma_ready_stops_at_hole(old(ring)@);
}

/// What was appended last is drained last, behind everything that was there.
pub proof fn lemma_append_then_drain(
    ring: &mut WalRingBuffer,
    entry: PendingEntry,
    result: Result<(), PendingEntry>,
    full: &mut WalRingBuffer,
    entries: Vec<PendingEntry>,
)
    requires
        call_ensures(WalRingBuffer::try_append, (ring, entry), result),
        result is Ok,
        forall|i: int|
            0 <= i < old(ring)@.pending.len() ==> #[trigger] old(ring)@.pending[i] is Some,
        *old(full) == *final(ring),
        call_ensures(WalRingBuffer::drain, (full,), entries),
    ensures
        entries@.len() == old(ring)@.pending.len() + 1,
        entries@.last() == entry,
        forall|i: int|
            0 <= i < old(ring)@.pending.len() ==> Some(#[trigger] entries@[i])
                == old(ring)@.pending[i],
        final(full)@.pending.len() == 0,
{
    lemma_ready_stops_at_hole(old(ring)@);
    lemma_append_is_drained_last(old(ring)@, entry);
}

/// A claim gets the slot behind all others, if there is one free, and only the
/// writer that names its position gets it.
pub proof fn lemma_claim_takes_the_next_position(
    ring: &mut WalRingBuffer,
    observed: u64,
    outcome: ClaimOutcome,
    position: u64,
)
    requires
        call_ensures(WalRingBuffer::write_pos, (&*old(ring),), position),
        call_ensures(WalRingBuffer::claim, (ring, observed), outcome),
        old(ring)@.pending.len() <= old(ring)@.capacity <= usize::MAX,
    ensures
        position as int == (old(ring)@.read_pos + old(ring)@.pending.len())
            % 0x1_0000_0000_0000_0000,
        outcome == ClaimOutcome::Claimed <==> observed == position && old(ring)@.pending.len()
            < old(ring)@.capacity,
        observed == position && old(ring)@.pending.len() >= old(ring)@.capacity ==> outcome
            == ClaimOutcome::Full,
        outcome == ClaimOutcome::Claimed ==> final(ring)@.pending == old(ring)@.pending.push(None),
        outcome != ClaimOutcome::Claimed ==> final(ring)@ == old(ring)@,
        final(ring)@.read_pos == old(ring)@.read_pos,
        final(ring)@.capacity == old(ring)@.capacity,
        final(ring)@.closed == old(ring)@.closed,
{
    reveal(crate::power::wrap);
}

/// A writer that names a position of this cycle other than the next one has come
/// too late; one that names a position of the next cycle finds its slot taken;
/// and one that is further off than that has an outdated position.
pub proof fn lemma_other_positions_are_not_claimed(
    ring: &mut WalRingBuffer,
    k: int,
    observed: u64,
    outcome: ClaimOutcome,
)
    requires
        0 < old(ring)@.capacity <= usize::MAX,
        old(ring)@.pending.len() <= old(ring)@.capacity,
        0 <= k < 0x1_0000_0000_0000_0000,
        k != old(ring)@.pending.len(),
        observed as int == (old(ring)@.read_pos + k) % 0x1_0000_0000_0000_0000,
        call_ensures(WalRingBuffer::claim, (ring, observed), outcome),
    ensures
        k < old(ring)@.capacity ==> outcome == ClaimOutcome::Stale,
        old(ring)@.capacity <= k < 2 * old(ring)@.capacity ==> outcome == ClaimOutcome::Full,
        2 * old(ring)@.capacity <= k && old(ring)@.capacity > 1 ==> outcome
            == ClaimOutcome::Stale,
        final(ring)@ == old(ring)@,
{
    reveal(crate::power::wrap);
    let c = old(ring)@.capacity as int;
    let m = k % c;
    let q = k / c;
    vstd::arithmetic::div_mod::lemma_fundamental_div_mod(k, c);
    vstd::arithmetic::div_mod::lemma_mod_bound(k, c);
    assert(c <= k < 2 * c ==> c * q == c) by (nonlinear_arith)
        requires
            k == c * q + m,
            0 <= m < c,
    ;
    assert(2 * c <= k ==> q >= 2 && c * q >= 2 * c) by (nonlinear_arith)
        requires
            k == c * q + m,
            0 <= m < c,
    ;
}

/// An entry is published at the position that was claimed for it, once.
pub proof fn lemma_publish_fills_the_claimed_slot(
    ring: &mut WalRingBuffer,
    k: int,
    pos: u64,
    entry: PendingEntry,
    result: Result<(), PendingEntry>,
)
    requires
        call_ensures(WalRingBuffer::publish, (ring, pos, entry), result),
        0 <= k < 0x1_0000_0000_0000_0000,
        pos as int == (old(ring)@.read_pos + k) % 0x1_0000_0000_0000_0000,
    ensures
        result is Ok <==> k < old(ring)@.pending.len() && old(ring)@.pending[k] is None,
        result is Ok ==> final(ring)@.pending == old(ring)@.pending.update(k, Some(entry)),
        result matches Err(back) ==> back == entry && final(ring)@ == old(ring)@,
        final(ring)@.capacity == old(ring)@.capacity,
        final(ring)@.closed == old(ring)@.closed,
        final(ring)@.read_pos == old(ring)@.read_pos,
{
    reveal(crate::power::wrap);
}

/// The reader takes the first entry, if it is there, and nothing else.
pub proof fn lemma_take_removes_the_first_entry(
    ring: &mut WalRingBuffer,
    entry: Option<PendingEntry>,
)
    requires
        call_ensures(WalRingBuffer::take_next, (ring,), entry),
    ensures
        old(ring)@.pending.len() == 0 ==> entry is None,
        old(ring)@.pending.len() > 0 ==> entry == old(ring)@.pending[0],
        entry is None ==> final(ring)@ == old(ring)@,
        entry is Some ==> final(ring)@.pending == old(ring)@.pending.skip(1),
        final(ring)@.capacity == old(ring)@.capacity,
        final(ring)@.closed == old(ring)@.closed,
{
}

/// Closing a buffer keeps what is in it and refuses everything else.
pub proof fn lemma_closed_buffer_keeps_its_entries(
    ring: &mut WalRingBuffer,
    shut: &mut WalRingBuffer,
    entry: PendingEntry,
    result: Result<(), PendingEntry>,
    closed: bool,
)
    requires
        call_ensures(WalRingBuffer::close, (ring,), ()),
        call_ensures(WalRingBuffer::is_closed, (&*final(ring),), closed),
        *old(shut) == *final(ring),
        call_ensures(WalRingBuffer::try_append, (shut, entry), result),
    ensures
        closed,
        final(ring)@.pending == old(ring)@.pending,
        final(ring)@.read_pos == old(ring)@.read_pos,
        final(ring)@.capacity == old(ring)@.capacity,
        result == Err::<(), PendingEntry>(entry),
{
}

/// The length of a buffer is the number of slots that are taken.
pub proof fn lemma_length_counts_slots(ring: WalRingBuffer, len: usize, empty: bool, room: usize)
    requires
        call_ensures(WalRingBuffer::len_approx, (&ring,), len),
        call_ensures(WalRingBuffer::is_empty_approx, (&ring,), empty),
        call_ensures(WalRingBuffer::capacity, (&ring,), room),
    ensures
        len == ring@.pending.len(),
        empty <==> ring@.pending.len() == 0,
        room == ring@.capacity,
{
}

/// Throwing away what a buffer holds closes it, empties it up to the first slot
/// whose entry is missing, and leaves none of the waiters hanging.
pub proof fn lemma_discarding_a_buffer_answers_its_waiters(
    ring: &mut WalRingBuffer,
    board: &mut CompletionBoard,
    count: usize,
    i: int,
)
    requires
        call_ensures(WalRingBuffer::discard_remaining, (ring, board), count),
        0 <= i < count,
    ensures
        final(ring)@.closed,
        final(ring)@.pending == old(ring)@.pending.skip(count as int),
        count <= old(ring)@.pending.len(),
        count < old(ring)@.pending.len() ==> old(ring)@.pending[count as int] is None,
        old(ring)@.pending[i] is Some,
        old(ring)@.pending[i]->0.completion matches Some(handle)
            ==> !final(board)@.contains_key(handle.0) || final(board)@[handle.0].state
            != CompletionState::Pending,
{
    lemma_ready_stops_at_hole(old(ring)@);
    let ready = old(ring)@.ready();
    assert(old(ring)@.pending[i] == Some(ready[i]));
    if ready[i].completion is Some {
        lemma_discarded_entries_are_answered(old(board)@, ready, i);
    }
}

/// A stripe has the number and the room that it was made with.
pub proof fn lemma_new_stripe(
    id: usize,
    capacity: usize,
    stripe: WalStripe,
    number: usize,
    metrics: StripeMetrics,
)
    requires
        call_ensures(WalStripe::with_capacity, (id, capacity), stripe),
        call_ensures(WalStripe::id, (&stripe,), number),
        call_ensures(WalStripe::metrics, (&stripe,), metrics),
        stripe@.capacity <= usize::MAX,
    ensures
        number == id,
        capacity <= stripe@.capacity,
        exists|e: nat| stripe@.capacity == #[trigger] pow2(e),
        forall|e: nat| capacity <= #[trigger] pow2(e) ==> stripe@.capacity <= pow2(e),
        stripe@.pending.len() == 0,
        !stripe@.closed,
        metrics.stripe_id == id,
        metrics.pending_count == 0,
        metrics.capacity == stripe@.capacity,
{
}

/// What a stripe takes it hands out again, and it reports how much it holds.
pub proof fn lemma_stripe_holds_its_entries(
    stripe: &mut WalStripe,
    entry: PendingEntry,
    result: Result<(), PendingEntry>,
    full: &mut WalStripe,
    entries: Vec<PendingEntry>,
    count: usize,
    metrics: StripeMetrics,
)
    requires
        old(stripe).wf(),
        call_ensures(WalStripe::try_append, (stripe, entry), result),
        call_ensures(WalStripe::pending_count, (&*final(stripe),), count),
        call_ensures(WalStripe::metrics, (&*final(stripe),), metrics),
        *old(full) == *final(stripe),
        call_ensures(WalStripe::drain, (full,), entries),
    ensures
        result is Ok <==> !old(stripe)@.closed && old(stripe)@.pending.len()
            < old(stripe)@.capacity,
        result matches Err(back) ==> back == entry && final(stripe)@ == old(stripe)@,
        result is Ok ==> {
            &&& count == old(stripe)@.pending.len() + 1
            &&& entries@.last() == entry
        },
        entries@.len() == count,
        metrics.pending_count == count,
        metrics.stripe_id == old(stripe).spec_id(),
        metrics.capacity == old(stripe)@.capacity,
        forall|i: int|
            0 <= i < old(stripe)@.pending.len() ==> Some(#[trigger] entries@[i])
                == old(stripe)@.pending[i],
        final(full)@.pending.len() == 0,
        final(full)@.closed == old(stripe)@.closed,
{
    old(stripe).lemma_bounds();
    lemma_ready_stops_at_hole(old(stripe)@);
    lemma_append_is_drained_last(old(stripe)@, entry);
}

/// A writer that is blocked on a stripe is refused if the stripe is closed, or
/// from the end of its stall window on once it has spun out, and never else.
pub proof fn lemma_stripe_refuses_like_its_buffer(
    stripe: WalStripe,
    entry: PendingEntry,
    deadline: &mut AppendDeadline,
    backoff: &mut SpinBackoff,
    sleep_us: u64,
    now: u64,
    turn: BlockedTurn,
)
    requires
        call_ensures(
            WalStripe::blocked_turn,
            (&stripe, entry, deadline, backoff, sleep_us, now),
            turn,
        ),
    ensures
        ({
            let opened = match old(deadline)@.armed {
                Some(at) => at,
                None => now,
            };
            let bound_ms = old(deadline)@.bound_ms;
            let end = opened + bound_ms->0 * 1_000_000;
            let late = bound_ms is Some && end <= u64::MAX && now >= end;
            &&& stripe@.closed ==> (turn matches BlockedTurn::Refused(refused) && refused.kind
                == AppendBlockedKind::Closed && refused.entry == entry)
            &&& !stripe@.closed && old(backoff)@ > 1 ==> turn == (BlockedTurn::Spin { entry })
            &&& !stripe@.closed && old(backoff)@ <= 1 && late ==> (turn
                matches BlockedTurn::Refused(refused) && refused.kind is TimedOut && refused.entry
                == entry)
            &&& !stripe@.closed && old(backoff)@ <= 1 && !late ==> (turn
                matches BlockedTurn::Wait { entry: back, .. } && back == entry)
        }),
{
}

/// Closing a stripe keeps what is in it.
pub proof fn lemma_closed_stripe_keeps_its_entries(stripe: &mut WalStripe, closed: bool)
    requires
        call_ensures(WalStripe::close, (stripe,), ()),
        call_ensures(WalStripe::is_closed, (&*final(stripe),), closed),
    ensures
        closed,
        final(stripe)@.pending == old(stripe)@.pending,
        final(stripe)@.capacity == old(stripe)@.capacity,
        final(stripe).spec_id() == old(stripe).spec_id(),
{
}

/// Sorting puts entries in LSN order, keeps every one of them as often as it
/// was there, and keeps entries of the same LSN in their order.
pub proof fn lemma_sort_orders_and_keeps(
    entries: Vec<PendingEntry>,
    sorted: Vec<PendingEntry>,
    lsn: LSN,
)
    requires
        call_ensures(sort_by_lsn, (entries,), sorted),
    ensures
        forall|i: int, j: int|
            #![trigger sorted@[i], sorted@[j]]
            0 <= i <= j < sorted@.len() ==> sorted@[i].lsn.0 <= sorted@[j].lsn.0,
        sorted@.to_multiset() == entries@.to_multiset(),
        sorted@.filter(|e: PendingEntry| e.lsn == lsn) == entries@.filter(
            |e: PendingEntry| e.lsn == lsn,
        ),
{
    lemma_sort_is_a_permutation(sorted@, entries@);
    assert(with_lsn(sorted@, lsn) == with_lsn(entries@, lsn));
}

/// The first LSN is 1. Each reservation begins where the last one ended, and
/// the current LSN is the one behind all that were reserved.
pub proof fn lemma_allocator_counts(
    fresh: LsnAllocator,
    allocator: &mut LsnAllocator,
    lsn: LSN,
    batch: &mut LsnAllocator,
    count: u64,
    first: LSN,
    current: LSN,
)
    requires
        call_ensures(LsnAllocator::new, (), fresh),
        call_ensures(LsnAllocator::allocate, (allocator,), lsn),
        *old(batch) == *final(allocator),
        call_ensures(LsnAllocator::allocate_batch, (batch, count), first),
        call_ensures(LsnAllocator::current, (&*final(batch),), current),
        old(allocator)@ + 1 + count <= u64::MAX,
    ensures
        fresh@ == 1,
        lsn == LSN(old(allocator)@),
        first.0 == lsn.0 + 1,
        current.0 == first.0 + count,
{
}

/// Recovery raises the next LSN and never lowers it.
pub proof fn lemma_allocator_is_only_raised(allocator: &mut LsnAllocator, lsn: LSN, current: LSN)
    requires
        call_ensures(LsnAllocator::set_next, (allocator, lsn), ()),
        call_ensures(LsnAllocator::current, (&*final(allocator),), current),
    ensures
        lsn.0 >= old(allocator)@ ==> current == lsn,
        lsn.0 <= old(allocator)@ ==> current.0 == old(allocator)@,
{
}

} // verus!
