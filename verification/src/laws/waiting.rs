//! What becomes of an append that found its stripe full.

use vstd::prelude::*;

use crate::backpressure::spin_budget;
use crate::completion::CompletionView;
use crate::concurrent::{
    attempted, waited_on, without, AppendDrainer, AppendTurn, AppendWait, BlockedAppend,
    BlockedView, ConcurrentWal, WalView,
};
use crate::concurrent_system::{ConcurrentWalSystem, SystemView};
use crate::deadline::{AppendBlockedKind, DeadlineView};
use crate::entry::PendingEntry;
use crate::error::{Error, ErrorView};
use crate::laws::appends::{gains_entry, same_entries};
use crate::text::{decimal, duration_text};

verus! {

broadcast use crate::power::lemma_wrap_near;

/// When the stall began that a writer is in which finds its stripe full at
/// `now`.
pub open spec fn stalled_since(deadline: DeadlineView, now: u64) -> u64 {
    match deadline.armed {
        Some(at) => at,
        None => now,
    }
}

/// Whether a writer that finds its stripe full at `now` has waited for as long
/// as it may.
pub open spec fn is_out_of_time(deadline: DeadlineView, now: u64) -> bool {
    &&& deadline.bound_ms is Some
    &&& stalled_since(deadline, now) + deadline.bound_ms->0 * 1_000_000 <= u64::MAX
    &&& now >= stalled_since(deadline, now) + deadline.bound_ms->0 * 1_000_000
}

/// Whether `nap_ns` is how long a writer sleeps that finds its stripe full at
/// `now` and wants to sleep for `sleep_us`: never past the end of its stall.
pub open spec fn is_nap(
    nap_ns: Option<u64>,
    deadline: DeadlineView,
    sleep_us: u64,
    now: u64,
) -> bool {
    let end = stalled_since(deadline, now) + deadline.bound_ms->0 * 1_000_000;
    let ends = deadline.bound_ms is Some && end <= u64::MAX;
    if sleep_us == 0 {
        nap_ns is None
    } else if ends && now + sleep_us * 1000 > end {
        nap_ns matches Some(ns) && ns == end - now
    } else if sleep_us * 1000 <= u64::MAX {
        nap_ns matches Some(ns) && ns == sleep_us * 1000
    } else {
        nap_ns == Some(u64::MAX)
    }
}

/// Whether `next` is how long a writer sleeps the next time that has slept for
/// `sleep_us` now.
pub open spec fn is_next_sleep(next: u64, sleep_us: u64) -> bool {
    if sleep_us == 0 {
        next == 0
    } else if sleep_us < 500 {
        next == 2 * sleep_us
    } else {
        next == 1000
    }
}

/// Whether `after` is `before` with its stall window open since before or since
/// `now`, if there is a bound at all.
pub open spec fn is_stalling(before: DeadlineView, after: DeadlineView, now: u64) -> bool {
    if before.bound_ms is Some {
        &&& after.bound_ms == before.bound_ms
        &&& after.armed == Some(stalled_since(before, now))
        &&& before.armed is Some ==> after.arms == before.arms
        &&& before.armed is None && before.arms < u32::MAX ==> after.arms == before.arms + 1
    } else {
        after == before
    }
}

/// What a writer is told that has waited for as long as it may.
pub open spec fn gave_up(
    waited_ns: u64,
    stripe: int,
    bound_ms: u64,
    drainer: AppendDrainer,
) -> Seq<char> {
    "WAL append gave up after waiting "@ + duration_text(waited_ns) + ": stripe "@ + decimal(
        stripe as nat,
    ) + " ring buffer full and nothing drained it within the "@ + decimal(bound_ms as nat)
        + " ms bound; "@ + if drainer == AppendDrainer::BackgroundFlusher {
        "the background flusher may be dead or wedged (check ConcurrentWalSystem::is_healthy)"@
    } else {
        "no consumer is draining the buffer (Synchronous mode drains on the calling thread, only after the append returns, so a batch larger than the total ring capacity can never fit)"@
    }
}

/// An append that is given up says why: that the buffer was closed, or how long
/// it waited for whom.
pub proof fn lemma_giving_up_says_why(
    wal: &ConcurrentWal,
    stripe: usize,
    drainer: AppendDrainer,
    waited_ns: u64,
    closed: Error,
    timed_out: Error,
)
    requires
        call_ensures(
            ConcurrentWal::map_append_blocked,
            (wal, AppendBlockedKind::Closed, stripe, drainer),
            closed,
        ),
        call_ensures(
            ConcurrentWal::map_append_blocked,
            (wal, AppendBlockedKind::TimedOut { waited_ns }, stripe, drainer),
            timed_out,
        ),
    ensures
        closed@ == ErrorView::Wal("WAL buffer closed"@),
        timed_out@ == ErrorView::Wal(
            gave_up(waited_ns, stripe as int, wal@.config.max_append_block_ms, drainer),
        ),
{
}

/// Whether `after` is `before` once an append has ended: one less is in flight.
pub open spec fn one_less_in_flight(before: WalView, after: WalView) -> bool {
    &&& before.active_batches > 0 ==> after.active_batches == before.active_batches - 1
    &&& before.active_batches == 0 ==> after.active_batches == usize::MAX
}

/// Whether `after` is `before` once the append of `entry` has failed: nobody
/// waits for it, and it is in no stripe.
pub open spec fn loses_append(before: WalView, after: WalView, entry: PendingEntry) -> bool {
    &&& same_entries(before, after)
    &&& one_less_in_flight(before, after)
    &&& after.completions == match entry.completion {
        Some(handle) => before.completions.remove(handle.0),
        None => before.completions,
    }
    &&& after == (WalView {
        active_batches: after.active_batches,
        completions: after.completions,
        ..before
    })
}

/// Whether `turn` and `after` are what a further attempt to place the entry of
/// `blocked` makes of `before`.
pub open spec fn retries_one(
    before: WalView,
    after: WalView,
    turn: AppendTurn,
    blocked: BlockedView,
) -> bool {
    let ring = before.stripes[blocked.stripe];
    if ring.closed {
        &&& turn matches AppendTurn::Refused(error)
        &&& error@ == ErrorView::Wal("WAL buffer closed"@)
        &&& loses_append(before, after, blocked.entry)
    } else if ring.pending.len() >= ring.capacity {
        &&& turn matches AppendTurn::Blocked(waiting)
        &&& waiting@ == blocked
        &&& after == before
    } else {
        &&& turn matches AppendTurn::Placed { lsn, handle }
        &&& lsn == blocked.entry.lsn
        &&& handle == blocked.entry.completion
        &&& gains_entry(before, after, blocked.stripe, blocked.entry)
        &&& one_less_in_flight(before, after)
        &&& after == (WalView {
            stripes: after.stripes,
            total_appends: after.total_appends,
            active_batches: after.active_batches,
            ..before
        })
    }
}

/// Whether `wait` and `after` are what a writer makes of `before` that finds
/// its stripe full at `now`.
pub open spec fn waits_one(
    before: WalView,
    after: WalView,
    wait: AppendWait,
    blocked: BlockedView,
    now: u64,
) -> bool {
    let ring = before.stripes[blocked.stripe];
    if ring.closed {
        &&& wait matches AppendWait::Refused(error)
        &&& error@ == ErrorView::Wal("WAL buffer closed"@)
        &&& loses_append(before, after, blocked.entry)
    } else if blocked.spins > 1 {
        &&& wait matches AppendWait::Spin { blocked: waiting }
        &&& waiting@ == (BlockedView { spins: (blocked.spins - 1) as nat, ..blocked })
        &&& after == before
    } else if is_out_of_time(blocked.deadline, now) {
        &&& wait matches AppendWait::Refused(error)
        &&& error@ == ErrorView::Wal(
            gave_up(
                (now - stalled_since(blocked.deadline, now)) as u64,
                blocked.stripe,
                before.config.max_append_block_ms,
                blocked.drainer,
            ),
        )
        &&& loses_append(before, after, blocked.entry)
    } else {
        &&& wait matches AppendWait::Nap { blocked: waiting, nap_ns }
        &&& is_nap(nap_ns, blocked.deadline, blocked.sleep_us, now)
        &&& is_next_sleep(waiting@.sleep_us, blocked.sleep_us)
        &&& is_stalling(blocked.deadline, waiting@.deadline, now)
        &&& waiting@ == (BlockedView {
            deadline: waiting@.deadline,
            spins: 2270,
            sleep_us: waiting@.sleep_us,
            ..blocked
        })
        &&& after == before
    }
}

proof fn lemma_dropping_one_waiter(board: Map<u64, CompletionView>, entry: PendingEntry)
    ensures
        without(board, seq![entry]) == match entry.completion {
            Some(handle) => board.remove(handle.0),
            None => board,
        },
{
    reveal_with_fuel(without, 2);
    assert(seq![entry].drop_last() =~= Seq::<PendingEntry>::empty());
}

proof fn lemma_attempted(before: WalView, after: WalView, turn: AppendTurn, blocked: BlockedView)
    requires
        0 <= blocked.stripe < before.stripes.len(),
        attempted(before, after, turn, blocked),
    ensures
        retries_one(before, after, turn, blocked),
{
    let entry = blocked.entry;
    let pending = before.stripes[blocked.stripe].pending;
    lemma_dropping_one_waiter(before.completions, entry);
    assert(pending + seq![entry].map_values(|e: PendingEntry| Some(e)) =~= pending.push(
        Some(entry),
    ));
}

proof fn lemma_waited_on(
    before: WalView,
    after: WalView,
    wait: AppendWait,
    blocked: BlockedView,
    now: u64,
)
    requires
        waited_on(before, after, wait, blocked, now),
    ensures
        waits_one(before, after, wait, blocked, now),
{
    lemma_dropping_one_waiter(before.completions, blocked.entry);
    reveal_with_fuel(spin_budget, 9);
}

/// A further attempt places the entry if there is room now, at the LSN that it
/// has; it goes on waiting if there is none, and fails if the stripe was closed.
pub proof fn lemma_retry_places_the_same_entry(
    wal: &mut ConcurrentWal,
    blocked: BlockedAppend,
    turn: AppendTurn,
    system: &mut ConcurrentWalSystem,
    system_turn: AppendTurn,
)
    requires
        0 <= blocked@.stripe < old(wal)@.stripes.len(),
        0 <= blocked@.stripe < old(system)@.wal.stripes.len(),
        call_ensures(ConcurrentWal::append_retry, (wal, blocked), turn),
        call_ensures(ConcurrentWalSystem::append_retry, (system, blocked), system_turn),
    ensures
        retries_one(old(wal)@, final(wal)@, turn, blocked@),
        retries_one(old(system)@.wal, final(system)@.wal, system_turn, blocked@),
        final(system)@ == (SystemView { wal: final(system)@.wal, ..old(system)@ }),
{
    lemma_attempted(old(wal)@, final(wal)@, turn, blocked@);
    lemma_attempted(old(system)@.wal, final(system)@.wal, system_turn, blocked@);
}

/// A writer that finds its stripe full spins, then sleeps for longer and longer,
/// and gives up at the end of its stall window and not before. On a closed
/// stripe it gives up at once.
pub proof fn lemma_blocked_append_gives_up_in_time(
    wal: &mut ConcurrentWal,
    blocked: BlockedAppend,
    now: u64,
    wait: AppendWait,
    system: &mut ConcurrentWalSystem,
    system_wait: AppendWait,
)
    requires
        call_ensures(ConcurrentWal::append_blocked, (wal, blocked, now), wait),
        call_ensures(ConcurrentWalSystem::append_blocked, (system, blocked, now), system_wait),
    ensures
        waits_one(old(wal)@, final(wal)@, wait, blocked@, now),
        waits_one(old(system)@.wal, final(system)@.wal, system_wait, blocked@, now),
        final(system)@ == (SystemView { wal: final(system)@.wal, ..old(system)@ }),
{
    lemma_waited_on(old(wal)@, final(wal)@, wait, blocked@, now);
    lemma_waited_on(old(system)@.wal, final(system)@.wal, system_wait, blocked@, now);
}

} // verus!
