//! How a batch of operations gets into the log.

use vstd::prelude::*;

use crate::backpressure::spin_budget;
use crate::completion::{CompletionHandle, CompletionState, CompletionView};
use crate::concurrent::{
    batch_attempted, batch_encoded, batch_encoding_fails, batch_started, batch_starting,
    batch_waited_on, fresh_batch, slow_report, stripe_of, with_waiters, AppendDrainer, BatchTurn,
    BatchView, BatchWait, BlockedBatch, ConcurrentWal, WalView,
};
use crate::concurrent_system::{ConcurrentWalSystem, SystemView};
use crate::deadline::DeadlineView;
use crate::entry::PendingEntry;
use crate::error::{Error, ErrorView};
use crate::laws::appends::{is_serialized, is_unserializable};
use crate::laws::waiting::{
    gave_up, is_nap, is_next_sleep, is_out_of_time, is_stalling, one_less_in_flight,
    stalled_since,
};
use crate::lsn::LSN;
use crate::operation::{EntryCodec, WalOperation};
use crate::ring_buffer::RingView;
use crate::text::decimal;

verus! {

broadcast use crate::power::lemma_wrap_near;

/// How many more entries a stripe takes.
pub open spec fn free_slots(ring: RingView) -> int {
    if ring.closed || ring.pending.len() >= ring.capacity {
        0
    } else {
        ring.capacity - ring.pending.len()
    }
}

/// Whether `after` is `before` with the first `n` of `entries` behind all that
/// is in their stripe, in order.
pub open spec fn gains_entries(
    before: WalView,
    after: WalView,
    stripe: int,
    entries: Seq<PendingEntry>,
    n: int,
) -> bool {
    let ring = before.stripes[stripe];
    &&& 0 <= n <= entries.len()
    &&& n <= free_slots(ring)
    &&& after.stripes.len() == before.stripes.len()
    &&& after.stripes[stripe].pending.len() == ring.pending.len() + n
    &&& forall|i: int|
        0 <= i < ring.pending.len() ==> #[trigger] after.stripes[stripe].pending[i]
            == ring.pending[i]
    &&& forall|i: int|
        0 <= i < n ==> after.stripes[stripe].pending[ring.pending.len() + i] == Some(
            #[trigger] entries[i],
        )
    &&& after.stripes[stripe].capacity == ring.capacity
    &&& after.stripes[stripe].read_pos == ring.read_pos
    &&& after.stripes[stripe].closed == ring.closed
    &&& forall|k: int|
        0 <= k < before.stripes.len() && k != stripe ==> #[trigger] after.stripes[k]
            == before.stripes[k]
    &&& before.total_appends + n <= u64::MAX ==> after.total_appends == before.total_appends + n
}

/// Whether `after` is `before` without waiters for `handles`.
pub open spec fn drops_waiters(
    before: Map<u64, CompletionView>,
    after: Map<u64, CompletionView>,
    handles: Seq<CompletionHandle>,
) -> bool {
    forall|ticket: u64|
        #![trigger after.contains_key(ticket)]
        #![trigger before.contains_key(ticket)]
        {
            &&& after.contains_key(ticket) <==> before.contains_key(ticket) && !handles.contains(
                CompletionHandle(ticket),
            )
            &&& after.contains_key(ticket) ==> after[ticket] == before[ticket]
        }
}

/// Whether a batch that was held up since `origin` is due for a diagnostic at
/// `now`, after `reports` of them: one for each bound that has passed.
pub open spec fn is_due(
    bound_ms: u64,
    origin: u64,
    now: u64,
    reports: u32,
    elapsed_ms: u64,
    due: u32,
) -> bool {
    &&& bound_ms > 0
    &&& elapsed_ms as int == if now >= origin {
        (now - origin) / 1_000_000
    } else {
        0
    }
    &&& due as int == if elapsed_ms as int / bound_ms as int <= u32::MAX {
        elapsed_ms as int / bound_ms as int
    } else {
        u32::MAX as int
    }
    &&& due > reports
}

/// The diagnostic of a batch that is slow.
pub open spec fn slow_batch_text(
    placed: nat,
    total: nat,
    elapsed_ms: u64,
    due: u32,
    bound_ms: u64,
) -> Seq<char> {
    "WAL append_batch is progressing but slow: "@ + decimal(placed) + "/"@ + decimal(total)
        + " entries placed after "@ + decimal(elapsed_ms as nat) + "ms, which is past "@ + decimal(
        due as nat,
    ) + " stall window(s) of "@ + decimal(bound_ms as nat)
        + "ms. The drainer is alive (each window saw progress, so the batch is NOT being failed), but it is freeing slots barely fast enough, and this call holds the commit path for its whole duration. Consider is_healthy(), the flush thread's stats, and disk throughput."@
}

/// When a batch that makes progress was first held up.
pub open spec fn held_up_since(batch: BatchView) -> Option<u64> {
    if batch.slow_since is Some {
        batch.slow_since
    } else {
        batch.deadline.armed
    }
}

/// Whether `diagnostic` is handed out exactly if the batch is narrated, was held
/// up, gets some of its entries placed now, and is due; `reports` counts it.
pub open spec fn is_narrated(
    before: WalView,
    after: WalView,
    diagnostic: Option<String>,
    batch: BatchView,
    now: u64,
    placing: int,
    reports: u32,
) -> bool {
    let bound_ms = before.config.max_append_block_ms;
    if placing > 0 && batch.narrated && batch.deadline.armed is Some && exists|
        elapsed_ms: u64,
        due: u32,
    | #[trigger]
        is_due(bound_ms, held_up_since(batch)->0, now, batch.reports, elapsed_ms, due) {
        &&& diagnostic matches Some(text)
        &&& exists|elapsed_ms: u64, due: u32|
            {
                &&& #[trigger] is_due(
                    bound_ms,
                    held_up_since(batch)->0,
                    now,
                    batch.reports,
                    elapsed_ms,
                    due,
                )
                &&& text@ == slow_batch_text(
                    batch.placed + 1,
                    batch.lsns.len(),
                    elapsed_ms,
                    due,
                    bound_ms,
                )
                &&& reports == due
            }
        &&& before.slow_reports < u64::MAX ==> after.slow_reports == before.slow_reports + 1
    } else {
        &&& diagnostic is None
        &&& reports == batch.reports
        &&& after.slow_reports == before.slow_reports
    }
}

/// Whether `after` is `before` once `batch` has ended: one append less is in
/// flight, and a narrated batch leaves behind how often it stalled.
pub open spec fn ends_batch(before: WalView, after: WalView, batch: BatchView) -> bool {
    &&& one_less_in_flight(before, after)
    &&& after.last_batch_arms == if batch.narrated {
        batch.deadline.arms
    } else {
        before.last_batch_arms
    }
}

/// Whether `after` differs from `before` in what batches change only.
pub open spec fn same_but_batches(before: WalView, after: WalView) -> bool {
    after == (WalView {
        stripes: after.stripes,
        total_appends: after.total_appends,
        active_batches: after.active_batches,
        completions: after.completions,
        last_batch_arms: after.last_batch_arms,
        slow_reports: after.slow_reports,
        ..before
    })
}

/// Whether `turn`, `diagnostic` and `after` are what a further attempt at `now`
/// to place the rest of `batch` makes of `before`: as much is placed as there is
/// room for, in order.
pub open spec fn retries_batch(
    before: WalView,
    after: WalView,
    turn: BatchTurn,
    diagnostic: Option<String>,
    batch: BatchView,
    now: u64,
) -> bool {
    let ring = before.stripes[batch.stripe];
    let room = free_slots(ring);
    &&& same_but_batches(before, after)
    &&& if batch.rest.len() <= room {
        &&& turn matches BatchTurn::Placed { lsns, handles }
        &&& lsns@ == batch.lsns
        &&& handles@ == batch.handles
        &&& gains_entries(before, after, batch.stripe, batch.rest, batch.rest.len() as int)
        &&& ends_batch(before, after, batch)
        &&& after.completions == before.completions
        &&& exists|reports: u32| #[trigger]
            is_narrated(before, after, diagnostic, batch, now, batch.rest.len() as int, reports)
    } else if ring.closed {
        &&& turn matches BatchTurn::Refused(error)
        &&& error@ == ErrorView::Wal("WAL buffer closed"@)
        &&& diagnostic is None
        &&& after.stripes == before.stripes
        &&& after.total_appends == before.total_appends
        &&& after.slow_reports == before.slow_reports
        &&& ends_batch(before, after, batch)
        &&& drops_waiters(before.completions, after.completions, batch.handles)
    } else {
        &&& turn matches BatchTurn::Blocked(waiting)
        &&& gains_entries(before, after, batch.stripe, batch.rest, room)
        &&& after.active_batches == before.active_batches
        &&& after.last_batch_arms == before.last_batch_arms
        &&& after.completions == before.completions
        &&& is_narrated(before, after, diagnostic, batch, now, room, waiting@.reports)
        &&& room == 0 ==> waiting@ == batch
        &&& room > 0 ==> waiting@ == (BatchView {
            rest: batch.rest.skip(room),
            placed: (batch.placed + room) as nat,
            deadline: DeadlineView { armed: None, ..batch.deadline },
            spins: 2270,
            sleep_us: 1,
            slow_since: if batch.narrated {
                held_up_since(batch)
            } else {
                batch.slow_since
            },
            reports: waiting@.reports,
            ..batch
        })
    }
}

/// Whether `wait` and `after` are what a batch makes of `before` that finds its
/// stripe full at `now`.
pub open spec fn waits_batch(
    before: WalView,
    after: WalView,
    wait: BatchWait,
    batch: BatchView,
    now: u64,
) -> bool {
    let ring = before.stripes[batch.stripe];
    if ring.closed {
        &&& wait matches BatchWait::Refused(error)
        &&& error@ == ErrorView::Wal("WAL buffer closed"@)
        &&& gives_up_batch(before, after, batch)
        &&& ends_batch(before, after, batch)
    } else if batch.spins > 1 {
        &&& wait matches BatchWait::Spin { blocked }
        &&& blocked@ == (BatchView { spins: (batch.spins - 1) as nat, ..batch })
        &&& after == before
    } else if is_out_of_time(batch.deadline, now) {
        &&& wait matches BatchWait::Refused(error)
        &&& error@ == ErrorView::Wal(
            gave_up(
                (now - stalled_since(batch.deadline, now)) as u64,
                batch.stripe,
                before.config.max_append_block_ms,
                batch.drainer,
            ),
        )
        &&& gives_up_batch(before, after, batch)
        &&& one_less_in_flight(before, after)
        &&& !batch.narrated ==> after.last_batch_arms == before.last_batch_arms
        &&& batch.narrated && batch.deadline.armed is Some ==> after.last_batch_arms
            == batch.deadline.arms
    } else {
        &&& wait matches BatchWait::Nap { blocked, nap_ns }
        &&& is_nap(nap_ns, batch.deadline, batch.sleep_us, now)
        &&& is_next_sleep(blocked@.sleep_us, batch.sleep_us)
        &&& is_stalling(batch.deadline, blocked@.deadline, now)
        &&& blocked@ == (BatchView {
            deadline: blocked@.deadline,
            spins: 2270,
            sleep_us: blocked@.sleep_us,
            ..batch
        })
        &&& after == before
    }
}

/// Whether `after` is `before` once `batch` has failed: nobody waits for it any
/// more, and what was placed of it stays.
pub open spec fn gives_up_batch(before: WalView, after: WalView, batch: BatchView) -> bool {
    &&& after.stripes == before.stripes
    &&& after.total_appends == before.total_appends
    &&& after.slow_reports == before.slow_reports
    &&& drops_waiters(before.completions, after.completions, batch.handles)
    &&& same_but_batches(before, after)
}

proof fn lemma_narration(bound_ms: u64, origin: u64, now: u64, reports: u32)
    ensures
        match slow_report(bound_ms, origin, now, reports) {
            Some((elapsed_ms, due)) => is_due(bound_ms, origin, now, reports, elapsed_ms, due),
            None => forall|elapsed_ms: u64, due: u32|
                !is_due(bound_ms, origin, now, reports, elapsed_ms, due),
        },
{
    let elapsed = if now >= origin {
        now - origin
    } else {
        0
    };
    assert(0 <= elapsed / 1_000_000 <= u64::MAX);
    if bound_ms > 0 {
        let windows = (elapsed / 1_000_000) / bound_ms as int;
        assert(0 <= windows) by (nonlinear_arith)
            requires
                elapsed >= 0,
                bound_ms > 0,
                windows == (elapsed / 1_000_000) / bound_ms as int,
        ;
    }
}

/// What the contract of a further attempt says.
pub proof fn lemma_batch_attempted(
    before: WalView,
    after: WalView,
    turn: BatchTurn,
    diagnostic: Option<String>,
    batch: BatchView,
    now: u64,
)
    requires
        0 <= batch.stripe < before.stripes.len(),
        batch_attempted(before, after, turn, diagnostic, batch, now),
    ensures
        retries_batch(before, after, turn, diagnostic, batch, now),
{
    reveal_with_fuel(spin_budget, 9);
    let ring = before.stripes[batch.stripe];
    let bound_ms = before.config.max_append_block_ms;
    let n = if batch.rest.len() <= free_slots(ring) {
        batch.rest.len() as int
    } else {
        free_slots(ring)
    };
    let placed = before.placed(batch.stripe, batch.rest.take(n));
    assert(batch.rest.take(0) =~= Seq::<PendingEntry>::empty());
    if n == 0 {
        assert(ring.pending + Seq::<PendingEntry>::empty().map_values(|e: PendingEntry| Some(e))
            =~= ring.pending);
        assert(placed.stripes =~= before.stripes);
    }
    if batch.narrated && batch.deadline.armed is Some {
        lemma_narration(bound_ms, held_up_since(batch)->0, now, batch.reports);
    }
    if batch.rest.len() <= free_slots(ring) {
        let reports = batch.advanced(n as nat, bound_ms, now).reports;
        assert(is_narrated(
            before,
            after,
            diagnostic,
            batch,
            now,
            batch.rest.len() as int,
            reports,
        ));
    }
}

/// What the contract of a wait says.
pub proof fn lemma_batch_waited_on(
    before: WalView,
    after: WalView,
    wait: BatchWait,
    batch: BatchView,
    now: u64,
)
    requires
        batch_waited_on(before, after, wait, batch, now),
    ensures
        waits_batch(before, after, wait, batch, now),
{
    reveal_with_fuel(spin_budget, 9);
}

/// A further attempt to place a batch places as much of the rest as there is
/// room for, behind what is in the stripe and in order. It is over once all is
/// placed; it goes on waiting, with a new stall window, if it made progress; and
/// it fails if the stripe was closed.
pub proof fn lemma_batch_retry_places_the_rest(
    wal: &mut ConcurrentWal,
    batch: BlockedBatch,
    now: u64,
    result: (BatchTurn, Option<String>),
    system: &mut ConcurrentWalSystem,
    other: (BatchTurn, Option<String>),
)
    requires
        0 <= batch@.stripe < old(wal)@.stripes.len(),
        0 <= batch@.stripe < old(system)@.wal.stripes.len(),
        call_ensures(ConcurrentWal::batch_retry, (wal, batch, now), result),
        call_ensures(ConcurrentWalSystem::batch_retry, (system, batch, now), other),
    ensures
        retries_batch(old(wal)@, final(wal)@, result.0, result.1, batch@, now),
        retries_batch(old(system)@.wal, final(system)@.wal, other.0, other.1, batch@, now),
        final(system)@ == (SystemView { wal: final(system)@.wal, ..old(system)@ }),
{
    lemma_batch_attempted(old(wal)@, final(wal)@, result.0, result.1, batch@, now);
    lemma_batch_attempted(
        old(system)@.wal,
        final(system)@.wal,
        other.0,
        other.1,
        batch@,
        now,
    );
}

/// A batch that finds its stripe full waits as a single append does, and gives
/// up at the end of its stall window and not before.
pub proof fn lemma_blocked_batch_gives_up_in_time(
    wal: &mut ConcurrentWal,
    batch: BlockedBatch,
    now: u64,
    wait: BatchWait,
    system: &mut ConcurrentWalSystem,
    other: BatchWait,
)
    requires
        call_ensures(ConcurrentWal::batch_blocked, (wal, batch, now), wait),
        call_ensures(ConcurrentWalSystem::batch_blocked, (system, batch, now), other),
    ensures
        waits_batch(old(wal)@, final(wal)@, wait, batch@, now),
        waits_batch(old(system)@.wal, final(system)@.wal, other, batch@, now),
        final(system)@ == (SystemView { wal: final(system)@.wal, ..old(system)@ }),
{
    lemma_batch_waited_on(old(wal)@, final(wal)@, wait, batch@, now);
    lemma_batch_waited_on(old(system)@.wal, final(system)@.wal, other, batch@, now);
}

/// Whether `entries` are `operations`, serialized in order, at the next LSNs of
/// `before`, and with its next waiters if `waiter` says so.
pub open spec fn are_entries_of<E, S>(
    entries: Seq<PendingEntry>,
    operations: Seq<WalOperation>,
    codec: EntryCodec<E, S>,
    before: WalView,
    waiter: bool,
) -> bool where
    E: Fn(&WalOperation) -> usize,
    S: Fn(LSN, &WalOperation) -> Result<Vec<u8>, Error>,
 {
    &&& entries.len() == operations.len()
    &&& forall|i: int|
        #![trigger entries[i]]
        0 <= i < entries.len() ==> {
            &&& entries[i].lsn.0 == before.next_lsn + i
            &&& is_serialized(codec, entries[i].lsn, operations[i], entries[i].data)
            &&& waiter ==> (entries[i].completion matches Some(handle) && handle.0
                == before.next_ticket + i)
            &&& !waiter ==> entries[i].completion is None
        }
}

/// Whether `operation` is not too large for the log and the serializer takes it
/// at `lsn`.
pub open spec fn can_be_serialized<E, S>(
    codec: EntryCodec<E, S>,
    lsn: LSN,
    operation: WalOperation,
) -> bool where
    E: Fn(&WalOperation) -> usize,
    S: Fn(LSN, &WalOperation) -> Result<Vec<u8>, Error>,
 {
    exists|data: Vec<u8>| is_serialized(codec, lsn, operation, data)
}

/// Whether one of `operations` cannot be serialized at its LSN, though all
/// before it can, and `error` says why.
pub open spec fn has_unserializable<E, S>(
    operations: Seq<WalOperation>,
    codec: EntryCodec<E, S>,
    before: WalView,
    error: Error,
) -> bool where
    E: Fn(&WalOperation) -> usize,
    S: Fn(LSN, &WalOperation) -> Result<Vec<u8>, Error>,
 {
    exists|k: int|
        {
            &&& 0 <= k < operations.len()
            &&& is_unserializable(
                codec,
                LSN((before.next_lsn + k) as u64),
                #[trigger] operations[k],
                error,
            )
            &&& forall|j: int|
                0 <= j < k ==> can_be_serialized(
                    codec,
                    LSN((before.next_lsn + j) as u64),
                    #[trigger] operations[j],
                )
        }
}

/// Whether `ticket` is waited for in `begun` if it is one of the next `n` of
/// `before`, and as it was in `before` otherwise.
pub open spec fn begins_wait(before: WalView, begun: WalView, n: int, ticket: u64) -> bool {
    let (earlier, later) = (before.completions, begun.completions);
    if before.next_ticket <= ticket < before.next_ticket + n {
        &&& later.contains_key(ticket)
        &&& later[ticket].state == CompletionState::Pending
        &&& later[ticket].error is None
    } else {
        &&& later.contains_key(ticket) == earlier.contains_key(ticket)
        &&& earlier.contains_key(ticket) ==> later[ticket] == earlier[ticket]
    }
}

/// Whether `begun` is `before` with `n` LSNs taken, one more append in flight,
/// and `n` more waiters if `waiter` says so.
pub open spec fn begins_batch(before: WalView, begun: WalView, n: int, waiter: bool) -> bool {
    &&& begun.next_lsn == before.next_lsn + n
    &&& before.active_batches < usize::MAX ==> begun.active_batches == before.active_batches + 1
    &&& before.active_batches == usize::MAX ==> begun.active_batches == 0
    &&& waiter ==> begun.next_ticket == before.next_ticket + n
    &&& waiter ==> forall|ticket: u64| #[trigger] begins_wait(before, begun, n, ticket)
    &&& !waiter ==> begun.completions == before.completions && begun.next_ticket
        == before.next_ticket
    &&& begun == (WalView {
        next_lsn: begun.next_lsn,
        active_batches: begun.active_batches,
        completions: begun.completions,
        next_ticket: begun.next_ticket,
        ..before
    })
}

/// A batch at the next LSNs of `before` of which nothing is placed yet.
pub open spec fn new_batch(
    before: WalView,
    entries: Seq<PendingEntry>,
    stripe: int,
    drainer: AppendDrainer,
    waiter: bool,
) -> BatchView {
    BatchView {
        lsns: Seq::new(entries.len(), |i: int| LSN((before.next_lsn + i) as u64)),
        handles: if waiter {
            Seq::new(entries.len(), |i: int| CompletionHandle((before.next_ticket + i) as u64))
        } else {
            Seq::empty()
        },
        rest: entries,
        placed: 0,
        stripe,
        drainer,
        narrated: !waiter,
        deadline: DeadlineView {
            bound_ms: if before.config.max_append_block_ms == 0 {
                None
            } else {
                Some(before.config.max_append_block_ms)
            },
            armed: None,
            arms: 0,
        },
        spins: 2270,
        sleep_us: 1,
        slow_since: None,
        reports: 0,
    }
}

/// Whether `turn` and `after` are what the first attempt of a batch may make of
/// `before`: nothing is placed unless all of it can be serialized.
pub open spec fn appends_batch<E, S>(
    before: WalView,
    after: WalView,
    turn: BatchTurn,
    operations: Seq<WalOperation>,
    codec: EntryCodec<E, S>,
    hash: u64,
    drainer: AppendDrainer,
    waiter: bool,
) -> bool where
    E: Fn(&WalOperation) -> usize,
    S: Fn(LSN, &WalOperation) -> Result<Vec<u8>, Error>,
 {
    let stripe = hash as int % before.stripes.len() as int;
    let n = operations.len() as int;
    if before.shutdown_requested {
        &&& turn matches BatchTurn::Refused(error)
        &&& error@ == ErrorView::Wal("WAL is shutting down"@)
        &&& after == before
    } else if n == 0 {
        &&& turn matches BatchTurn::Placed { lsns, handles }
        &&& lsns@.len() == 0
        &&& handles@.len() == 0
        &&& after == before
    } else {
        ||| {
            &&& turn matches BatchTurn::Refused(error)
            &&& has_unserializable(operations, codec, before, error)
            &&& after == (WalView { next_lsn: (before.next_lsn + n) as u64, ..before })
        }
        ||| exists|entries: Seq<PendingEntry>, begun: WalView|
            {
                &&& #[trigger] are_entries_of(entries, operations, codec, before, waiter)
                &&& #[trigger] begins_batch(before, begun, n, waiter)
                &&& retries_batch(
                    begun,
                    after,
                    turn,
                    None,
                    new_batch(before, entries, stripe, drainer, waiter),
                    0,
                )
            }
    }
}

proof fn lemma_new_waiters(board: Map<u64, CompletionView>, first: u64, n: nat, ticket: u64)
    requires
        first + n <= u64::MAX,
    ensures
        ({
            let more = with_waiters(board, first, n);
            if first <= ticket < first + n {
                &&& more.contains_key(ticket)
                &&& more[ticket] == (CompletionView {
                    state: CompletionState::Pending,
                    error: None,
                })
            } else {
                &&& more.contains_key(ticket) == board.contains_key(ticket)
                &&& board.contains_key(ticket) ==> more[ticket] == board[ticket]
            }
        }),
    decreases n,
{
    if n > 0 {
        lemma_new_waiters(board, first, (n - 1) as nat, ticket);
    }
}

proof fn lemma_begins_batch(before: WalView, entries: Seq<PendingEntry>, waiter: bool)
    requires
        before.next_lsn + entries.len() <= u64::MAX,
        before.next_ticket + entries.len() <= u64::MAX,
    ensures
        begins_batch(
            before,
            batch_starting(before, entries, waiter),
            entries.len() as int,
            waiter,
        ),
{
    let n = entries.len();
    let begun = batch_starting(before, entries, waiter);
    if waiter {
        assert forall|ticket: u64| #[trigger] begins_wait(before, begun, n as int, ticket) by {
            lemma_new_waiters(before.completions, before.next_ticket, n, ticket);
        }
    }
}

/// What the contract of a batch append says.
pub proof fn lemma_batch_started<E, S>(
    before: WalView,
    after: WalView,
    turn: BatchTurn,
    operations: Seq<WalOperation>,
    codec: EntryCodec<E, S>,
    hash: u64,
    drainer: AppendDrainer,
    waiter: bool,
) where E: Fn(&WalOperation) -> usize, S: Fn(LSN, &WalOperation) -> Result<Vec<u8>, Error>
    requires
        before.stripes.len() > 0,
        before.next_lsn + operations.len() <= u64::MAX,
        before.next_ticket + operations.len() <= u64::MAX,
        batch_started(
            before,
            after,
            turn,
            operations,
            codec,
            stripe_of(hash, before.stripes.len()),
            drainer,
            waiter,
        ),
    ensures
        appends_batch(before, after, turn, operations, codec, hash, drainer, waiter),
{
    let stripe = hash as int % before.stripes.len() as int;
    assert(0 <= stripe < before.stripes.len()) by (nonlinear_arith)
        requires
            stripe == hash as int % before.stripes.len() as int,
            before.stripes.len() > 0,
    ;
    let n = operations.len() as int;
    let first = LSN(before.next_lsn);
    let tickets = before.tickets(waiter);
    if !before.shutdown_requested && n > 0 {
        if exists|entries: Seq<PendingEntry>| #[trigger]
            batch_encoded(codec, first, operations, tickets, entries) && batch_attempted(
                batch_starting(before, entries, waiter),
                after,
                turn,
                None,
                fresh_batch(
                    entries,
                    stripe,
                    drainer,
                    before.config.max_append_block_ms,
                    waiter,
                ),
                0,
            ) {
            let entries = choose|entries: Seq<PendingEntry>| #[trigger]
                batch_encoded(codec, first, operations, tickets, entries) && batch_attempted(
                    batch_starting(before, entries, waiter),
                    after,
                    turn,
                    None,
                    fresh_batch(
                        entries,
                        stripe,
                        drainer,
                        before.config.max_append_block_ms,
                        waiter,
                    ),
                    0,
                );
            let begun = batch_starting(before, entries, waiter);
            let fresh = fresh_batch(
                entries,
                stripe,
                drainer,
                before.config.max_append_block_ms,
                waiter,
            );
            assert(are_entries_of(entries, operations, codec, before, waiter));
            lemma_begins_batch(before, entries, waiter);
            lemma_batch_attempted(begun, after, turn, None, fresh, 0);
            let new = new_batch(before, entries, stripe, drainer, waiter);
            reveal_with_fuel(spin_budget, 9);
            assert(fresh.lsns =~= new.lsns);
            assert(fresh.handles =~= new.handles);
            assert(fresh =~= new);
        } else {
            let error = turn->Refused_0;
            let k = choose|k: int|
                batch_encoding_fails(codec, first, operations, tickets, k, error);
            let done = choose|entries: Seq<PendingEntry>|
                batch_encoded(codec, first, operations.take(k), tickets, entries);
            assert forall|j: int| 0 <= j < k implies can_be_serialized(
                codec,
                LSN((before.next_lsn + j) as u64),
                #[trigger] operations[j],
            ) by {
                assert(done[j].data == done[j].data);
                assert(operations.take(k)[j] == operations[j]);
                assert(is_serialized(
                    codec,
                    LSN((before.next_lsn + j) as u64),
                    operations[j],
                    done[j].data,
                ));
            }
            assert(is_unserializable(
                codec,
                LSN((before.next_lsn + k) as u64),
                operations[k],
                error,
            ));
            assert(has_unserializable(operations, codec, before, error));
        }
    }
}

/// A batch goes in order behind all that is in the stripe of its thread, at
/// consecutive LSNs from the next one on; whether or not somebody waits for it.
pub proof fn lemma_batch_takes_the_next_lsns<E, S>(
    wal: &mut ConcurrentWal,
    waiting: &mut ConcurrentWal,
    operations: Vec<WalOperation>,
    codec: &EntryCodec<E, S>,
    hash: u64,
    turn: BatchTurn,
    with_handles: BatchTurn,
) where E: Fn(&WalOperation) -> usize, S: Fn(LSN, &WalOperation) -> Result<Vec<u8>, Error>
    requires
        old(wal).wf(),
        old(waiting).wf(),
        old(wal)@.next_lsn + operations@.len() <= u64::MAX,
        old(wal)@.next_ticket + operations@.len() <= u64::MAX,
        old(waiting)@.next_lsn + operations@.len() <= u64::MAX,
        old(waiting)@.next_ticket + operations@.len() <= u64::MAX,
        call_ensures(ConcurrentWal::append_batch::<E, S>, (wal, operations, codec, hash), turn),
        call_ensures(
            ConcurrentWal::append_batch_with_handles::<E, S>,
            (waiting, operations, codec, hash),
            with_handles,
        ),
    ensures
        appends_batch(
            old(wal)@,
            final(wal)@,
            turn,
            operations@,
            *codec,
            hash,
            old(wal)@.async_drainer,
            false,
        ),
        appends_batch(
            old(waiting)@,
            final(waiting)@,
            with_handles,
            operations@,
            *codec,
            hash,
            AppendDrainer::CallingThread,
            true,
        ),
{
    old(wal).lemma_stripes();
    old(waiting).lemma_stripes();
    lemma_batch_started(
        old(wal)@,
        final(wal)@,
        turn,
        operations@,
        *codec,
        hash,
        old(wal)@.async_drainer,
        false,
    );
    lemma_batch_started(
        old(waiting)@,
        final(waiting)@,
        with_handles,
        operations@,
        *codec,
        hash,
        AppendDrainer::CallingThread,
        true,
    );
}

/// The system appends batches as its mode asks: in the synchronous mode with
/// waiters, drained by the caller, and in every other mode without any. An empty
/// batch is over at once, even while the log shuts down.
pub proof fn lemma_system_appends_batches_as_the_mode_asks<E, S>(
    system: &mut ConcurrentWalSystem,
    plain: &mut ConcurrentWalSystem,
    operations: Vec<WalOperation>,
    codec: &EntryCodec<E, S>,
    hash: u64,
    turn: BatchTurn,
    plain_turn: BatchTurn,
) where E: Fn(&WalOperation) -> usize, S: Fn(LSN, &WalOperation) -> Result<Vec<u8>, Error>
    requires
        old(system).wf(),
        old(plain).wf(),
        old(system)@.wal.next_lsn + operations@.len() <= u64::MAX,
        old(system)@.wal.next_ticket + operations@.len() <= u64::MAX,
        old(plain)@.wal.next_lsn + operations@.len() <= u64::MAX,
        old(plain)@.wal.next_ticket + operations@.len() <= u64::MAX,
        call_ensures(
            ConcurrentWalSystem::append_batch::<E, S>,
            (system, operations, codec, hash),
            turn,
        ),
        call_ensures(
            ConcurrentWalSystem::append_batch_async::<E, S>,
            (plain, operations, codec, hash),
            plain_turn,
        ),
    ensures
        operations@.len() == 0 ==> {
            &&& turn matches BatchTurn::Placed { lsns, handles }
            &&& lsns@.len() == 0
            &&& handles@.len() == 0
            &&& final(system)@ == old(system)@
        },
        operations@.len() > 0 && old(system)@.mode is Synchronous ==> appends_batch(
            old(system)@.wal,
            final(system)@.wal,
            turn,
            operations@,
            *codec,
            hash,
            AppendDrainer::CallingThread,
            true,
        ),
        operations@.len() > 0 && old(system)@.mode !is Synchronous ==> appends_batch(
            old(system)@.wal,
            final(system)@.wal,
            turn,
            operations@,
            *codec,
            hash,
            old(system)@.wal.async_drainer,
            false,
        ),
        final(system)@ == (SystemView { wal: final(system)@.wal, ..old(system)@ }),
        appends_batch(
            old(plain)@.wal,
            final(plain)@.wal,
            plain_turn,
            operations@,
            *codec,
            hash,
            old(plain)@.wal.async_drainer,
            false,
        ),
        final(plain)@ == (SystemView { wal: final(plain)@.wal, ..old(plain)@ }),
{
    old(system).lemma_epochs();
    old(plain).lemma_epochs();
    lemma_batch_started(
        old(plain)@.wal,
        final(plain)@.wal,
        plain_turn,
        operations@,
        *codec,
        hash,
        old(plain)@.wal.async_drainer,
        false,
    );
    if operations@.len() > 0 {
        let waiter = old(system)@.mode is Synchronous;
        let drainer = if waiter {
            AppendDrainer::CallingThread
        } else {
            old(system)@.wal.async_drainer
        };
        lemma_batch_started(
            old(system)@.wal,
            final(system)@.wal,
            turn,
            operations@,
            *codec,
            hash,
            drainer,
            waiter,
        );
    }
}

} // verus!
