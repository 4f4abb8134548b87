//! The striped write-ahead log.
//!
//! Writers are spread over stripes, each with a ring buffer of its own, and
//! draw their LSNs from one allocator. An append that finds its stripe full
//! hands out a [`BlockedAppend`] (or a [`BlockedBatch`]): the caller waits as
//! it is told, outside of the log, and comes back with it.

use vstd::prelude::*;

use crate::backpressure::{
    default_backpressure, fresh_spins, BackpressureConfig, SpinBackoff,
};
use crate::completion::{
    outcome_of, pending_completion, seen_on, timeout_text, CompletionBoard, CompletionHandle,
    CompletionState, CompletionView,
};
use crate::deadline::{
    fresh_deadline, since, AppendBlockedKind, AppendDeadline, DeadlineView,
};
use crate::entry::{
    all_completed, all_discarded, all_failed, complete_all, discard_all, fail_all, PendingEntry,
};
use crate::error::{Error, ErrorView};
use crate::lsn::{lsn_after, LsnAllocator, LSN};
use crate::operation::{EntryCodec, WalOperation};
use crate::power::{
    dec, inc, is_next_power_of_two, is_power_of_two, lemma_mask, next_power_of_two, wrap,
};
use crate::ring_buffer::{
    deadline_when_blocked, empty_ring, lemma_append_is_drained_last, lemma_ready_stops_at_hole,
    spins_when_blocked, turn_when_blocked, AppendBlocked, BlockedTurn, RingView,
};
use crate::sort::{is_stable_sort, lemma_sort_keeps_entries, sort_by_lsn};
use crate::stripe::{metrics_of, StripeMetrics, WalStripe};
use crate::text::{concat2, concat3, decimal, duration_text, show_duration, show_u64, show_usize};
use crate::wal_config::ConcurrentWalConfig;

verus! {

broadcast use crate::power::lemma_wrap_near;

/// How a graceful shutdown ended.
#[derive(Debug, Clone, Copy, PartialEq, Eq, Structural)]
pub enum ShutdownOutcome {
    /// All in-flight appends finished within the deadline.
    Completed,
    /// The deadline expired with `active_batches` appends still in flight.
    /// The buffers are closed, so these will be refused.
    TimedOut { active_batches: usize },
}

/// Who is meant to drain the stripe that a blocked writer waits for.
#[derive(Debug, Clone, Copy, PartialEq, Eq, Structural)]
pub enum AppendDrainer {
    /// The background flush thread.
    BackgroundFlusher,
    /// The calling thread itself.
    CallingThread,
}

/// The value of a [`ConcurrentWal`].
#[verifier::ext_equal]
pub ghost struct WalView {
    /// The configuration that the log was made with.
    pub config: ConcurrentWalConfig,
    /// The LSN that is handed out next.
    pub next_lsn: u64,
    /// The rings of the stripes.
    pub stripes: Seq<RingView>,
    /// How many entries were placed.
    pub total_appends: u64,
    /// Whether appends are refused because of a shutdown.
    pub shutdown_requested: bool,
    /// How many appends are in flight.
    pub active_batches: usize,
    /// Who drains the stripes for appends without a handle.
    pub async_drainer: AppendDrainer,
    /// The waiters, by ticket.
    pub completions: Map<u64, CompletionView>,
    /// The ticket that the next waiter gets.
    pub next_ticket: u64,
    /// How many stall windows the last batch opened.
    pub last_batch_arms: u32,
    /// How many slow-batch diagnostics were made.
    pub slow_reports: u64,
}

/// The stripe of a thread with a given hash.
pub open spec fn stripe_of(hash: u64, stripes: nat) -> int {
    hash as int % stripes as int
}

impl WalView {
    /// The log after `count` LSNs were reserved.
    pub open spec fn reserved(self, count: int) -> WalView {
        WalView { next_lsn: lsn_after(LSN(self.next_lsn), count).0, ..self }
    }

    /// The log with one more append in flight.
    pub open spec fn entered(self) -> WalView {
        WalView { active_batches: inc(self.active_batches), ..self }
    }

    /// The log with one append less in flight.
    pub open spec fn left(self) -> WalView {
        WalView { active_batches: dec(self.active_batches), ..self }
    }

    /// The log after `entries` were placed in a stripe, in order.
    pub open spec fn placed(self, stripe: int, entries: Seq<PendingEntry>) -> WalView {
        WalView {
            stripes: self.stripes.update(stripe, with_all(self.stripes[stripe], entries)),
            total_appends: wrap(self.total_appends + entries.len()),
            ..self
        }
    }

    /// The log after one more waiter was registered.
    pub open spec fn registered(self) -> WalView {
        WalView {
            completions: self.completions.insert(self.next_ticket, pending_completion()),
            next_ticket: wrap(self.next_ticket + 1),
            ..self
        }
    }

    /// The first ticket of what is appended next, if somebody waits for it.
    pub open spec fn tickets(self, waiter: bool) -> Option<u64> {
        if waiter {
            Some(self.next_ticket)
        } else {
            None
        }
    }

    /// The log after the waiters of `entries` were dropped.
    pub open spec fn forgetting(self, entries: Seq<PendingEntry>) -> WalView {
        WalView { completions: without(self.completions, entries), ..self }
    }
}

/// `ring` after all of `entries` were appended, in order.
pub open spec fn with_all(ring: RingView, entries: Seq<PendingEntry>) -> RingView {
    RingView {
        pending: ring.pending + entries.map_values(|e: PendingEntry| Some(e)),
        ..ring
    }
}

/// `board` without the waiters of `entries`.
pub open spec fn without(
    board: Map<u64, CompletionView>,
    entries: Seq<PendingEntry>,
) -> Map<u64, CompletionView>
    decreases entries.len(),
{
    if entries.len() == 0 {
        board
    } else {
        let rest = without(board, entries.drop_last());
        match entries.last().completion {
            Some(handle) => rest.remove(handle.0),
            None => rest,
        }
    }
}

/// The error of an append that is refused because the log shuts down.
pub open spec fn shutting_down() -> ErrorView {
    ErrorView::Wal("WAL is shutting down"@)
}

/// Where to look when nobody drained a stripe.
pub open spec fn culprit(drainer: AppendDrainer) -> Seq<char> {
    match drainer {
        AppendDrainer::BackgroundFlusher =>
            "the background flusher may be dead or wedged (check ConcurrentWalSystem::is_healthy)"@,
        AppendDrainer::CallingThread =>
            "no consumer is draining the buffer (Synchronous mode drains on the calling thread, only after the append returns, so a batch larger than the total ring capacity can never fit)"@,
    }
}

/// The error of an append that gave up.
pub open spec fn blocked_error(
    kind: AppendBlockedKind,
    stripe: int,
    bound_ms: u64,
    drainer: AppendDrainer,
) -> ErrorView {
    match kind {
        AppendBlockedKind::Closed => ErrorView::Wal("WAL buffer closed"@),
        AppendBlockedKind::TimedOut { waited_ns } => ErrorView::Wal(
            "WAL append gave up after waiting "@ + duration_text(waited_ns) + ": stripe "@
                + decimal(stripe as nat)
                + " ring buffer full and nothing drained it within the "@ + decimal(
                bound_ms as nat,
            ) + " ms bound; "@ + culprit(drainer),
        ),
    }
}

/// An append that waits for room in its stripe.
#[derive(Debug)]
pub struct BlockedAppend {
    entry: PendingEntry,
    stripe: usize,
    drainer: AppendDrainer,
    deadline: AppendDeadline,
    backoff: SpinBackoff,
    sleep_us: u64,
}

/// The value of a [`BlockedAppend`].
pub ghost struct BlockedView {
    /// The entry that is to be placed.
    pub entry: PendingEntry,
    /// The stripe that it goes to.
    pub stripe: int,
    /// Who is meant to drain that stripe.
    pub drainer: AppendDrainer,
    /// The bound on the wait.
    pub deadline: DeadlineView,
    /// How often the writer may spin before that nap.
    pub spins: nat,
    /// How long the next nap is, in microseconds.
    pub sleep_us: u64,
}

impl View for BlockedAppend {
    type V = BlockedView;

    closed spec fn view(&self) -> BlockedView {
        BlockedView {
            entry: self.entry,
            stripe: self.stripe as int,
            drainer: self.drainer,
            deadline: self.deadline@,
            spins: self.backoff@,
            sleep_us: self.sleep_us,
        }
    }
}

/// What came of an attempt to place an entry.
pub enum AppendTurn {
    /// The entry was placed.
    Placed { lsn: LSN, handle: Option<CompletionHandle> },
    /// The append failed.
    Refused(Error),
    /// The stripe is full.
    Blocked(BlockedAppend),
}

/// What a blocked append does next.
pub enum AppendWait {
    /// It gave up.
    Refused(Error),
    /// It spins once and tries again.
    Spin { blocked: BlockedAppend },
    /// It sleeps for `nap_ns` nanoseconds, or yields if that is `None`, and
    /// then tries again.
    Nap { blocked: BlockedAppend, nap_ns: Option<u64> },
}

/// What an attempt to place the entry of `blocked` does to the log.
pub open spec fn attempted(
    before: WalView,
    after: WalView,
    turn: AppendTurn,
    blocked: BlockedView,
) -> bool {
    let ring = before.stripes[blocked.stripe];
    let entry = blocked.entry;
    if ring.closed {
        &&& turn matches AppendTurn::Refused(error)
        &&& error@ == blocked_error(
            AppendBlockedKind::Closed,
            blocked.stripe,
            before.config.max_append_block_ms,
            blocked.drainer,
        )
        &&& after == before.forgetting(seq![entry]).left()
    } else if ring.is_full() {
        &&& turn matches AppendTurn::Blocked(waiting)
        &&& waiting@ == blocked
        &&& after == before
    } else {
        &&& turn == (AppendTurn::Placed { lsn: entry.lsn, handle: entry.completion })
        &&& after == before.placed(blocked.stripe, seq![entry]).left()
    }
}

/// What a blocked append decides at `now`.
pub open spec fn waited_on(
    before: WalView,
    after: WalView,
    wait: AppendWait,
    blocked: BlockedView,
    now: u64,
) -> bool {
    let ring = before.stripes[blocked.stripe];
    match turn_when_blocked(
        ring,
        default_backpressure(),
        blocked.entry,
        blocked.deadline,
        blocked.spins,
        blocked.sleep_us,
        now,
    ) {
        BlockedTurn::Refused(refused) => {
            &&& wait matches AppendWait::Refused(error)
            &&& error@ == blocked_error(
                refused.kind,
                blocked.stripe,
                before.config.max_append_block_ms,
                blocked.drainer,
            )
            &&& after == before.forgetting(seq![blocked.entry]).left()
        },
        BlockedTurn::Spin { entry } => {
            &&& wait matches AppendWait::Spin { blocked: waiting }
            &&& waiting@ == (BlockedView {
                spins: spins_when_blocked(ring, default_backpressure(), blocked.spins),
                ..blocked
            })
            &&& after == before
        },
        BlockedTurn::Wait { entry, nap_ns, next_sleep_us } => {
            &&& wait matches AppendWait::Nap { blocked: waiting, nap_ns: nap }
            &&& nap == nap_ns
            &&& waiting@ == (BlockedView {
                deadline: deadline_when_blocked(ring, blocked.deadline, blocked.spins, now),
                spins: spins_when_blocked(ring, default_backpressure(), blocked.spins),
                sleep_us: next_sleep_us,
                ..blocked
            })
            &&& after == before
        },
    }
}

/// The log in which an entry at its next LSN is about to be placed; `waiter`
/// tells whether somebody waits for the entry.
pub open spec fn starting(before: WalView, waiter: bool) -> WalView {
    let reserved = before.reserved(1).entered();
    if waiter {
        reserved.registered()
    } else {
        reserved
    }
}

/// The handle of entry `i` when the tickets from `tickets` on are handed out.
pub open spec fn nth_handle(tickets: Option<u64>, i: int) -> Option<CompletionHandle> {
    match tickets {
        Some(first) => Some(CompletionHandle(wrap(first + i))),
        None => None,
    }
}

/// Entry `i` of an append, with the given contents.
pub open spec fn entry_at(lsn: LSN, data: Vec<u8>, tickets: Option<u64>, i: int) -> PendingEntry {
    PendingEntry { lsn, data, completion: nth_handle(tickets, i) }
}

/// What the first attempt of an append of one operation does to the log.
pub open spec fn append_started<E, S>(
    before: WalView,
    after: WalView,
    turn: AppendTurn,
    operation: WalOperation,
    codec: EntryCodec<E, S>,
    stripe: int,
    drainer: AppendDrainer,
    waiter: bool,
) -> bool where
    E: Fn(&WalOperation) -> usize,
    S: Fn(LSN, &WalOperation) -> Result<Vec<u8>, Error>,
 {
    let lsn = LSN(before.next_lsn);
    if before.shutdown_requested {
        &&& turn matches AppendTurn::Refused(error)
        &&& error@ == shutting_down()
        &&& after == before
    } else {
        exists|encoded: Result<Vec<u8>, Error>| #[trigger]
            codec.encodes(lsn, operation, encoded) && match encoded {
                Err(error) => turn == AppendTurn::Refused(error) && after == before.reserved(1),
                Ok(data) => attempted(
                    starting(before, waiter),
                    after,
                    turn,
                    BlockedView {
                        entry: entry_at(lsn, data, before.tickets(waiter), 0),
                        stripe,
                        drainer,
                        deadline: fresh_deadline(before.config.max_append_block_ms),
                        spins: fresh_spins(default_backpressure()),
                        sleep_us: default_backpressure().base_sleep_us,
                    },
                ),
            }
    }
}

/// What an append that never waits for room does to the log.
pub open spec fn sync_append_started<E, S>(
    before: WalView,
    after: WalView,
    result: Result<(LSN, CompletionHandle), Error>,
    operation: WalOperation,
    codec: EntryCodec<E, S>,
    stripe: int,
) -> bool where
    E: Fn(&WalOperation) -> usize,
    S: Fn(LSN, &WalOperation) -> Result<Vec<u8>, Error>,
 {
    let lsn = LSN(before.next_lsn);
    let ring = before.stripes[stripe];
    if before.shutdown_requested {
        &&& result matches Err(error)
        &&& error@ == shutting_down()
        &&& after == before
    } else {
        exists|encoded: Result<Vec<u8>, Error>| #[trigger]
            codec.encodes(lsn, operation, encoded) && match encoded {
                Err(error) => result == Err::<(LSN, CompletionHandle), Error>(error) && after
                    == before.reserved(1),
                Ok(data) => if ring.closed || ring.is_full() {
                    &&& result matches Err(error)
                    &&& error@ == ErrorView::Wal("WAL buffer full - backpressure"@)
                    &&& after == before.reserved(1).registered().forgetting(
                        seq![entry_at(lsn, data, before.tickets(true), 0)],
                    )
                } else {
                    &&& result == Ok::<(LSN, CompletionHandle), Error>(
                        (lsn, CompletionHandle(before.next_ticket)),
                    )
                    &&& after == starting(before, true).placed(
                        stripe,
                        seq![entry_at(lsn, data, before.tickets(true), 0)],
                    )
                },
            }
    }
}

/// How long a synchronous append waits for its flush before it assumes a
/// deadlock, in nanoseconds.
pub const SYNC_WAIT_TIMEOUT_NS: u64 = 120_000_000_000;

/// The error of a flush that the waiter was told of.
pub open spec fn flush_failed(text: Seq<char>) -> ErrorView {
    ErrorView::Wal("WAL flush failed: "@ + text)
}

/// Whether `answer` is what a waiter is told that sees the completion state
/// `seen` after `elapsed_ns` out of `timeout_ns`.
pub open spec fn answers_waiter(
    answer: Option<Result<(), Error>>,
    seen: CompletionView,
    elapsed_ns: u64,
    timeout_ns: u64,
) -> bool {
    if seen.state != CompletionState::Pending {
        match outcome_of(seen) {
            Ok(_) => answer == Some(Ok::<(), Error>(())),
            Err(text) => answer matches Some(Err(error)) && error@ == flush_failed(text),
        }
    } else if elapsed_ns >= timeout_ns {
        answer matches Some(Err(error)) && error@ == flush_failed(timeout_text(elapsed_ns))
    } else {
        answer is None
    }
}

/// Whether all entries behind `handles` were reported durable.
pub open spec fn all_durable(
    board: Map<u64, CompletionView>,
    handles: Seq<CompletionHandle>,
) -> bool {
    forall|i: int|
        0 <= i < handles.len() ==> seen_on(board, (#[trigger] handles[i]).0).state
            == CompletionState::Complete
}

/// Whether `handles[k]` is the first one whose entry was reported failed.
pub open spec fn fails_first_at(
    board: Map<u64, CompletionView>,
    handles: Seq<CompletionHandle>,
    k: int,
) -> bool {
    &&& 0 <= k < handles.len()
    &&& seen_on(board, handles[k].0).state == CompletionState::Error
    &&& forall|i: int|
        0 <= i < k ==> seen_on(board, (#[trigger] handles[i]).0).state != CompletionState::Error
}

/// Whether `answer` is what the waiter for a whole batch is told after
/// `elapsed_ns` out of `timeout_ns`: success once every entry is durable, and
/// the error of the first entry that failed as soon as one has.
pub open spec fn answers_batch(
    answer: Option<Result<(), Error>>,
    board: Map<u64, CompletionView>,
    handles: Seq<CompletionHandle>,
    elapsed_ns: u64,
    timeout_ns: u64,
) -> bool {
    if all_durable(board, handles) {
        answer == Some(Ok::<(), Error>(()))
    } else if exists|k: int| fails_first_at(board, handles, k) {
        &&& answer matches Some(Err(error))
        &&& forall|k: int| #[trigger]
            fails_first_at(board, handles, k) ==> (outcome_of(
                seen_on(board, handles[k].0),
            ) matches Err(text) && error@ == flush_failed(text))
    } else if elapsed_ns >= timeout_ns {
        answer matches Some(Err(error)) && error@ == flush_failed(timeout_text(elapsed_ns))
    } else {
        answer is None
    }
}

/// How many more entries a stripe takes.
pub open spec fn room_in(ring: RingView) -> nat {
    if ring.closed || ring.is_full() {
        0
    } else {
        (ring.capacity - ring.pending.len()) as nat
    }
}

/// The diagnostic that is due for a batch that has been slow since `origin`:
/// how many milliseconds it has taken, and how many stall windows that is.
/// `reports` is the number of windows that were narrated already.
pub open spec fn slow_report(bound_ms: u64, origin: u64, now: u64, reports: u32) -> Option<
    (u64, u32),
> {
    let elapsed_ms = since(now, origin) / 1_000_000;
    let windows = elapsed_ms as int / bound_ms as int;
    let due = if windows <= u32::MAX {
        windows as u32
    } else {
        u32::MAX
    };
    if bound_ms == 0 || due <= reports {
        None
    } else {
        Some((elapsed_ms, due))
    }
}

/// The text of a slow-batch diagnostic.
pub open spec fn slow_text(
    placed: nat,
    total: nat,
    elapsed_ms: u64,
    due: u32,
    bound_ms: u64,
) -> Seq<char> {
    "WAL append_batch is progressing but slow: "@ + decimal(placed) + "/"@ + decimal(total)
        + " entries placed after "@ + decimal(elapsed_ms as nat) + "ms, which is past "@ + decimal(
        due as nat,
    ) + " stall window(s) of "@ + decimal(bound_ms as nat)
        + "ms. The drainer is alive (each window saw progress, so the batch is NOT being failed), but it is freeing slots barely fast enough, and this call holds the commit path for its whole duration. Consider is_healthy(), the flush thread's stats, and disk throughput."@
}

/// A batch append that waits for room in its stripe.
#[derive(Debug)]
pub struct BlockedBatch {
    lsns: Vec<LSN>,
    handles: Vec<CompletionHandle>,
    /// The entries that are still to be placed, last one first.
    rest: Vec<PendingEntry>,
    placed: usize,
    stripe: usize,
    drainer: AppendDrainer,
    narrated: bool,
    deadline: AppendDeadline,
    backoff: SpinBackoff,
    sleep_us: u64,
    slow_since: Option<u64>,
    reports: u32,
}

/// The value of a [`BlockedBatch`].
#[verifier::ext_equal]
pub ghost struct BatchView {
    /// The LSNs of the whole batch.
    pub lsns: Seq<LSN>,
    /// The handles of the whole batch, if it was asked for any.
    pub handles: Seq<CompletionHandle>,
    /// The entries that are still to be placed, in order.
    pub rest: Seq<PendingEntry>,
    /// How many entries were placed.
    pub placed: nat,
    /// The stripe that they go to.
    pub stripe: int,
    /// Who is meant to drain that stripe.
    pub drainer: AppendDrainer,
    /// Whether a slow batch is narrated.
    pub narrated: bool,
    /// The bound on the wait.
    pub deadline: DeadlineView,
    /// How often the writer may spin before that nap.
    pub spins: nat,
    /// How long the next nap is, in microseconds.
    pub sleep_us: u64,
    /// When the call first had to wait.
    pub slow_since: Option<u64>,
    /// How many stall windows were narrated.
    pub reports: u32,
}

impl View for BlockedBatch {
    type V = BatchView;

    closed spec fn view(&self) -> BatchView {
        BatchView {
            lsns: self.lsns@,
            handles: self.handles@,
            rest: self.rest@.reverse(),
            placed: self.placed as nat,
            stripe: self.stripe as int,
            drainer: self.drainer,
            narrated: self.narrated,
            deadline: self.deadline@,
            spins: self.backoff@,
            sleep_us: self.sleep_us,
            slow_since: self.slow_since,
            reports: self.reports,
        }
    }
}

impl BatchView {
    /// Every entry of the batch is placed or still to be placed.
    pub open spec fn wf(self) -> bool {
        self.placed + self.rest.len() == self.lsns.len()
    }

    /// When the call first had to wait, at the time an entry is placed.
    pub open spec fn slow_origin(self) -> Option<u64> {
        match (self.deadline.armed, self.slow_since) {
            (None, origin) => origin,
            (Some(armed), None) => Some(armed),
            (Some(_), Some(origin)) => Some(origin),
        }
    }

    /// The diagnostic that is due when an entry is placed at `now`.
    pub open spec fn narration(self, bound_ms: u64, now: u64) -> Option<(u64, u32)> {
        if self.narrated && self.deadline.armed is Some {
            slow_report(bound_ms, self.slow_origin()->0, now, self.reports)
        } else {
            None
        }
    }

    /// The batch after its next `n` entries were placed at `now`.
    pub open spec fn advanced(self, n: nat, bound_ms: u64, now: u64) -> BatchView {
        if n == 0 {
            self
        } else {
            BatchView {
                rest: self.rest.skip(n as int),
                placed: self.placed + n,
                deadline: self.deadline.progressed(),
                spins: fresh_spins(default_backpressure()),
                sleep_us: default_backpressure().base_sleep_us,
                slow_since: if self.narrated {
                    self.slow_origin()
                } else {
                    self.slow_since
                },
                reports: match self.narration(bound_ms, now) {
                    Some((_, due)) => due,
                    None => self.reports,
                },
                ..self
            }
        }
    }
}

/// What came of an attempt to place a batch.
pub enum BatchTurn {
    /// All entries were placed.
    Placed { lsns: Vec<LSN>, handles: Vec<CompletionHandle> },
    /// The append failed.
    Refused(Error),
    /// The stripe is full.
    Blocked(BlockedBatch),
}

/// What a blocked batch does next.
pub enum BatchWait {
    /// It gave up.
    Refused(Error),
    /// It spins once and tries again.
    Spin { blocked: BlockedBatch },
    /// It sleeps for `nap_ns` nanoseconds, or yields if that is `None`, and
    /// then tries again.
    Nap { blocked: BlockedBatch, nap_ns: Option<u64> },
}

/// `board` without the waiters behind `handles`.
pub open spec fn without_handles(
    board: Map<u64, CompletionView>,
    handles: Seq<CompletionHandle>,
) -> Map<u64, CompletionView> {
    board.remove_keys(Set::new(|ticket: u64| handles.contains(CompletionHandle(ticket))))
}

/// The log after a batch ended, with or without success.
pub open spec fn batch_left(wal: WalView, batch: BatchView) -> WalView {
    WalView {
        last_batch_arms: if batch.narrated {
            batch.deadline.arms
        } else {
            wal.last_batch_arms
        },
        ..wal.left()
    }
}

/// The log after a batch was given up: nobody waits for its entries any more,
/// though those that were placed stay where they are.
pub open spec fn batch_refused(wal: WalView, batch: BatchView) -> WalView {
    WalView {
        completions: without_handles(wal.completions, batch.handles),
        ..batch_left(wal, batch)
    }
}

/// What an attempt at `now` to place the rest of `batch` does to the log: as
/// many entries are placed as there is room for, in order.
pub open spec fn batch_attempted(
    before: WalView,
    after: WalView,
    turn: BatchTurn,
    diagnostic: Option<String>,
    batch: BatchView,
    now: u64,
) -> bool {
    let bound_ms = before.config.max_append_block_ms;
    let ring = before.stripes[batch.stripe];
    let n = if batch.rest.len() <= room_in(ring) {
        batch.rest.len()
    } else {
        room_in(ring)
    };
    let narration = if n > 0 {
        batch.narration(bound_ms, now)
    } else {
        None
    };
    let advanced = batch.advanced(n, bound_ms, now);
    let placed = before.placed(batch.stripe, batch.rest.take(n as int));
    let middle = if narration is Some {
        WalView { slow_reports: wrap(placed.slow_reports + 1), ..placed }
    } else {
        placed
    };
    &&& match narration {
        Some((elapsed_ms, due)) => diagnostic matches Some(text) && text@ == slow_text(
            batch.placed + 1,
            batch.lsns.len(),
            elapsed_ms,
            due,
            bound_ms,
        ),
        None => diagnostic is None,
    }
    &&& if n == batch.rest.len() {
        &&& turn matches BatchTurn::Placed { lsns, handles }
        &&& lsns@ == batch.lsns
        &&& handles@ == batch.handles
        &&& after == batch_left(middle, advanced)
    } else if ring.closed {
        &&& turn matches BatchTurn::Refused(error)
        &&& error@ == blocked_error(
            AppendBlockedKind::Closed,
            batch.stripe,
            bound_ms,
            batch.drainer,
        )
        &&& after == batch_refused(middle, advanced)
    } else {
        &&& turn matches BatchTurn::Blocked(waiting)
        &&& waiting@ == advanced
        &&& after == middle
    }
}

/// What a blocked batch decides at `now`.
pub open spec fn batch_waited_on(
    before: WalView,
    after: WalView,
    wait: BatchWait,
    batch: BatchView,
    now: u64,
) -> bool {
    let ring = before.stripes[batch.stripe];
    match turn_when_blocked(
        ring,
        default_backpressure(),
        batch.rest[0],
        batch.deadline,
        batch.spins,
        batch.sleep_us,
        now,
    ) {
        BlockedTurn::Refused(refused) => {
            &&& wait matches BatchWait::Refused(error)
            &&& error@ == blocked_error(
                refused.kind,
                batch.stripe,
                before.config.max_append_block_ms,
                batch.drainer,
            )
            &&& after == batch_refused(
                before,
                BatchView {
                    deadline: deadline_when_blocked(ring, batch.deadline, batch.spins, now),
                    ..batch
                },
            )
        },
        BlockedTurn::Spin { entry } => {
            &&& wait matches BatchWait::Spin { blocked }
            &&& blocked@ == (BatchView {
                spins: spins_when_blocked(ring, default_backpressure(), batch.spins),
                ..batch
            })
            &&& after == before
        },
        BlockedTurn::Wait { entry, nap_ns, next_sleep_us } => {
            &&& wait matches BatchWait::Nap { blocked, nap_ns: nap }
            &&& nap == nap_ns
            &&& blocked@ == (BatchView {
                deadline: deadline_when_blocked(ring, batch.deadline, batch.spins, now),
                spins: spins_when_blocked(ring, default_backpressure(), batch.spins),
                sleep_us: next_sleep_us,
                ..batch
            })
            &&& after == before
        },
    }
}

/// Whether `entries` are what serializing `operations` from `first` on gives;
/// the entries get the tickets from `tickets` on, if any.
pub open spec fn batch_encoded<E, S>(
    codec: EntryCodec<E, S>,
    first: LSN,
    operations: Seq<WalOperation>,
    tickets: Option<u64>,
    entries: Seq<PendingEntry>,
) -> bool where
    E: Fn(&WalOperation) -> usize,
    S: Fn(LSN, &WalOperation) -> Result<Vec<u8>, Error>,
 {
    &&& entries.len() == operations.len()
    &&& forall|i: int|
        0 <= i < entries.len() ==> {
            &&& #[trigger] entries[i] == entry_at(
                lsn_after(first, i),
                entries[i].data,
                tickets,
                i,
            )
            &&& codec.encodes(lsn_after(first, i), operations[i], Ok(entries[i].data))
        }
}

/// Whether `operations[k]` is the first one that cannot be serialized from
/// `first` on, because of `error`.
pub open spec fn batch_encoding_fails<E, S>(
    codec: EntryCodec<E, S>,
    first: LSN,
    operations: Seq<WalOperation>,
    tickets: Option<u64>,
    k: int,
    error: Error,
) -> bool where
    E: Fn(&WalOperation) -> usize,
    S: Fn(LSN, &WalOperation) -> Result<Vec<u8>, Error>,
 {
    &&& 0 <= k < operations.len()
    &&& codec.encodes(lsn_after(first, k), operations[k], Err(error))
    &&& exists|entries: Seq<PendingEntry>|
        batch_encoded(codec, first, operations.take(k), tickets, entries)
}

/// The LSNs of `entries`.
pub open spec fn lsns_of(entries: Seq<PendingEntry>) -> Seq<LSN> {
    entries.map_values(|e: PendingEntry| e.lsn)
}

/// The handles of the waiters of `entries`, if there are any.
pub open spec fn handles_of(entries: Seq<PendingEntry>, waiter: bool) -> Seq<CompletionHandle> {
    if waiter {
        entries.map_values(|e: PendingEntry| e.completion->0)
    } else {
        Seq::empty()
    }
}

/// `board` with `count` more waiters, under the tickets from `first` on.
pub open spec fn with_waiters(
    board: Map<u64, CompletionView>,
    first: u64,
    count: nat,
) -> Map<u64, CompletionView>
    decreases count,
{
    if count == 0 {
        board
    } else {
        with_waiters(board, first, (count - 1) as nat).insert(
            wrap(first + count - 1),
            pending_completion(),
        )
    }
}

/// The log in which a batch at the next LSNs is about to be placed.
pub open spec fn batch_starting(
    before: WalView,
    entries: Seq<PendingEntry>,
    waiter: bool,
) -> WalView {
    let reserved = before.reserved(entries.len() as int).entered();
    if waiter {
        WalView {
            completions: with_waiters(
                reserved.completions,
                reserved.next_ticket,
                entries.len(),
            ),
            next_ticket: wrap(reserved.next_ticket + entries.len()),
            ..reserved
        }
    } else {
        reserved
    }
}

/// A batch of which nothing was placed yet.
pub open spec fn fresh_batch(
    entries: Seq<PendingEntry>,
    stripe: int,
    drainer: AppendDrainer,
    bound_ms: u64,
    waiter: bool,
) -> BatchView {
    BatchView {
        lsns: lsns_of(entries),
        handles: handles_of(entries, waiter),
        rest: entries,
        placed: 0,
        stripe,
        drainer,
        narrated: !waiter,
        deadline: fresh_deadline(bound_ms),
        spins: fresh_spins(default_backpressure()),
        sleep_us: default_backpressure().base_sleep_us,
        slow_since: None,
        reports: 0,
    }
}

/// What the first attempt of a batch append does to the log.
///
/// All operations are serialized before any entry is placed: if one of them
/// cannot be, nothing of the batch reaches a stripe, and only its LSNs are gone.
pub open spec fn batch_started<E, S>(
    before: WalView,
    after: WalView,
    turn: BatchTurn,
    operations: Seq<WalOperation>,
    codec: EntryCodec<E, S>,
    stripe: int,
    drainer: AppendDrainer,
    waiter: bool,
) -> bool where
    E: Fn(&WalOperation) -> usize,
    S: Fn(LSN, &WalOperation) -> Result<Vec<u8>, Error>,
 {
    let first = LSN(before.next_lsn);
    if before.shutdown_requested {
        &&& turn matches BatchTurn::Refused(error)
        &&& error@ == shutting_down()
        &&& after == before
    } else if operations.len() == 0 {
        &&& turn matches BatchTurn::Placed { lsns, handles }
        &&& lsns@ == Seq::<LSN>::empty()
        &&& handles@ == Seq::<CompletionHandle>::empty()
        &&& after == before
    } else {
        ||| {
            &&& turn matches BatchTurn::Refused(error)
            &&& exists|k: int|
                batch_encoding_fails(
                    codec,
                    first,
                    operations,
                    before.tickets(waiter),
                    k,
                    error,
                )
            &&& after == before.reserved(operations.len() as int)
        }
        ||| exists|entries: Seq<PendingEntry>| #[trigger]
            batch_encoded(
                codec,
                first,
                operations,
                before.tickets(waiter),
                entries,
            ) && batch_attempted(
                batch_starting(before, entries, waiter),
                after,
                turn,
                None,
                fresh_batch(entries, stripe, drainer, before.config.max_append_block_ms, waiter),
                0,
            )
    }
}

/// The entries that are ready in any of `stripes`, stripe by stripe.
pub open spec fn ready_of_all(stripes: Seq<RingView>) -> Seq<PendingEntry>
    decreases stripes.len(),
{
    if stripes.len() == 0 {
        Seq::empty()
    } else {
        ready_of_all(stripes.drop_last()) + stripes.last().ready()
    }
}

/// `stripes` after each was drained.
pub open spec fn all_drained(stripes: Seq<RingView>) -> Seq<RingView> {
    stripes.map_values(|r: RingView| r.drained(r.ready().len() as int))
}

/// `stripes` after each was closed.
pub open spec fn all_closed(stripes: Seq<RingView>) -> Seq<RingView> {
    stripes.map_values(|r: RingView| RingView { closed: true, ..r })
}

/// How many entries wait in all of `stripes`.
pub open spec fn pending_total(stripes: Seq<RingView>) -> nat
    decreases stripes.len(),
{
    if stripes.len() == 0 {
        0
    } else {
        pending_total(stripes.drop_last()) + stripes.last().pending.len()
    }
}

/// Whether every claimed position of every stripe holds its entry.
pub open spec fn no_holes(stripes: Seq<RingView>) -> bool {
    forall|i: int|
        0 <= i < stripes.len() ==> (#[trigger] stripes[i]).ready().len()
            == stripes[i].pending.len()
}

/// When a shutdown that begins at `now` stops waiting for appends in flight:
/// after the bound on blocking appends, but not before a second.
pub open spec fn shutdown_limit(now: u64, bound_ms: u64) -> u64 {
    let wait_ms = if bound_ms < 1000 {
        1000
    } else {
        bound_ms as int
    };
    if now + wait_ms * 1_000_000 <= u64::MAX {
        (now + wait_ms * 1_000_000) as u64
    } else {
        u64::MAX
    }
}

/// Aggregate metrics for the concurrent WAL.
#[derive(Debug, Clone)]
pub struct ConcurrentWalMetrics {
    /// Total entries appended across all stripes.
    pub total_appends: u64,
    /// Current LSN.
    pub current_lsn: LSN,
    /// Per-stripe metrics.
    pub stripes: Vec<StripeMetrics>,
    /// Total pending entries across all stripes.
    pub total_pending: usize,
}

/// Concurrent write-ahead log with striped architecture.
pub struct ConcurrentWal {
    config: ConcurrentWalConfig,
    lsn_allocator: LsnAllocator,
    stripes: Vec<WalStripe>,
    num_stripes: usize,
    stripe_mask: usize,
    total_appends: u64,
    shutdown_requested: bool,
    active_batches: usize,
    async_drainer: AppendDrainer,
    completions: CompletionBoard,
    last_batch_arms: u32,
    slow_reports: u64,
}

impl View for ConcurrentWal {
    type V = WalView;

    closed spec fn view(&self) -> WalView {
        WalView {
            config: self.config,
            next_lsn: self.lsn_allocator@,
            stripes: self.stripes@.map_values(|s: WalStripe| s@),
            total_appends: self.total_appends,
            shutdown_requested: self.shutdown_requested,
            active_batches: self.active_batches,
            async_drainer: self.async_drainer,
            completions: self.completions@,
            next_ticket: self.completions.next_ticket(),
            last_batch_arms: self.last_batch_arms,
            slow_reports: self.slow_reports,
        }
    }
}

/// A freshly made log.
pub open spec fn is_fresh(wal: WalView, config: ConcurrentWalConfig) -> bool {
    &&& wal.config == config
    &&& wal.next_lsn == 1
    &&& is_next_power_of_two(wal.stripes.len() as int, config.num_stripes as int)
    &&& forall|i: int|
        0 <= i < wal.stripes.len() ==> {
            &&& #[trigger] wal.stripes[i] == empty_ring(wal.stripes[i].capacity)
            &&& is_next_power_of_two(wal.stripes[i].capacity as int, config.stripe_capacity as int)
        }
    &&& wal.total_appends == 0
    &&& !wal.shutdown_requested
    &&& wal.active_batches == 0
    &&& wal.async_drainer == AppendDrainer::BackgroundFlusher
    &&& wal.completions == Map::<u64, CompletionView>::empty()
    &&& wal.next_ticket == 0
    &&& wal.last_batch_arms == 0
    &&& wal.slow_reports == 0
}

impl ConcurrentWal {
    /// The invariant of the log.
    pub closed spec fn wf(&self) -> bool {
        &&& is_power_of_two(self.num_stripes as int)
        &&& self.stripe_mask == self.num_stripes - 1
        &&& self.stripes@.len() == self.num_stripes
        &&& forall|i: int|
            0 <= i < self.stripes@.len() ==> (#[trigger] self.stripes@[i]).wf()
                && self.stripes@[i].spec_id() == i
    }

    /// There is at least one stripe, and none holds more than its capacity.
    pub proof fn lemma_stripes(&self)
        requires
            self.wf(),
        ensures
            0 < self@.stripes.len() <= usize::MAX,
            forall|i: int|
                0 <= i < self@.stripes.len() ==> (#[trigger] self@.stripes[i]).pending.len()
                    <= self@.stripes[i].capacity <= usize::MAX && self@.stripes[i].capacity > 0,
            no_holes(self@.stripes),
    {
        lemma_mask(0, self.num_stripes as u64);
        assert forall|i: int| 0 <= i < self@.stripes.len() implies (
        #[trigger] self@.stripes[i]).ready().len() == self@.stripes[i].pending.len() by {
            self.stripes@[i].lemma_bounds();
        }
        assert forall|i: int| 0 <= i < self@.stripes.len() implies (
        #[trigger] self@.stripes[i]).pending.len() <= self@.stripes[i].capacity <= usize::MAX
            && self@.stripes[i].capacity > 0 by {
            self.stripes@[i].lemma_bounds();
        }
    }

    /// Create a new concurrent WAL with the given configuration.
    pub fn new(config: ConcurrentWalConfig) -> (result: Result<Self, Error>)
        requires
            config.is_valid(),
        ensures
            result matches Ok(wal) && wal.wf() && is_fresh(wal@, config),
    {
        let num_stripes: usize = next_power_of_two(config.num_stripes);
        let mut stripes: Vec<WalStripe> = Vec::with_capacity(num_stripes);
        let mut i: usize = 0;
        while i < num_stripes
            invariant
                i <= num_stripes,
                config.is_valid(),
                stripes@.len() == i,
                forall|k: int|
                    0 <= k < i ==> {
                        &&& (#[trigger] stripes@[k]).wf()
                        &&& stripes@[k].spec_id() == k
                        &&& stripes@[k]@ == empty_ring(stripes@[k]@.capacity)
                        &&& is_next_power_of_two(
                            stripes@[k]@.capacity as int,
                            config.stripe_capacity as int,
                        )
                    },
            decreases num_stripes - i,
        {
            stripes.push(WalStripe::with_capacity(i, config.stripe_capacity));
            i = i + 1;
        }
        proof {
            lemma_mask(0, num_stripes as u64);
        }
        Ok(
            ConcurrentWal {
                config,
                lsn_allocator: LsnAllocator::new(),
                stripes,
                num_stripes,
                stripe_mask: num_stripes - 1,
                total_appends: 0,
                shutdown_requested: false,
                active_batches: 0,
                async_drainer: AppendDrainer::BackgroundFlusher,
                completions: CompletionBoard::new(),
                last_batch_arms: 0,
                slow_reports: 0,
            },
        )
    }

    /// Create a new concurrent WAL with default configuration.
    pub fn with_defaults(wal_dir: String) -> (result: Result<Self, Error>)
        ensures
            result matches Ok(wal) && wal.wf() && is_fresh(
                wal@,
                ConcurrentWalConfig {
                    wal_dir,
                    num_stripes: 16,
                    stripe_capacity: 1024,
                    segment_size: 0x400_0000,
                    segments_to_retain: 10,
                    max_append_block_ms: 30_000,
                },
            ),
    {
        Self::new(ConcurrentWalConfig::new(wal_dir))
    }

    /// Declare who drains the stripes for the appends without a handle.
    pub fn set_async_drainer(&mut self, drainer: AppendDrainer)
        requires
            old(self).wf(),
        ensures
            final(self).wf(),
            final(self)@ == (WalView { async_drainer: drainer, ..old(self)@ }),
    {
        self.async_drainer = drainer;
    }

    /// Stall windows opened by the most recent batch.
    pub fn last_batch_deadline_arms(&self) -> (arms: u32)
        ensures
            arms == self@.last_batch_arms,
    {
        self.last_batch_arms
    }

    /// Slow-batch diagnostics made so far.
    pub fn slow_batch_diagnostics(&self) -> (count: u64)
        ensures
            count == self@.slow_reports,
    {
        self.slow_reports
    }

    /// Get the current (next to be allocated) LSN.
    pub fn current_lsn(&self) -> (lsn: LSN)
        ensures
            lsn == LSN(self@.next_lsn),
    {
        self.lsn_allocator.current()
    }

    /// Get the number of stripes.
    pub fn num_stripes(&self) -> (count: usize)
        requires
            self.wf(),
        ensures
            count == self@.stripes.len(),
    {
        self.num_stripes
    }

    /// Get total entries appended.
    pub fn total_appends(&self) -> (count: u64)
        ensures
            count == self@.total_appends,
    {
        self.total_appends
    }

    /// Get the number of the stripe for a thread with the given hash.
    ///
    /// The hash is reduced by the number of stripes of this log, so a thread
    /// may keep one hash for logs of any size.
    pub fn get_stripe(&self, thread_hash: u64) -> (stripe: usize)
        requires
            self.wf(),
        ensures
            stripe == stripe_of(thread_hash, self@.stripes.len()),
            stripe < self@.stripes.len(),
    {
        proof {
            lemma_mask(thread_hash, self.num_stripes as u64);
        }
        (thread_hash & (self.stripe_mask as u64)) as usize
    }

    /// Get a specific stripe by ID.
    pub fn stripe(&self, id: usize) -> (stripe: Option<&WalStripe>)
        requires
            self.wf(),
        ensures
            stripe is Some <==> id < self@.stripes.len(),
            stripe matches Some(found) ==> found.wf() && found@ == self@.stripes[id as int]
                && found.spec_id() == id,
    {
        if id < self.stripes.len() {
            Some(&self.stripes[id])
        } else {
            None
        }
    }

    /// Check if the WAL is shutting down and return an error if so.
    pub fn check_not_shutting_down(&self) -> (result: Result<(), Error>)
        ensures
            result is Err <==> self@.shutdown_requested,
            result matches Err(error) ==> error@ == shutting_down(),
    {
        if self.shutdown_requested {
            return Err(Error::wal("WAL is shutting down".to_string()));
        }
        Ok(())
    }

    /// The stall bound for one top-level append call.
    pub fn append_deadline(&self) -> (deadline: AppendDeadline)
        ensures
            deadline@ == fresh_deadline(self@.config.max_append_block_ms),
    {
        AppendDeadline::from_millis(self.config.max_append_block_ms)
    }

    /// Turn a refused blocking append into an error for the caller: what
    /// filled up, how long the writer waited, which stripe, and where to look
    /// next, which depends on who was meant to drain.
    pub fn map_append_blocked(
        &self,
        kind: AppendBlockedKind,
        stripe_id: usize,
        drainer: AppendDrainer,
    ) -> (error: Error)
        ensures
            error@ == blocked_error(
                kind,
                stripe_id as int,
                self@.config.max_append_block_ms,
                drainer,
            ),
    {
        match kind {
            AppendBlockedKind::Closed => Error::wal("WAL buffer closed".to_string()),
            AppendBlockedKind::TimedOut { waited_ns } => {
                let culprit = match drainer {
                    AppendDrainer::BackgroundFlusher =>
                        "the background flusher may be dead or wedged (check ConcurrentWalSystem::is_healthy)",
                    AppendDrainer::CallingThread =>
                        "no consumer is draining the buffer (Synchronous mode drains on the calling thread, only after the append returns, so a batch larger than the total ring capacity can never fit)",
                };
                let waited = show_duration(waited_ns);
                let stripe = show_usize(stripe_id);
                let bound = show_u64(self.config.max_append_block_ms);
                let reason = concat3(
                    "WAL append gave up after waiting ",
                    waited.as_str(),
                    ": stripe ",
                );
                let reason = concat3(
                    reason.as_str(),
                    stripe.as_str(),
                    " ring buffer full and nothing drained it within the ",
                );
                let reason = concat3(reason.as_str(), bound.as_str(), " ms bound; ");
                Error::wal(concat2(reason.as_str(), culprit))
            },
        }
    }

    /// The stripes of `after` are those of `before`, but for one.
    proof fn lemma_one_stripe(before: &Self, after: &Self, idx: int, ring: RingView)
        requires
            0 <= idx < before.stripes@.len(),
            after.stripes@ == before.stripes@.update(idx, after.stripes@[idx]),
            after.stripes@[idx]@ == ring,
        ensures
            after@.stripes == before@.stripes.update(idx, ring),
    {
        assert(after@.stripes =~= before@.stripes.update(idx, ring));
    }

    /// Drop the waiter of an entry that will not be flushed.
    fn forget_waiter(&mut self, entry: &PendingEntry)
        requires
            old(self).wf(),
        ensures
            final(self).wf(),
            final(self)@ == old(self)@.forgetting(seq![*entry]),
    {
        match entry.completion {
            Some(handle) => self.completions.forget(handle),
            None => {},
        }
        proof {
            assert(seq![*entry].drop_last() =~= Seq::empty());
            reveal_with_fuel(without, 2);
            assert(self@ =~= old(self)@.forgetting(seq![*entry]));
        }
    }

    /// Try to place the entry of an append that is in flight.
    fn attempt(&mut self, blocked: BlockedAppend) -> (turn: AppendTurn)
        requires
            old(self).wf(),
            0 <= blocked@.stripe < old(self)@.stripes.len(),
        ensures
            final(self).wf(),
            attempted(old(self)@, final(self)@, turn, blocked@),
    {
        let BlockedAppend { entry, stripe, drainer, deadline, backoff, sleep_us } = blocked;
        let lsn = entry.lsn;
        let handle = entry.completion;
        match self.stripes[stripe].try_append(entry) {
            Ok(()) => {
                self.total_appends = self.total_appends.wrapping_add(1);
                self.active_batches = self.active_batches.wrapping_sub(1);
                proof {
                    let ring = old(self)@.stripes[stripe as int];
                    assert(with_all(ring, seq![entry]) =~= ring.appended(entry)) by {
                        assert(seq![entry].map_values(|e: PendingEntry| Some(e)) =~= seq![
                            Some(entry),
                        ]);
                    }
                    Self::lemma_one_stripe(
                        old(self),
                        self,
                        stripe as int,
                        with_all(ring, seq![entry]),
                    );
                    assert(self@ =~= old(self)@.placed(stripe as int, seq![entry]).left());
                }
                AppendTurn::Placed { lsn, handle }
            },
            Err(back) => {
                proof {
                    Self::lemma_one_stripe(
                        old(self),
                        self,
                        stripe as int,
                        old(self)@.stripes[stripe as int],
                    );
                    assert(self@ =~= old(self)@);
                }
                if self.stripes[stripe].is_closed() {
                    self.forget_waiter(&back);
                    self.active_batches = self.active_batches.wrapping_sub(1);
                    let error = self.map_append_blocked(AppendBlockedKind::Closed, stripe, drainer);
                    AppendTurn::Refused(error)
                } else {
                    AppendTurn::Blocked(
                        BlockedAppend { entry: back, stripe, drainer, deadline, backoff, sleep_us },
                    )
                }
            },
        }
    }

    /// Try again to place the entry of a blocked append.
    pub fn append_retry(&mut self, blocked: BlockedAppend) -> (turn: AppendTurn)
        requires
            old(self).wf(),
            0 <= blocked@.stripe < old(self)@.stripes.len(),
        ensures
            final(self).wf(),
            attempted(old(self)@, final(self)@, turn, blocked@),
    {
        self.attempt(blocked)
    }

    /// Decide what a blocked append does at `now`: give up, or spin or sleep and
    /// try again.
    pub fn append_blocked(&mut self, blocked: BlockedAppend, now: u64) -> (wait: AppendWait)
        requires
            old(self).wf(),
            0 <= blocked@.stripe < old(self)@.stripes.len(),
        ensures
            final(self).wf(),
            waited_on(old(self)@, final(self)@, wait, blocked@, now),
    {
        let BlockedAppend { entry, stripe, drainer, mut deadline, mut backoff, sleep_us } = blocked;
        match self.stripes[stripe].blocked_turn(
            entry,
            &mut deadline,
            &mut backoff,
            sleep_us,
            now,
        ) {
            BlockedTurn::Refused(refused) => {
                let AppendBlocked { entry: back, kind } = refused;
                self.forget_waiter(&back);
                self.active_batches = self.active_batches.wrapping_sub(1);
                let error = self.map_append_blocked(kind, stripe, drainer);
                AppendWait::Refused(error)
            },
            BlockedTurn::Spin { entry: back } => AppendWait::Spin {
                blocked: BlockedAppend { entry: back, stripe, drainer, deadline, backoff, sleep_us },
            },
            BlockedTurn::Wait { entry: back, nap_ns, next_sleep_us } => AppendWait::Nap {
                blocked: BlockedAppend {
                    entry: back,
                    stripe,
                    drainer,
                    deadline,
                    backoff,
                    sleep_us: next_sleep_us,
                },
                nap_ns,
            },
        }
    }

    /// The first attempt of an append of one operation.
    fn start_append<E, S>(
        &mut self,
        operation: WalOperation,
        codec: &EntryCodec<E, S>,
        thread_hash: u64,
        drainer: AppendDrainer,
        waiter: bool,
    ) -> (turn: AppendTurn) where
        E: Fn(&WalOperation) -> usize,
        S: Fn(LSN, &WalOperation) -> Result<Vec<u8>, Error>,

        requires
            old(self).wf(),
            codec.total(),
        ensures
            final(self).wf(),
            append_started(
                old(self)@,
                final(self)@,
                turn,
                operation,
                *codec,
                stripe_of(thread_hash, old(self)@.stripes.len()),
                drainer,
                waiter,
            ),
    {
        match self.check_not_shutting_down() {
            Err(error) => {
                return AppendTurn::Refused(error);
            },
            Ok(()) => {},
        }
        let lsn = self.lsn_allocator.allocate();
        assert(self@ =~= old(self)@.reserved(1));
        let encoded = codec.serialize_entry(lsn, &operation);
        match encoded {
            Err(error) => {
                assert(codec.encodes(lsn, operation, encoded));
                AppendTurn::Refused(error)
            },
            Ok(data) => {
                assert(codec.encodes(lsn, operation, encoded));
                let stripe = self.get_stripe(thread_hash);
                self.active_batches = self.active_batches.wrapping_add(1);
                let entry = if waiter {
                    PendingEntry::new_sync(lsn, data, &mut self.completions).0
                } else {
                    PendingEntry::new_async(lsn, data)
                };
                assert(self@ =~= starting(old(self)@, waiter));
                let deadline = self.append_deadline();
                let config = BackpressureConfig::default();
                self.attempt(
                    BlockedAppend {
                        entry,
                        stripe,
                        drainer,
                        deadline,
                        backoff: SpinBackoff::new(&config),
                        sleep_us: config.base_sleep_us,
                    },
                )
            },
        }
    }

    /// Append an operation (async mode: nobody waits for its durability).
    ///
    /// The entry is buffered in a stripe and will be flushed by whoever drains
    /// the stripes. While the stripe is full the append is blocked.
    pub fn append_async<E, S>(
        &mut self,
        operation: WalOperation,
        codec: &EntryCodec<E, S>,
        thread_hash: u64,
    ) -> (turn: AppendTurn) where
        E: Fn(&WalOperation) -> usize,
        S: Fn(LSN, &WalOperation) -> Result<Vec<u8>, Error>,

        requires
            old(self).wf(),
            codec.total(),
        ensures
            final(self).wf(),
            append_started(
                old(self)@,
                final(self)@,
                turn,
                operation,
                *codec,
                stripe_of(thread_hash, old(self)@.stripes.len()),
                old(self)@.async_drainer,
                false,
            ),
    {
        let drainer = self.async_drainer;
        self.start_append(operation, codec, thread_hash, drainer, false)
    }

    /// Append an operation with a completion handle.
    ///
    /// The handle can be used to wait for durability later. While the stripe
    /// is full the append is blocked, bounded as the async one is.
    pub fn append_with_handle<E, S>(
        &mut self,
        operation: WalOperation,
        codec: &EntryCodec<E, S>,
        thread_hash: u64,
    ) -> (turn: AppendTurn) where
        E: Fn(&WalOperation) -> usize,
        S: Fn(LSN, &WalOperation) -> Result<Vec<u8>, Error>,

        requires
            old(self).wf(),
            codec.total(),
        ensures
            final(self).wf(),
            append_started(
                old(self)@,
                final(self)@,
                turn,
                operation,
                *codec,
                stripe_of(thread_hash, old(self)@.stripes.len()),
                AppendDrainer::CallingThread,
                true,
            ),
    {
        self.start_append(operation, codec, thread_hash, AppendDrainer::CallingThread, true)
    }

    /// Append an operation (sync mode), refusing it at once if there is no
    /// room. The append stays in flight until [`Self::append_sync_wait`] has
    /// answered it.
    pub fn append_sync<E, S>(
        &mut self,
        operation: WalOperation,
        codec: &EntryCodec<E, S>,
        thread_hash: u64,
    ) -> (result: Result<(LSN, CompletionHandle), Error>) where
        E: Fn(&WalOperation) -> usize,
        S: Fn(LSN, &WalOperation) -> Result<Vec<u8>, Error>,

        requires
            old(self).wf(),
            codec.total(),
        ensures
            final(self).wf(),
            sync_append_started(
                old(self)@,
                final(self)@,
                result,
                operation,
                *codec,
                stripe_of(thread_hash, old(self)@.stripes.len()),
            ),
    {
        match self.check_not_shutting_down() {
            Err(error) => {
                return Err(error);
            },
            Ok(()) => {},
        }
        let lsn = self.lsn_allocator.allocate();
        assert(self@ =~= old(self)@.reserved(1));
        let encoded = codec.serialize_entry(lsn, &operation);
        match encoded {
            Err(error) => {
                assert(codec.encodes(lsn, operation, encoded));
                Err(error)
            },
            Ok(data) => {
                assert(codec.encodes(lsn, operation, encoded));
                let stripe = self.get_stripe(thread_hash);
                let (entry, handle) = PendingEntry::new_sync(lsn, data, &mut self.completions);
                let ghost middle = *self;
                match self.stripes[stripe].try_append(entry) {
                    Ok(()) => {
                        self.total_appends = self.total_appends.wrapping_add(1);
                        self.active_batches = self.active_batches.wrapping_add(1);
                        proof {
                            let ring = old(self)@.stripes[stripe as int];
                            assert(with_all(ring, seq![entry]) =~= ring.appended(entry)) by {
                                assert(seq![entry].map_values(|e: PendingEntry| Some(e)) =~= seq![
                                    Some(entry),
                                ]);
                            }
                            Self::lemma_one_stripe(
                                &middle,
                                self,
                                stripe as int,
                                with_all(ring, seq![entry]),
                            );
                            assert(self@ =~= starting(old(self)@, true).placed(
                                stripe as int,
                                seq![entry],
                            ));
                        }
                        Ok((lsn, handle))
                    },
                    Err(back) => {
                        proof {
                            Self::lemma_one_stripe(
                                &middle,
                                self,
                                stripe as int,
                                middle@.stripes[stripe as int],
                            );
                            assert(self@ =~= middle@);
                        }
                        self.forget_waiter(&back);
                        proof {
                            assert(seq![entry].drop_last() =~= Seq::empty());
                            reveal_with_fuel(without, 2);
                            assert(self@ =~= old(self)@.reserved(1).registered().forgetting(
                                seq![entry],
                            ));
                        }
                        Err(Error::wal("WAL buffer full - backpressure".to_string()))
                    },
                }
            },
        }
    }

    /// One turn of waiting for the entry behind `handle` to be flushed. Once
    /// there is an answer, the waiter is dropped.
    pub fn wait_durable(&mut self, handle: CompletionHandle, elapsed_ns: u64, timeout_ns: u64) -> (
    answer: Option<Result<(), Error>>)
        requires
            old(self).wf(),
        ensures
            final(self).wf(),
            answers_waiter(
                answer,
                seen_on(old(self)@.completions, handle.0),
                elapsed_ns,
                timeout_ns,
            ),
            final(self)@ == if answer is Some {
                WalView { completions: old(self)@.completions.remove(handle.0), ..old(self)@ }
            } else {
                old(self)@
            },
    {
        match handle.wait_timeout(&self.completions, elapsed_ns, timeout_ns) {
            None => None,
            Some(result) => {
                self.completions.forget(handle);
                match result {
                    Ok(()) => Some(Ok(())),
                    Err(text) => Some(Err(Error::wal(concat2("WAL flush failed: ", text.as_str())))),
                }
            },
        }
    }

    /// Ask all of `handles` whether their entries are durable.
    fn ask_all(&self, handles: &Vec<CompletionHandle>, elapsed_ns: u64, timeout_ns: u64) -> (answer:
        Option<Result<(), Error>>)
        ensures
            answers_batch(answer, self@.completions, handles@, elapsed_ns, timeout_ns),
    {
        let ghost board = self@.completions;
        let mut waits: Option<usize> = None;
        let mut i: usize = 0;
        while i < handles.len()
            invariant
                i <= handles.len(),
                board == self@.completions,
                forall|j: int|
                    0 <= j < i ==> seen_on(board, (#[trigger] handles@[j]).0).state
                        != CompletionState::Error,
                match waits {
                    None => forall|j: int|
                        0 <= j < i ==> seen_on(board, (#[trigger] handles@[j]).0).state
                            == CompletionState::Complete,
                    Some(w) => w < i && seen_on(board, handles@[w as int].0).state
                        == CompletionState::Pending,
                },
            decreases handles.len() - i,
        {
            match handles[i].wait(&self.completions) {
                None => {
                    waits = Some(i);
                },
                Some(Ok(())) => {},
                Some(Err(text)) => {
                    proof {
                        assert(fails_first_at(board, handles@, i as int));
                        assert forall|k: int| #[trigger] fails_first_at(board, handles@, k) implies k
                            == i by {
                            if k < i {
                                assert(seen_on(board, handles@[k].0).state
                                    != CompletionState::Error);
                            }
                        }
                    }
                    return Some(Err(Error::wal(concat2("WAL flush failed: ", text.as_str()))));
                },
            }
            i = i + 1;
        }
        match waits {
            None => Some(Ok(())),
            Some(w) => {
                assert(!all_durable(board, handles@)) by {
                    assert(seen_on(board, handles@[w as int].0).state == CompletionState::Pending);
                }
                match handles[w].wait_timeout(&self.completions, elapsed_ns, timeout_ns) {
                    None => None,
                    Some(Ok(())) => Some(Ok(())),
                    Some(Err(text)) => Some(
                        Err(Error::wal(concat2("WAL flush failed: ", text.as_str()))),
                    ),
                }
            },
        }
    }

    /// One turn of waiting for all entries behind `handles` to be flushed. Once
    /// there is an answer, the waiters are dropped.
    pub fn wait_all_durable(
        &mut self,
        handles: &Vec<CompletionHandle>,
        elapsed_ns: u64,
        timeout_ns: u64,
    ) -> (answer: Option<Result<(), Error>>)
        requires
            old(self).wf(),
        ensures
            final(self).wf(),
            answers_batch(answer, old(self)@.completions, handles@, elapsed_ns, timeout_ns),
            final(self)@ == if answer is Some {
                WalView {
                    completions: without_handles(old(self)@.completions, handles@),
                    ..old(self)@
                }
            } else {
                old(self)@
            },
    {
        let answer = self.ask_all(handles, elapsed_ns, timeout_ns);
        if answer.is_some() {
            self.forget_handles(handles);
        }
        answer
    }

    /// One turn of waiting for an entry of [`Self::append_sync`]. The wait is
    /// bounded to detect a deadlock; it is no promise on how long a flush takes.
    pub fn append_sync_wait(
        &mut self,
        lsn: LSN,
        handle: CompletionHandle,
        elapsed_ns: u64,
    ) -> (answer: Option<Result<LSN, Error>>)
        requires
            old(self).wf(),
        ensures
            final(self).wf(),
            answer matches Some(Ok(durable)) ==> durable == lsn,
            answers_waiter(
                match answer {
                    None => None,
                    Some(Ok(_)) => Some(Ok(())),
                    Some(Err(error)) => Some(Err(error)),
                },
                seen_on(old(self)@.completions, handle.0),
                elapsed_ns,
                SYNC_WAIT_TIMEOUT_NS,
            ),
            final(self)@ == if answer is Some {
                WalView {
                    completions: old(self)@.completions.remove(handle.0),
                    ..old(self)@.left()
                }
            } else {
                old(self)@
            },
    {
        match self.wait_durable(handle, elapsed_ns, SYNC_WAIT_TIMEOUT_NS) {
            None => None,
            Some(result) => {
                self.active_batches = self.active_batches.wrapping_sub(1);
                match result {
                    Ok(()) => Some(Ok(lsn)),
                    Err(error) => Some(Err(error)),
                }
            },
        }
    }

    /// Narrate a batch that is progressing but slow, once per elapsed stall
    /// bound.
    ///
    /// The bound measures time without progress, so a drainer that frees one
    /// slot just inside every window keeps a batch alive indefinitely. Failing
    /// it would be wrong; keeping silent would make it look like a hang.
    fn report_slow_batch_progress(
        &mut self,
        origin: u64,
        placed: usize,
        total: usize,
        reports: &mut u32,
        now: u64,
    ) -> (diagnostic: Option<String>)
        requires
            old(self).wf(),
        ensures
            final(self).wf(),
            match slow_report(old(self)@.config.max_append_block_ms, origin, now, *old(reports)) {
                Some((elapsed_ms, due)) => {
                    &&& diagnostic matches Some(text)
                    &&& text@ == slow_text(
                        placed as nat,
                        total as nat,
                        elapsed_ms,
                        due,
                        old(self)@.config.max_append_block_ms,
                    )
                    &&& *final(reports) == due
                    &&& final(self)@ == (WalView {
                        slow_reports: wrap(old(self)@.slow_reports + 1),
                        ..old(self)@
                    })
                },
                None => {
                    &&& diagnostic is None
                    &&& *final(reports) == *old(reports)
                    &&& final(self)@ == old(self)@
                },
            },
    {
        let bound_ms: u64 = self.config.max_append_block_ms;
        if bound_ms == 0 {
            return None;
        }
        let elapsed_ms: u64 = now.saturating_sub(origin) / 1_000_000;
        let windows: u64 = elapsed_ms / bound_ms;
        let due: u32 = if windows <= 0xffff_ffff {
            windows as u32
        } else {
            u32::MAX
        };
        if due <= *reports {
            return None;
        }
        *reports = due;
        self.slow_reports = self.slow_reports.wrapping_add(1);
        let placed_text = show_usize(placed);
        let total_text = show_usize(total);
        let elapsed_text = show_u64(elapsed_ms);
        let due_text = show_u64(due as u64);
        let bound_text = show_u64(bound_ms);
        let text = concat3(
            "WAL append_batch is progressing but slow: ",
            placed_text.as_str(),
            "/",
        );
        let text = concat3(text.as_str(), total_text.as_str(), " entries placed after ");
        let text = concat3(text.as_str(), elapsed_text.as_str(), "ms, which is past ");
        let text = concat3(text.as_str(), due_text.as_str(), " stall window(s) of ");
        let text = concat3(
            text.as_str(),
            bound_text.as_str(),
            "ms. The drainer is alive (each window saw progress, so the batch is NOT being failed), but it is freeing slots barely fast enough, and this call holds the commit path for its whole duration. Consider is_healthy(), the flush thread's stats, and disk throughput.",
        );
        Some(text)
    }

    /// Drop the waiters behind `handles`.
    fn forget_handles(&mut self, handles: &Vec<CompletionHandle>)
        requires
            old(self).wf(),
        ensures
            final(self).wf(),
            final(self)@ == (WalView {
                completions: without_handles(old(self)@.completions, handles@),
                ..old(self)@
            }),
    {
        let mut i: usize = 0;
        proof {
            assert(without_handles(self@.completions, handles@.take(0)) =~= self@.completions);
        }
        while i < handles.len()
            invariant
                i <= handles.len(),
                self.wf(),
                self@ == (WalView {
                    completions: without_handles(old(self)@.completions, handles@.take(i as int)),
                    ..old(self)@
                }),
            decreases handles.len() - i,
        {
            let ghost before = self@;
            self.completions.forget(handles[i]);
            proof {
                let done = handles@.take(i as int);
                assert(handles@.take(i + 1) =~= done.push(handles@[i as int]));
                assert forall|ticket: u64| #[trigger]
                    done.push(handles@[i as int]).contains(CompletionHandle(ticket)) <==> (
                    done.contains(CompletionHandle(ticket)) || ticket == handles@[i as int].0) by {
                    let handle = CompletionHandle(ticket);
                    let more = done.push(handles@[i as int]);
                    if done.contains(handle) {
                        let j = choose|j: int| 0 <= j < done.len() && done[j] == handle;
                        assert(more[j] == handle);
                    }
                    if ticket == handles@[i as int].0 {
                        assert(more[done.len() as int] == handle);
                    }
                }
                assert(without_handles(old(self)@.completions, handles@.take(i + 1))
                    =~= without_handles(old(self)@.completions, done).remove(handles@[i as int].0));
            }
            i = i + 1;
        }
        assert(handles@.take(i as int) =~= handles@);
    }

    /// Placing one more entry behind those that were placed.
    proof fn lemma_place_next(wal: WalView, stripe: int, entries: Seq<PendingEntry>, k: int)
        requires
            0 <= k < entries.len() < 0x1_0000_0000_0000_0000,
            0 <= stripe < wal.stripes.len(),
        ensures
            wal.placed(stripe, entries.take(k + 1)).stripes == wal.stripes.update(
                stripe,
                wal.placed(stripe, entries.take(k)).stripes[stripe].appended(entries[k]),
            ),
            wal.placed(stripe, entries.take(k + 1)).total_appends == wrap(
                wal.placed(stripe, entries.take(k)).total_appends + 1,
            ),
    {
        let some = |e: PendingEntry| Some(e);
        assert(entries.take(k + 1) =~= entries.take(k).push(entries[k]));
        assert(entries.take(k + 1).map_values(some) =~= entries.take(k).map_values(some).push(
            Some(entries[k]),
        ));
        assert(with_all(wal.stripes[stripe], entries.take(k + 1)) =~= with_all(
            wal.stripes[stripe],
            entries.take(k),
        ).appended(entries[k]));
    }

    /// Try to place the rest of a batch that is in flight.
    fn advance(&mut self, batch: BlockedBatch, now: u64) -> (result: (BatchTurn, Option<String>))
        requires
            old(self).wf(),
            batch@.wf(),
            0 <= batch@.stripe < old(self)@.stripes.len(),
        ensures
            final(self).wf(),
            batch_attempted(old(self)@, final(self)@, result.0, result.1, batch@, now),
    {
        let ghost b0 = batch@;
        let ghost bound_ms = self@.config.max_append_block_ms;
        let mut work = batch;
        let stripe: usize = work.stripe;
        let total: usize = work.lsns.len();
        let mut diagnostic: Option<String> = None;
        let ghost ring = self@.stripes[stripe as int];
        let ghost mut k: int = 0;
        proof {
            assert(b0.rest.take(0) =~= Seq::empty());
            assert(b0.rest.take(0).map_values(|e: PendingEntry| Some(e)) =~= Seq::empty());
            assert(with_all(ring, b0.rest.take(0)) =~= ring);
            assert(self@.placed(stripe as int, b0.rest.take(0)) =~= self@);
            assert(b0.rest.skip(0) =~= b0.rest);
            self.lemma_stripes();
        }
        loop
            invariant
                self.wf(),
                b0 == batch@,
                b0.wf(),
                b0.stripe == stripe,
                b0.lsns.len() == total,
                work.rest@.len() + k == b0.rest.len(),
                work.rest@.reverse() == b0.rest.skip(k),
                stripe < self.stripes@.len() == old(self)@.stripes.len(),
                ring == old(self)@.stripes[stripe as int],
                self@.stripes[stripe as int].pending.len() == ring.pending.len() + k,
                self@.stripes[stripe as int].closed == ring.closed,
                self@.stripes[stripe as int].capacity == ring.capacity,
                ring.pending.len() <= ring.capacity,
                0 <= k <= b0.rest.len(),
                k <= room_in(ring),
                bound_ms == old(self)@.config.max_append_block_ms,
                work@ == b0.advanced(k as nat, bound_ms, now),
                ({
                    let narration = if k > 0 {
                        b0.narration(bound_ms, now)
                    } else {
                        None
                    };
                    let placed = old(self)@.placed(stripe as int, b0.rest.take(k));
                    &&& match narration {
                        Some((elapsed_ms, due)) => {
                            &&& diagnostic matches Some(text)
                            &&& text@ == slow_text(
                                b0.placed + 1,
                                b0.lsns.len(),
                                elapsed_ms,
                                due,
                                bound_ms,
                            )
                            &&& self@ == (WalView {
                                slow_reports: wrap(placed.slow_reports + 1),
                                ..placed
                            })
                        },
                        None => diagnostic is None && self@ == placed,
                    }
                }),
            decreases b0.rest.len() - k,
        {
            let ghost unplaced = work.rest@;
            match work.rest.pop() {
                None => {
                    proof {
                        assert(k == b0.rest.len());
                        assert(b0.rest.take(k) =~= b0.rest);
                    }
                    let ghost middle = self@;
                    if work.narrated {
                        self.last_batch_arms = work.deadline.arm_count();
                    }
                    self.active_batches = self.active_batches.wrapping_sub(1);
                    proof {
                        assert(self@ =~= batch_left(middle, work@));
                    }
                    let BlockedBatch { lsns, handles, .. } = work;
                    return (BatchTurn::Placed { lsns, handles }, diagnostic);
                },
                Some(entry) => {
                    proof {
                        assert(entry == unplaced.reverse()[0]);
                        assert(entry == b0.rest[k]);
                        assert forall|j: int| 0 <= j < work.rest@.len() implies #[trigger] work.rest@.reverse()[j]
                            == b0.rest.skip(k + 1)[j] by {
                            assert(unplaced.reverse()[j + 1] == b0.rest.skip(k)[j + 1]);
                        }
                        assert(work.rest@.reverse() =~= b0.rest.skip(k + 1));
                    }
                    let ghost middle = *self;
                    match self.stripes[stripe].try_append(entry) {
                        Ok(()) => {
                            self.total_appends = self.total_appends.wrapping_add(1);
                            proof {
                                Self::lemma_place_next(old(self)@, stripe as int, b0.rest, k);
                                Self::lemma_one_stripe(
                                    &middle,
                                    self,
                                    stripe as int,
                                    middle@.stripes[stripe as int].appended(entry),
                                );
                            }
                            work.placed = work.placed + 1;
                            if work.narrated {
                                match work.deadline.armed_at() {
                                    Some(armed_at) => {
                                        let origin: u64 = match work.slow_since {
                                            Some(at) => at,
                                            None => armed_at,
                                        };
                                        work.slow_since = Some(origin);
                                        diagnostic =
                                        self.report_slow_batch_progress(
                                            origin,
                                            work.placed,
                                            total,
                                            &mut work.reports,
                                            now,
                                        );
                                    },
                                    None => {},
                                }
                            }
                            work.deadline.note_progress();
                            let config = BackpressureConfig::default();
                            work.backoff = SpinBackoff::new(&config);
                            work.sleep_us = config.base_sleep_us;
                            proof {
                                k = k + 1;
                                assert(work@.rest =~= b0.rest.skip(k));
                                assert(work@ =~= b0.advanced(k as nat, bound_ms, now));
                                assert(self@.stripes.len() == self.stripes@.len());
                            }
                        },
                        Err(back) => {
                            work.rest.push(back);
                            proof {
                                assert(work.rest@.reverse() =~= b0.rest.skip(k));
                                assert(work@.rest =~= b0.advanced(k as nat, bound_ms, now).rest);
                                Self::lemma_one_stripe(
                                    &middle,
                                    self,
                                    stripe as int,
                                    middle@.stripes[stripe as int],
                                );
                                assert(self@ =~= middle@);
                                assert(k == room_in(ring));
                                assert(work@ =~= b0.advanced(k as nat, bound_ms, now));
                            }
                            if self.stripes[stripe].is_closed() {
                                self.forget_handles(&work.handles);
                                if work.narrated {
                                    self.last_batch_arms = work.deadline.arm_count();
                                }
                                self.active_batches = self.active_batches.wrapping_sub(1);
                                proof {
                                    assert(self@ =~= batch_refused(middle@, work@));
                                }
                                let error = self.map_append_blocked(
                                    AppendBlockedKind::Closed,
                                    stripe,
                                    work.drainer,
                                );
                                return (BatchTurn::Refused(error), diagnostic);
                            }
                            return (BatchTurn::Blocked(work), diagnostic);
                        },
                    }
                },
            }
        }
    }

    /// Try again to place the rest of a blocked batch. The second value is the
    /// diagnostic that is due for a batch that makes slow progress.
    pub fn batch_retry(&mut self, batch: BlockedBatch, now: u64) -> (result: (
        BatchTurn,
        Option<String>,
    ))
        requires
            old(self).wf(),
            batch@.wf(),
            0 <= batch@.stripe < old(self)@.stripes.len(),
        ensures
            final(self).wf(),
            batch_attempted(old(self)@, final(self)@, result.0, result.1, batch@, now),
    {
        self.advance(batch, now)
    }

    /// Decide what a blocked batch does at `now`: give up, or spin or sleep and
    /// try again.
    pub fn batch_blocked(&mut self, batch: BlockedBatch, now: u64) -> (wait: BatchWait)
        requires
            old(self).wf(),
            batch@.wf(),
            batch@.rest.len() > 0,
            0 <= batch@.stripe < old(self)@.stripes.len(),
        ensures
            final(self).wf(),
            batch_waited_on(old(self)@, final(self)@, wait, batch@, now),
    {
        let mut work = batch;
        match work.rest.pop() {
            None => BatchWait::Nap { blocked: work, nap_ns: None },
            Some(entry) => {
                assert(entry == batch@.rest[0]);
                match self.stripes[work.stripe].blocked_turn(
                    entry,
                    &mut work.deadline,
                    &mut work.backoff,
                    work.sleep_us,
                    now,
                ) {
                    BlockedTurn::Refused(refused) => {
                        self.forget_handles(&work.handles);
                        if work.narrated {
                            self.last_batch_arms = work.deadline.arm_count();
                        }
                        self.active_batches = self.active_batches.wrapping_sub(1);
                        proof {
                            assert(self@ =~= batch_refused(
                                old(self)@,
                                BatchView { deadline: work.deadline@, ..batch@ },
                            ));
                        }
                        let error = self.map_append_blocked(
                            refused.kind,
                            work.stripe,
                            work.drainer,
                        );
                        BatchWait::Refused(error)
                    },
                    BlockedTurn::Spin { entry: back } => {
                        work.rest.push(back);
                        assert(work.rest@ =~= batch.rest@);
                        BatchWait::Spin { blocked: work }
                    },
                    BlockedTurn::Wait { entry: back, nap_ns, next_sleep_us } => {
                        work.rest.push(back);
                        work.sleep_us = next_sleep_us;
                        assert(work.rest@ =~= batch.rest@);
                        BatchWait::Nap { blocked: work, nap_ns }
                    },
                }
            },
        }
    }

    /// Serialize every operation of a batch.
    fn encode_batch<E, S>(
        operations: &Vec<WalOperation>,
        codec: &EntryCodec<E, S>,
        first: LSN,
        tickets: Option<u64>,
    ) -> (result: Result<Vec<PendingEntry>, Error>) where
        E: Fn(&WalOperation) -> usize,
        S: Fn(LSN, &WalOperation) -> Result<Vec<u8>, Error>,

        requires
            codec.total(),
        ensures
            match result {
                Ok(entries) => batch_encoded(*codec, first, operations@, tickets, entries@),
                Err(error) => exists|k: int|
                    batch_encoding_fails(*codec, first, operations@, tickets, k, error),
            },
    {
        let mut entries: Vec<PendingEntry> = Vec::with_capacity(operations.len());
        let mut i: usize = 0;
        while i < operations.len()
            invariant
                i <= operations.len(),
                codec.total(),
                batch_encoded(*codec, first, operations@.take(i as int), tickets, entries@),
            decreases operations.len() - i,
        {
            let lsn = LSN(first.0.wrapping_add(i as u64));
            let encoded = codec.serialize_entry(lsn, &operations[i]);
            assert(lsn == lsn_after(first, i as int));
            match encoded {
                Err(error) => {
                    assert(batch_encoding_fails(
                        *codec,
                        first,
                        operations@,
                        tickets,
                        i as int,
                        error,
                    ));
                    return Err(error);
                },
                Ok(data) => {
                    let ghost before = entries@;
                    let completion = match tickets {
                        Some(ticket) => Some(CompletionHandle(ticket.wrapping_add(i as u64))),
                        None => None,
                    };
                    entries.push(PendingEntry { lsn, data, completion });
                    proof {
                        assert(codec.encodes(lsn, operations@[i as int], Ok(data)));
                        assert(operations@.take(i + 1) =~= operations@.take(i as int).push(
                            operations@[i as int],
                        ));
                        assert forall|j: int| 0 <= j < entries@.len() implies {
                            &&& #[trigger] entries@[j] == entry_at(
                                lsn_after(first, j),
                                entries@[j].data,
                                tickets,
                                j,
                            )
                            &&& codec.encodes(
                                lsn_after(first, j),
                                operations@.take(i + 1)[j],
                                Ok(entries@[j].data),
                            )
                        } by {
                            if j < i {
                                assert(entries@[j] == before[j]);
                            }
                        }
                    }
                    i = i + 1;
                },
            }
        }
        assert(operations@.take(i as int) =~= operations@);
        Ok(entries)
    }

    /// Register `count` waiters.
    fn register_waiters(&mut self, count: usize)
        requires
            old(self).wf(),
        ensures
            final(self).wf(),
            final(self)@ == (WalView {
                completions: with_waiters(
                    old(self)@.completions,
                    old(self)@.next_ticket,
                    count as nat,
                ),
                next_ticket: wrap(old(self)@.next_ticket + count),
                ..old(self)@
            }),
    {
        let mut i: usize = 0;
        while i < count
            invariant
                i <= count,
                self.wf(),
                self@ == (WalView {
                    completions: with_waiters(
                        old(self)@.completions,
                        old(self)@.next_ticket,
                        i as nat,
                    ),
                    next_ticket: wrap(old(self)@.next_ticket + i),
                    ..old(self)@
                }),
            decreases count - i,
        {
            self.completions.register();
            i = i + 1;
        }
    }

    /// The first attempt of a batch append.
    fn start_batch<E, S>(
        &mut self,
        operations: Vec<WalOperation>,
        codec: &EntryCodec<E, S>,
        thread_hash: u64,
        drainer: AppendDrainer,
        waiter: bool,
    ) -> (turn: BatchTurn) where
        E: Fn(&WalOperation) -> usize,
        S: Fn(LSN, &WalOperation) -> Result<Vec<u8>, Error>,

        requires
            old(self).wf(),
            codec.total(),
        ensures
            final(self).wf(),
            batch_started(
                old(self)@,
                final(self)@,
                turn,
                operations@,
                *codec,
                stripe_of(thread_hash, old(self)@.stripes.len()),
                drainer,
                waiter,
            ),
    {
        match self.check_not_shutting_down() {
            Err(error) => {
                return BatchTurn::Refused(error);
            },
            Ok(()) => {},
        }
        if operations.is_empty() {
            return BatchTurn::Placed { lsns: Vec::new(), handles: Vec::new() };
        }
        // One allocation for the whole batch. A batch that cannot be
        // serialized leaves a hole of unwritten LSNs, which recovery tolerates.
        let first = self.lsn_allocator.allocate_batch(operations.len() as u64);
        assert(self@ =~= old(self)@.reserved(operations@.len() as int));
        let tickets = if waiter {
            Some(self.completions.upcoming())
        } else {
            None
        };
        let entries = match Self::encode_batch(&operations, codec, first, tickets) {
            Ok(entries) => entries,
            Err(error) => {
                return BatchTurn::Refused(error);
            },
        };
        let ghost encoded = entries@;
        let stripe = self.get_stripe(thread_hash);
        self.active_batches = self.active_batches.wrapping_add(1);
        let mut rest: Vec<PendingEntry> = Vec::with_capacity(entries.len());
        let mut lsns: Vec<LSN> = Vec::with_capacity(entries.len());
        let mut handles: Vec<CompletionHandle> = Vec::new();
        let mut entries = entries;
        let mut i: usize = 0;
        while i < entries.len()
            invariant
                i <= entries.len(),
                entries@ == encoded,
                tickets == old(self)@.tickets(waiter),
                batch_encoded(*codec, first, operations@, tickets, encoded),
                lsns@ =~= lsns_of(encoded.take(i as int)),
                handles@ =~= handles_of(encoded.take(i as int), waiter),
            decreases entries.len() - i,
        {
            lsns.push(entries[i].lsn);
            match entries[i].completion {
                Some(handle) => handles.push(handle),
                None => {},
            }
            assert(encoded[i as int] == entry_at(
                lsn_after(first, i as int),
                encoded[i as int].data,
                tickets,
                i as int,
            ));
            assert(encoded.take(i + 1) =~= encoded.take(i as int).push(encoded[i as int]));
            i = i + 1;
        }
        assert(encoded.take(i as int) =~= encoded);
        while entries.len() > 0
            invariant
                entries@ + rest@.reverse() =~= encoded,
            decreases entries.len(),
        {
            match entries.pop() {
                Some(entry) => rest.push(entry),
                None => {},
            }
        }
        if waiter {
            self.register_waiters(lsns.len());
        }
        let deadline = self.append_deadline();
        let config = BackpressureConfig::default();
        let batch = BlockedBatch {
            lsns,
            handles,
            rest,
            placed: 0,
            stripe,
            drainer,
            narrated: !waiter,
            deadline,
            backoff: SpinBackoff::new(&config),
            sleep_us: config.base_sleep_us,
            slow_since: None,
            reports: 0,
        };
        proof {
            assert(rest@.reverse() =~= encoded);
            assert(self@ =~= batch_starting(old(self)@, encoded, waiter));
            assert(batch@ =~= fresh_batch(
                encoded,
                stripe as int,
                drainer,
                old(self)@.config.max_append_block_ms,
                waiter,
            ));
        }
        let (turn, diagnostic) = self.advance(batch, 0);
        proof {
            assert(batch_encoded(*codec, first, operations@, tickets, encoded));
            assert(diagnostic is None);
        }
        turn
    }

    /// Append a batch of operations (async mode).
    ///
    /// All LSNs come from a single allocation, so they are consecutive and in
    /// the order of the operations. All operations are serialized before any
    /// entry is placed, so an operation that cannot be serialized leaves no
    /// residue. A batch that is closed out or times out midway leaves a prefix
    /// behind, which transaction framing lets recovery discard.
    pub fn append_batch<E, S>(
        &mut self,
        operations: Vec<WalOperation>,
        codec: &EntryCodec<E, S>,
        thread_hash: u64,
    ) -> (turn: BatchTurn) where
        E: Fn(&WalOperation) -> usize,
        S: Fn(LSN, &WalOperation) -> Result<Vec<u8>, Error>,

        requires
            old(self).wf(),
            codec.total(),
        ensures
            final(self).wf(),
            batch_started(
                old(self)@,
                final(self)@,
                turn,
                operations@,
                *codec,
                stripe_of(thread_hash, old(self)@.stripes.len()),
                old(self)@.async_drainer,
                false,
            ),
    {
        let drainer = self.async_drainer;
        self.start_batch(operations, codec, thread_hash, drainer, false)
    }

    /// Append a batch of operations (sync mode), with a handle for each.
    pub fn append_batch_with_handles<E, S>(
        &mut self,
        operations: Vec<WalOperation>,
        codec: &EntryCodec<E, S>,
        thread_hash: u64,
    ) -> (turn: BatchTurn) where
        E: Fn(&WalOperation) -> usize,
        S: Fn(LSN, &WalOperation) -> Result<Vec<u8>, Error>,

        requires
            old(self).wf(),
            codec.total(),
        ensures
            final(self).wf(),
            batch_started(
                old(self)@,
                final(self)@,
                turn,
                operations@,
                *codec,
                stripe_of(thread_hash, old(self)@.stripes.len()),
                AppendDrainer::CallingThread,
                true,
            ),
    {
        self.start_batch(operations, codec, thread_hash, AppendDrainer::CallingThread, true)
    }

    /// Drain all pending entries from all stripes, in LSN order.
    pub fn drain_all(&mut self) -> (entries: Vec<PendingEntry>)
        requires
            old(self).wf(),
        ensures
            final(self).wf(),
            is_stable_sort(entries@, ready_of_all(old(self)@.stripes)),
            final(self)@ == (WalView { stripes: all_drained(old(self)@.stripes), ..old(self)@ }),
            entries@.len() == pending_total(old(self)@.stripes),
            pending_total(final(self)@.stripes) == 0,
    {
        proof {
            self.lemma_stripes();
            lemma_all_pending_is_ready(self@.stripes);
            lemma_drained_stripes_are_empty(self@.stripes);
        }
        let mut all: Vec<PendingEntry> = Vec::new();
        let mut i: usize = 0;
        let ghost s0 = self@.stripes;
        proof {
            assert(s0.take(0) =~= Seq::empty());
            assert(all_drained(s0).take(0) + s0.skip(0) =~= s0);
        }
        while i < self.stripes.len()
            invariant
                i <= self.stripes.len() == s0.len(),
                s0 == old(self)@.stripes,
                self.wf(),
                all@ == ready_of_all(s0.take(i as int)),
                self@ == (WalView {
                    stripes: all_drained(s0).take(i as int) + s0.skip(i as int),
                    ..old(self)@
                }),
            decreases s0.len() - i,
        {
            let ghost before = *self;
            let mut drained = self.stripes[i].drain();
            proof {
                assert(before@.stripes[i as int] == s0[i as int]);
                Self::lemma_one_stripe(&before, self, i as int, all_drained(s0)[i as int]);
                assert(self@.stripes =~= all_drained(s0).take(i + 1) + s0.skip(i + 1));
                assert(s0.take(i + 1).drop_last() =~= s0.take(i as int));
            }
            all.append(&mut drained);
            i = i + 1;
        }
        proof {
            assert(s0.take(i as int) =~= s0);
            assert(all_drained(s0).take(i as int) + s0.skip(i as int) =~= all_drained(s0));
        }
        sort_by_lsn(all)
    }

    /// Drain entries from a specific stripe. A stripe that does not exist has
    /// none.
    pub fn drain_stripe(&mut self, stripe_id: usize) -> (entries: Vec<PendingEntry>)
        requires
            old(self).wf(),
        ensures
            final(self).wf(),
            if stripe_id < old(self)@.stripes.len() {
                let ring = old(self)@.stripes[stripe_id as int];
                &&& entries@ == ring.ready()
                &&& final(self)@ == (WalView {
                    stripes: old(self)@.stripes.update(
                        stripe_id as int,
                        ring.drained(entries@.len() as int),
                    ),
                    ..old(self)@
                })
                &&& final(self)@.stripes[stripe_id as int].pending.len() == 0
            } else {
                entries@.len() == 0 && final(self)@ == old(self)@
            },
    {
        if stripe_id < self.stripes.len() {
            let entries = self.stripes[stripe_id].drain();
            proof {
                Self::lemma_one_stripe(
                    old(self),
                    self,
                    stripe_id as int,
                    self.stripes@[stripe_id as int]@,
                );
            }
            entries
        } else {
            Vec::new()
        }
    }

    /// Get metrics for all stripes.
    pub fn stripe_metrics(&self) -> (metrics: Vec<StripeMetrics>)
        requires
            self.wf(),
        ensures
            metrics@.len() == self@.stripes.len(),
            forall|i: int|
                0 <= i < metrics@.len() ==> #[trigger] metrics@[i] == metrics_of(
                    i,
                    self@.stripes[i],
                ),
    {
        let mut metrics: Vec<StripeMetrics> = Vec::with_capacity(self.stripes.len());
        let mut i: usize = 0;
        while i < self.stripes.len()
            invariant
                i <= self.stripes.len(),
                self.wf(),
                metrics@.len() == i,
                forall|j: int|
                    0 <= j < i ==> #[trigger] metrics@[j] == metrics_of(j, self@.stripes[j]),
            decreases self.stripes.len() - i,
        {
            assert(self.stripes@[i as int].wf());
            metrics.push(self.stripes[i].metrics());
            i = i + 1;
        }
        metrics
    }

    /// Close the WAL, preventing new appends. What was appended can still be
    /// drained.
    pub fn close(&mut self)
        requires
            old(self).wf(),
        ensures
            final(self).wf(),
            final(self)@ == (WalView { stripes: all_closed(old(self)@.stripes), ..old(self)@ }),
    {
        let mut i: usize = 0;
        let ghost s0 = self@.stripes;
        proof {
            assert(all_closed(s0).take(0) + s0.skip(0) =~= s0);
        }
        while i < self.stripes.len()
            invariant
                i <= self.stripes.len() == s0.len(),
                s0 == old(self)@.stripes,
                self.wf(),
                self@ == (WalView {
                    stripes: all_closed(s0).take(i as int) + s0.skip(i as int),
                    ..old(self)@
                }),
            decreases s0.len() - i,
        {
            let ghost before = *self;
            self.stripes[i].close();
            proof {
                assert(before@.stripes[i as int] == s0[i as int]);
                Self::lemma_one_stripe(&before, self, i as int, all_closed(s0)[i as int]);
                assert(self@.stripes =~= all_closed(s0).take(i + 1) + s0.skip(i + 1));
            }
            i = i + 1;
        }
        proof {
            assert(all_closed(s0).take(i as int) + s0.skip(i as int) =~= all_closed(s0));
        }
    }

    /// Begin a graceful shutdown at `now`: refuse new appends, and close the
    /// buffers before anything is waited for, so that a writer that is blocked
    /// on a full one gets out. Returns when [`Self::shutdown_poll`] gives up.
    pub fn shutdown_graceful(&mut self, now: u64) -> (limit: u64)
        requires
            old(self).wf(),
        ensures
            final(self).wf(),
            final(self)@ == (WalView {
                shutdown_requested: true,
                stripes: all_closed(old(self)@.stripes),
                ..old(self)@
            }),
            limit == shutdown_limit(now, old(self)@.config.max_append_block_ms),
    {
        self.shutdown_requested = true;
        self.close();
        let wait_ms: u64 = if self.config.max_append_block_ms < 1000 {
            1000
        } else {
            self.config.max_append_block_ms
        };
        match wait_ms.checked_mul(1_000_000) {
            Some(wait_ns) => now.saturating_add(wait_ns),
            None => u64::MAX,
        }
    }

    /// Whether a shutdown that gives up at `limit` is over at `now`, and how.
    /// `None` means that the caller yields and asks again.
    pub fn shutdown_poll(&self, now: u64, limit: u64) -> (outcome: Option<ShutdownOutcome>)
        ensures
            outcome == if self@.active_batches == 0 {
                Some(ShutdownOutcome::Completed)
            } else if now >= limit {
                Some(ShutdownOutcome::TimedOut { active_batches: self@.active_batches })
            } else {
                None
            },
    {
        if self.active_batches == 0 {
            Some(ShutdownOutcome::Completed)
        } else if now >= limit {
            Some(ShutdownOutcome::TimedOut { active_batches: self.active_batches })
        } else {
            None
        }
    }

    /// Check if the WAL is closed.
    pub fn is_closed(&self) -> (closed: bool)
        requires
            self.wf(),
        ensures
            closed == self@.stripes[0].closed,
    {
        proof {
            self.lemma_stripes();
        }
        self.stripes[0].is_closed()
    }

    /// Set the next LSN (for recovery). An LSN that was passed is ignored.
    pub fn set_next_lsn(&mut self, lsn: LSN)
        requires
            old(self).wf(),
        ensures
            final(self).wf(),
            final(self)@ == (WalView {
                next_lsn: if lsn.0 > old(self)@.next_lsn {
                    lsn.0
                } else {
                    old(self)@.next_lsn
                },
                ..old(self)@
            }),
    {
        self.lsn_allocator.set_next(lsn);
    }

    /// Get the WAL directory.
    pub fn wal_dir(&self) -> (dir: &str)
        ensures
            dir@ == self@.config.wal_dir@,
    {
        self.config.wal_dir.as_str()
    }

    /// Get the configuration.
    pub fn config(&self) -> (config: &ConcurrentWalConfig)
        ensures
            *config == self@.config,
    {
        &self.config
    }

    /// The waiters.
    pub fn completions(&self) -> (board: &CompletionBoard)
        ensures
            board@ == self@.completions,
    {
        &self.completions
    }

    /// Drop the waiter behind `handle`.
    pub fn forget(&mut self, handle: CompletionHandle)
        requires
            old(self).wf(),
        ensures
            final(self).wf(),
            final(self)@ == (WalView {
                completions: old(self)@.completions.remove(handle.0),
                ..old(self)@
            }),
    {
        self.completions.forget(handle);
    }

    /// Drop the waiters behind `handles`.
    pub fn forget_all(&mut self, handles: &Vec<CompletionHandle>)
        requires
            old(self).wf(),
        ensures
            final(self).wf(),
            final(self)@ == (WalView {
                completions: without_handles(old(self)@.completions, handles@),
                ..old(self)@
            }),
    {
        self.forget_handles(handles);
    }

    /// Report all of `entries` durable.
    pub fn complete_entries(&mut self, entries: &Vec<PendingEntry>)
        requires
            old(self).wf(),
        ensures
            final(self).wf(),
            final(self)@ == (WalView {
                completions: all_completed(old(self)@.completions, entries@),
                ..old(self)@
            }),
    {
        complete_all(entries, &mut self.completions);
    }

    /// Tell the waiters of `entries` that the flush failed.
    pub fn fail_entries(&mut self, entries: &Vec<PendingEntry>, error: &str)
        requires
            old(self).wf(),
        ensures
            final(self).wf(),
            final(self)@ == (WalView {
                completions: all_failed(old(self)@.completions, entries@, error@),
                ..old(self)@
            }),
    {
        fail_all(entries, &mut self.completions, error);
    }

    /// Throw all of `entries` away; their waiters are told.
    pub fn discard_entries(&mut self, entries: Vec<PendingEntry>)
        requires
            old(self).wf(),
        ensures
            final(self).wf(),
            final(self)@ == (WalView {
                completions: all_discarded(old(self)@.completions, entries@),
                ..old(self)@
            }),
    {
        discard_all(entries, &mut self.completions);
    }

    /// Get aggregate metrics.
    pub fn metrics(&self) -> (metrics: ConcurrentWalMetrics)
        requires
            self.wf(),
        ensures
            metrics.total_appends == self@.total_appends,
            metrics.current_lsn == LSN(self@.next_lsn),
            metrics.stripes@.len() == self@.stripes.len(),
            forall|i: int|
                0 <= i < metrics.stripes@.len() ==> #[trigger] metrics.stripes@[i] == metrics_of(
                    i,
                    self@.stripes[i],
                ),
            metrics.total_pending == if pending_total(self@.stripes) <= usize::MAX {
                pending_total(self@.stripes)
            } else {
                usize::MAX as nat
            },
    {
        let stripes = self.stripe_metrics();
        let mut total_pending: usize = 0;
        let mut i: usize = 0;
        let ghost rings = self@.stripes;
        assert(rings.take(0) =~= Seq::empty());
        while i < stripes.len()
            invariant
                i <= stripes.len() == rings.len(),
                self.wf(),
                rings == self@.stripes,
                forall|j: int|
                    0 <= j < stripes@.len() ==> #[trigger] stripes@[j] == metrics_of(j, rings[j]),
                total_pending == if pending_total(rings.take(i as int)) <= usize::MAX {
                    pending_total(rings.take(i as int))
                } else {
                    usize::MAX as nat
                },
            decreases stripes.len() - i,
        {
            proof {
                self.lemma_stripes();
                assert(rings[i as int].pending.len() <= usize::MAX);
                assert(rings.take(i + 1).drop_last() =~= rings.take(i as int));
            }
            total_pending = total_pending.saturating_add(stripes[i].pending_count);
            i = i + 1;
        }
        assert(rings.take(i as int) =~= rings);
        ConcurrentWalMetrics {
            total_appends: self.total_appends,
            current_lsn: self.current_lsn(),
            stripes,
            total_pending,
        }
    }
}

/// The LSNs of a batch are consecutive, in the order of its operations.
pub proof fn lemma_batch_lsns_consecutive<E, S>(
    codec: EntryCodec<E, S>,
    first: LSN,
    operations: Seq<WalOperation>,
    tickets: Option<u64>,
    entries: Seq<PendingEntry>,
    i: int,
) where E: Fn(&WalOperation) -> usize, S: Fn(LSN, &WalOperation) -> Result<Vec<u8>, Error>
    requires
        batch_encoded(codec, first, operations, tickets, entries),
        0 <= i < operations.len(),
    ensures
        lsns_of(entries)[i] == lsn_after(first, i),
{
    assert(entries[i] == entry_at(lsn_after(first, i), entries[i].data, tickets, i));
}

/// Each entry of a batch with handles is answered by itself: reporting one of
/// them durable, or failed, completes its own handle and no other.
pub proof fn lemma_batch_handles_are_answered_one_by_one<E, S>(
    codec: EntryCodec<E, S>,
    first: LSN,
    operations: Seq<WalOperation>,
    ticket: u64,
    entries: Seq<PendingEntry>,
    board: Map<u64, CompletionView>,
    text: Seq<char>,
    i: int,
    j: int,
) where E: Fn(&WalOperation) -> usize, S: Fn(LSN, &WalOperation) -> Result<Vec<u8>, Error>
    requires
        batch_encoded(codec, first, operations, Some(ticket), entries),
        operations.len() <= usize::MAX,
        0 <= i < operations.len(),
        0 <= j < operations.len(),
        board.contains_key(handles_of(entries, true)[i].0),
    ensures
        ({
            let mine = handles_of(entries, true)[i].0;
            let other = handles_of(entries, true)[j].0;
            let written = all_completed(board, seq![entries[i]]);
            let lost = all_failed(board, seq![entries[i]], text);
            &&& outcome_of(seen_on(written, mine)) == Ok::<(), Seq<char>>(())
            &&& outcome_of(seen_on(lost, mine)) == Err::<(), Seq<char>>(text)
            &&& seen_on(lost, mine).state == CompletionState::Error
            &&& j != i ==> other != mine && seen_on(written, other) == seen_on(board, other)
                && seen_on(lost, other) == seen_on(board, other)
        }),
{
    assert(entries[i] == entry_at(lsn_after(first, i), entries[i].data, Some(ticket), i));
    assert(entries[j] == entry_at(lsn_after(first, j), entries[j].data, Some(ticket), j));
    assert(seq![entries[i]].drop_last() =~= Seq::empty());
    reveal_with_fuel(all_completed, 2);
    reveal_with_fuel(all_failed, 2);
}

/// A batch with an operation that cannot be serialized leaves no residue: it
/// is refused, and no stripe, counter or waiter tells that it was tried. Only
/// its LSNs are gone.
pub proof fn lemma_unserializable_batch_leaves_no_residue<E, S>(
    before: WalView,
    after: WalView,
    turn: BatchTurn,
    operations: Seq<WalOperation>,
    codec: EntryCodec<E, S>,
    stripe: int,
    drainer: AppendDrainer,
    waiter: bool,
    k: int,
) where E: Fn(&WalOperation) -> usize, S: Fn(LSN, &WalOperation) -> Result<Vec<u8>, Error>
    requires
        batch_started(before, after, turn, operations, codec, stripe, drainer, waiter),
        !before.shutdown_requested,
        0 <= k < operations.len(),
        forall|data: Vec<u8>|
            !#[trigger] codec.encodes(
                lsn_after(LSN(before.next_lsn), k),
                operations[k],
                Ok(data),
            ),
    ensures
        turn is Refused,
        after == before.reserved(operations.len() as int),
        after.stripes == before.stripes,
        after.total_appends == before.total_appends,
        after.active_batches == before.active_batches,
        after.completions == before.completions,
{
    let first = LSN(before.next_lsn);
    let tickets = before.tickets(waiter);
    assert forall|entries: Seq<PendingEntry>| !#[trigger]
        batch_encoded(codec, first, operations, tickets, entries) by {
        if batch_encoded(codec, first, operations, tickets, entries) {
            assert(entries[k] == entry_at(lsn_after(first, k), entries[k].data, tickets, k));
            assert(codec.encodes(lsn_after(first, k), operations[k], Ok(entries[k].data)));
        }
    }
}

/// An append that ended, with or without success, is no longer in flight: the
/// count is what it was before the append began.
pub proof fn lemma_ended_append_is_not_in_flight(
    before: WalView,
    waiter: bool,
    after: WalView,
    turn: AppendTurn,
    blocked: BlockedView,
)
    requires
        attempted(starting(before, waiter), after, turn, blocked),
        turn !is Blocked,
    ensures
        after.active_batches == before.active_batches,
{
}

/// A batch that ended, with or without success, is no longer in flight.
pub proof fn lemma_ended_batch_is_not_in_flight(
    before: WalView,
    entries: Seq<PendingEntry>,
    waiter: bool,
    after: WalView,
    turn: BatchTurn,
    diagnostic: Option<String>,
    batch: BatchView,
    now: u64,
)
    requires
        batch_attempted(
            batch_starting(before, entries, waiter),
            after,
            turn,
            diagnostic,
            batch,
            now,
        ),
        turn !is Blocked,
    ensures
        after.active_batches == before.active_batches,
{
}

/// Once the buffers are closed, whoever is blocked gets out at its next turn,
/// whatever its deadline: the close of a shutdown is what ends the wait.
pub proof fn lemma_close_unblocks(
    before: WalView,
    after: WalView,
    wait: AppendWait,
    blocked: BlockedView,
    now: u64,
)
    requires
        before.stripes == all_closed(before.stripes),
        0 <= blocked.stripe < before.stripes.len(),
        waited_on(before, after, wait, blocked, now),
    ensures
        wait matches AppendWait::Refused(error) && error@ == ErrorView::Wal("WAL buffer closed"@),
        after.active_batches == dec(before.active_batches),
{
    assert(before.stripes[blocked.stripe].closed);
}

/// Once the buffers are closed, a blocked batch gets out at its next turn.
pub proof fn lemma_close_unblocks_batch(
    before: WalView,
    after: WalView,
    wait: BatchWait,
    batch: BatchView,
    now: u64,
)
    requires
        before.stripes == all_closed(before.stripes),
        0 <= batch.stripe < before.stripes.len(),
        batch_waited_on(before, after, wait, batch, now),
    ensures
        wait matches BatchWait::Refused(error) && error@ == ErrorView::Wal("WAL buffer closed"@),
        after.active_batches == dec(before.active_batches),
{
    assert(before.stripes[batch.stripe].closed);
}

/// Once the buffers are closed, nothing is placed any more: a retry is refused
/// as well, so what a shutdown drains last is everything that there is.
pub proof fn lemma_close_is_final(
    before: WalView,
    after: WalView,
    turn: AppendTurn,
    blocked: BlockedView,
)
    requires
        before.stripes == all_closed(before.stripes),
        0 <= blocked.stripe < before.stripes.len(),
        attempted(before, after, turn, blocked),
    ensures
        turn is Refused,
        after.stripes == before.stripes,
{
    assert(before.stripes[blocked.stripe].closed);
}

/// Once the buffers are closed, no entry of a batch is placed any more.
pub proof fn lemma_close_is_final_for_batches(
    before: WalView,
    after: WalView,
    turn: BatchTurn,
    diagnostic: Option<String>,
    batch: BatchView,
    now: u64,
)
    requires
        before.stripes == all_closed(before.stripes),
        0 <= batch.stripe < before.stripes.len(),
        batch.rest.len() > 0,
        batch_attempted(before, after, turn, diagnostic, batch, now),
    ensures
        turn is Refused,
        after.stripes == before.stripes,
{
    let ring = before.stripes[batch.stripe];
    assert(ring.closed);
    assert(batch.rest.take(0) =~= Seq::empty());
    assert(with_all(ring, batch.rest.take(0)) =~= ring);
    assert(after.stripes =~= before.stripes);
}

/// A batch that keeps getting room is never failed by the bound: an attempt
/// that places an entry closes the stall window, and the next one runs from
/// its own start.
pub proof fn lemma_progress_keeps_a_batch_alive(batch: BatchView, n: nat, bound_ms: u64, now: u64)
    requires
        n > 0,
    ensures
        batch.advanced(n, bound_ms, now).deadline.armed is None,
        batch.advanced(n, bound_ms, now).deadline.bound_ms == batch.deadline.bound_ms,
        batch.deadline.bound_ms is Some ==> forall|later: u64| #[trigger]
            batch.advanced(n, bound_ms, now).deadline.limit_at(later)
                == crate::deadline::stall_end(later, batch.deadline.bound_ms->0),
{
}

/// Each stall window of a slow batch is narrated at most once: a diagnostic
/// always covers more windows than those that were narrated before it.
pub proof fn lemma_each_window_narrated_once(
    bound_ms: u64,
    origin: u64,
    now: u64,
    reports: u32,
)
    ensures
        slow_report(bound_ms, origin, now, reports) matches Some((_, due)) ==> due > reports
            && slow_report(bound_ms, origin, now, due) is None,
        bound_ms == 0 ==> slow_report(bound_ms, origin, now, reports) is None,
{
}

/// What is placed in a log without holes is drained: the drain hands out what
/// it would have handed out before, and the placed entries behind it.
pub proof fn lemma_placed_entries_are_drained(
    stripes: Seq<RingView>,
    stripe: int,
    entries: Seq<PendingEntry>,
)
    requires
        0 <= stripe < stripes.len(),
        stripes[stripe].ready().len() == stripes[stripe].pending.len(),
    ensures
        with_all(stripes[stripe], entries).ready() == stripes[stripe].ready() + entries,
    decreases entries.len(),
{
    let ring = stripes[stripe];
    let some = |e: PendingEntry| Some(e);
    if entries.len() == 0 {
        assert(with_all(ring, entries) =~= ring);
        assert(ring.ready() + entries =~= ring.ready());
    } else {
        let init = entries.drop_last();
        lemma_placed_entries_are_drained(stripes, stripe, init);
        assert(entries =~= init.push(entries.last()));
        assert(entries.map_values(some) =~= init.map_values(some).push(Some(entries.last())));
        assert(with_all(ring, entries) =~= with_all(ring, init).appended(entries.last()));
        lemma_append_is_drained_last(with_all(ring, init), entries.last());
        lemma_ready_stops_at_hole(with_all(ring, init));
        assert(ring.ready() + entries =~= (ring.ready() + init).push(entries.last()));
    }
}

/// Appends of the log leave no holes behind.
pub proof fn lemma_no_holes_are_made(
    stripes: Seq<RingView>,
    stripe: int,
    entries: Seq<PendingEntry>,
)
    requires
        no_holes(stripes),
        0 <= stripe < stripes.len(),
    ensures
        no_holes(stripes.update(stripe, with_all(stripes[stripe], entries))),
{
    let placed = stripes.update(stripe, with_all(stripes[stripe], entries));
    lemma_placed_entries_are_drained(stripes, stripe, entries);
    assert forall|i: int| 0 <= i < placed.len() implies (#[trigger] placed[i]).ready().len()
        == placed[i].pending.len() by {
        assert(stripes[i].ready().len() == stripes[i].pending.len());
    }
}

/// Draining and closing the log leave no holes behind.
pub proof fn lemma_no_holes_appear(stripes: Seq<RingView>)
    requires
        no_holes(stripes),
    ensures
        no_holes(all_drained(stripes)),
        no_holes(all_closed(stripes)),
{
    assert forall|i: int| 0 <= i < stripes.len() implies (
    #[trigger] all_drained(stripes)[i]).ready().len() == all_drained(stripes)[i].pending.len() by {
        assert(stripes[i].ready().len() == stripes[i].pending.len());
    }
    assert forall|i: int| 0 <= i < stripes.len() implies (
    #[trigger] all_closed(stripes)[i]).ready().len() == all_closed(stripes)[i].pending.len() by {
        assert(stripes[i].ready().len() == stripes[i].pending.len());
    }
}

/// All that waits in a log without holes is ready to be drained.
pub proof fn lemma_all_pending_is_ready(stripes: Seq<RingView>)
    requires
        no_holes(stripes),
    ensures
        ready_of_all(stripes).len() == pending_total(stripes),
    decreases stripes.len(),
{
    if stripes.len() > 0 {
        let front = stripes.drop_last();
        assert forall|i: int| 0 <= i < front.len() implies (#[trigger] front[i]).ready().len()
            == front[i].pending.len() by {
            assert(stripes[i].ready().len() == stripes[i].pending.len());
        }
        lemma_all_pending_is_ready(front);
        assert(stripes[stripes.len() - 1].ready().len() == stripes.last().pending.len());
    }
}

/// Closing the stripes leaves in them what was there.
pub proof fn lemma_closing_keeps_what_is_pending(stripes: Seq<RingView>)
    ensures
        pending_total(all_closed(stripes)) == pending_total(stripes),
        ready_of_all(all_closed(stripes)) == ready_of_all(stripes),
    decreases stripes.len(),
{
    if stripes.len() > 0 {
        lemma_closing_keeps_what_is_pending(stripes.drop_last());
        assert(all_closed(stripes).drop_last() =~= all_closed(stripes.drop_last()));
    }
}

/// A log whose stripes were all drained holds nothing: nothing is pending, and
/// a second drain has nothing to hand out.
pub proof fn lemma_drained_stripes_are_empty(stripes: Seq<RingView>)
    requires
        no_holes(stripes),
    ensures
        pending_total(all_drained(stripes)) == 0,
        ready_of_all(all_drained(stripes)) == Seq::<PendingEntry>::empty(),
        all_drained(all_drained(stripes)) == all_drained(stripes),
    decreases stripes.len(),
{
    assert(all_drained(all_drained(stripes)) =~= all_drained(stripes)) by {
        assert forall|i: int| 0 <= i < stripes.len() implies (
        #[trigger] all_drained(all_drained(stripes))[i]) == all_drained(stripes)[i] by {
            assert(stripes[i].ready().len() == stripes[i].pending.len());
            let ring = all_drained(stripes)[i];
            assert(ring.ready().len() == 0);
            assert(ring.drained(0) =~= ring);
        }
    }
    if stripes.len() > 0 {
        let front = stripes.drop_last();
        assert forall|i: int| 0 <= i < front.len() implies (#[trigger] front[i]).ready().len()
            == front[i].pending.len() by {
            assert(stripes[i].ready().len() == stripes[i].pending.len());
        }
        lemma_drained_stripes_are_empty(front);
        assert(all_drained(stripes).drop_last() =~= all_drained(front));
        assert(stripes[stripes.len() - 1].ready().len() == stripes.last().pending.len());
        assert(all_drained(stripes).last().ready() =~= Seq::<PendingEntry>::empty());
    }
}

/// What is ready in one stripe is ready in the log.
pub proof fn lemma_ready_in_one_is_ready_in_all(
    stripes: Seq<RingView>,
    stripe: int,
    entry: PendingEntry,
)
    requires
        0 <= stripe < stripes.len(),
        stripes[stripe].ready().contains(entry),
    ensures
        ready_of_all(stripes).contains(entry),
    decreases stripes.len(),
{
    let front = ready_of_all(stripes.drop_last());
    let back = stripes.last().ready();
    if stripe == stripes.len() - 1 {
        let i = choose|i: int| 0 <= i < back.len() && back[i] == entry;
        assert((front + back)[front.len() + i] == entry);
    } else {
        assert(stripes.drop_last()[stripe] == stripes[stripe]);
        lemma_ready_in_one_is_ready_in_all(stripes.drop_last(), stripe, entry);
        let i = choose|i: int| 0 <= i < front.len() && front[i] == entry;
        assert((front + back)[i] == entry);
    }
}

/// Nothing is left behind by a drain: it hands out every entry of every stripe
/// of a log without holes, and afterwards all stripes are empty.
pub proof fn lemma_drain_leaves_nothing_behind(
    stripes: Seq<RingView>,
    drained: Seq<PendingEntry>,
    stripe: int,
    k: int,
)
    requires
        no_holes(stripes),
        is_stable_sort(drained, ready_of_all(stripes)),
        0 <= stripe < stripes.len(),
        0 <= k < stripes[stripe].pending.len(),
    ensures
        stripes[stripe].pending[k] is Some,
        drained.contains(stripes[stripe].pending[k]->0),
        all_drained(stripes)[stripe].pending.len() == 0,
{
    let ring = stripes[stripe];
    lemma_ready_stops_at_hole(ring);
    assert(ring.pending[k] == Some(ring.ready()[k]));
    lemma_ready_in_one_is_ready_in_all(stripes, stripe, ring.ready()[k]);
    lemma_sort_keeps_entries(drained, ready_of_all(stripes), ring.ready()[k]);
}

} // verus!
