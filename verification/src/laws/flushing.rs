//! What the background flusher does with entries, epochs and outcomes.

use vstd::prelude::*;

use crate::concurrent::{no_holes, WalView};
use crate::concurrent_system::{ConcurrentWalSystem, FlushRequest, SystemView};
use crate::entry::PendingEntry;
use crate::error::{message_of, Error, ErrorView};
use crate::flusher::{
    carrying, cycle_begun, cycle_drained, drained_and_opened, entries_flushed, epoch_finished,
    epoch_opened, finished_all, finishes_retried, BackgroundFlusher, CycleNote, CycleTurn,
    DrainTurn, FlushCycle, FlushStep, FlusherView, OpenOutcome,
};
use crate::group_commit::{lemma_acquired_times, outcome_text, GroupCommitView, LockSite};
use crate::laws::draining::{
    buffered, emptied, lemma_drain_takes_everything, lemma_writes_are_settled, takes_everything,
    writes_are_settled,
};
use crate::laws::epochs::{
    attempted_at, can_acquire, finishes_epoch, is_refused, lemma_finishes_epoch,
};
use crate::system_config::DurabilityMode;
use crate::text::decimal;

verus! {

broadcast use crate::power::lemma_wrap_near;

/// The text of how a flush went: none if it went well.
pub open spec fn told_of(outcome: Result<(), Error>) -> Option<Seq<char>> {
    match outcome {
        Ok(_) => None,
        Err(error) => Some(message_of(error@)),
    }
}

/// A new flusher has nothing to deliver, and syncs what its regular cycles write
/// exactly in the group-commit mode. It runs its last cycle once it was told to
/// stop.
pub proof fn lemma_new_flusher(
    mode: DurabilityMode,
    flusher: BackgroundFlusher,
    system: &ConcurrentWalSystem,
    step: FlushStep,
)
    requires
        call_ensures(BackgroundFlusher::new, (mode,), flusher),
        call_ensures(BackgroundFlusher::next_step, (system,), step),
    ensures
        flusher@.sync_on_flush <==> mode is GroupCommit,
        flusher@.pending.len() == 0,
        flusher@.carried is None,
        step == FlushStep::FinalFlush <==> system@.shutdown_signal,
{
}

/// Whether `note` is what is said when `what` ended in `error`: a poisoned lock
/// ends the flush thread, and any other error is logged and survived.
pub open spec fn says(note: CycleNote, what: Seq<char>, error: ErrorView) -> bool {
    if error is LockPoisoned {
        &&& note.log is None
        &&& note.fatal matches Some(text)
        &&& text@
            == "GroupCommitCoordinator lock poisoned - flush thread cannot continue (while "@
            + what + ": "@ + message_of(error) + ")"@
    } else {
        &&& note.fatal is None
        &&& note.log matches Some(text)
        &&& text@ == "WAL flush cycle skipped: "@ + what + " failed ("@ + message_of(error)
            + "); retrying next interval"@
    }
}

/// Whether `after` is `before` with `error` counted, unless it ends the flush
/// thread.
pub open spec fn counts(before: SystemView, after: SystemView, error: ErrorView) -> bool {
    &&& error is LockPoisoned ==> after.cycle_errors == before.cycle_errors
    &&& error !is LockPoisoned && before.cycle_errors < u64::MAX ==> after.cycle_errors
        == before.cycle_errors + 1
    &&& error !is LockPoisoned && before.cycle_errors == u64::MAX ==> after.cycle_errors == 0
    &&& after == (SystemView { cycle_errors: after.cycle_errors, ..before })
}

/// An error of the coordinator is told and counted.
pub proof fn lemma_errors_are_noted(
    system: &mut ConcurrentWalSystem,
    what: &str,
    error: &Error,
    note: CycleNote,
)
    requires
        call_ensures(BackgroundFlusher::note_cycle_error, (system, what, error), note),
    ensures
        says(note, what@, error@),
        counts(old(system)@, final(system)@, error@),
{
}

/// Whether `outcome` and `after` are what opening an epoch makes of `before`:
/// the open epoch is closed and handed out, and the next one is open and empty.
/// If that is not possible, nothing is opened and it is said why.
pub open spec fn opens_epoch(
    before: SystemView,
    after: SystemView,
    outcome: OpenOutcome,
) -> bool {
    match before.group_commit {
        None => outcome is NoEpochs && after == before,
        Some(gc) => {
            &&& after.group_commit matches Some(left)
            &&& if can_acquire(gc, gc.refusals.start_flush) && gc.current_epoch < u64::MAX {
                &&& outcome matches OpenOutcome::Opened(epoch)
                &&& epoch == gc.current_epoch
                &&& left.current_epoch == gc.current_epoch + 1
                &&& left == (GroupCommitView {
                    current_epoch: left.current_epoch,
                    batch_size: 0,
                    refusals: left.refusals,
                    ..gc
                })
                &&& after == (SystemView { group_commit: Some(left), ..before })
            } else {
                &&& outcome matches OpenOutcome::Refused(note)
                &&& left == (GroupCommitView { refusals: left.refusals, ..gc })
                &&& exists|error: ErrorView|
                    {
                        &&& #[trigger] says(note, "starting the group-commit flush epoch"@, error)
                        &&& counts(
                            SystemView { group_commit: Some(left), ..before },
                            after,
                            error,
                        )
                        &&& if can_acquire(gc, gc.refusals.start_flush) {
                            error == ErrorView::Other("group-commit epochs are exhausted"@)
                        } else {
                            is_refused(gc, left, LockSite::StartFlush, error)
                        }
                    }
            }
        },
    }
}

proof fn lemma_opened(before: SystemView, after: SystemView, outcome: OpenOutcome)
    requires
        epoch_opened(before, after, outcome),
    ensures
        opens_epoch(before, after, outcome),
{
    if let Some(gc) = before.group_commit {
        let what = "starting the group-commit flush epoch"@;
        match gc.refusal(LockSite::StartFlush) {
            Some(refusal) => {
                assert(says(outcome->Refused_0, what, refusal));
            },
            None => if gc.current_epoch == u64::MAX {
                assert(says(
                    outcome->Refused_0,
                    what,
                    ErrorView::Other("group-commit epochs are exhausted"@),
                ));
            },
        }
    }
}

/// The flusher opens epochs one after the other, and none is skipped or opened
/// twice.
pub proof fn lemma_flusher_opens_the_open_epoch(
    system: &mut ConcurrentWalSystem,
    outcome: OpenOutcome,
)
    requires
        call_ensures(BackgroundFlusher::open_flush_epoch, (system,), outcome),
    ensures
        opens_epoch(old(system)@, final(system)@, outcome),
{
    lemma_opened(old(system)@, final(system)@, outcome);
}

/// What an epoch ends with whose flush ended in `outcome`, after `carried` was
/// left over from a flush that had no epoch.
pub open spec fn with_carried(carried: Option<Seq<char>>, outcome: Option<Seq<char>>) -> Option<
    Seq<char>,
> {
    if carried is None {
        outcome
    } else if outcome is None {
        carried
    } else {
        Some(carried->0 + "; and then "@ + outcome->0)
    }
}

/// Whether the outcome of the flush of `epoch` reaches the coordinator, together
/// with what was carried, or else is queued behind those that wait already and
/// it is said why.
pub open spec fn delivers(
    f0: FlusherView,
    f1: FlusherView,
    before: SystemView,
    after: SystemView,
    epoch: u64,
    outcome: Option<Seq<char>>,
    note: Option<CycleNote>,
) -> bool {
    match before.group_commit {
        None => note is None && f1 == f0 && after == before,
        Some(gc) => {
            let whole = with_carried(f0.carried, outcome);
            &&& f1.carried is None
            &&& f1.sync_on_flush == f0.sync_on_flush
            &&& after.group_commit matches Some(left)
            &&& if can_acquire(gc, gc.refusals.finish_flush) {
                &&& note is None
                &&& f1.pending == f0.pending
                &&& finishes_epoch(gc, left, epoch, whole)
                &&& after == (SystemView { group_commit: Some(left), ..before })
            } else {
                &&& note matches Some(told)
                &&& f1.pending == f0.pending.push((epoch, whole))
                &&& exists|error: ErrorView|
                    {
                        &&& #[trigger] is_refused(gc, left, LockSite::FinishFlush, error)
                        &&& counts(
                            SystemView { group_commit: Some(left), ..before },
                            after,
                            error,
                        )
                        &&& error is LockPoisoned ==> says(
                            told,
                            "finishing the group-commit flush epoch"@,
                            error,
                        )
                        &&& error !is LockPoisoned ==> says(
                            CycleNote { log: told.log, fatal: None },
                            "finishing the group-commit flush epoch"@,
                            error,
                        ) && (told.fatal is Some <==> f0.pending.len() >= 1024)
                        &&& error !is LockPoisoned && told.fatal is Some ==> told.fatal->0@
                            == "GroupCommitCoordinator has refused finish_flush for "@ + decimal(
                            1024,
                        ) + " consecutive epochs (queue depth "@ + decimal(f0.pending.len() + 1)
                            + ") - the state mutex is unusable and no transaction has reached durability in that time; flush thread cannot continue"@
                    }
            }
        },
    }
}

proof fn lemma_delivered(
    f0: FlusherView,
    f1: FlusherView,
    before: SystemView,
    after: SystemView,
    epoch: u64,
    outcome: Option<Seq<char>>,
    note: Option<CycleNote>,
)
    requires
        epoch_finished(f0, f1, before, after, epoch, outcome, note),
    ensures
        delivers(f0, f1, before, after, epoch, outcome, note),
{
    if let Some(gc) = before.group_commit {
        lemma_finishes_epoch(
            gc.acquired(LockSite::FinishFlush),
            epoch,
            with_carried(f0.carried, outcome),
        );
        if let Some(refusal) = gc.refusal(LockSite::FinishFlush) {
            let left = gc.acquired(LockSite::FinishFlush);
            assert(is_refused(gc, left, LockSite::FinishFlush, refusal));
        }
    }
}

/// No outcome is lost: it reaches its own epoch now, or is queued for it.
pub proof fn lemma_outcome_reaches_its_epoch(
    flusher: &mut BackgroundFlusher,
    system: &mut ConcurrentWalSystem,
    epoch: u64,
    outcome: Result<(), Error>,
    note: Option<CycleNote>,
)
    requires
        call_ensures(
            BackgroundFlusher::finish_flush_epoch,
            (flusher, system, epoch, outcome),
            note,
        ),
    ensures
        delivers(
            old(flusher)@,
            final(flusher)@,
            old(system)@,
            final(system)@,
            epoch,
            told_of(outcome),
            note,
        ),
{
    lemma_delivered(
        old(flusher)@,
        final(flusher)@,
        old(system)@,
        final(system)@,
        epoch,
        told_of(outcome),
        note,
    );
}

/// The first failure without an epoch is carried, and no later outcome replaces
/// it. A success leaves nothing to carry.
pub proof fn lemma_first_failure_is_carried(
    flusher: &mut BackgroundFlusher,
    outcome: Result<(), Error>,
)
    requires
        call_ensures(BackgroundFlusher::carry_flush_outcome, (flusher, outcome), ()),
    ensures
        old(flusher)@.carried is Some ==> final(flusher)@ == old(flusher)@,
        old(flusher)@.carried is None && outcome is Ok ==> final(flusher)@ == old(flusher)@,
        old(flusher)@.carried is None ==> (outcome matches Err(error) ==> final(flusher)@ == (
        FlusherView { carried: Some(message_of(error@)), ..old(flusher)@ })),
{
}

/// Whether every outcome in `queue` has reached its epoch, in order, between
/// `before` and `after`, and no other epoch was finished.
pub open spec fn all_delivered(
    before: GroupCommitView,
    after: GroupCommitView,
    queue: Seq<(u64, Option<Seq<char>>)>,
) -> bool {
    &&& before.flushed_epoch <= after.flushed_epoch
    &&& forall|i: int|
        0 <= i < queue.len() ==> (#[trigger] queue[i]).0 <= after.flushed_epoch
            || after.completed.contains(queue[i].0)
    &&& forall|i: int|
        0 <= i < queue.len() ==> ((#[trigger] queue[i]).1 is Some ==> after.errors.contains(
            (queue[i].0, queue[i].1->0),
        ))
    &&& before.errors.len() <= after.errors.len() <= before.errors.len() + queue.len()
    &&& forall|i: int|
        0 <= i < before.errors.len() ==> #[trigger] after.errors[i] == before.errors[i]
    &&& forall|i: int|
        before.errors.len() <= i < after.errors.len() ==> queue.contains(
            ((#[trigger] after.errors[i]).0, Some(after.errors[i].1)),
        )
    &&& forall|e: u64|
        before.flushed_epoch < e && (e <= after.flushed_epoch || after.completed.contains(e))
            ==> #[trigger] before.completed.contains(e) || is_in(queue, e)
    &&& after == (GroupCommitView {
        flushed_epoch: after.flushed_epoch,
        completed: after.completed,
        errors: after.errors,
        refusals: after.refusals,
        ..before
    })
}

/// Whether an outcome for `epoch` is in `queue`.
pub open spec fn is_in(queue: Seq<(u64, Option<Seq<char>>)>, epoch: u64) -> bool {
    exists|i: int| 0 <= i < queue.len() && (#[trigger] queue[i]).0 == epoch
}

proof fn lemma_finished_all(gc: GroupCommitView, queue: Seq<(u64, Option<Seq<char>>)>)
    ensures
        all_delivered(gc, finished_all(gc, queue), queue),
    decreases queue.len(),
{
    if queue.len() > 0 {
        let init = queue.drop_last();
        let last = queue.last();
        let middle = finished_all(gc, init);
        let after = finished_all(gc, queue);
        lemma_finished_all(gc, init);
        lemma_finishes_epoch(middle, last.0, last.1);
        assert(queue[queue.len() - 1] == last);
        assert forall|i: int| 0 <= i < queue.len() implies (#[trigger] queue[i]).0
            <= after.flushed_epoch || after.completed.contains(queue[i].0) by {
            if i < init.len() {
                assert(init[i] == queue[i]);
            }
        }
        assert forall|i: int| 0 <= i < queue.len() implies ((#[trigger] queue[i]).1 is Some
            ==> after.errors.contains((queue[i].0, queue[i].1->0))) by {
            if queue[i].1 is Some {
                let wanted = (queue[i].0, queue[i].1->0);
                if i < init.len() {
                    assert(init[i] == queue[i]);
                    let k = choose|k: int|
                        0 <= k < middle.errors.len() && middle.errors[k] == wanted;
                    assert(after.errors[k] == wanted);
                } else {
                    assert(after.errors[after.errors.len() - 1] == wanted);
                }
            }
        }
        assert forall|i: int| gc.errors.len() <= i < after.errors.len() implies queue.contains(
            ((#[trigger] after.errors[i]).0, Some(after.errors[i].1)),
        ) by {
            if i < middle.errors.len() {
                assert(after.errors[i] == middle.errors[i]);
                let wanted = (middle.errors[i].0, Some(middle.errors[i].1));
                let k = choose|k: int| 0 <= k < init.len() && init[k] == wanted;
                assert(queue[k] == wanted);
            }
        }
        assert forall|e: u64|
            gc.flushed_epoch < e && (e <= after.flushed_epoch || after.completed.contains(
                e,
            )) implies #[trigger] gc.completed.contains(e) || is_in(queue, e) by {
            if e == last.0 {
                assert(queue[queue.len() - 1].0 == e);
            } else {
                if middle.flushed_epoch < e {
                    assert(middle.completed.contains(e));
                }
                if is_in(init, e) {
                    let k = choose|k: int| 0 <= k < init.len() && (#[trigger] init[k]).0 == e;
                    assert(queue[k].0 == e);
                }
            }
        }
    }
}

proof fn lemma_refusals_do_not_matter(
    gc: GroupCommitView,
    acquired: GroupCommitView,
    after: GroupCommitView,
    queue: Seq<(u64, Option<Seq<char>>)>,
)
    requires
        acquired == (GroupCommitView { refusals: acquired.refusals, ..gc }),
        all_delivered(acquired, after, queue),
    ensures
        all_delivered(gc, after, queue),
{
    assert forall|e: u64|
        gc.flushed_epoch < e && (e <= after.flushed_epoch || after.completed.contains(
            e,
        )) implies #[trigger] gc.completed.contains(e) || is_in(queue, e) by {
        assert(acquired.completed.contains(e) || is_in(queue, e));
    }
    assert forall|i: int| 0 <= i < gc.errors.len() implies #[trigger] after.errors[i]
        == gc.errors[i] by {
        assert(after.errors[i] == acquired.errors[i]);
    }
}

/// Whether the queued outcomes are delivered oldest first, up to the one that
/// the coordinator refuses; that one and all behind it stay queued, in order.
pub open spec fn delivers_queue(
    f0: FlusherView,
    f1: FlusherView,
    before: SystemView,
    after: SystemView,
    result: Result<(), CycleNote>,
) -> bool {
    match before.group_commit {
        None => result is Ok && f1 == f0 && after == before,
        Some(gc) => {
            let passes = gc.refusals.finish_flush;
            let n = if gc.poisoned {
                0
            } else if passes is Some && passes->0 < f0.pending.len() {
                passes->0 as int
            } else {
                f0.pending.len() as int
            };
            &&& f1 == (FlusherView { pending: f0.pending.skip(n), ..f0 })
            &&& after.group_commit matches Some(left)
            &&& all_delivered(gc, left, f0.pending.take(n))
            &&& if n == f0.pending.len() {
                &&& result is Ok
                &&& after == (SystemView { group_commit: Some(left), ..before })
            } else {
                &&& result matches Err(note)
                &&& exists|error: ErrorView|
                    {
                        &&& #[trigger] says(
                            note,
                            "retrying the deferred group-commit finish_flush"@,
                            error,
                        )
                        &&& error is LockPoisoned <==> gc.poisoned
                        &&& counts(
                            SystemView { group_commit: Some(left), ..before },
                            after,
                            error,
                        )
                    }
            }
        },
    }
}

proof fn lemma_delivers_queue(
    f0: FlusherView,
    f1: FlusherView,
    before: SystemView,
    after: SystemView,
    result: Result<(), CycleNote>,
)
    requires
        finishes_retried(f0, f1, before, after, result),
    ensures
        delivers_queue(f0, f1, before, after, result),
{
    if let Some(gc) = before.group_commit {
        let n = gc.passing(LockSite::FinishFlush, f0.pending.len());
        let acquired = gc.acquired_times(LockSite::FinishFlush, n);
        let queue = f0.pending.take(n as int);
        if gc.poisoned {
            assert(acquired == gc);
        } else {
            lemma_acquired_times(gc, LockSite::FinishFlush, n);
        }
        lemma_finished_all(acquired, queue);
        lemma_refusals_do_not_matter(gc, acquired, finished_all(acquired, queue), queue);
        let delivered = finished_all(acquired, queue);
        if n < f0.pending.len() {
            let refusal = delivered.refusal(LockSite::FinishFlush)->0;
            let note = result->Err_0;
            assert(says(note, "retrying the deferred group-commit finish_flush"@, refusal));
        }
    }
}

/// Outcomes that could not be delivered are delivered later, in order, to their
/// own epochs.
pub proof fn lemma_queued_outcomes_are_delivered(
    flusher: &mut BackgroundFlusher,
    system: &mut ConcurrentWalSystem,
    result: Result<(), CycleNote>,
)
    requires
        call_ensures(
            BackgroundFlusher::drain_pending_finishes,
            (flusher, system),
            result,
        ),
    ensures
        delivers_queue(
            old(flusher)@,
            final(flusher)@,
            old(system)@,
            final(system)@,
            result,
        ),
{
    lemma_delivers_queue(
        old(flusher)@,
        final(flusher)@,
        old(system)@,
        final(system)@,
        result,
    );
}

/// Whether `turn` and `after` are what the draining step of a cycle makes of
/// `before`: nothing while a transaction is between its append and its commit;
/// otherwise all that is buffered is taken, and an epoch is opened for it. If
/// nothing is buffered, one is opened only if somebody waits for it.
pub open spec fn drains_and_opens(
    before: SystemView,
    after: SystemView,
    turn: DrainTurn,
) -> bool {
    if before.membership_held {
        turn is Busy && after == before
    } else {
        let drained = SystemView {
            wal: WalView { stripes: after.wal.stripes, ..before.wal },
            ..before
        };
        &&& turn matches DrainTurn::Drained { entries, opened, note }
        &&& takes_everything(entries@, before.wal.stripes)
        &&& emptied(before.wal.stripes, after.wal.stripes)
        &&& if buffered(before.wal.stripes) > 0 {
            &&& note is None
            &&& opened matches Some(outcome)
            &&& opens_epoch(drained, after, outcome)
        } else if before.group_commit is None {
            note is None && opened is None && after == drained
        } else if before.injected_error {
            &&& opened is None
            &&& note matches Some(told)
            &&& says(
                told,
                "reading the group-commit batch size"@,
                ErrorView::Wal("injected test error"@),
            )
            &&& counts(
                SystemView { injected_error: false, ..drained },
                after,
                ErrorView::Wal("injected test error"@),
            )
        } else {
            opens_if_awaited(drained, after, opened, note)
        }
    }
}

/// Whether an epoch is opened for a batch of which nothing is buffered, because
/// somebody waits for it.
pub open spec fn opens_if_awaited(
    before: SystemView,
    after: SystemView,
    opened: Option<OpenOutcome>,
    note: Option<CycleNote>,
) -> bool {
    let gc = before.group_commit->0;
    if can_acquire(gc, gc.refusals.batch_size) {
        &&& note is None
        &&& exists|read: GroupCommitView|
            {
                let middle = SystemView { group_commit: Some(read), ..before };
                &&& #[trigger] attempted_at(gc.refusals, read.refusals, LockSite::BatchSize)
                &&& read == (GroupCommitView { refusals: read.refusals, ..gc })
                &&& gc.batch_size == 0 ==> opened is None && after == middle
                &&& gc.batch_size > 0 ==> (opened matches Some(outcome) && opens_epoch(
                    middle,
                    after,
                    outcome,
                ))
            }
    } else {
        &&& opened is None
        &&& note matches Some(told)
        &&& exists|read: GroupCommitView, error: ErrorView|
            {
                &&& #[trigger] is_refused(gc, read, LockSite::BatchSize, error)
                &&& says(told, "reading the group-commit batch size"@, error)
                &&& counts(SystemView { group_commit: Some(read), ..before }, after, error)
            }
    }
}

proof fn lemma_drains_and_opens(before: SystemView, after: SystemView, turn: DrainTurn)
    requires
        no_holes(before.wal.stripes),
        drained_and_opened(before, after, turn),
    ensures
        drains_and_opens(before, after, turn),
{
    if !before.membership_held {
        let drained = before.drained();
        let entries = turn->entries;
        let opened = turn->opened;
        let note = turn->note;
        lemma_drain_takes_everything(entries@, before.wal.stripes);
        if entries@.len() > 0 {
            lemma_opened(drained, after, opened->0);
        } else if before.group_commit is Some && !before.injected_error {
            let gc = before.group_commit->0;
            let read = gc.acquired(LockSite::BatchSize);
            match gc.refusal(LockSite::BatchSize) {
                Some(refusal) => {
                    assert(is_refused(gc, read, LockSite::BatchSize, refusal));
                },
                None => {
                    assert(attempted_at(gc.refusals, read.refusals, LockSite::BatchSize));
                    if gc.batch_size > 0 {
                        lemma_opened(
                            SystemView { group_commit: Some(read), ..drained },
                            after,
                            opened->0,
                        );
                    }
                },
            }
        }
    }
}

/// The flusher takes all that is buffered together with the epoch that it
/// belongs to.
pub proof fn lemma_flusher_drains_into_the_open_epoch(
    system: &mut ConcurrentWalSystem,
    turn: DrainTurn,
)
    requires
        old(system).wf(),
        call_ensures(BackgroundFlusher::drain_and_open_epoch, (system,), turn),
    ensures
        drains_and_opens(old(system)@, final(system)@, turn),
{
    old(system).lemma_epochs();
    lemma_drains_and_opens(old(system)@, final(system)@, turn);
}

/// Whether `outcome`, `log` and `after` are what the writing of `entries` makes
/// of `before`: a success ends a row of failures, and a failure makes it one
/// longer and is logged, the third one in a row as critical.
pub open spec fn flushes_entries(
    before: SystemView,
    after: SystemView,
    entries: Seq<PendingEntry>,
    written: Result<(), Error>,
    outcome: Result<(), Error>,
    log: Option<String>,
) -> bool {
    let counted = SystemView { flush_errors: after.flush_errors, ..before };
    if entries.len() == 0 {
        &&& outcome is Ok
        &&& log is None
        &&& after.flush_errors == 0
        &&& after == counted
    } else if written is Ok {
        &&& outcome is Ok
        &&& log is None
        &&& after.flush_errors == 0
        &&& writes_are_settled(counted, after, entries, true)
    } else {
        let cause = message_of(written->Err_0@);
        &&& outcome matches Err(error)
        &&& error@ == ErrorView::Other(cause)
        &&& before.flush_errors < u64::MAX ==> after.flush_errors == before.flush_errors + 1
        &&& before.flush_errors == u64::MAX ==> after.flush_errors == 0
        &&& log matches Some(text)
        &&& after.flush_errors == 3 ==> text@ == "CRITICAL: WAL flush failed "@ + decimal(3)
            + " consecutive times. Data durability may be compromised. Last error: "@ + cause
        &&& after.flush_errors != 3 ==> text@ == "WAL flush error: "@ + cause
        &&& writes_are_settled(counted, after, entries, false)
    }
}

proof fn lemma_flushes_entries(
    before: SystemView,
    after: SystemView,
    entries: Seq<PendingEntry>,
    written: Result<(), Error>,
    outcome: Result<(), Error>,
    log: Option<String>,
)
    requires
        entries_flushed(before, after, entries, written, outcome, log),
    ensures
        flushes_entries(before, after, entries, written, outcome, log),
{
    lemma_writes_are_settled(
        SystemView { flush_errors: after.flush_errors, ..before },
        entries,
        written is Ok,
    );
}

/// The waiters of what a cycle wrote are told how that went, and failures in a
/// row are counted.
pub proof fn lemma_flushed_entries_are_reported(
    system: &mut ConcurrentWalSystem,
    request: FlushRequest,
    written: Result<(), Error>,
    result: (Result<(), Error>, Option<String>),
)
    requires
        call_ensures(BackgroundFlusher::flush_entries, (system, request, written), result),
    ensures
        flushes_entries(
            old(system)@,
            final(system)@,
            request.entries@,
            written,
            result.0,
            result.1,
        ),
{
    lemma_flushes_entries(
        old(system)@,
        final(system)@,
        request.entries@,
        written,
        result.0,
        result.1,
    );
}

/// Whether a cycle goes on as `turn`, `notes` and `after` tell once its queue was
/// delivered: what is drained is to be written, unless the flush thread cannot
/// go on, in which case its waiters are told that it is lost.
pub open spec fn goes_on_to_write(
    before: SystemView,
    after: SystemView,
    sync: bool,
    turn: CycleTurn,
    earlier: Seq<CycleNote>,
    notes: Seq<CycleNote>,
) -> bool {
    exists|middle: SystemView, drain: DrainTurn| #[trigger]
        drains_and_opens(before, middle, drain) && match drain {
            DrainTurn::Busy => turn is Busy && notes == earlier && after == middle,
            DrainTurn::Drained { entries, opened, note } => match opened {
                None => {
                    &&& after == middle
                    &&& note is None ==> turn is Idle && notes == earlier
                    &&& note matches Some(told) ==> notes == earlier.push(told)
                    &&& note matches Some(told) ==> (told.fatal is Some ==> turn is Fatal)
                    &&& note matches Some(told) ==> (told.fatal is None ==> turn is Idle)
                },
                Some(outcome) => if outcome is Refused && outcome->Refused_0.fatal is Some {
                    &&& turn is Fatal
                    &&& notes == earlier.push(outcome->Refused_0)
                    &&& writes_are_settled(middle, after, entries@, false)
                } else {
                    &&& turn matches CycleTurn::Write(cycle)
                    &&& cycle.entries == entries
                    &&& cycle.sync == sync
                    &&& cycle.opened == outcome
                    &&& notes == earlier
                    &&& after == middle
                },
            },
        }
}

/// Whether a cycle begins as `turn` and `notes` tell: the queued outcomes are
/// delivered first, and then all that is buffered is taken.
pub open spec fn begins_cycle(
    f0: FlusherView,
    f1: FlusherView,
    before: SystemView,
    after: SystemView,
    sync: bool,
    turn: CycleTurn,
    notes: Seq<CycleNote>,
) -> bool {
    exists|middle: SystemView, result: Result<(), CycleNote>| #[trigger]
        delivers_queue(f0, f1, before, middle, result) && match result {
            Ok(_) => goes_on_to_write(middle, after, sync, turn, Seq::empty(), notes),
            Err(note) => if note.fatal is Some {
                turn is Fatal && notes == seq![note] && after == middle
            } else {
                goes_on_to_write(middle, after, sync, turn, seq![note], notes)
            },
        }
}

proof fn lemma_goes_on(
    before: SystemView,
    after: SystemView,
    sync: bool,
    turn: CycleTurn,
    earlier: Seq<CycleNote>,
    notes: Seq<CycleNote>,
)
    requires
        no_holes(before.wal.stripes),
        cycle_drained(before, after, sync, turn, earlier, notes),
    ensures
        goes_on_to_write(before, after, sync, turn, earlier, notes),
{
    let (middle, drain) = choose|middle: SystemView, drain: DrainTurn| #[trigger]
        drained_and_opened(before, middle, drain) && match drain {
            DrainTurn::Busy => turn is Busy && notes == earlier && after == middle,
            DrainTurn::Drained { entries, opened, note } => match (opened, note) {
                (None, None) => turn is Idle && notes == earlier && after == middle,
                (None, Some(told)) => {
                    &&& notes == earlier.push(told)
                    &&& after == middle
                    &&& if told.fatal is Some {
                        turn is Fatal
                    } else {
                        turn is Idle
                    }
                },
                (Some(outcome), _) => if outcome matches OpenOutcome::Refused(told)
                    && told.fatal is Some {
                    &&& turn is Fatal
                    &&& notes == earlier.push(outcome->Refused_0)
                    &&& after == middle.settled(entries@, false)
                } else {
                    &&& turn == CycleTurn::Write(FlushCycle { entries, sync, opened: outcome })
                    &&& notes == earlier
                    &&& after == middle
                },
            },
        };
    lemma_drains_and_opens(before, middle, drain);
    if let DrainTurn::Drained { entries, opened, note } = drain {
        lemma_writes_are_settled(middle, entries@, false);
    }
    assert(drains_and_opens(before, middle, drain));
}

proof fn lemma_begins_cycle(
    f0: FlusherView,
    f1: FlusherView,
    system: ConcurrentWalSystem,
    after: SystemView,
    sync: bool,
    turn: CycleTurn,
    notes: Seq<CycleNote>,
)
    requires
        system.wf(),
        cycle_begun(f0, f1, system@, after, sync, turn, notes),
    ensures
        begins_cycle(f0, f1, system@, after, sync, turn, notes),
{
    system.lemma_epochs();
    let before = system@;
    let (middle, result) = choose|middle: SystemView, result: Result<(), CycleNote>| #[trigger]
        finishes_retried(f0, f1, before, middle, result) && match result {
            Err(note) => if note.fatal is Some {
                turn is Fatal && after == middle && notes == seq![note]
            } else {
                cycle_drained(middle, after, sync, turn, seq![note], notes)
            },
            Ok(_) => cycle_drained(middle, after, sync, turn, Seq::empty(), notes),
        };
    lemma_delivers_queue(f0, f1, before, middle, result);
    assert(middle.wal == before.wal);
    match result {
        Ok(_) => lemma_goes_on(middle, after, sync, turn, Seq::empty(), notes),
        Err(note) => if note.fatal is None {
            lemma_goes_on(middle, after, sync, turn, seq![note], notes);
        },
    }
    assert(delivers_queue(f0, f1, before, middle, result));
}

/// A regular cycle syncs what it writes if the flusher was made for that, and
/// the last cycle syncs in any case.
pub proof fn lemma_cycles_begin(
    flusher: &mut BackgroundFlusher,
    system: &mut ConcurrentWalSystem,
    result: (CycleTurn, Vec<CycleNote>),
    last_flusher: &mut BackgroundFlusher,
    last_system: &mut ConcurrentWalSystem,
    last_result: (CycleTurn, Vec<CycleNote>),
)
    requires
        old(system).wf(),
        old(last_system).wf(),
        call_ensures(BackgroundFlusher::perform_flush_cycle, (flusher, system), result),
        call_ensures(
            BackgroundFlusher::perform_final_flush,
            (last_flusher, last_system),
            last_result,
        ),
    ensures
        begins_cycle(
            old(flusher)@,
            final(flusher)@,
            old(system)@,
            final(system)@,
            old(flusher)@.sync_on_flush,
            result.0,
            result.1@,
        ),
        begins_cycle(
            old(last_flusher)@,
            final(last_flusher)@,
            old(last_system)@,
            final(last_system)@,
            true,
            last_result.0,
            last_result.1@,
        ),
{
    lemma_begins_cycle(
        old(flusher)@,
        final(flusher)@,
        *old(system),
        final(system)@,
        old(flusher)@.sync_on_flush,
        result.0,
        result.1@,
    );
    lemma_begins_cycle(
        old(last_flusher)@,
        final(last_flusher)@,
        *old(last_system),
        final(last_system)@,
        true,
        last_result.0,
        last_result.1@,
    );
}

/// Whether `f1` is `f0` with `outcome` carried, unless something is carried
/// already or there is nothing to carry.
pub open spec fn carries(f0: FlusherView, f1: FlusherView, outcome: Option<Seq<char>>) -> bool {
    if f0.carried is Some {
        f1 == f0
    } else {
        f1 == (FlusherView { carried: outcome, ..f0 })
    }
}

/// A cycle ends with its waiters told, and its outcome delivered to the epoch
/// that was opened for it; without an epoch of its own the outcome is carried to
/// the next one, and a mode without epochs needs no more.
pub proof fn lemma_cycle_outcome_is_delivered(
    flusher: &mut BackgroundFlusher,
    system: &mut ConcurrentWalSystem,
    cycle: FlushCycle,
    written: Result<(), Error>,
    result: (Option<String>, Option<CycleNote>),
)
    requires
        call_ensures(
            BackgroundFlusher::finish_cycle,
            (flusher, system, cycle, written),
            result,
        ),
    ensures
        exists|middle: SystemView, outcome: Result<(), Error>| #[trigger]
            flushes_entries(
                old(system)@,
                middle,
                cycle.entries@,
                written,
                outcome,
                result.0,
            ) && match cycle.opened {
                OpenOutcome::NoEpochs => result.1 is None && final(flusher)@ == old(flusher)@
                    && final(system)@ == middle,
                OpenOutcome::Opened(epoch) => delivers(
                    old(flusher)@,
                    final(flusher)@,
                    middle,
                    final(system)@,
                    epoch,
                    told_of(outcome),
                    result.1,
                ),
                OpenOutcome::Refused(_) => result.1 is None && carries(
                    old(flusher)@,
                    final(flusher)@,
                    told_of(outcome),
                ) && final(system)@ == middle,
            },
{
    let (f0, f1, s0, s1) = (old(flusher)@, final(flusher)@, old(system)@, final(system)@);
    let (middle, outcome) = choose|middle: SystemView, outcome: Result<(), Error>| #[trigger]
        entries_flushed(s0, middle, cycle.entries@, written, outcome, result.0)
            && match cycle.opened {
            OpenOutcome::NoEpochs => result.1 is None && f1 == f0 && s1 == middle,
            OpenOutcome::Opened(epoch) => epoch_finished(
                f0,
                f1,
                middle,
                s1,
                epoch,
                outcome_text(outcome),
                result.1,
            ),
            OpenOutcome::Refused(_) => result.1 is None && f1 == carrying(
                f0,
                outcome_text(outcome),
            ) && s1 == middle,
        };
    lemma_flushes_entries(s0, middle, cycle.entries@, written, outcome, result.0);
    if let OpenOutcome::Opened(epoch) = cycle.opened {
        lemma_delivered(f0, f1, middle, s1, epoch, told_of(outcome), result.1);
    }
    assert(flushes_entries(s0, middle, cycle.entries@, written, outcome, result.0));
}

/// An outcome that is played through without a write opens the epoch that it is
/// delivered to, and is carried if none can be opened.
pub proof fn lemma_played_outcome_is_delivered(
    flusher: &mut BackgroundFlusher,
    system: &mut ConcurrentWalSystem,
    outcome: Result<(), Error>,
    note: Option<CycleNote>,
)
    requires
        call_ensures(
            BackgroundFlusher::simulate_flush_outcome,
            (flusher, system, outcome),
            note,
        ),
    ensures
        exists|middle: SystemView, opened: OpenOutcome| #[trigger]
            opens_epoch(old(system)@, middle, opened) && match opened {
                OpenOutcome::NoEpochs => note is None && final(flusher)@ == old(flusher)@
                    && final(system)@ == middle,
                OpenOutcome::Opened(epoch) => delivers(
                    old(flusher)@,
                    final(flusher)@,
                    middle,
                    final(system)@,
                    epoch,
                    told_of(outcome),
                    note,
                ),
                OpenOutcome::Refused(told) => note == Some(told) && carries(
                    old(flusher)@,
                    final(flusher)@,
                    told_of(outcome),
                ) && final(system)@ == middle,
            },
{
    let (f0, f1, s0, s1) = (old(flusher)@, final(flusher)@, old(system)@, final(system)@);
    let (middle, opened) = choose|middle: SystemView, opened: OpenOutcome| #[trigger]
        epoch_opened(s0, middle, opened) && match opened {
            OpenOutcome::NoEpochs => note is None && f1 == f0 && s1 == middle,
            OpenOutcome::Opened(epoch) => epoch_finished(
                f0,
                f1,
                middle,
                s1,
                epoch,
                outcome_text(outcome),
                note,
            ),
            OpenOutcome::Refused(told) => note == Some(told) && f1 == carrying(
                f0,
                outcome_text(outcome),
            ) && s1 == middle,
        };
    lemma_opened(s0, middle, opened);
    if let OpenOutcome::Opened(epoch) = opened {
        lemma_delivered(f0, f1, middle, s1, epoch, told_of(outcome), note);
    }
    assert(opens_epoch(s0, middle, opened));
}

} // verus!
