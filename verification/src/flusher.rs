//! The background flusher: what it decides between two writes.
//!
//! A cycle drains the stripes and opens an epoch for what was drained, as one
//! step; then the embedding application writes the entries; then the outcome
//! is delivered to the waiters of the epoch. An outcome is never dropped: what
//! cannot be delivered now is kept and delivered later.

use std::collections::VecDeque;
use vstd::prelude::*;

use crate::concurrent::{
    lemma_all_pending_is_ready, lemma_drained_stripes_are_empty, no_holes, pending_total,
    ready_of_all,
};
use crate::concurrent_system::{
    batch_size_error, batch_size_read, committed, CommitTurn, ConcurrentWalSystem, FlushRequest,
    SystemView,
};
use crate::entry::PendingEntry;
use crate::error::{message_of, Error, ErrorView};
use crate::group_commit::{
    epochs_exhausted, error_for, fresh_group_commit, frontier, lemma_acquired_times,
    lemma_frontier, outcome_text, GroupCommitConfig, GroupCommitView, LockSite, Refusals,
};
use crate::power::wrap;
use crate::sort::is_stable_sort;
use crate::system_config::DurabilityMode;
use crate::text::{concat2, concat3, decimal, show_u64, show_usize};

verus! {

broadcast use crate::power::lemma_wrap_near;

/// Number of consecutive flush errors at which a critical warning is logged.
pub const FLUSH_ERROR_WARNING_THRESHOLD: u64 = 3;

/// How many unfinished epochs the flusher holds before it stops trying. Past
/// that, dropping one would destroy an outcome, and going on would exhaust the
/// memory: the coordinator is unusable.
pub const MAX_PENDING_FINISHES: usize = 1024;

/// What the flusher has to say about an error.
#[derive(Debug)]
pub struct CycleNote {
    /// A line for the log.
    pub log: Option<String>,
    /// Why the flush thread cannot go on.
    pub fatal: Option<String>,
}

/// The log line of an error that the flusher survives.
pub open spec fn skipped_text(what: Seq<char>, error: ErrorView) -> Seq<char> {
    "WAL flush cycle skipped: "@ + what + " failed ("@ + message_of(error)
        + "); retrying next interval"@
}

/// Why a poisoned coordinator ends the flush thread.
pub open spec fn poisoned_text(what: Seq<char>, error: ErrorView) -> Seq<char> {
    "GroupCommitCoordinator lock poisoned - flush thread cannot continue (while "@ + what + ": "@
        + message_of(error) + ")"@
}

/// Whether `note` is what the flusher says when `what` ended in `error`.
pub open spec fn is_note(note: CycleNote, what: Seq<char>, error: ErrorView) -> bool {
    if error is LockPoisoned {
        &&& note.log is None
        &&& note.fatal matches Some(text)
        &&& text@ == poisoned_text(what, error)
    } else {
        &&& note.log matches Some(text)
        &&& text@ == skipped_text(what, error)
        &&& note.fatal is None
    }
}

/// The system after an error of the coordinator was taken note of: it is
/// counted unless it ends the flush thread.
pub open spec fn noted(system: SystemView, error: ErrorView) -> SystemView {
    if error is LockPoisoned {
        system
    } else {
        SystemView { cycle_errors: wrap(system.cycle_errors + 1), ..system }
    }
}

/// What opening an epoch came to.
#[derive(Debug)]
pub enum OpenOutcome {
    /// The durability mode has no epochs.
    NoEpochs,
    /// The epoch that covers what was drained.
    Opened(u64),
    /// No epoch was opened; what was drained still has to be written.
    Refused(CycleNote),
}

/// What draining and opening an epoch came to.
#[derive(Debug)]
pub enum DrainTurn {
    /// A transaction is between its append and its registration: the flusher
    /// waits and comes back.
    Busy,
    /// `opened` is `None` if there was nothing to attribute to an epoch; `note`
    /// tells why it is not known whether there was.
    Drained { entries: Vec<PendingEntry>, opened: Option<OpenOutcome>, note: Option<CycleNote> },
}

/// A cycle whose entries are being written.
#[derive(Debug)]
pub struct FlushCycle {
    pub entries: Vec<PendingEntry>,
    /// Whether they have to be synced before they count as written.
    pub sync: bool,
    pub opened: OpenOutcome,
}

/// How a cycle goes on.
#[derive(Debug)]
pub enum CycleTurn {
    /// A transaction is between its append and its registration.
    Busy,
    /// There was nothing to flush.
    Idle,
    /// The flush thread cannot go on.
    Fatal,
    /// The entries are to be written; then the cycle is finished.
    Write(FlushCycle),
}

/// What the flush thread does next.
#[derive(Debug, Clone, Copy, PartialEq, Eq, Structural)]
pub enum FlushStep {
    /// One more cycle, and then it waits for the next.
    Cycle,
    /// The last cycle, and then it ends.
    FinalFlush,
}

/// The value of a [`BackgroundFlusher`].
#[verifier::ext_equal]
pub ghost struct FlusherView {
    /// Whether regular cycles sync what they write.
    pub sync_on_flush: bool,
    /// The epochs that were opened and could not be finished, oldest first,
    /// each with the error that its flush ended with.
    pub pending: Seq<(u64, Option<Seq<char>>)>,
    /// The error of a flush whose epoch could not be opened.
    pub carried: Option<Seq<char>>,
}

/// The value of a stored outcome.
pub open spec fn stored_view(stored: (u64, Option<String>)) -> (u64, Option<Seq<char>>) {
    (
        stored.0,
        match stored.1 {
            Some(text) => Some(text@),
            None => None,
        },
    )
}

/// The coordinator after all of `pending` were finished, in order.
pub open spec fn finished_all(
    gc: GroupCommitView,
    pending: Seq<(u64, Option<Seq<char>>)>,
) -> GroupCommitView
    decreases pending.len(),
{
    if pending.len() == 0 {
        gc
    } else {
        finished_all(gc, pending.drop_last()).finished(pending.last().0, pending.last().1)
    }
}

/// The error that an epoch ends with whose own flush ended in `outcome`, after
/// a failure was carried over from a cycle that could not open it.
pub open spec fn folded(carried: Option<Seq<char>>, outcome: Option<Seq<char>>) -> Option<
    Seq<char>,
> {
    match (carried, outcome) {
        (None, outcome) => outcome,
        (Some(earlier), None) => Some(earlier),
        (Some(earlier), Some(current)) => Some(earlier + "; and then "@ + current),
    }
}

/// Why too many unfinished epochs end the flush thread.
pub open spec fn too_many_text(depth: nat) -> Seq<char> {
    "GroupCommitCoordinator has refused finish_flush for "@ + decimal(1024)
        + " consecutive epochs (queue depth "@ + decimal(depth)
        + ") - the state mutex is unusable and no transaction has reached durability in that time; flush thread cannot continue"@
}

/// What retrying the deferred finishes does: they are delivered, oldest first,
/// up to the one that the coordinator refuses. That one and all behind it stay
/// in the queue.
pub open spec fn finishes_retried(
    f0: FlusherView,
    f1: FlusherView,
    s0: SystemView,
    s1: SystemView,
    result: Result<(), CycleNote>,
) -> bool {
    if s0.group_commit is None {
        result is Ok && f1 == f0 && s1 == s0
    } else {
        let gc = s0.group_commit->0;
        let n = gc.passing(LockSite::FinishFlush, f0.pending.len());
        let delivered = finished_all(
            gc.acquired_times(LockSite::FinishFlush, n),
            f0.pending.take(n as int),
        );
        &&& f1 == (FlusherView { pending: f0.pending.skip(n as int), ..f0 })
        &&& if n == f0.pending.len() {
            result is Ok && s1 == (SystemView { group_commit: Some(delivered), ..s0 })
        } else {
            &&& result matches Err(note)
            &&& delivered.refusal(LockSite::FinishFlush) matches Some(refusal)
            &&& is_note(note, "retrying the deferred group-commit finish_flush"@, refusal)
            &&& s1 == noted(
                SystemView {
                    group_commit: Some(delivered.acquired(LockSite::FinishFlush)),
                    ..s0
                },
                refusal,
            )
        }
    }
}

/// What opening an epoch does to the system.
pub open spec fn epoch_opened(s0: SystemView, s1: SystemView, outcome: OpenOutcome) -> bool {
    let what = "starting the group-commit flush epoch"@;
    match s0.group_commit {
        None => outcome is NoEpochs && s1 == s0,
        Some(gc) => {
            let acquired = gc.acquired(LockSite::StartFlush);
            match gc.refusal(LockSite::StartFlush) {
                Some(refusal) => {
                    &&& outcome matches OpenOutcome::Refused(note)
                    &&& is_note(note, what, refusal)
                    &&& s1 == noted(SystemView { group_commit: Some(acquired), ..s0 }, refusal)
                },
                None => if gc.current_epoch == u64::MAX {
                    &&& outcome matches OpenOutcome::Refused(note)
                    &&& is_note(note, what, epochs_exhausted())
                    &&& s1 == noted(
                        SystemView { group_commit: Some(acquired), ..s0 },
                        epochs_exhausted(),
                    )
                } else {
                    &&& outcome == OpenOutcome::Opened(gc.current_epoch)
                    &&& s1 == (SystemView { group_commit: Some(acquired.started()), ..s0 })
                },
            }
        },
    }
}

/// What delivering an outcome to an epoch does: it reaches the coordinator,
/// together with a carried failure, or else it is kept for later.
pub open spec fn epoch_finished(
    f0: FlusherView,
    f1: FlusherView,
    s0: SystemView,
    s1: SystemView,
    epoch: u64,
    outcome: Option<Seq<char>>,
    note: Option<CycleNote>,
) -> bool {
    match s0.group_commit {
        None => note is None && f1 == f0 && s1 == s0,
        Some(gc) => {
            let acquired = gc.acquired(LockSite::FinishFlush);
            let delivered = folded(f0.carried, outcome);
            match gc.refusal(LockSite::FinishFlush) {
                None => {
                    &&& note is None
                    &&& f1 == (FlusherView { carried: None, ..f0 })
                    &&& s1 == (SystemView {
                        group_commit: Some(acquired.finished(epoch, delivered)),
                        ..s0
                    })
                },
                Some(refusal) => {
                    let depth = f0.pending.len() + 1;
                    &&& note matches Some(told)
                    &&& is_note(
                        CycleNote {
                            log: told.log,
                            fatal: if refusal is LockPoisoned {
                                told.fatal
                            } else {
                                None
                            },
                        },
                        "finishing the group-commit flush epoch"@,
                        refusal,
                    )
                    &&& refusal !is LockPoisoned ==> (told.fatal is Some <==> depth > 1024)
                    &&& refusal !is LockPoisoned ==> (told.fatal matches Some(text) ==> text@
                        == too_many_text(depth))
                    &&& f1 == (FlusherView {
                        carried: None,
                        pending: f0.pending.push((epoch, delivered)),
                        ..f0
                    })
                    &&& s1 == noted(SystemView { group_commit: Some(acquired), ..s0 }, refusal)
                },
            }
        },
    }
}

/// The flusher after an outcome had no epoch to go to: the first failure is
/// carried, and it is the one that counts.
pub open spec fn carrying(f: FlusherView, outcome: Option<Seq<char>>) -> FlusherView {
    if f.carried is None {
        FlusherView { carried: outcome, ..f }
    } else {
        f
    }
}

/// What draining and opening an epoch does: nothing while a transaction is
/// between its append and its registration; otherwise everything that is ready
/// is drained, and an epoch is opened if there is something to attribute.
pub open spec fn drained_and_opened(s0: SystemView, s1: SystemView, turn: DrainTurn) -> bool {
    if s0.membership_held {
        turn is Busy && s1 == s0
    } else {
        let drained = s0.drained();
        &&& turn matches DrainTurn::Drained { entries, opened, note }
        &&& is_stable_sort(entries@, ready_of_all(s0.wal.stripes))
        &&& if entries@.len() > 0 {
            &&& note is None
            &&& opened matches Some(outcome)
            &&& epoch_opened(drained, s1, outcome)
        } else if s0.group_commit is None {
            note is None && opened is None && s1 == drained
        } else {
            let read = batch_size_read(drained);
            match batch_size_error(drained) {
                Some(error) => {
                    &&& note matches Some(told)
                    &&& is_note(told, "reading the group-commit batch size"@, error)
                    &&& opened is None
                    &&& s1 == noted(read, error)
                },
                None => {
                    &&& note is None
                    &&& if s0.group_commit->0.batch_size > 0 {
                        &&& opened matches Some(outcome)
                        &&& epoch_opened(read, s1, outcome)
                    } else {
                        opened is None && s1 == read
                    }
                },
            }
        }
    }
}

/// What the writing of a cycle's entries does to the system: its waiters are
/// told, and failures in a row are counted.
pub open spec fn entries_flushed(
    s0: SystemView,
    s1: SystemView,
    entries: Seq<PendingEntry>,
    written: Result<(), Error>,
    outcome: Result<(), Error>,
    log: Option<String>,
) -> bool {
    if entries.len() == 0 {
        outcome is Ok && log is None && s1 == (SystemView { flush_errors: 0, ..s0 })
    } else {
        match written {
            Ok(_) => {
                &&& outcome is Ok
                &&& log is None
                &&& s1 == (SystemView { flush_errors: 0, ..s0.settled(entries, true) })
            },
            Err(error) => {
                let errors = wrap(s0.flush_errors + 1);
                &&& outcome matches Err(told)
                &&& told@ == ErrorView::Other(message_of(error@))
                &&& log matches Some(text)
                &&& text@ == flush_error_text(errors, error@)
                &&& s1 == (SystemView { flush_errors: errors, ..s0.settled(entries, false) })
            },
        }
    }
}

/// The log line of a flush that failed.
pub open spec fn flush_error_text(errors: u64, error: ErrorView) -> Seq<char> {
    if errors == 3 {
        "CRITICAL: WAL flush failed "@ + decimal(errors as nat)
            + " consecutive times. Data durability may be compromised. Last error: "@
            + message_of(error)
    } else {
        "WAL flush error: "@ + message_of(error)
    }
}

/// What beginning a cycle does: the deferred finishes are retried first, and
/// then the stripes are drained and an epoch is opened.
pub open spec fn cycle_begun(
    f0: FlusherView,
    f1: FlusherView,
    s0: SystemView,
    s1: SystemView,
    sync: bool,
    turn: CycleTurn,
    notes: Seq<CycleNote>,
) -> bool {
    exists|middle: SystemView, retried: Result<(), CycleNote>| #[trigger]
        finishes_retried(f0, f1, s0, middle, retried) && match retried {
            Err(note) => if note.fatal is Some {
                turn is Fatal && s1 == middle && notes == seq![note]
            } else {
                cycle_drained(middle, s1, sync, turn, seq![note], notes)
            },
            Ok(_) => cycle_drained(middle, s1, sync, turn, Seq::empty(), notes),
        }
}

/// What the draining step of a cycle does. If the flush thread cannot go on,
/// what was drained is lost, and its waiters are told.
pub open spec fn cycle_drained(
    s0: SystemView,
    s1: SystemView,
    sync: bool,
    turn: CycleTurn,
    before: Seq<CycleNote>,
    notes: Seq<CycleNote>,
) -> bool {
    exists|middle: SystemView, drain: DrainTurn| #[trigger]
        drained_and_opened(s0, middle, drain) && match drain {
            DrainTurn::Busy => turn is Busy && notes == before && s1 == middle,
            DrainTurn::Drained { entries, opened, note } => match (opened, note) {
                (None, None) => turn is Idle && notes == before && s1 == middle,
                (None, Some(told)) => {
                    &&& notes == before.push(told)
                    &&& s1 == middle
                    &&& if told.fatal is Some {
                        turn is Fatal
                    } else {
                        turn is Idle
                    }
                },
                (Some(outcome), _) => if outcome matches OpenOutcome::Refused(told)
                    && told.fatal is Some {
                    &&& turn is Fatal
                    &&& notes == before.push(outcome->Refused_0)
                    &&& s1 == middle.settled(entries@, false)
                } else {
                    &&& turn == CycleTurn::Write(FlushCycle { entries, sync, opened: outcome })
                    &&& notes == before
                    &&& s1 == middle
                },
            },
        }
}

/// What finishing a cycle does: the outcome of the write is delivered to the
/// epoch of the cycle, or carried to the next one that opens.
pub open spec fn cycle_finished(
    f0: FlusherView,
    f1: FlusherView,
    s0: SystemView,
    s1: SystemView,
    cycle: FlushCycle,
    written: Result<(), Error>,
    log: Option<String>,
    note: Option<CycleNote>,
) -> bool {
    exists|middle: SystemView, outcome: Result<(), Error>| #[trigger]
        entries_flushed(s0, middle, cycle.entries@, written, outcome, log) && match cycle.opened {
            OpenOutcome::NoEpochs => note is None && f1 == f0 && s1 == middle,
            OpenOutcome::Opened(epoch) => epoch_finished(
                f0,
                f1,
                middle,
                s1,
                epoch,
                outcome_text(outcome),
                note,
            ),
            OpenOutcome::Refused(_) => note is None && f1 == carrying(f0, outcome_text(outcome))
                && s1 == middle,
        }
}

/// The state that the background flusher keeps between cycles.
pub struct BackgroundFlusher {
    sync_on_flush: bool,
    pending_finishes: VecDeque<(u64, Option<String>)>,
    carried_failure: Option<String>,
}

impl View for BackgroundFlusher {
    type V = FlusherView;

    closed spec fn view(&self) -> FlusherView {
        FlusherView {
            sync_on_flush: self.sync_on_flush,
            pending: self.pending_finishes@.map_values(|p: (u64, Option<String>)| stored_view(p)),
            carried: match self.carried_failure {
                Some(text) => Some(text@),
                None => None,
            },
        }
    }
}

impl BackgroundFlusher {
    /// The flusher of a log with the given durability mode, before its first
    /// cycle. Only group commit syncs what regular cycles write.
    pub fn new(mode: DurabilityMode) -> (flusher: Self)
        ensures
            flusher@ == (FlusherView {
                sync_on_flush: mode is GroupCommit,
                pending: Seq::empty(),
                carried: None,
            }),
    {
        let flusher = BackgroundFlusher {
            sync_on_flush: mode.is_group_commit(),
            pending_finishes: VecDeque::new(),
            carried_failure: None,
        };
        assert(flusher@.pending =~= Seq::empty());
        flusher
    }

    /// What the flush thread does next: cycles go on until it is told to stop,
    /// and then there is a last one.
    pub fn next_step(system: &ConcurrentWalSystem) -> (step: FlushStep)
        ensures
            step == if system@.shutdown_signal {
                FlushStep::FinalFlush
            } else {
                FlushStep::Cycle
            },
    {
        if system.is_shutdown_signaled() {
            FlushStep::FinalFlush
        } else {
            FlushStep::Cycle
        }
    }

    /// React to an error of the coordinator. A poisoned lock is beyond repair:
    /// going on would leave waiters hanging. Every other error is transient:
    /// it is counted, logged, and tried again in the next cycle.
    pub fn note_cycle_error(system: &mut ConcurrentWalSystem, what: &str, error: &Error) -> (note:
        CycleNote)
        requires
            old(system).wf(),
        ensures
            final(system).wf(),
            is_note(note, what@, error@),
            final(system)@ == noted(old(system)@, error@),
    {
        let text = error.message();
        if error.is_lock_poisoned() {
            let reason = concat3(
                "GroupCommitCoordinator lock poisoned - flush thread cannot continue (while ",
                what,
                ": ",
            );
            return CycleNote {
                log: None,
                fatal: Some(concat3(reason.as_str(), text.as_str(), ")")),
            };
        }
        system.count_cycle_error();
        let line = concat3("WAL flush cycle skipped: ", what, " failed (");
        CycleNote {
            log: Some(concat3(line.as_str(), text.as_str(), "); retrying next interval")),
            fatal: None,
        }
    }

    /// Retry every finish that a previous cycle could not deliver, oldest
    /// first. Runs first in every cycle: the frontier cannot climb past an
    /// epoch that is stranded. `Ok` means that nothing is outstanding.
    pub fn drain_pending_finishes(&mut self, system: &mut ConcurrentWalSystem) -> (result: Result<
        (),
        CycleNote,
    >)
        requires
            old(system).wf(),
        ensures
            final(system).wf(),
            finishes_retried(old(self)@, final(self)@, old(system)@, final(system)@, result),
    {
        if system.group_commit_coordinator().is_none() {
            return Ok(());
        }
        let ghost pending0 = self@.pending;
        let ghost gc0 = system@.group_commit->0;
        let ghost n = gc0.passing(LockSite::FinishFlush, pending0.len());
        let ghost mut i: nat = 0;
        proof {
            assert(pending0.take(0) =~= Seq::empty());
            assert(pending0.skip(0) =~= pending0);
        }
        while self.pending_finishes.len() > 0
            invariant
                system.wf(),
                0 <= i <= n <= pending0.len(),
                pending0 == old(self)@.pending,
                old(system)@.group_commit == Some(gc0),
                n == gc0.passing(LockSite::FinishFlush, pending0.len()),
                self@ == (FlusherView { pending: pending0.skip(i as int), ..old(self)@ }),
                system@ == (SystemView {
                    group_commit: Some(
                        finished_all(
                            gc0.acquired_times(LockSite::FinishFlush, i),
                            pending0.take(i as int),
                        ),
                    ),
                    ..old(system)@
                }),
            decreases pending0.len() - i,
        {
            let epoch: u64 = self.pending_finishes[0].0;
            let outcome: Result<(), Error> = match &self.pending_finishes[0].1 {
                None => Ok(()),
                Some(message) => Err(Error::other(message.clone())),
            };
            let ghost earlier = pending0.take(i as int);
            proof {
                assert(self@.pending.len() == self.pending_finishes@.len());
                assert(self@.pending[0] == stored_view(self.pending_finishes@[0]));
                assert(self@.pending[0] == pending0[i as int]);
                assert(outcome_text(outcome) == pending0[i as int].1);
                assert(epoch == pending0[i as int].0);
                lemma_finished_all_keeps_lock(
                    gc0.acquired_times(LockSite::FinishFlush, i),
                    earlier,
                );
                if !gc0.poisoned {
                    lemma_acquired_times(gc0, LockSite::FinishFlush, i);
                }
            }
            let delivered = match system.group_commit_mut() {
                Some(gc) => gc.finish_flush(epoch, outcome),
                None => Ok(()),
            };
            match delivered {
                Ok(()) => {
                    let ghost queue = self.pending_finishes@;
                    let _ = self.pending_finishes.pop_front();
                    proof {
                        let held = gc0.acquired_times(LockSite::FinishFlush, i);
                        lemma_finishing_ignores_refusals(
                            held,
                            held.acquired(LockSite::FinishFlush).refusals,
                            earlier,
                        );
                        assert(pending0.take(i as int + 1).drop_last() =~= earlier);
                        assert(self@.pending =~= pending0.skip(i as int + 1)) by {
                            assert forall|j: int| 0 <= j < self@.pending.len() implies self@.pending[j]
                                == pending0.skip(i as int + 1)[j] by {
                                assert(self.pending_finishes@[j] == queue[j + 1]);
                                assert(pending0.skip(i as int)[j + 1] == stored_view(queue[j + 1]));
                            }
                        }
                        i = i + 1;
                    }
                },
                Err(error) => {
                    let note = Self::note_cycle_error(
                        system,
                        "retrying the deferred group-commit finish_flush",
                        &error,
                    );
                    return Err(note);
                },
            }
        }
        proof {
            assert(self@.pending.len() == self.pending_finishes@.len());
            assert(pending0.take(i as int) =~= pending0);
            assert(self@.pending =~= Seq::empty());
        }
        Ok(())
    }

    /// Open the epoch for what was just drained. A refusal opens nothing, so
    /// the next epoch that opens covers the same transactions.
    pub fn open_flush_epoch(system: &mut ConcurrentWalSystem) -> (outcome: OpenOutcome)
        requires
            old(system).wf(),
        ensures
            final(system).wf(),
            epoch_opened(old(system)@, final(system)@, outcome),
    {
        let opened = match system.group_commit_mut() {
            None => {
                return OpenOutcome::NoEpochs;
            },
            Some(gc) => gc.start_flush(),
        };
        match opened {
            Ok(epoch) => OpenOutcome::Opened(epoch),
            Err(error) => OpenOutcome::Refused(
                Self::note_cycle_error(system, "starting the group-commit flush epoch", &error),
            ),
        }
    }

    /// Deliver `outcome` to the waiters of `epoch`, together with a failure
    /// that was carried over. What the coordinator refuses is kept and retried
    /// in the next cycle.
    pub fn finish_flush_epoch(
        &mut self,
        system: &mut ConcurrentWalSystem,
        epoch: u64,
        outcome: Result<(), Error>,
    ) -> (note: Option<CycleNote>)
        requires
            old(system).wf(),
        ensures
            final(system).wf(),
            epoch_finished(
                old(self)@,
                final(self)@,
                old(system)@,
                final(system)@,
                epoch,
                outcome_text(outcome),
                note,
            ),
    {
        if system.group_commit_coordinator().is_none() {
            return None;
        }
        let carried = self.carried_failure.take();
        let stored: Option<String> = match (carried, outcome) {
            (None, Ok(())) => None,
            (None, Err(current)) => Some(current.message()),
            (Some(earlier), Ok(())) => Some(earlier),
            (Some(earlier), Err(current)) => {
                let text = current.message();
                Some(concat3(earlier.as_str(), "; and then ", text.as_str()))
            },
        };
        let folded_outcome: Result<(), Error> = match &stored {
            None => Ok(()),
            Some(text) => Err(Error::other(text.clone())),
        };
        proof {
            assert(outcome_text(folded_outcome) == folded(
                old(self)@.carried,
                outcome_text(outcome),
            ));
        }
        let delivered = match system.group_commit_mut() {
            Some(gc) => gc.finish_flush(epoch, folded_outcome),
            None => Ok(()),
        };
        match delivered {
            Ok(()) => {
                assert(self@.pending =~= old(self)@.pending);
                None
            },
            Err(error) => {
                let ghost queue = self.pending_finishes@;
                self.pending_finishes.push_back((epoch, stored));
                let depth: usize = self.pending_finishes.len();
                proof {
                    let delivered = folded(old(self)@.carried, outcome_text(outcome));
                    assert(stored_view((epoch, stored)) == (epoch, delivered));
                    assert(self@.pending =~= old(self)@.pending.push((epoch, delivered)));
                    assert(depth == old(self)@.pending.len() + 1);
                }
                let mut note = Self::note_cycle_error(
                    system,
                    "finishing the group-commit flush epoch",
                    &error,
                );
                if depth > MAX_PENDING_FINISHES && note.fatal.is_none() {
                    let limit = show_usize(MAX_PENDING_FINISHES);
                    let shown = show_usize(depth);
                    let text = concat3(
                        "GroupCommitCoordinator has refused finish_flush for ",
                        limit.as_str(),
                        " consecutive epochs (queue depth ",
                    );
                    note.fatal =
                    Some(
                        concat3(
                            text.as_str(),
                            shown.as_str(),
                            ") - the state mutex is unusable and no transaction has reached durability in that time; flush thread cannot continue",
                        ),
                    );
                }
                Some(note)
            },
        }
    }

    /// Carry a failure to the next epoch that opens, which is the one that
    /// covers those transactions. A success carries nothing.
    pub fn carry_flush_outcome(&mut self, outcome: Result<(), Error>)
        ensures
            final(self)@ == carrying(old(self)@, outcome_text(outcome)),
    {
        match outcome {
            Ok(()) => {},
            Err(error) => {
                if self.carried_failure.is_none() {
                    self.carried_failure = Some(error.message());
                }
            },
        }
        assert(self@.pending =~= old(self)@.pending);
    }

    /// Drain the stripes and open the epoch for what was drained, as one step.
    pub fn drain_and_open_epoch(system: &mut ConcurrentWalSystem) -> (turn: DrainTurn)
        requires
            old(system).wf(),
        ensures
            final(system).wf(),
            drained_and_opened(old(system)@, final(system)@, turn),
    {
        if system.is_membership_held() {
            return DrainTurn::Busy;
        }
        let entries = system.drain_ready();
        if entries.is_empty() {
            if system.group_commit_coordinator().is_none() {
                return DrainTurn::Drained { entries, opened: None, note: None };
            }
            match system.current_batch_size() {
                Err(error) => {
                    let note = Self::note_cycle_error(
                        system,
                        "reading the group-commit batch size",
                        &error,
                    );
                    return DrainTurn::Drained { entries, opened: None, note: Some(note) };
                },
                Ok(pending) => {
                    if pending == 0 {
                        return DrainTurn::Drained { entries, opened: None, note: None };
                    }
                },
            }
        }
        let outcome = Self::open_flush_epoch(system);
        DrainTurn::Drained { entries, opened: Some(outcome), note: None }
    }

    /// Take in how the writing of a cycle's entries went. Returns the outcome
    /// for the waiters of the epoch, and a line for the log if it failed.
    pub fn flush_entries(
        system: &mut ConcurrentWalSystem,
        request: FlushRequest,
        written: Result<(), Error>,
    ) -> (result: (Result<(), Error>, Option<String>))
        requires
            old(system).wf(),
        ensures
            final(system).wf(),
            entries_flushed(
                old(system)@,
                final(system)@,
                request.entries@,
                written,
                result.0,
                result.1,
            ),
    {
        if request.entries.is_empty() {
            system.reset_flush_errors();
            return (Ok(()), None);
        }
        match system.settle_flush(request, written) {
            Ok(_) => {
                system.reset_flush_errors();
                (Ok(()), None)
            },
            Err(error) => {
                let errors: u64 = system.count_flush_error();
                let cause = error.message();
                let line = if errors == FLUSH_ERROR_WARNING_THRESHOLD {
                    let count = show_u64(errors);
                    let head = concat3(
                        "CRITICAL: WAL flush failed ",
                        count.as_str(),
                        " consecutive times. Data durability may be compromised. Last error: ",
                    );
                    concat2(head.as_str(), cause.as_str())
                } else {
                    concat2("WAL flush error: ", cause.as_str())
                };
                (Err(Error::other(cause)), Some(line))
            },
        }
    }

    /// Drive the outcome of a flush through the epochs, as a cycle does after
    /// its entries were written.
    pub fn simulate_flush_outcome(
        &mut self,
        system: &mut ConcurrentWalSystem,
        outcome: Result<(), Error>,
    ) -> (note: Option<CycleNote>)
        requires
            old(system).wf(),
        ensures
            final(system).wf(),
            exists|middle: SystemView, opened: OpenOutcome| #[trigger]
                epoch_opened(old(system)@, middle, opened) && match opened {
                    OpenOutcome::NoEpochs => note is None && final(self)@ == old(self)@
                        && final(system)@ == middle,
                    OpenOutcome::Opened(epoch) => epoch_finished(
                        old(self)@,
                        final(self)@,
                        middle,
                        final(system)@,
                        epoch,
                        outcome_text(outcome),
                        note,
                    ),
                    OpenOutcome::Refused(told) => note == Some(told) && final(self)@ == carrying(
                        old(self)@,
                        outcome_text(outcome),
                    ) && final(system)@ == middle,
                },
    {
        let opened = Self::open_flush_epoch(system);
        let ghost middle = system@;
        assert(epoch_opened(old(system)@, middle, opened));
        match opened {
            OpenOutcome::NoEpochs => None,
            OpenOutcome::Opened(epoch) => self.finish_flush_epoch(system, epoch, outcome),
            OpenOutcome::Refused(note) => {
                self.carry_flush_outcome(outcome);
                Some(note)
            },
        }
    }

    /// Begin a cycle whose entries are synced or not.
    fn begin_cycle(&mut self, system: &mut ConcurrentWalSystem, sync: bool) -> (result: (
        CycleTurn,
        Vec<CycleNote>,
    ))
        requires
            old(system).wf(),
        ensures
            final(system).wf(),
            cycle_begun(
                old(self)@,
                final(self)@,
                old(system)@,
                final(system)@,
                sync,
                result.0,
                result.1@,
            ),
    {
        let mut notes: Vec<CycleNote> = Vec::new();
        let retried = self.drain_pending_finishes(system);
        let ghost middle = system@;
        let ghost attempt = retried;
        assert(finishes_retried(old(self)@, self@, old(system)@, middle, attempt));
        let ghost mut before: Seq<CycleNote> = Seq::empty();
        match retried {
            Ok(()) => {},
            Err(note) => {
                let fatal: bool = note.fatal.is_some();
                proof {
                    before = seq![note];
                }
                notes.push(note);
                assert(notes@ =~= before);
                if fatal {
                    return (CycleTurn::Fatal, notes);
                }
            },
        }
        let drain = Self::drain_and_open_epoch(system);
        let ghost opened_state = system@;
        assert(drained_and_opened(middle, opened_state, drain));
        let turn = match drain {
            DrainTurn::Busy => CycleTurn::Busy,
            DrainTurn::Drained { entries, opened, note } => match opened {
                None => match note {
                    None => CycleTurn::Idle,
                    Some(told) => {
                        let fatal: bool = told.fatal.is_some();
                        notes.push(told);
                        if fatal {
                            CycleTurn::Fatal
                        } else {
                            CycleTurn::Idle
                        }
                    },
                },
                Some(outcome) => {
                    let fatal: bool = match &outcome {
                        OpenOutcome::Refused(told) => told.fatal.is_some(),
                        _ => false,
                    };
                    if fatal {
                        match outcome {
                            OpenOutcome::Refused(told) => notes.push(told),
                            _ => {},
                        }
                        system.discard_drained(entries);
                        CycleTurn::Fatal
                    } else {
                        CycleTurn::Write(FlushCycle { entries, sync, opened: outcome })
                    }
                },
            },
        };
        assert(cycle_drained(middle, system@, sync, turn, before, notes@));
        (turn, notes)
    }

    /// Begin a regular cycle.
    pub fn perform_flush_cycle(&mut self, system: &mut ConcurrentWalSystem) -> (result: (
        CycleTurn,
        Vec<CycleNote>,
    ))
        requires
            old(system).wf(),
        ensures
            final(system).wf(),
            cycle_begun(
                old(self)@,
                final(self)@,
                old(system)@,
                final(system)@,
                old(self)@.sync_on_flush,
                result.0,
                result.1@,
            ),
    {
        let sync = self.sync_on_flush;
        self.begin_cycle(system, sync)
    }

    /// Begin the last cycle of a shutdown. It always syncs: this is the last
    /// chance to make buffered entries durable, and to land a stranded epoch.
    pub fn perform_final_flush(&mut self, system: &mut ConcurrentWalSystem) -> (result: (
        CycleTurn,
        Vec<CycleNote>,
    ))
        requires
            old(system).wf(),
        ensures
            final(system).wf(),
            cycle_begun(
                old(self)@,
                final(self)@,
                old(system)@,
                final(system)@,
                true,
                result.0,
                result.1@,
            ),
    {
        self.begin_cycle(system, true)
    }

    /// Finish a cycle once its entries were written, or not. Returns a line for
    /// the log, and what there is to say about delivering the outcome.
    pub fn finish_cycle(
        &mut self,
        system: &mut ConcurrentWalSystem,
        cycle: FlushCycle,
        written: Result<(), Error>,
    ) -> (result: (Option<String>, Option<CycleNote>))
        requires
            old(system).wf(),
        ensures
            final(system).wf(),
            cycle_finished(
                old(self)@,
                final(self)@,
                old(system)@,
                final(system)@,
                cycle,
                written,
                result.0,
                result.1,
            ),
    {
        let FlushCycle { entries, sync, opened } = cycle;
        let (outcome, log) = Self::flush_entries(system, FlushRequest { entries, sync }, written);
        let ghost middle = system@;
        assert(entries_flushed(old(system)@, middle, entries@, written, outcome, log));
        match opened {
            OpenOutcome::NoEpochs => (log, None),
            OpenOutcome::Opened(epoch) => {
                let note = self.finish_flush_epoch(system, epoch, outcome);
                (log, note)
            },
            OpenOutcome::Refused(_) => {
                self.carry_flush_outcome(outcome);
                (log, None)
            },
        }
    }
}

/// Finishing epochs leaves the lock of the coordinator as it is.
proof fn lemma_finished_all_keeps_lock(
    gc: GroupCommitView,
    pending: Seq<(u64, Option<Seq<char>>)>,
)
    ensures
        finished_all(gc, pending).refusals == gc.refusals,
        finished_all(gc, pending).poisoned == gc.poisoned,
        finished_all(gc, pending).config == gc.config,
        finished_all(gc, pending).current_epoch == gc.current_epoch,
        finished_all(gc, pending).batch_size == gc.batch_size,
    decreases pending.len(),
{
    if pending.len() > 0 {
        lemma_finished_all_keeps_lock(gc, pending.drop_last());
    }
}

/// Finishing epochs does not depend on the acquisitions that lie ahead.
proof fn lemma_finishing_ignores_refusals(
    gc: GroupCommitView,
    refusals: Refusals,
    pending: Seq<(u64, Option<Seq<char>>)>,
)
    ensures
        finished_all(GroupCommitView { refusals, ..gc }, pending) == (GroupCommitView {
            refusals,
            ..finished_all(gc, pending)
        }),
    decreases pending.len(),
{
    if pending.len() > 0 {
        lemma_finishing_ignores_refusals(gc, refusals, pending.drop_last());
        let before = finished_all(gc, pending.drop_last());
        let (epoch, outcome) = pending.last();
        assert((GroupCommitView { refusals, ..before }).finished(epoch, outcome)
            =~= (GroupCommitView { refusals, ..before.finished(epoch, outcome) }));
    }
}

/// Deferred outcomes are delivered in order: a retry delivers a front part of
/// the queue, all of it unless the coordinator refuses, and what it does not
/// deliver stays in the queue as it was.
pub proof fn lemma_retry_keeps_the_order(
    f0: FlusherView,
    f1: FlusherView,
    s0: SystemView,
    s1: SystemView,
    result: Result<(), CycleNote>,
)
    requires
        finishes_retried(f0, f1, s0, s1, result),
        s0.group_commit is Some,
    ensures
        ({
            let n = f0.pending.len() - f1.pending.len();
            let delivered = finished_all(s0.group_commit->0, f0.pending.take(n));
            &&& 0 <= n <= f0.pending.len()
            &&& f1.pending == f0.pending.skip(n)
            &&& s1.group_commit == Some(
                GroupCommitView { refusals: s1.group_commit->0.refusals, ..delivered },
            )
            &&& result is Ok <==> f1.pending.len() == 0
        }),
{
    let gc = s0.group_commit->0;
    let n = gc.passing(LockSite::FinishFlush, f0.pending.len());
    if !gc.poisoned {
        lemma_acquired_times(gc, LockSite::FinishFlush, n);
    }
    let acquired = gc.acquired_times(LockSite::FinishFlush, n);
    lemma_finishing_ignores_refusals(gc, acquired.refusals, f0.pending.take(n as int));
    assert(acquired == (GroupCommitView { refusals: acquired.refusals, ..gc }));
}

/// An outcome is never dropped: delivering it to an epoch either reaches the
/// coordinator, or leaves it at the end of the queue of deferred finishes with
/// everything that was there before it. A carried failure goes with it.
pub proof fn lemma_outcome_is_never_dropped(
    f0: FlusherView,
    f1: FlusherView,
    s0: SystemView,
    s1: SystemView,
    epoch: u64,
    outcome: Option<Seq<char>>,
    note: Option<CycleNote>,
)
    requires
        epoch_finished(f0, f1, s0, s1, epoch, outcome, note),
        s0.group_commit is Some,
    ensures
        ({
            let delivered = folded(f0.carried, outcome);
            let gc = s0.group_commit->0.acquired(LockSite::FinishFlush);
            &&& s1.group_commit == Some(gc.finished(epoch, delivered)) && f1.pending == f0.pending
                || s1.group_commit == Some(gc) && f1.pending == f0.pending.push((epoch, delivered))
            &&& outcome is Some || f0.carried is Some ==> delivered is Some
        }),
{
}

/// A failure whose epoch could not be opened reaches the epoch that covers
/// those transactions: the refusal leaves the current epoch where it was, the
/// failure is carried, and whatever the next flush comes to, the outcome that
/// is then delivered to that same epoch is a failure that names it.
pub proof fn lemma_refused_start_carries_the_failure(
    f0: FlusherView,
    s0: SystemView,
    s1: SystemView,
    refused: OpenOutcome,
    failure: Seq<char>,
    s2: SystemView,
    s3: SystemView,
    opened: OpenOutcome,
    outcome: Option<Seq<char>>,
)
    requires
        epoch_opened(s0, s1, refused),
        refused is Refused,
        s2.group_commit == s1.group_commit,
        epoch_opened(s2, s3, opened),
        opened is Opened,
        f0.carried is None,
    ensures
        opened == OpenOutcome::Opened(s0.group_commit->0.current_epoch),
        ({
            let delivered = folded(carrying(f0, Some(failure)).carried, outcome);
            &&& delivered is Some
            &&& failure.is_prefix_of(delivered->0)
        }),
{
    let delivered = folded(carrying(f0, Some(failure)).carried, outcome);
    match outcome {
        Some(current) => {
            assert((failure + "; and then "@ + current).take(failure.len() as int) =~= failure);
        },
        None => {},
    }
}

/// The first failure that is carried is the one that counts.
pub proof fn lemma_first_carried_failure_wins(
    f: FlusherView,
    first: Seq<char>,
    later: Option<Seq<char>>,
)
    requires
        f.carried is None,
    ensures
        carrying(carrying(f, Some(first)), later).carried == Some(first),
{
}

/// While a transaction is between its append and its registration, a flush
/// cycle drains nothing and opens no epoch.
pub proof fn lemma_no_drain_inside_the_window(s0: SystemView, s1: SystemView, turn: DrainTurn)
    requires
        s0.membership_held,
        drained_and_opened(s0, s1, turn),
    ensures
        turn is Busy,
        s1.wal.stripes == s0.wal.stripes,
        s1.group_commit == s0.group_commit,
{
}

/// A transaction is flushed in the epoch that it waits for: what was in the
/// stripes when it registered is still there afterwards, and the next cycle
/// drains exactly that and opens exactly its epoch.
pub proof fn lemma_transaction_is_flushed_in_its_epoch(
    before: SystemView,
    after: SystemView,
    epoch: u64,
    opened_state: SystemView,
    entries: Vec<PendingEntry>,
    opened: u64,
)
    requires
        committed(before, after, CommitTurn::Done(Ok(Some(epoch)))),
        !before.membership_held,
        !(before.mode is Synchronous || before.mode is Async),
        before.group_commit is Some,
        drained_and_opened(
            after,
            opened_state,
            DrainTurn::Drained {
                entries,
                opened: Some(OpenOutcome::Opened(opened)),
                note: None,
            },
        ),
    ensures
        opened == epoch,
        is_stable_sort(entries@, ready_of_all(before.wal.stripes)),
{
}

/// Deferred outcomes reach their own epochs: once the queue is delivered, every
/// epoch in it is finished, and an epoch whose flush failed has an error on
/// record.
pub proof fn lemma_deferred_outcomes_reach_their_epochs(
    gc: GroupCommitView,
    pending: Seq<(u64, Option<Seq<char>>)>,
    i: int,
)
    requires
        0 <= i < pending.len(),
    ensures
        ({
            let after = finished_all(gc, pending);
            &&& after.flushed_epoch >= pending[i].0 || after.completed.contains(pending[i].0)
            &&& pending[i].1 is Some ==> error_for(after.errors, pending[i].0) is Some
        }),
    decreases pending.len(),
{
    let before = finished_all(gc, pending.drop_last());
    let last = pending.last();
    let after = finished_all(gc, pending);
    let completed = before.completed.insert(last.0);
    lemma_frontier(before.flushed_epoch, completed);
    match last.1 {
        Some(text) => {
            assert(after.errors.drop_last() =~= before.errors);
        },
        None => {},
    }
    if i < pending.len() - 1 {
        assert(pending.drop_last()[i] == pending[i]);
        lemma_deferred_outcomes_reach_their_epochs(gc, pending.drop_last(), i);
        assert(completed.contains(pending[i].0) || before.flushed_epoch >= pending[i].0);
    }
}

/// A stranded epoch does not hold the frontier back for good: once the finish
/// of the epoch next to the frontier is delivered, the frontier moves past it.
pub proof fn lemma_delivered_finish_unwedges_the_frontier(
    gc: GroupCommitView,
    outcome: Option<Seq<char>>,
)
    requires
        gc.flushed_epoch < u64::MAX,
    ensures
        gc.finished((gc.flushed_epoch + 1) as u64, outcome).flushed_epoch > gc.flushed_epoch,
{
    let next = (gc.flushed_epoch + 1) as u64;
    let completed = gc.completed.insert(next);
    assert(completed.contains(next));
    lemma_frontier(next, completed);
    assert(frontier(gc.flushed_epoch, completed) == frontier(next, completed));
}

/// An epoch whose flush failed is never acknowledged: once the failure is
/// delivered, no later finish of any epoch makes its waiters see a success.
pub proof fn lemma_failed_epoch_is_never_acknowledged(
    gc: GroupCommitView,
    epoch: u64,
    failure: Seq<char>,
    later: Seq<(u64, Option<Seq<char>>)>,
)
    ensures
        !(finished_all(gc.finished(epoch, Some(failure)), later).verdict(epoch) matches Some(Ok(_))),
        error_for(finished_all(gc.finished(epoch, Some(failure)), later).errors, epoch) is Some,
    decreases later.len(),
{
    let failed = gc.finished(epoch, Some(failure));
    if later.len() == 0 {
        assert(failed.errors.drop_last() =~= gc.errors);
    } else {
        lemma_failed_epoch_is_never_acknowledged(gc, epoch, failure, later.drop_last());
        let before = finished_all(failed, later.drop_last());
        let after = finished_all(failed, later);
        match later.last().1 {
            Some(text) => {
                assert(after.errors.drop_last() =~= before.errors);
            },
            None => {},
        }
    }
}

/// Whether the finish of `epoch` is in the queue.
pub open spec fn is_queued(f: FlusherView, epoch: u64) -> bool {
    exists|i: int| 0 <= i < f.pending.len() && (#[trigger] f.pending[i]).0 == epoch
}

/// Whether every epoch is accounted for, while `open` is the one whose entries
/// are being written: an epoch before the current one is behind the frontier,
/// or finished, or queued, or open, and never two of these.
pub open spec fn accounted(f: FlusherView, gc: GroupCommitView, open: Option<u64>) -> bool {
    &&& gc.flushed_epoch < gc.current_epoch
    &&& !gc.completed.contains((gc.flushed_epoch + 1) as u64)
    &&& forall|e: u64| #[trigger]
        gc.completed.contains(e) ==> gc.flushed_epoch < e < gc.current_epoch
    &&& forall|i: int|
        0 <= i < f.pending.len() ==> gc.flushed_epoch < (#[trigger] f.pending[i]).0
            < gc.current_epoch && !gc.completed.contains(f.pending[i].0)
    &&& forall|i: int, j: int|
        0 <= i < j < f.pending.len() ==> (#[trigger] f.pending[i]).0 != (
        #[trigger] f.pending[j]).0
    &&& open matches Some(e) ==> gc.flushed_epoch < e < gc.current_epoch
        && !gc.completed.contains(e) && !is_queued(f, e)
    &&& forall|e: u64|
        gc.flushed_epoch < e < gc.current_epoch ==> #[trigger] gc.completed.contains(e)
            || is_queued(f, e) || open == Some(e)
}

/// At the start every epoch is accounted for.
pub proof fn lemma_start_is_accounted(config: GroupCommitConfig, sync_on_flush: bool)
    ensures
        accounted(
            FlusherView { sync_on_flush, pending: Seq::empty(), carried: None },
            fresh_group_commit(config),
            None,
        ),
{
}

/// A commit leaves every epoch accounted for.
pub proof fn lemma_commit_keeps_the_account(
    f: FlusherView,
    before: SystemView,
    after: SystemView,
    turn: CommitTurn,
    open: Option<u64>,
)
    requires
        committed(before, after, turn),
        before.group_commit is Some,
        accounted(f, before.group_commit->0, open),
    ensures
        after.group_commit is Some,
        accounted(f, after.group_commit->0, open),
{
    let gc = before.group_commit->0;
    let now = after.group_commit->0;
    assert(now.completed == gc.completed);
}

/// Opening an epoch leaves every epoch accounted for; a refusal opens nothing.
pub proof fn lemma_opening_keeps_the_account(
    f: FlusherView,
    s0: SystemView,
    s1: SystemView,
    outcome: OpenOutcome,
)
    requires
        epoch_opened(s0, s1, outcome),
        s0.group_commit is Some,
        accounted(f, s0.group_commit->0, None),
    ensures
        s1.group_commit is Some,
        match outcome {
            OpenOutcome::Opened(epoch) => accounted(f, s1.group_commit->0, Some(epoch)),
            _ => accounted(f, s1.group_commit->0, None),
        },
{
    let gc = s0.group_commit->0;
    let now = s1.group_commit->0;
    assert(now.completed == gc.completed);
    match outcome {
        OpenOutcome::Opened(epoch) => {
            assert forall|e: u64| now.flushed_epoch < e < now.current_epoch implies
                #[trigger] now.completed.contains(e) || is_queued(f, e) || Some(epoch) == Some(e) by {
                assert(e < gc.current_epoch ==> gc.completed.contains(e) || is_queued(f, e));
            }
        },
        _ => {},
    }
}

/// Finishing an epoch that is neither queued nor finished leaves the others
/// accounted for.
proof fn lemma_finished_is_accounted(
    f0: FlusherView,
    f1: FlusherView,
    gc: GroupCommitView,
    epoch: u64,
    outcome: Option<Seq<char>>,
    open: Option<u64>,
)
    requires
        gc.flushed_epoch < epoch < gc.current_epoch,
        !gc.completed.contains(epoch),
        accounted(f0, gc, open) || accounted(f0, gc, Some(epoch)) && open is None,
        open != Some(epoch),
        !is_queued(f1, epoch),
        forall|e: u64| e != epoch ==> (is_queued(f0, e) <==> #[trigger] is_queued(f1, e)),
        forall|i: int, j: int|
            0 <= i < j < f1.pending.len() ==> (#[trigger] f1.pending[i]).0 != (
            #[trigger] f1.pending[j]).0,
        forall|i: int|
            0 <= i < f1.pending.len() ==> gc.flushed_epoch < (#[trigger] f1.pending[i]).0
                < gc.current_epoch && !gc.completed.contains(f1.pending[i].0),
    ensures
        accounted(f1, gc.finished(epoch, outcome), open),
{
    let after = gc.finished(epoch, outcome);
    let completed = gc.completed.insert(epoch);
    lemma_frontier(gc.flushed_epoch, completed);
    assert(after.flushed_epoch == frontier(gc.flushed_epoch, completed));
    assert(after.flushed_epoch < gc.current_epoch) by {
        if after.flushed_epoch > gc.flushed_epoch {
            assert(completed.contains(after.flushed_epoch));
        }
    }
    assert forall|i: int| 0 <= i < f1.pending.len() implies after.flushed_epoch < (
    #[trigger] f1.pending[i]).0 < after.current_epoch && !after.completed.contains(
        f1.pending[i].0,
    ) by {
        let e = f1.pending[i].0;
        assert(is_queued(f1, e));
        assert(!completed.contains(e));
    }
    match open {
        Some(e) => {
            assert(!completed.contains(e));
            assert(!is_queued(f0, e));
            assert(!is_queued(f1, e));
        },
        None => {},
    }
    assert forall|e: u64| after.flushed_epoch < e < after.current_epoch implies
        #[trigger] after.completed.contains(e) || is_queued(f1, e) || open == Some(e) by {
        assert(gc.completed.contains(e) || is_queued(f0, e) || open == Some(e) || e == epoch);
        if e != epoch && is_queued(f0, e) {
            assert(is_queued(f1, e));
        }
    }
}

/// Delivering the outcome of the open epoch leaves every epoch accounted for:
/// it is finished, or it is queued.
pub proof fn lemma_finishing_keeps_the_account(
    f0: FlusherView,
    f1: FlusherView,
    s0: SystemView,
    s1: SystemView,
    epoch: u64,
    outcome: Option<Seq<char>>,
    note: Option<CycleNote>,
)
    requires
        epoch_finished(f0, f1, s0, s1, epoch, outcome, note),
        s0.group_commit is Some,
        accounted(f0, s0.group_commit->0, Some(epoch)),
    ensures
        s1.group_commit is Some,
        accounted(f1, s1.group_commit->0, None),
{
    let gc = s0.group_commit->0;
    let acquired = gc.acquired(LockSite::FinishFlush);
    assert(acquired.completed == gc.completed);
    if gc.refusal(LockSite::FinishFlush) is None {
        assert(accounted(f0, acquired, Some(epoch)));
        assert forall|e: u64| e != epoch implies (is_queued(f0, e) <==> #[trigger] is_queued(
            f1,
            e,
        )) by {
            assert(f1.pending == f0.pending);
        }
        assert(!is_queued(f1, epoch)) by {
            assert(f1.pending == f0.pending);
            assert(!is_queued(f0, epoch));
        }
        lemma_finished_is_accounted(
            f0,
            f1,
            acquired,
            epoch,
            folded(f0.carried, outcome),
            None,
        );
    } else {
        let n = f0.pending.len() as int;
        assert(f1.pending[n].0 == epoch);
        assert forall|i: int, j: int| 0 <= i < j < f1.pending.len() implies (
        #[trigger] f1.pending[i]).0 != (#[trigger] f1.pending[j]).0 by {
            assert(f1.pending[i] == f0.pending[i]);
            if j < n {
                assert(f1.pending[j] == f0.pending[j]);
            } else {
                assert(is_queued(f0, f0.pending[i].0));
            }
        }
        assert forall|e: u64| acquired.flushed_epoch < e < acquired.current_epoch implies
            #[trigger] acquired.completed.contains(e) || is_queued(f1, e) by {
            if is_queued(f0, e) {
                let i = choose|i: int|
                    0 <= i < f0.pending.len() && (#[trigger] f0.pending[i]).0 == e;
                assert(f1.pending[i].0 == e);
            } else if e == epoch {
                assert(f1.pending[n].0 == e);
            }
        }
    }
}

/// Finishing a front part of the queue leaves every epoch accounted for.
proof fn lemma_finished_all_is_accounted(f: FlusherView, gc: GroupCommitView, n: int)
    requires
        0 <= n <= f.pending.len(),
        accounted(f, gc, None),
    ensures
        accounted(
            FlusherView { pending: f.pending.skip(n), ..f },
            finished_all(gc, f.pending.take(n)),
            None,
        ),
    decreases n,
{
    if n == 0 {
        assert(f.pending.skip(0) =~= f.pending);
        assert(f.pending.take(0) =~= Seq::empty());
    } else {
        lemma_finished_all_is_accounted(f, gc, n - 1);
        let f0 = FlusherView { pending: f.pending.skip(n - 1), ..f };
        let f1 = FlusherView { pending: f.pending.skip(n), ..f };
        let before = finished_all(gc, f.pending.take(n - 1));
        let (epoch, outcome) = f.pending[n - 1];
        assert(f.pending.take(n).drop_last() =~= f.pending.take(n - 1));
        assert(f0.pending[0] == f.pending[n - 1]);
        assert forall|i: int| 0 <= i < f1.pending.len() implies #[trigger] f1.pending[i]
            == f0.pending[i + 1] by {}
        assert forall|e: u64| e != epoch implies (is_queued(f0, e) <==> #[trigger] is_queued(
            f1,
            e,
        )) by {
            if is_queued(f0, e) {
                let i = choose|i: int|
                    0 <= i < f0.pending.len() && (#[trigger] f0.pending[i]).0 == e;
                assert(f1.pending[i - 1].0 == e);
            }
            if is_queued(f1, e) {
                let i = choose|i: int|
                    0 <= i < f1.pending.len() && (#[trigger] f1.pending[i]).0 == e;
                assert(f0.pending[i + 1].0 == e);
            }
        }
        assert(!is_queued(f1, epoch)) by {
            if is_queued(f1, epoch) {
                let i = choose|i: int|
                    0 <= i < f1.pending.len() && (#[trigger] f1.pending[i]).0 == epoch;
                assert(f0.pending[0].0 != f0.pending[i + 1].0);
            }
        }
        lemma_finished_is_accounted(f0, f1, before, epoch, outcome, None);
    }
}

/// Retrying the deferred finishes leaves every epoch accounted for.
pub proof fn lemma_retry_keeps_the_account(
    f0: FlusherView,
    f1: FlusherView,
    s0: SystemView,
    s1: SystemView,
    result: Result<(), CycleNote>,
)
    requires
        finishes_retried(f0, f1, s0, s1, result),
        s0.group_commit is Some,
        accounted(f0, s0.group_commit->0, None),
    ensures
        s1.group_commit is Some,
        accounted(f1, s1.group_commit->0, None),
{
    let n = f0.pending.len() - f1.pending.len();
    lemma_retry_keeps_the_order(f0, f1, s0, s1, result);
    lemma_finished_all_is_accounted(f0, s0.group_commit->0, n);
    let delivered = finished_all(s0.group_commit->0, f0.pending.take(n));
    assert(accounted(f1, delivered, None));
    assert(s1.group_commit->0.completed == delivered.completed);
}

/// No epoch is left behind: once nothing is queued and nothing is being
/// written, the frontier has reached every epoch that was ever closed, and all
/// their waiters have an answer.
pub proof fn lemma_no_epoch_is_left_behind(f: FlusherView, gc: GroupCommitView, epoch: u64)
    requires
        accounted(f, gc, None),
        f.pending.len() == 0,
        epoch < gc.current_epoch,
    ensures
        gc.flushed_epoch == gc.current_epoch - 1,
        gc.verdict(epoch) is Some,
{
    if gc.flushed_epoch + 1 < gc.current_epoch {
        let next = (gc.flushed_epoch + 1) as u64;
        assert(gc.completed.contains(next) || is_queued(f, next));
    }
}

/// Whether it is on record that the flush of `epoch` failed, while `open` is
/// the epoch whose entries are being written: with the coordinator, in the
/// queue, or carried towards the epoch.
pub open spec fn is_known_failed(
    f: FlusherView,
    gc: GroupCommitView,
    open: Option<u64>,
    epoch: u64,
) -> bool {
    ||| error_for(gc.errors, epoch) is Some
    ||| exists|i: int|
        0 <= i < f.pending.len() && (#[trigger] f.pending[i]).0 == epoch && f.pending[i].1 is Some
    ||| f.carried is Some && match open {
        Some(e) => e == epoch,
        None => gc.current_epoch == epoch,
    }
}

/// No lost transaction is acknowledged: whatever is queued, carried or still
/// being written, no waiter on an epoch whose flush failed is told that it is
/// durable.
pub proof fn lemma_lost_epoch_is_never_acknowledged(
    f: FlusherView,
    gc: GroupCommitView,
    open: Option<u64>,
    epoch: u64,
)
    requires
        accounted(f, gc, open),
        is_known_failed(f, gc, open, epoch),
    ensures
        !(gc.verdict(epoch) matches Some(Ok(_))),
{
}

/// A failed flush goes on record: for its epoch, if one was opened, and else
/// for the current epoch, which covers the same transactions.
pub proof fn lemma_failed_flush_goes_on_record(
    f0: FlusherView,
    f1: FlusherView,
    s0: SystemView,
    s1: SystemView,
    cycle: FlushCycle,
    error: Error,
    log: Option<String>,
    note: Option<CycleNote>,
)
    requires
        cycle_finished(f0, f1, s0, s1, cycle, Err(error), log, note),
        cycle.entries@.len() > 0,
        s0.group_commit is Some,
    ensures
        s1.group_commit is Some,
        match cycle.opened {
            OpenOutcome::NoEpochs => true,
            OpenOutcome::Opened(epoch) => is_known_failed(f1, s1.group_commit->0, None, epoch),
            OpenOutcome::Refused(_) => is_known_failed(
                f1,
                s1.group_commit->0,
                None,
                s1.group_commit->0.current_epoch,
            ),
        },
{
    let (middle, outcome) = choose|middle: SystemView, outcome: Result<(), Error>| #[trigger]
        entries_flushed(s0, middle, cycle.entries@, Err(error), outcome, log)
            && match cycle.opened {
            OpenOutcome::NoEpochs => note is None && f1 == f0 && s1 == middle,
            OpenOutcome::Opened(epoch) => epoch_finished(
                f0,
                f1,
                middle,
                s1,
                epoch,
                outcome_text(outcome),
                note,
            ),
            OpenOutcome::Refused(_) => note is None && f1 == carrying(f0, outcome_text(outcome))
                && s1 == middle,
        };
    assert(outcome_text(outcome) is Some);
    assert(middle.group_commit == s0.group_commit);
    match cycle.opened {
        OpenOutcome::Opened(epoch) => {
            lemma_finish_records_a_failure(f0, f1, middle, s1, epoch, outcome_text(outcome), note);
        },
        _ => {},
    }
}

/// Delivering a failure, or anything at all while a failure is carried, puts
/// the epoch on record as failed.
proof fn lemma_finish_records_a_failure(
    f0: FlusherView,
    f1: FlusherView,
    s0: SystemView,
    s1: SystemView,
    epoch: u64,
    outcome: Option<Seq<char>>,
    note: Option<CycleNote>,
)
    requires
        epoch_finished(f0, f1, s0, s1, epoch, outcome, note),
        s0.group_commit is Some,
        outcome is Some || f0.carried is Some,
    ensures
        s1.group_commit is Some,
        is_known_failed(f1, s1.group_commit->0, None, epoch),
{
    let gc = s0.group_commit->0;
    let delivered = folded(f0.carried, outcome);
    if gc.refusal(LockSite::FinishFlush) is None {
        assert(s1.group_commit->0.errors.drop_last() =~= gc.errors);
    } else {
        let n = f0.pending.len() as int;
        assert(f1.pending[n] == (epoch, delivered));
    }
}

/// A commit takes no failure off the record.
pub proof fn lemma_commit_keeps_the_record(
    f: FlusherView,
    before: SystemView,
    after: SystemView,
    turn: CommitTurn,
    open: Option<u64>,
    epoch: u64,
)
    requires
        committed(before, after, turn),
        before.group_commit is Some,
        is_known_failed(f, before.group_commit->0, open, epoch),
    ensures
        after.group_commit is Some,
        is_known_failed(f, after.group_commit->0, open, epoch),
{
    assert(after.group_commit->0.errors == before.group_commit->0.errors);
}

/// Opening an epoch takes no failure off the record: one that was carried now
/// belongs to the epoch that was opened.
pub proof fn lemma_opening_keeps_the_record(
    f: FlusherView,
    s0: SystemView,
    s1: SystemView,
    outcome: OpenOutcome,
    epoch: u64,
)
    requires
        epoch_opened(s0, s1, outcome),
        s0.group_commit is Some,
        is_known_failed(f, s0.group_commit->0, None, epoch),
    ensures
        s1.group_commit is Some,
        match outcome {
            OpenOutcome::Opened(opened) => is_known_failed(
                f,
                s1.group_commit->0,
                Some(opened),
                epoch,
            ),
            _ => is_known_failed(f, s1.group_commit->0, None, epoch),
        },
{
    assert(s1.group_commit->0.errors == s0.group_commit->0.errors);
}

/// Delivering the outcome of the open epoch takes no failure off the record.
pub proof fn lemma_finishing_keeps_the_record(
    f0: FlusherView,
    f1: FlusherView,
    s0: SystemView,
    s1: SystemView,
    open: u64,
    outcome: Option<Seq<char>>,
    note: Option<CycleNote>,
    epoch: u64,
)
    requires
        epoch_finished(f0, f1, s0, s1, open, outcome, note),
        s0.group_commit is Some,
        is_known_failed(f0, s0.group_commit->0, Some(open), epoch),
    ensures
        s1.group_commit is Some,
        is_known_failed(f1, s1.group_commit->0, None, epoch),
{
    let gc = s0.group_commit->0;
    let after = s1.group_commit->0;
    let delivered = folded(f0.carried, outcome);
    if f0.carried is Some && open == epoch {
        lemma_finish_records_a_failure(f0, f1, s0, s1, open, outcome, note);
    } else if error_for(gc.errors, epoch) is Some {
        if gc.refusal(LockSite::FinishFlush) is None && delivered is Some {
            assert(after.errors.drop_last() =~= gc.errors);
        }
    } else {
        let i = choose|i: int|
            0 <= i < f0.pending.len() && (#[trigger] f0.pending[i]).0 == epoch
                && f0.pending[i].1 is Some;
        assert(f1.pending[i] == f0.pending[i]);
    }
}

/// Retrying the deferred finishes takes no failure off the record: one that
/// was queued is still queued, or its epoch has the error.
pub proof fn lemma_retry_keeps_the_record(
    f0: FlusherView,
    f1: FlusherView,
    s0: SystemView,
    s1: SystemView,
    result: Result<(), CycleNote>,
    epoch: u64,
)
    requires
        finishes_retried(f0, f1, s0, s1, result),
        s0.group_commit is Some,
        is_known_failed(f0, s0.group_commit->0, None, epoch),
    ensures
        s1.group_commit is Some,
        is_known_failed(f1, s1.group_commit->0, None, epoch),
{
    let gc = s0.group_commit->0;
    let n = f0.pending.len() - f1.pending.len();
    lemma_retry_keeps_the_order(f0, f1, s0, s1, result);
    let front = f0.pending.take(n);
    let delivered = finished_all(gc, front);
    assert(s1.group_commit->0.errors == delivered.errors);
    lemma_finished_all_keeps_lock(gc, front);
    if error_for(gc.errors, epoch) is Some {
        lemma_finished_all_keeps_errors(gc, front, epoch);
    } else if f0.carried is Some && gc.current_epoch == epoch {
        assert(f1.carried == f0.carried);
    } else {
        let i = choose|i: int|
            0 <= i < f0.pending.len() && (#[trigger] f0.pending[i]).0 == epoch
                && f0.pending[i].1 is Some;
        if i < n {
            assert(front[i] == f0.pending[i]);
            lemma_deferred_outcomes_reach_their_epochs(gc, front, i);
        } else {
            assert(f1.pending[i - n] == f0.pending[i]);
        }
    }
}

/// Finishing epochs takes no error off the record.
proof fn lemma_finished_all_keeps_errors(
    gc: GroupCommitView,
    pending: Seq<(u64, Option<Seq<char>>)>,
    epoch: u64,
)
    requires
        error_for(gc.errors, epoch) is Some,
    ensures
        error_for(finished_all(gc, pending).errors, epoch) is Some,
    decreases pending.len(),
{
    if pending.len() > 0 {
        lemma_finished_all_keeps_errors(gc, pending.drop_last(), epoch);
        let before = finished_all(gc, pending.drop_last());
        if pending.last().1 is Some {
            assert(finished_all(gc, pending).errors.drop_last() =~= before.errors);
        }
    }
}

/// The epoch that was opened, if one was.
pub open spec fn epoch_of(outcome: OpenOutcome) -> Option<u64> {
    match outcome {
        OpenOutcome::Opened(epoch) => Some(epoch),
        _ => None,
    }
}

/// The epoch whose entries are to be written when a cycle goes on with `turn`.
pub open spec fn open_in(turn: CycleTurn) -> Option<u64> {
    match turn {
        CycleTurn::Write(cycle) => epoch_of(cycle.opened),
        _ => None,
    }
}

/// Acquiring the state changes neither the account nor the record.
proof fn lemma_acquiring_changes_nothing(
    f: FlusherView,
    gc: GroupCommitView,
    site: LockSite,
    open: Option<u64>,
    epoch: u64,
)
    ensures
        accounted(f, gc, open) ==> accounted(f, gc.acquired(site), open),
        is_known_failed(f, gc, open, epoch) ==> is_known_failed(
            f,
            gc.acquired(site),
            open,
            epoch,
        ),
{
    let after = gc.acquired(site);
    assert(after.completed == gc.completed);
    assert(after.errors == gc.errors);
}

/// A cycle takes everything that is buffered: after it was begun nothing is
/// pending, and what it writes is all there was. So the last cycle of a
/// shutdown, which syncs, leaves nothing behind either.
pub proof fn lemma_cycle_takes_everything(
    f0: FlusherView,
    f1: FlusherView,
    s0: SystemView,
    s1: SystemView,
    sync: bool,
    turn: CycleTurn,
    notes: Seq<CycleNote>,
)
    requires
        cycle_begun(f0, f1, s0, s1, sync, turn, notes),
        no_holes(s0.wal.stripes),
        turn is Write || turn is Idle,
    ensures
        pending_total(s1.wal.stripes) == 0,
        match turn {
            CycleTurn::Write(cycle) => cycle.sync == sync && cycle.entries@.len() == pending_total(
                s0.wal.stripes,
            ),
            _ => pending_total(s0.wal.stripes) == 0,
        },
{
    let (middle, retried) = choose|middle: SystemView, retried: Result<(), CycleNote>| #[trigger]
        finishes_retried(f0, f1, s0, middle, retried) && match retried {
            Err(note) => if note.fatal is Some {
                turn is Fatal && s1 == middle && notes == seq![note]
            } else {
                cycle_drained(middle, s1, sync, turn, seq![note], notes)
            },
            Ok(_) => cycle_drained(middle, s1, sync, turn, Seq::empty(), notes),
        };
    let before = match retried {
        Err(note) => seq![note],
        Ok(_) => Seq::empty(),
    };
    lemma_draining_takes_everything(middle, s1, sync, turn, before, notes);
}

/// The draining step of a cycle takes everything that is buffered.
proof fn lemma_draining_takes_everything(
    s0: SystemView,
    s1: SystemView,
    sync: bool,
    turn: CycleTurn,
    before: Seq<CycleNote>,
    notes: Seq<CycleNote>,
)
    requires
        cycle_drained(s0, s1, sync, turn, before, notes),
        no_holes(s0.wal.stripes),
        turn is Write || turn is Idle,
    ensures
        pending_total(s1.wal.stripes) == 0,
        match turn {
            CycleTurn::Write(cycle) => cycle.sync == sync && cycle.entries@.len() == pending_total(
                s0.wal.stripes,
            ),
            _ => pending_total(s0.wal.stripes) == 0,
        },
{
    let (middle, drain) = choose|middle: SystemView, drain: DrainTurn| #[trigger]
        drained_and_opened(s0, middle, drain) && match drain {
            DrainTurn::Busy => turn is Busy && notes == before && s1 == middle,
            DrainTurn::Drained { entries, opened, note } => match (opened, note) {
                (None, None) => turn is Idle && notes == before && s1 == middle,
                (None, Some(told)) => {
                    &&& notes == before.push(told)
                    &&& s1 == middle
                    &&& if told.fatal is Some {
                        turn is Fatal
                    } else {
                        turn is Idle
                    }
                },
                (Some(outcome), _) => if outcome matches OpenOutcome::Refused(told)
                    && told.fatal is Some {
                    &&& turn is Fatal
                    &&& notes == before.push(outcome->Refused_0)
                    &&& s1 == middle.settled(entries@, false)
                } else {
                    &&& turn == CycleTurn::Write(FlushCycle { entries, sync, opened: outcome })
                    &&& notes == before
                    &&& s1 == middle
                },
            },
        };
    lemma_all_pending_is_ready(s0.wal.stripes);
    lemma_drained_stripes_are_empty(s0.wal.stripes);
    assert(!s0.membership_held);
    assert(middle.wal == s0.drained().wal);
    assert(s1.wal == middle.wal);
}

/// Beginning a cycle keeps every epoch accounted for and every failure on
/// record.
pub proof fn lemma_beginning_a_cycle_is_safe(
    f0: FlusherView,
    f1: FlusherView,
    s0: SystemView,
    s1: SystemView,
    sync: bool,
    turn: CycleTurn,
    notes: Seq<CycleNote>,
    epoch: u64,
)
    requires
        cycle_begun(f0, f1, s0, s1, sync, turn, notes),
        s0.group_commit is Some,
        accounted(f0, s0.group_commit->0, None),
    ensures
        s1.group_commit is Some,
        accounted(f1, s1.group_commit->0, open_in(turn)),
        is_known_failed(f0, s0.group_commit->0, None, epoch) ==> is_known_failed(
            f1,
            s1.group_commit->0,
            open_in(turn),
            epoch,
        ),
{
    let known = is_known_failed(f0, s0.group_commit->0, None, epoch);
    let (middle, retried) = choose|middle: SystemView, retried: Result<(), CycleNote>| #[trigger]
        finishes_retried(f0, f1, s0, middle, retried) && match retried {
            Err(note) => if note.fatal is Some {
                turn is Fatal && s1 == middle && notes == seq![note]
            } else {
                cycle_drained(middle, s1, sync, turn, seq![note], notes)
            },
            Ok(_) => cycle_drained(middle, s1, sync, turn, Seq::empty(), notes),
        };
    lemma_retry_keeps_the_account(f0, f1, s0, middle, retried);
    if known {
        lemma_retry_keeps_the_record(f0, f1, s0, middle, retried, epoch);
    }
    let stopped = retried matches Err(note) && note.fatal is Some;
    if !stopped {
        let before = match retried {
            Err(note) => seq![note],
            Ok(_) => Seq::empty(),
        };
        lemma_draining_is_safe(f1, middle, s1, sync, turn, before, notes, epoch);
    }
}

/// The draining step of a cycle keeps every epoch accounted for and every
/// failure on record.
proof fn lemma_draining_is_safe(
    f: FlusherView,
    s0: SystemView,
    s1: SystemView,
    sync: bool,
    turn: CycleTurn,
    before: Seq<CycleNote>,
    notes: Seq<CycleNote>,
    epoch: u64,
)
    requires
        cycle_drained(s0, s1, sync, turn, before, notes),
        s0.group_commit is Some,
        accounted(f, s0.group_commit->0, None),
    ensures
        s1.group_commit is Some,
        accounted(f, s1.group_commit->0, open_in(turn)),
        is_known_failed(f, s0.group_commit->0, None, epoch) ==> is_known_failed(
            f,
            s1.group_commit->0,
            open_in(turn),
            epoch,
        ),
{
    let gc = s0.group_commit->0;
    let (middle, drain) = choose|middle: SystemView, drain: DrainTurn| #[trigger]
        drained_and_opened(s0, middle, drain) && match drain {
            DrainTurn::Busy => turn is Busy && notes == before && s1 == middle,
            DrainTurn::Drained { entries, opened, note } => match (opened, note) {
                (None, None) => turn is Idle && notes == before && s1 == middle,
                (None, Some(told)) => {
                    &&& notes == before.push(told)
                    &&& s1 == middle
                    &&& if told.fatal is Some {
                        turn is Fatal
                    } else {
                        turn is Idle
                    }
                },
                (Some(outcome), _) => if outcome matches OpenOutcome::Refused(told)
                    && told.fatal is Some {
                    &&& turn is Fatal
                    &&& notes == before.push(outcome->Refused_0)
                    &&& s1 == middle.settled(entries@, false)
                } else {
                    &&& turn == CycleTurn::Write(FlushCycle { entries, sync, opened: outcome })
                    &&& notes == before
                    &&& s1 == middle
                },
            },
        };
    lemma_acquiring_changes_nothing(f, gc, LockSite::BatchSize, None, epoch);
    match drain {
        DrainTurn::Busy => {},
        DrainTurn::Drained { entries, opened, note } => {
            match opened {
                None => {},
                Some(outcome) => {
                    let ready = if entries@.len() > 0 {
                        s0.drained()
                    } else {
                        batch_size_read(s0.drained())
                    };
                    lemma_opening_keeps_the_account(f, ready, middle, outcome);
                    if is_known_failed(f, gc, None, epoch) {
                        lemma_opening_keeps_the_record(f, ready, middle, outcome, epoch);
                    }
                },
            }
        },
    }
}

/// Finishing a cycle keeps every epoch accounted for and every failure on
/// record.
pub proof fn lemma_finishing_a_cycle_is_safe(
    f0: FlusherView,
    f1: FlusherView,
    s0: SystemView,
    s1: SystemView,
    cycle: FlushCycle,
    written: Result<(), Error>,
    log: Option<String>,
    note: Option<CycleNote>,
    epoch: u64,
)
    requires
        cycle_finished(f0, f1, s0, s1, cycle, written, log, note),
        s0.group_commit is Some,
        accounted(f0, s0.group_commit->0, epoch_of(cycle.opened)),
    ensures
        s1.group_commit is Some,
        accounted(f1, s1.group_commit->0, None),
        is_known_failed(f0, s0.group_commit->0, epoch_of(cycle.opened), epoch) ==> is_known_failed(
            f1,
            s1.group_commit->0,
            None,
            epoch,
        ),
{
    let (middle, outcome) = choose|middle: SystemView, outcome: Result<(), Error>| #[trigger]
        entries_flushed(s0, middle, cycle.entries@, written, outcome, log)
            && match cycle.opened {
            OpenOutcome::NoEpochs => note is None && f1 == f0 && s1 == middle,
            OpenOutcome::Opened(epoch) => epoch_finished(
                f0,
                f1,
                middle,
                s1,
                epoch,
                outcome_text(outcome),
                note,
            ),
            OpenOutcome::Refused(_) => note is None && f1 == carrying(f0, outcome_text(outcome))
                && s1 == middle,
        };
    assert(middle.group_commit == s0.group_commit);
    match cycle.opened {
        OpenOutcome::Opened(open) => {
            let text = outcome_text(outcome);
            lemma_finishing_keeps_the_account(f0, f1, middle, s1, open, text, note);
            if is_known_failed(f0, s0.group_commit->0, Some(open), epoch) {
                lemma_finishing_keeps_the_record(f0, f1, middle, s1, open, text, note, epoch);
            }
        },
        _ => {
            assert(f1.pending == f0.pending);
            assert forall|e: u64| is_queued(f0, e) == is_queued(f1, e) by {}
        },
    }
}

} // verus!
