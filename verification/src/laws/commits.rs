//! What a commit is worth in each durability mode.

use vstd::prelude::*;

use crate::concurrent::no_holes;
use crate::concurrent_system::{committed, CommitTurn, ConcurrentWalSystem, SystemView};
use crate::error::{Error, ErrorView};
use crate::group_commit::GroupCommitView;
use crate::laws::draining::{flushes_everything, lemma_request_takes_everything};
use crate::system_config::DurabilityMode;
use crate::text::decimal;

verus! {

broadcast use crate::power::lemma_wrap_near;

/// Whether the state of the coordinator can be acquired for a registration.
pub open spec fn can_register(gc: GroupCommitView) -> bool {
    &&& !gc.poisoned
    &&& gc.refusals.register is None || gc.refusals.register->0 > 0
}

/// Whether `turn` and `after` are what a commit makes of `before`, in its mode:
/// nothing in the async one, a flush of everything in the synchronous one, and
/// a registration into the open epoch in the other two.
pub open spec fn commits(before: SystemView, after: SystemView, turn: CommitTurn) -> bool {
    let gc = before.group_commit->0;
    match before.mode {
        DurabilityMode::Async { .. } => {
            turn == CommitTurn::Done(Ok::<Option<u64>, Error>(None)) && after == before
        },
        DurabilityMode::Synchronous => {
            &&& turn is Done ==> turn == CommitTurn::Done(Ok::<Option<u64>, Error>(None))
            &&& flushes_everything(
                before.wal,
                after.wal,
                match turn {
                    CommitTurn::Flush(request) => Some(request),
                    CommitTurn::Done(_) => None,
                },
                true,
            )
            &&& after == (SystemView { wal: after.wal, ..before })
        },
        _ => if can_register(gc) {
            &&& turn == CommitTurn::Done(Ok::<Option<u64>, Error>(Some(gc.current_epoch)))
            &&& joins_the_open_epoch(before, after)
        } else {
            &&& turn matches CommitTurn::Done(Err(error))
            &&& if gc.poisoned {
                error@ == ErrorView::LockPoisoned("GroupCommitCoordinator state lock poisoned"@)
            } else {
                error@ == ErrorView::Wal(
                    "GroupCommitCoordinator state lock was not acquired within "@ + decimal(
                        gc.config.acquire_timeout_ms as nat,
                    ) + " ms"@,
                )
            }
            &&& after.group_commit matches Some(left)
            &&& left == (GroupCommitView { refusals: left.refusals, ..gc })
            &&& after == (SystemView { group_commit: Some(left), ..before })
        },
    }
}

/// Whether `after` is `before` with one more transaction in the open epoch, and
/// the flush thread woken if that fills the batch.
pub open spec fn joins_the_open_epoch(before: SystemView, after: SystemView) -> bool {
    let gc = before.group_commit->0;
    &&& after.group_commit matches Some(joined)
    &&& gc.batch_size < usize::MAX ==> joined.batch_size == gc.batch_size + 1
    &&& joined == (GroupCommitView {
        batch_size: joined.batch_size,
        refusals: joined.refusals,
        ..gc
    })
    &&& after.signaled <==> before.signaled || gc.batch_size + 1 >= gc.config.max_batch_size
    &&& after == (SystemView { group_commit: Some(joined), signaled: after.signaled, ..before })
}

/// What the contract of a commit says.
pub proof fn lemma_committed(before: SystemView, after: SystemView, turn: CommitTurn)
    requires
        no_holes(before.wal.stripes),
        before.group_commit is Some || before.mode is Async || before.mode is Synchronous,
        committed(before, after, turn),
    ensures
        commits(before, after, turn),
{
    if before.mode is Synchronous {
        let request = match turn {
            CommitTurn::Flush(request) => Some(request),
            CommitTurn::Done(_) => None,
        };
        lemma_request_takes_everything(before.wal, after.wal, request, true);
    }
}

/// A commit does what its mode asks.
pub proof fn lemma_commit_does_what_the_mode_asks(
    system: &mut ConcurrentWalSystem,
    turn: CommitTurn,
)
    requires
        old(system).wf(),
        call_ensures(ConcurrentWalSystem::commit, (system,), turn),
    ensures
        commits(old(system)@, final(system)@, turn),
{
    old(system).lemma_epochs();
    lemma_committed(old(system)@, final(system)@, turn);
}

/// Exactly the group-commit and the batched async modes have epochs.
pub proof fn lemma_modes_with_epochs(system: &ConcurrentWalSystem)
    requires
        system.wf(),
    ensures
        system@.group_commit is Some <==> system@.mode is GroupCommit
            || system@.mode is AsyncBatched,
{
    system.lemma_epochs();
}

/// In a mode with epochs a commit joins the open epoch and hands that out to be
/// waited for; it makes the batch one larger, drains nothing, and wakes the
/// flush thread exactly if that was to be woken already or the batch is full
/// now.
pub proof fn lemma_commit_joins_the_open_epoch(
    system: &mut ConcurrentWalSystem,
    turn: CommitTurn,
    gc: GroupCommitView,
)
    requires
        old(system).wf(),
        old(system)@.mode is GroupCommit || old(system)@.mode is AsyncBatched,
        old(system)@.group_commit == Some(gc),
        can_register(gc),
        gc.batch_size < usize::MAX,
        call_ensures(ConcurrentWalSystem::commit, (system,), turn),
    ensures
        turn == CommitTurn::Done(Ok::<Option<u64>, Error>(Some(gc.current_epoch))),
        final(system)@.group_commit matches Some(after) && {
            &&& after.batch_size == gc.batch_size + 1
            &&& after.current_epoch == gc.current_epoch
            &&& after.flushed_epoch == gc.flushed_epoch
            &&& after.completed == gc.completed
            &&& after.errors == gc.errors
            &&& after.config == gc.config
            &&& !after.poisoned
        },
        final(system)@.signaled <==> old(system)@.signaled || gc.batch_size + 1
            >= gc.config.max_batch_size,
        final(system)@ == (SystemView {
            group_commit: final(system)@.group_commit,
            signaled: final(system)@.signaled,
            ..old(system)@
        }),
{
}

/// A commit that cannot acquire the state of the coordinator fails, and joins
/// no epoch: the batch is as large as before and nobody is woken.
pub proof fn lemma_refused_commit_joins_nothing(
    system: &mut ConcurrentWalSystem,
    turn: CommitTurn,
    gc: GroupCommitView,
)
    requires
        old(system).wf(),
        old(system)@.mode is GroupCommit || old(system)@.mode is AsyncBatched,
        old(system)@.group_commit == Some(gc),
        !can_register(gc),
        call_ensures(ConcurrentWalSystem::commit, (system,), turn),
    ensures
        turn matches CommitTurn::Done(Err(error)) && (gc.poisoned ==> error@ is LockPoisoned),
        final(system)@.group_commit matches Some(after) && {
            &&& after.batch_size == gc.batch_size
            &&& after.current_epoch == gc.current_epoch
            &&& after.flushed_epoch == gc.flushed_epoch
            &&& after.completed == gc.completed
            &&& after.errors == gc.errors
        },
        final(system)@ == (SystemView {
            group_commit: final(system)@.group_commit,
            ..old(system)@
        }),
{
}

/// A commit in the async mode is over at once, and does nothing.
pub proof fn lemma_async_commit_does_nothing(system: &mut ConcurrentWalSystem, turn: CommitTurn)
    requires
        old(system)@.mode is Async,
        call_ensures(ConcurrentWalSystem::commit, (system,), turn),
    ensures
        turn == CommitTurn::Done(Ok::<Option<u64>, Error>(None)),
        final(system)@ == old(system)@,
{
}

/// A synchronous commit is over once all that was buffered is written and
/// synced, and at once only if nothing was.
pub proof fn lemma_synchronous_commit_writes_all(
    system: &mut ConcurrentWalSystem,
    turn: CommitTurn,
)
    requires
        old(system).wf(),
        old(system)@.mode is Synchronous,
        call_ensures(ConcurrentWalSystem::commit, (system,), turn),
    ensures
        turn is Done ==> turn == CommitTurn::Done(Ok::<Option<u64>, Error>(None)),
        flushes_everything(
            old(system)@.wal,
            final(system)@.wal,
            match turn {
                CommitTurn::Flush(request) => Some(request),
                CommitTurn::Done(_) => None,
            },
            true,
        ),
        final(system)@ == (SystemView { wal: final(system)@.wal, ..old(system)@ }),
{
    old(system).lemma_epochs();
    let request = match turn {
        CommitTurn::Flush(request) => Some(request),
        CommitTurn::Done(_) => None,
    };
    lemma_request_takes_everything(old(system)@.wal, final(system)@.wal, request, true);
}

/// A commit hands out an epoch in the modes with epochs, and in no other.
pub proof fn lemma_only_modes_with_epochs_hand_them_out(
    system: &mut ConcurrentWalSystem,
    turn: CommitTurn,
)
    requires
        old(system).wf(),
        call_ensures(ConcurrentWalSystem::commit, (system,), turn),
    ensures
        turn matches CommitTurn::Done(Ok(None)) ==> old(system)@.mode is Async || old(
            system,
        )@.mode is Synchronous,
        turn matches CommitTurn::Done(Ok(Some(epoch))) ==> old(system)@.mode is GroupCommit || old(
            system,
        )@.mode is AsyncBatched,
        turn is Flush ==> old(system)@.mode is Synchronous,
{
}

} // verus!
