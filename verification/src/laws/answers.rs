//! What whoever waits for durability is told.

use vstd::prelude::*;

use crate::completion::{seen_on, CompletionHandle, CompletionState, CompletionView};
use crate::concurrent::{all_durable, answers_batch, fails_first_at, ConcurrentWal, WalView};
use crate::concurrent_system::{ConcurrentWalSystem, FlushRequest, SystemView};
use crate::entry::PendingEntry;
use crate::error::{Error, ErrorView};
use crate::laws::batches::drops_waiters;
use crate::laws::draining::{lemma_writes_are_settled, writes_are_settled};
use crate::laws::waiters::{lemma_one_by_one, lemma_settles, settles, waited_for};
use crate::lsn::LSN;
use crate::text::duration_text;

verus! {

broadcast use crate::power::lemma_wrap_near;

/// Whether the entry behind `handle` was reported durable.
pub open spec fn is_durable(board: Map<u64, CompletionView>, handle: CompletionHandle) -> bool {
    board.contains_key(handle.0) && board[handle.0].state == CompletionState::Complete
}

/// Whether the entry behind `handle` has failed, or its waiter was dropped.
pub open spec fn has_failed(board: Map<u64, CompletionView>, handle: CompletionHandle) -> bool {
    !board.contains_key(handle.0) || board[handle.0].state == CompletionState::Error
}

/// What is known of why the entry behind `handle` has failed.
pub open spec fn failure(board: Map<u64, CompletionView>, handle: CompletionHandle) -> Seq<char> {
    if board.contains_key(handle.0) && board[handle.0].error is Some {
        board[handle.0].error->0
    } else {
        "Unknown error"@
    }
}

/// What a waiter is told that has waited for too long.
pub open spec fn waited_too_long(elapsed_ns: u64) -> Seq<char> {
    "WAL flush failed: "@ + ("Completion wait timed out after "@ + duration_text(elapsed_ns)
        + "; durability status UNKNOWN: the entry was appended and the background flusher may still make it durable (see Issue #3799)"@)
}

/// Whether a waiter for the entry behind `handle` is told `answer`: success once
/// it is durable, its error once it has failed, nothing while neither is known
/// and there is time left, and an error once there is none.
pub open spec fn is_told(
    answer: Option<Result<(), Error>>,
    board: Map<u64, CompletionView>,
    handle: CompletionHandle,
    elapsed_ns: u64,
    timeout_ns: u64,
) -> bool {
    if is_durable(board, handle) {
        answer matches Some(Ok(_))
    } else if has_failed(board, handle) {
        answer matches Some(Err(error)) && error@ == ErrorView::Wal(
            "WAL flush failed: "@ + failure(board, handle),
        )
    } else if elapsed_ns >= timeout_ns {
        answer matches Some(Err(error)) && error@ == ErrorView::Wal(waited_too_long(elapsed_ns))
    } else {
        answer is None
    }
}

/// A waiter is told of its own entry, and nobody waits any more once it was.
pub proof fn lemma_waiter_is_told(
    wal: &mut ConcurrentWal,
    handle: CompletionHandle,
    elapsed_ns: u64,
    timeout_ns: u64,
    answer: Option<Result<(), Error>>,
)
    requires
        call_ensures(
            ConcurrentWal::wait_durable,
            (wal, handle, elapsed_ns, timeout_ns),
            answer,
        ),
    ensures
        is_told(answer, old(wal)@.completions, handle, elapsed_ns, timeout_ns),
        answer is None ==> final(wal)@ == old(wal)@,
        answer is Some ==> final(wal)@ == (WalView {
            completions: old(wal)@.completions.remove(handle.0),
            ..old(wal)@
        }),
{
}

/// A synchronous append hands out its LSN once it is durable, after two minutes
/// at most, and is in flight until it is answered.
pub proof fn lemma_sync_append_is_answered(
    wal: &mut ConcurrentWal,
    lsn: LSN,
    handle: CompletionHandle,
    elapsed_ns: u64,
    answer: Option<Result<LSN, Error>>,
)
    requires
        call_ensures(ConcurrentWal::append_sync_wait, (wal, lsn, handle, elapsed_ns), answer),
    ensures
        answer matches Some(Ok(durable)) ==> durable == lsn,
        answer matches Some(Ok(_)) <==> is_durable(old(wal)@.completions, handle),
        answer is None <==> !is_durable(old(wal)@.completions, handle) && !has_failed(
            old(wal)@.completions,
            handle,
        ) && elapsed_ns < 120_000_000_000,
        answer matches Some(Err(error)) ==> error@ == ErrorView::Wal(
            if has_failed(old(wal)@.completions, handle) {
                "WAL flush failed: "@ + failure(old(wal)@.completions, handle)
            } else {
                waited_too_long(elapsed_ns)
            },
        ),
        answer is None ==> final(wal)@ == old(wal)@,
        answer is Some && old(wal)@.active_batches > 0 ==> final(wal)@ == (WalView {
            completions: old(wal)@.completions.remove(handle.0),
            active_batches: (old(wal)@.active_batches - 1) as usize,
            ..old(wal)@
        }),
{
}

/// The waiter of a synchronous append of the system is told in the same way,
/// after two minutes at most.
pub proof fn lemma_flushed_waiter_is_told(
    system: &mut ConcurrentWalSystem,
    handle: CompletionHandle,
    elapsed_ns: u64,
    answer: Option<Result<(), Error>>,
)
    requires
        call_ensures(ConcurrentWalSystem::wait_flushed, (system, handle, elapsed_ns), answer),
    ensures
        is_told(
            answer,
            old(system)@.wal.completions,
            handle,
            elapsed_ns,
            120_000_000_000,
        ),
        answer is None ==> final(system)@ == old(system)@,
        answer is Some ==> final(system)@ == (SystemView {
            wal: WalView {
                completions: old(system)@.wal.completions.remove(handle.0),
                ..old(system)@.wal
            },
            ..old(system)@
        }),
{
}

/// Whether the waiter for a whole batch is told `answer`: success once every
/// entry is durable; the error of the first one that has failed, as soon as one
/// has; and otherwise nothing until the time is up.
pub open spec fn is_told_of_all(
    answer: Option<Result<(), Error>>,
    board: Map<u64, CompletionView>,
    handles: Seq<CompletionHandle>,
    elapsed_ns: u64,
    timeout_ns: u64,
) -> bool {
    if forall|i: int| 0 <= i < handles.len() ==> is_durable(board, #[trigger] handles[i]) {
        answer matches Some(Ok(_))
    } else if exists|i: int| 0 <= i < handles.len() && has_failed(board, #[trigger] handles[i]) {
        &&& answer matches Some(Err(error))
        &&& exists|k: int|
            {
                &&& 0 <= k < handles.len()
                &&& has_failed(board, #[trigger] handles[k])
                &&& forall|i: int| 0 <= i < k ==> !has_failed(board, #[trigger] handles[i])
                &&& error@ == ErrorView::Wal("WAL flush failed: "@ + failure(board, handles[k]))
            }
    } else if elapsed_ns >= timeout_ns {
        answer matches Some(Err(error)) && error@ == ErrorView::Wal(waited_too_long(elapsed_ns))
    } else {
        answer is None
    }
}

proof fn lemma_first_failure(
    board: Map<u64, CompletionView>,
    handles: Seq<CompletionHandle>,
    k: int,
) -> (first: int)
    requires
        0 <= k < handles.len(),
        has_failed(board, handles[k]),
    ensures
        0 <= first <= k,
        has_failed(board, handles[first]),
        forall|i: int| 0 <= i < first ==> !has_failed(board, #[trigger] handles[i]),
    decreases k,
{
    if exists|i: int| 0 <= i < k && has_failed(board, #[trigger] handles[i]) {
        let i = choose|i: int| 0 <= i < k && has_failed(board, #[trigger] handles[i]);
        lemma_first_failure(board, handles, i)
    } else {
        k
    }
}

proof fn lemma_answers_batch(
    answer: Option<Result<(), Error>>,
    board: Map<u64, CompletionView>,
    handles: Seq<CompletionHandle>,
    elapsed_ns: u64,
    timeout_ns: u64,
)
    requires
        answers_batch(answer, board, handles, elapsed_ns, timeout_ns),
    ensures
        is_told_of_all(answer, board, handles, elapsed_ns, timeout_ns),
{
    if exists|i: int| 0 <= i < handles.len() && has_failed(board, #[trigger] handles[i]) {
        let i = choose|i: int| 0 <= i < handles.len() && has_failed(board, #[trigger] handles[i]);
        assert(!is_durable(board, handles[i]));
        let k = lemma_first_failure(board, handles, i);
        assert(fails_first_at(board, handles, k));
    }
    if exists|k: int| fails_first_at(board, handles, k) {
        let k = choose|k: int| fails_first_at(board, handles, k);
        assert(has_failed(board, handles[k]));
    }
    if all_durable(board, handles) {
        assert forall|i: int| 0 <= i < handles.len() implies is_durable(
            board,
            #[trigger] handles[i],
        ) by {}
    } else if forall|i: int| 0 <= i < handles.len() ==> is_durable(board, #[trigger] handles[i]) {
        assert forall|i: int| 0 <= i < handles.len() implies seen_on(
            board,
            (#[trigger] handles[i]).0,
        ).state == CompletionState::Complete by {
            assert(is_durable(board, handles[i]));
        }
    }
}

/// The waiter for a whole batch is told of all of its entries, in the log and,
/// after two minutes at most, in the system. Nobody waits any more once it was.
pub proof fn lemma_batch_waiter_is_told(
    wal: &mut ConcurrentWal,
    handles: &Vec<CompletionHandle>,
    elapsed_ns: u64,
    timeout_ns: u64,
    answer: Option<Result<(), Error>>,
    system: &mut ConcurrentWalSystem,
    told: Option<Result<(), Error>>,
)
    requires
        call_ensures(
            ConcurrentWal::wait_all_durable,
            (wal, handles, elapsed_ns, timeout_ns),
            answer,
        ),
        call_ensures(
            ConcurrentWalSystem::wait_batch_flushed,
            (system, handles, elapsed_ns),
            told,
        ),
    ensures
        is_told_of_all(answer, old(wal)@.completions, handles@, elapsed_ns, timeout_ns),
        answer is None ==> final(wal)@ == old(wal)@,
        answer is Some ==> drops_waiters(
            old(wal)@.completions,
            final(wal)@.completions,
            handles@,
        ) && final(wal)@ == (WalView { completions: final(wal)@.completions, ..old(wal)@ }),
        is_told_of_all(
            told,
            old(system)@.wal.completions,
            handles@,
            elapsed_ns,
            120_000_000_000,
        ),
        told is None ==> final(system)@ == old(system)@,
        told is Some ==> drops_waiters(
            old(system)@.wal.completions,
            final(system)@.wal.completions,
            handles@,
        ) && final(system)@ == (SystemView {
            wal: WalView { completions: final(system)@.wal.completions, ..old(system)@.wal },
            ..old(system)@
        }),
{
    lemma_answers_batch(answer, old(wal)@.completions, handles@, elapsed_ns, timeout_ns);
    lemma_answers_batch(
        told,
        old(system)@.wal.completions,
        handles@,
        elapsed_ns,
        120_000_000_000,
    );
}

/// A synchronous batch whose flush failed has failed, says so with the cause,
/// and nobody waits for it any more. One whose flush succeeded goes on to its
/// wait.
pub proof fn lemma_sync_batch_outcome_is_reported(
    system: &mut ConcurrentWalSystem,
    handles: &Vec<CompletionHandle>,
    request: FlushRequest,
    written: Result<(), Error>,
    result: Result<(), Error>,
    cause: String,
)
    requires
        call_ensures(
            ConcurrentWalSystem::finish_sync_batch,
            (system, handles, request, written),
            result,
        ),
        written matches Err(error) ==> call_ensures(Error::message, (&error,), cause),
    ensures
        result is Ok <==> written is Ok,
        result matches Err(error) ==> error@ == ErrorView::Wal(
            "Failed to flush batch after drain: "@ + cause@,
        ),
        written is Ok ==> writes_are_settled(
            old(system)@,
            final(system)@,
            request.entries@,
            true,
        ),
        written is Err ==> exists|board: Map<u64, CompletionView>|
            {
                &&& #[trigger] settles(
                    old(system)@.wal.completions,
                    board,
                    request.entries@,
                    false,
                )
                &&& drops_waiters(board, final(system)@.wal.completions, handles@)
            },
        written is Err ==> final(system)@ == (SystemView {
            wal: WalView { completions: final(system)@.wal.completions, ..old(system)@.wal },
            ..old(system)@
        }),
{
    lemma_writes_are_settled(old(system)@, request.entries@, written is Ok);
    if written is Err {
        let board = old(system)@.settled(request.entries@, false).wal.completions;
        assert(settles(old(system)@.wal.completions, board, request.entries@, false));
    }
}

/// Reports of the log on entries reach the waiters of these entries and nobody
/// else, and change nothing else.
pub proof fn lemma_log_reports_reach_the_waiters(
    done: &mut ConcurrentWal,
    lost: &mut ConcurrentWal,
    failed: &mut ConcurrentWal,
    entries: Vec<PendingEntry>,
    why: &str,
    ticket: u64,
)
    requires
        call_ensures(ConcurrentWal::complete_entries, (done, &entries), ()),
        call_ensures(ConcurrentWal::discard_entries, (lost, entries), ()),
        call_ensures(ConcurrentWal::fail_entries, (failed, &entries, why), ()),
    ensures
        settles(old(done)@.completions, final(done)@.completions, entries@, true),
        final(done)@ == (WalView { completions: final(done)@.completions, ..old(done)@ }),
        settles(old(lost)@.completions, final(lost)@.completions, entries@, false),
        final(lost)@ == (WalView { completions: final(lost)@.completions, ..old(lost)@ }),
        final(failed)@.completions.contains_key(ticket) == old(failed)@.completions.contains_key(
            ticket,
        ),
        old(failed)@.completions.contains_key(ticket) && waited_for(entries@, ticket) ==> {
            &&& final(failed)@.completions[ticket].state == CompletionState::Error
            &&& final(failed)@.completions[ticket].error == Some(why@)
        },
        old(failed)@.completions.contains_key(ticket) && !waited_for(entries@, ticket)
            ==> final(failed)@.completions[ticket] == old(failed)@.completions[ticket],
        final(failed)@ == (WalView { completions: final(failed)@.completions, ..old(failed)@ }),
{
    lemma_settles(old(done)@.completions, entries@);
    lemma_settles(old(lost)@.completions, entries@);
    lemma_one_by_one(old(failed)@.completions, entries@, why@, ticket);
}

/// A waiter that is dropped is gone, and all others stay.
pub proof fn lemma_log_drops_waiters(
    wal: &mut ConcurrentWal,
    handle: CompletionHandle,
    many: &mut ConcurrentWal,
    handles: &Vec<CompletionHandle>,
)
    requires
        call_ensures(ConcurrentWal::forget, (wal, handle), ()),
        call_ensures(ConcurrentWal::forget_all, (many, handles), ()),
    ensures
        drops_waiters(old(wal)@.completions, final(wal)@.completions, seq![handle]),
        final(wal)@ == (WalView { completions: final(wal)@.completions, ..old(wal)@ }),
        drops_waiters(old(many)@.completions, final(many)@.completions, handles@),
        final(many)@ == (WalView { completions: final(many)@.completions, ..old(many)@ }),
{
    assert(seq![handle][0] == handle);
    assert(seq![handle].contains(handle));
}

} // verus!
