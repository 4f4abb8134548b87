//! What the waiter for an entry is told.

use vstd::prelude::*;

use crate::completion::{
    CompletionBoard, CompletionHandle, CompletionNotifier, CompletionState, CompletionView,
};
use crate::entry::{
    all_completed, all_discarded, all_failed, complete_all, discard_all, fail_all, PendingEntry,
};
use crate::lsn::LSN;
use crate::text::duration_text;

verus! {

broadcast use crate::power::lemma_wrap_near;

/// A new notifier has no answer; one that was told of success answers with
/// success, and one that was told of an error answers with that error.
pub proof fn lemma_notifier_answers_what_it_was_told(
    fresh: CompletionNotifier,
    good: &mut CompletionNotifier,
    bad: &mut CompletionNotifier,
    why: &str,
    before: Option<Result<(), String>>,
    success: Option<Result<(), String>>,
    error: Option<Result<(), String>>,
)
    requires
        call_ensures(CompletionNotifier::new, (), fresh),
        call_ensures(CompletionNotifier::wait, (&fresh,), before),
        call_ensures(CompletionNotifier::notify_success, (good,), ()),
        call_ensures(CompletionNotifier::wait, (&*final(good),), success),
        call_ensures(CompletionNotifier::notify_error, (bad, why), ()),
        call_ensures(CompletionNotifier::wait, (&*final(bad),), error),
    ensures
        before is None,
        success matches Some(Ok(_)),
        error matches Some(Err(text)) && text@ == why@,
{
}

/// A wait with a timeout answers as the wait without one while there is an
/// answer, or time left, and with an error once the time is up.
pub proof fn lemma_timeout_only_ends_an_unanswered_wait(
    notifier: CompletionNotifier,
    elapsed_ns: u64,
    timeout_ns: u64,
    timed: Option<Result<(), String>>,
    answer: Option<Result<(), String>>,
    complete: bool,
)
    requires
        call_ensures(
            CompletionNotifier::wait_timeout,
            (&notifier, elapsed_ns, timeout_ns),
            timed,
        ),
        call_ensures(CompletionNotifier::wait, (&notifier,), answer),
        call_ensures(CompletionNotifier::is_complete, (&notifier,), complete),
    ensures
        complete <==> answer is Some,
        answer matches Some(Ok(_)) ==> timed matches Some(Ok(_)),
        answer matches Some(Err(text)) ==> (timed matches Some(Err(told)) && told@ == text@),
        answer is None && elapsed_ns < timeout_ns ==> timed is None,
        answer is None && elapsed_ns >= timeout_ns ==> (timed matches Some(Err(text)) && text@
            == "Completion wait timed out after "@ + duration_text(elapsed_ns)
            + "; durability status UNKNOWN: the entry was appended and the background flusher may still make it durable (see Issue #3799)"@),
{
}

/// The holder of a handle waits with a timeout as the notifier does.
pub proof fn lemma_handle_waits_with_a_timeout(
    board: &CompletionBoard,
    handle: CompletionHandle,
    elapsed_ns: u64,
    timeout_ns: u64,
    timed: Option<Result<(), String>>,
    answer: Option<Result<(), String>>,
)
    requires
        call_ensures(
            CompletionHandle::wait_timeout,
            (handle, board, elapsed_ns, timeout_ns),
            timed,
        ),
        call_ensures(CompletionHandle::wait, (handle, board), answer),
    ensures
        answer matches Some(Ok(_)) ==> timed matches Some(Ok(_)),
        answer matches Some(Err(text)) ==> (timed matches Some(Err(told)) && told@ == text@),
        answer is None && elapsed_ns < timeout_ns ==> timed is None,
        answer is None && elapsed_ns >= timeout_ns ==> (timed matches Some(Err(text)) && text@
            == "Completion wait timed out after "@ + duration_text(elapsed_ns)
            + "; durability status UNKNOWN: the entry was appended and the background flusher may still make it durable (see Issue #3799)"@),
{
}

/// A new board has no waiters, and its first ticket is 0; it says which ticket
/// comes next.
pub proof fn lemma_new_board_is_empty(
    board: CompletionBoard,
    ticket: u64,
    next: u64,
    registering: &mut CompletionBoard,
    handle: CompletionHandle,
)
    requires
        call_ensures(CompletionBoard::new, (), board),
        call_ensures(CompletionBoard::upcoming, (&board,), next),
        *old(registering) == board,
        call_ensures(CompletionBoard::register, (registering,), handle),
    ensures
        !board@.contains_key(ticket),
        next == 0,
        handle.0 == next,
{
}

/// The same for the holder of a handle: success and errors reach the waiter
/// whose ticket they name, with their text, and nobody else.
pub proof fn lemma_handle_is_told_of_its_own_entry(
    board: &mut CompletionBoard,
    ticket: u64,
    handle: CompletionHandle,
    why: &str,
    failed: &mut CompletionBoard,
    success: Option<Result<(), String>>,
    error: Option<Result<(), String>>,
    complete: bool,
)
    requires
        call_ensures(CompletionBoard::notify_success, (board, ticket), ()),
        call_ensures(CompletionBoard::notify_error, (failed, ticket, why), ()),
        *old(failed) == *old(board),
        call_ensures(CompletionHandle::wait, (handle, &*final(board)), success),
        call_ensures(CompletionHandle::wait, (handle, &*final(failed)), error),
        call_ensures(CompletionHandle::is_complete, (&handle, &*final(board)), complete),
    ensures
        complete <==> success is Some,
        handle.0 == ticket && old(board)@.contains_key(ticket) ==> success matches Some(Ok(_)),
        handle.0 == ticket && old(board)@.contains_key(ticket) ==> (error matches Some(Err(text))
            && text@ == why@),
        handle.0 != ticket ==> final(board)@.contains_key(handle.0) == old(board)@.contains_key(
            handle.0,
        ),
        handle.0 != ticket && old(board)@.contains_key(handle.0) ==> final(board)@[handle.0]
            == old(board)@[handle.0] && final(failed)@[handle.0] == old(board)@[handle.0],
        !old(board)@.contains_key(ticket) ==> final(board)@ == old(board)@ && final(failed)@
            == old(board)@,
{
}

/// A waiter whose record was dropped is not left hanging: it is told of an
/// error without a cause.
pub proof fn lemma_forgotten_waiter_does_not_hang(
    board: &mut CompletionBoard,
    handle: CompletionHandle,
    other: CompletionHandle,
    answer: Option<Result<(), String>>,
    complete: bool,
)
    requires
        call_ensures(CompletionBoard::forget, (board, handle), ()),
        call_ensures(CompletionHandle::wait, (handle, &*final(board)), answer),
        call_ensures(CompletionBoard::is_complete, (&*final(board), handle.0), complete),
    ensures
        complete,
        answer matches Some(Err(text)) && text@ == "Unknown error"@,
        other != handle ==> final(board)@.contains_key(other.0) == old(board)@.contains_key(
            other.0,
        ),
        other != handle && old(board)@.contains_key(other.0) ==> final(board)@[other.0]
            == old(board)@[other.0],
{
}

/// A waiter that registers waits until it is answered, and leaves all others
/// alone. Two waiters never get the same handle while there are tickets left.
pub proof fn lemma_new_waiter_waits(
    board: &mut CompletionBoard,
    handle: CompletionHandle,
    again: &mut CompletionBoard,
    second: CompletionHandle,
    answer: Option<Result<(), String>>,
    other: u64,
)
    requires
        call_ensures(CompletionBoard::register, (board,), handle),
        *old(again) == *final(board),
        call_ensures(CompletionBoard::register, (again,), second),
        call_ensures(CompletionHandle::wait, (handle, &*final(again)), answer),
    ensures
        answer is None,
        handle != second,
        final(again)@.contains_key(handle.0),
        other != handle.0 ==> final(board)@.contains_key(other) == old(board)@.contains_key(other),
        other != handle.0 && old(board)@.contains_key(other) ==> final(board)@[other]
            == old(board)@[other],
{
}

/// An entry for which nobody waits has no handle; one for which somebody waits
/// has the handle that the waiter gets, and the waiter has no answer yet.
pub proof fn lemma_entry_and_waiter_share_a_handle(
    lsn: LSN,
    data: Vec<u8>,
    alone: PendingEntry,
    board: &mut CompletionBoard,
    made: (PendingEntry, CompletionHandle),
    answer: Option<Result<(), String>>,
)
    requires
        call_ensures(PendingEntry::new_async, (lsn, data), alone),
        call_ensures(PendingEntry::new_sync, (lsn, data, board), made),
        call_ensures(CompletionHandle::wait, (made.1, &*final(board)), answer),
    ensures
        alone.lsn == lsn && alone.data == data && alone.completion is None,
        made.0.lsn == lsn && made.0.data == data,
        made.0.completion == Some(made.1),
        answer is None,
{
}

/// An entry that is reported durable answers its own waiter with success, one
/// that is reported failed with the error, and one that is thrown away with an
/// error unless there was an answer already. Other waiters are not concerned.
pub proof fn lemma_entry_answers_its_waiter(
    entry: PendingEntry,
    handle: CompletionHandle,
    why: &str,
    done: &mut CompletionBoard,
    failed: &mut CompletionBoard,
    lost: &mut CompletionBoard,
    success: Option<Result<(), String>>,
    error: Option<Result<(), String>>,
    dropped: Option<Result<(), String>>,
    other: u64,
)
    requires
        entry.completion == Some(handle),
        old(done)@.contains_key(handle.0),
        *old(failed) == *old(done),
        *old(lost) == *old(done),
        call_ensures(PendingEntry::notify_completion, (&entry, done), ()),
        call_ensures(PendingEntry::notify_error, (&entry, failed, why), ()),
        call_ensures(PendingEntry::discard, (entry, lost), ()),
        call_ensures(CompletionHandle::wait, (handle, &*final(done)), success),
        call_ensures(CompletionHandle::wait, (handle, &*final(failed)), error),
        call_ensures(CompletionHandle::wait, (handle, &*final(lost)), dropped),
    ensures
        success matches Some(Ok(_)),
        error matches Some(Err(text)) && text@ == why@,
        old(done)@[handle.0].state == CompletionState::Pending ==> (dropped matches Some(Err(text))
            && text@ == "PendingEntry dropped before flush"@),
        old(done)@[handle.0].state != CompletionState::Pending ==> final(lost)@ == old(done)@,
        other != handle.0 && old(done)@.contains_key(other) ==> {
            &&& final(done)@.contains_key(other) && final(done)@[other] == old(done)@[other]
            &&& final(failed)@.contains_key(other) && final(failed)@[other] == old(done)@[other]
            &&& final(lost)@.contains_key(other) && final(lost)@[other] == old(done)@[other]
        },
{
}

/// An entry for which nobody waits answers nobody.
pub proof fn lemma_entry_without_waiter_answers_nobody(
    entry: PendingEntry,
    why: &str,
    done: &mut CompletionBoard,
    failed: &mut CompletionBoard,
    lost: &mut CompletionBoard,
)
    requires
        entry.completion is None,
        call_ensures(PendingEntry::notify_completion, (&entry, done), ()),
        call_ensures(PendingEntry::notify_error, (&entry, failed, why), ()),
        call_ensures(PendingEntry::discard, (entry, lost), ()),
    ensures
        final(done)@ == old(done)@,
        final(failed)@ == old(failed)@,
        final(lost)@ == old(lost)@,
{
}

/// Whether somebody waits for one of `entries` with `ticket`.
pub open spec fn waited_for(entries: Seq<PendingEntry>, ticket: u64) -> bool {
    exists|i: int|
        0 <= i < entries.len() && (#[trigger] entries[i]).completion == Some(
            CompletionHandle(ticket),
        )
}

/// Whether `after` is `before` once the waiters of `entries`, and nobody else,
/// were told how the writing of these went.
pub open spec fn settles(
    before: Map<u64, CompletionView>,
    after: Map<u64, CompletionView>,
    entries: Seq<PendingEntry>,
    written: bool,
) -> bool {
    forall|ticket: u64|
        #![trigger after.contains_key(ticket)]
        #![trigger before.contains_key(ticket)]
        #![trigger after[ticket]]
        {
            &&& after.contains_key(ticket) == before.contains_key(ticket)
            &&& before.contains_key(ticket) && !waited_for(entries, ticket) ==> after[ticket]
                == before[ticket]
            &&& before.contains_key(ticket) && waited_for(entries, ticket) && written
                ==> after[ticket].state == CompletionState::Complete
            &&& before.contains_key(ticket) && waited_for(entries, ticket) && !written ==> {
                if before[ticket].state == CompletionState::Pending {
                    after[ticket].state == CompletionState::Error && after[ticket].error
                        == Some("PendingEntry dropped before flush"@)
                } else {
                    after[ticket] == before[ticket]
                }
            }
        }
}

/// Reporting entries as written, or throwing them away, settles them.
pub proof fn lemma_settles(board: Map<u64, CompletionView>, entries: Seq<PendingEntry>)
    ensures
        settles(board, all_completed(board, entries), entries, true),
        settles(board, all_discarded(board, entries), entries, false),
{
    assert forall|ticket: u64| #[trigger] board.contains_key(ticket) implies ({
        let done = all_completed(board, entries);
        let lost = all_discarded(board, entries);
        &&& !waited_for(entries, ticket) ==> done[ticket] == board[ticket] && lost[ticket]
            == board[ticket]
        &&& waited_for(entries, ticket) ==> {
            &&& done[ticket].state == CompletionState::Complete
            &&& board[ticket].state == CompletionState::Pending ==> lost[ticket].state
                == CompletionState::Error && lost[ticket].error == Some(
                "PendingEntry dropped before flush"@,
            )
            &&& board[ticket].state != CompletionState::Pending ==> lost[ticket] == board[ticket]
        }
    }) by {
        lemma_one_by_one(board, entries, Seq::empty(), ticket);
    }
    assert forall|ticket: u64|
        all_completed(board, entries).contains_key(ticket) == board.contains_key(ticket)
            && all_discarded(board, entries).contains_key(ticket) == board.contains_key(
            ticket,
        ) by {
        lemma_one_by_one(board, entries, Seq::empty(), ticket);
    }
}

/// What one waiter is told of many entries.
pub proof fn lemma_one_by_one(
    board: Map<u64, CompletionView>,
    entries: Seq<PendingEntry>,
    text: Seq<char>,
    ticket: u64,
)
    ensures
        ({
            let done = all_completed(board, entries);
            let failed = all_failed(board, entries, text);
            let lost = all_discarded(board, entries);
            &&& done.contains_key(ticket) == board.contains_key(ticket)
            &&& failed.contains_key(ticket) == board.contains_key(ticket)
            &&& lost.contains_key(ticket) == board.contains_key(ticket)
            &&& board.contains_key(ticket) && !waited_for(entries, ticket) ==> done[ticket]
                == board[ticket] && failed[ticket] == board[ticket] && lost[ticket]
                == board[ticket]
            &&& board.contains_key(ticket) && waited_for(entries, ticket) ==> {
                &&& done[ticket].state == CompletionState::Complete
                &&& failed[ticket].state == CompletionState::Error
                &&& failed[ticket].error == Some(text)
                &&& board[ticket].state == CompletionState::Pending ==> lost[ticket].state
                    == CompletionState::Error && lost[ticket].error == Some(
                    "PendingEntry dropped before flush"@,
                )
                &&& board[ticket].state != CompletionState::Pending ==> lost[ticket]
                    == board[ticket]
            }
        }),
    decreases entries.len(),
{
    if entries.len() > 0 {
        let init = entries.drop_last();
        lemma_one_by_one(board, init, text, ticket);
        if entries.last().completion is Some {
            lemma_one_by_one(board, init, text, (entries.last().completion->0).0);
        }
        if waited_for(init, ticket) {
            let i = choose|i: int|
                0 <= i < init.len() && (#[trigger] init[i]).completion == Some(
                    CompletionHandle(ticket),
                );
            assert(entries[i] == init[i]);
        }
        if waited_for(entries, ticket) && !waited_for(init, ticket) {
            let i = choose|i: int|
                0 <= i < entries.len() && (#[trigger] entries[i]).completion == Some(
                    CompletionHandle(ticket),
                );
            if i < init.len() {
                assert(init[i] == entries[i]);
            }
        }
        if entries.last().completion == Some(CompletionHandle(ticket)) {
            assert(entries[entries.len() - 1] == entries.last());
        }
    }
}

/// Reporting many entries at once answers the waiter of each of them, and
/// nobody else: with success, with the error, or, if they are thrown away, with
/// an error unless there was an answer already.
pub proof fn lemma_entries_answer_their_waiters(
    entries: Vec<PendingEntry>,
    why: &str,
    done: &mut CompletionBoard,
    failed: &mut CompletionBoard,
    lost: &mut CompletionBoard,
    ticket: u64,
)
    requires
        *old(failed) == *old(done),
        *old(lost) == *old(done),
        old(done)@.contains_key(ticket),
        call_ensures(complete_all, (&entries, done), ()),
        call_ensures(fail_all, (&entries, failed, why), ()),
        call_ensures(discard_all, (entries, lost), ()),
    ensures
        final(done)@.contains_key(ticket),
        final(failed)@.contains_key(ticket),
        final(lost)@.contains_key(ticket),
        waited_for(entries@, ticket) ==> {
            &&& final(done)@[ticket].state == CompletionState::Complete
            &&& final(failed)@[ticket].state == CompletionState::Error
            &&& final(failed)@[ticket].error == Some(why@)
            &&& final(lost)@[ticket].state != CompletionState::Pending
            &&& old(done)@[ticket].state == CompletionState::Pending
                ==> final(lost)@[ticket].state == CompletionState::Error
        },
        !waited_for(entries@, ticket) ==> {
            &&& final(done)@[ticket] == old(done)@[ticket]
            &&& final(failed)@[ticket] == old(done)@[ticket]
            &&& final(lost)@[ticket] == old(done)@[ticket]
        },
{
    lemma_one_by_one(old(done)@, entries@, why@, ticket);
}

} // verus!
