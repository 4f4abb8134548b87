//! Entries on their way to the log.

use vstd::prelude::*;

use crate::completion::{
    seen_on, with_error, with_success, CompletionBoard, CompletionHandle, CompletionState,
    CompletionView, pending_completion,
};
use crate::lsn::LSN;
use crate::power::wrap;

verus! {

/// A pending WAL entry waiting to be flushed to disk.
#[derive(Debug)]
pub struct PendingEntry {
    /// Pre-allocated LSN from the global allocator.
    pub lsn: LSN,
    /// Pre-serialized entry data.
    pub data: Vec<u8>,
    /// The handle of the writer that waits for this entry, in sync mode.
    pub completion: Option<CompletionHandle>,
}

/// `board` after `entry` was reported durable.
pub open spec fn completed(board: Map<u64, CompletionView>, entry: PendingEntry) -> Map<
    u64,
    CompletionView,
> {
    match entry.completion {
        Some(handle) => with_success(board, handle.0),
        None => board,
    }
}

/// `board` after `entry` was reported failed.
pub open spec fn failed(
    board: Map<u64, CompletionView>,
    entry: PendingEntry,
    text: Seq<char>,
) -> Map<u64, CompletionView> {
    match entry.completion {
        Some(handle) => with_error(board, handle.0, text),
        None => board,
    }
}

/// `board` after `entry` was thrown away: a writer that was not answered yet
/// is told so.
pub open spec fn discarded(board: Map<u64, CompletionView>, entry: PendingEntry) -> Map<
    u64,
    CompletionView,
> {
    match entry.completion {
        Some(handle) => if seen_on(board, handle.0).state == CompletionState::Pending {
            with_error(board, handle.0, "PendingEntry dropped before flush"@)
        } else {
            board
        },
        None => board,
    }
}

impl PendingEntry {
    /// Create a new pending entry for async mode (nobody waits for it).
    pub fn new_async(lsn: LSN, data: Vec<u8>) -> (entry: Self)
        ensures
            entry == (PendingEntry { lsn, data, completion: None }),
    {
        PendingEntry { lsn, data, completion: None }
    }

    /// Create a new pending entry for sync mode, with the handle of its waiter.
    pub fn new_sync(lsn: LSN, data: Vec<u8>, board: &mut CompletionBoard) -> (made: (
        Self,
        CompletionHandle,
    ))
        ensures
            made.1 == CompletionHandle(old(board).next_ticket()),
            made.0 == (PendingEntry { lsn, data, completion: Some(made.1) }),
            final(board)@ == old(board)@.insert(made.1.0, pending_completion()),
            final(board).next_ticket() == wrap(old(board).next_ticket() + 1),
    {
        let handle = board.register();
        (PendingEntry { lsn, data, completion: Some(handle) }, handle)
    }

    /// Tell the waiter, if there is one, that the entry is durable.
    pub fn notify_completion(&self, board: &mut CompletionBoard)
        ensures
            final(board)@ == completed(old(board)@, *self),
            final(board).next_ticket() == old(board).next_ticket(),
    {
        match self.completion {
            Some(handle) => board.notify_success(handle.0),
            None => {},
        }
    }

    /// Tell the waiter, if there is one, that the entry failed.
    pub fn notify_error(&self, board: &mut CompletionBoard, error: &str)
        ensures
            final(board)@ == failed(old(board)@, *self, error@),
            final(board).next_ticket() == old(board).next_ticket(),
    {
        match self.completion {
            Some(handle) => board.notify_error(handle.0, error),
            None => {},
        }
    }

    /// Throw the entry away. A waiter that was not answered yet gets an error,
    /// so that it never hangs on an entry that nobody will flush.
    pub fn discard(self, board: &mut CompletionBoard)
        ensures
            final(board)@ == discarded(old(board)@, self),
            final(board).next_ticket() == old(board).next_ticket(),
    {
        match self.completion {
            Some(handle) => {
                if !board.is_complete(handle.0) {
                    board.notify_error(handle.0, "PendingEntry dropped before flush");
                }
            },
            None => {},
        }
    }
}

/// `board` after all of `entries` were reported durable, in order.
pub open spec fn all_completed(
    board: Map<u64, CompletionView>,
    entries: Seq<PendingEntry>,
) -> Map<u64, CompletionView>
    decreases entries.len(),
{
    if entries.len() == 0 {
        board
    } else {
        completed(all_completed(board, entries.drop_last()), entries.last())
    }
}

/// `board` after all of `entries` were thrown away, in order.
pub open spec fn all_discarded(
    board: Map<u64, CompletionView>,
    entries: Seq<PendingEntry>,
) -> Map<u64, CompletionView>
    decreases entries.len(),
{
    if entries.len() == 0 {
        board
    } else {
        discarded(all_discarded(board, entries.drop_last()), entries.last())
    }
}

/// Report all of `entries` durable.
pub fn complete_all(entries: &Vec<PendingEntry>, board: &mut CompletionBoard)
    ensures
        final(board)@ == all_completed(old(board)@, entries@),
        final(board).next_ticket() == old(board).next_ticket(),
{
    let mut i: usize = 0;
    assert(entries@.take(0) =~= Seq::empty());
    while i < entries.len()
        invariant
            i <= entries.len(),
            board@ == all_completed(old(board)@, entries@.take(i as int)),
            board.next_ticket() == old(board).next_ticket(),
        decreases entries.len() - i,
    {
        entries[i].notify_completion(board);
        i = i + 1;
        assert(entries@.take(i as int).drop_last() =~= entries@.take(i - 1));
    }
    assert(entries@.take(i as int) =~= entries@);
}

/// `board` after all of `entries` were reported failed, in order.
pub open spec fn all_failed(
    board: Map<u64, CompletionView>,
    entries: Seq<PendingEntry>,
    text: Seq<char>,
) -> Map<u64, CompletionView>
    decreases entries.len(),
{
    if entries.len() == 0 {
        board
    } else {
        failed(all_failed(board, entries.drop_last(), text), entries.last(), text)
    }
}

/// Report all of `entries` failed.
pub fn fail_all(entries: &Vec<PendingEntry>, board: &mut CompletionBoard, error: &str)
    ensures
        final(board)@ == all_failed(old(board)@, entries@, error@),
        final(board).next_ticket() == old(board).next_ticket(),
{
    let mut i: usize = 0;
    assert(entries@.take(0) =~= Seq::empty());
    while i < entries.len()
        invariant
            i <= entries.len(),
            board@ == all_failed(old(board)@, entries@.take(i as int), error@),
            board.next_ticket() == old(board).next_ticket(),
        decreases entries.len() - i,
    {
        entries[i].notify_error(board, error);
        i = i + 1;
        assert(entries@.take(i as int).drop_last() =~= entries@.take(i - 1));
    }
    assert(entries@.take(i as int) =~= entries@);
}

/// Throw all of `entries` away.
pub fn discard_all(entries: Vec<PendingEntry>, board: &mut CompletionBoard)
    ensures
        final(board)@ == all_discarded(old(board)@, entries@),
        final(board).next_ticket() == old(board).next_ticket(),
{
    let mut rest = entries;
    let ghost all = entries@;
    let mut reversed: Vec<PendingEntry> = Vec::new();
    while rest.len() > 0
        invariant
            rest@ + reversed@.reverse() =~= all,
        decreases rest.len(),
    {
        match rest.pop() {
            Some(entry) => reversed.push(entry),
            None => {},
        }
    }
    let ghost mut done: Seq<PendingEntry> = Seq::empty();
    assert(reversed@.reverse() =~= all);
    while reversed.len() > 0
        invariant
            done + reversed@.reverse() =~= all,
            board@ == all_discarded(old(board)@, done),
            board.next_ticket() == old(board).next_ticket(),
        decreases reversed.len(),
    {
        match reversed.pop() {
            Some(entry) => {
                proof {
                    assert(done.push(entry).drop_last() =~= done);
                    done = done.push(entry);
                }
                entry.discard(board);
            },
            None => {},
        }
    }
    assert(done =~= all);
}

/// Whether the waiter with `ticket` has an answer.
pub open spec fn is_answered(board: Map<u64, CompletionView>, ticket: u64) -> bool {
    seen_on(board, ticket).state != CompletionState::Pending
}

/// No waiter is left hanging by a flush that succeeded: once its entries were
/// reported durable, every waiter of one of them has an answer, and it is that
/// the entry is durable, if its record is still there.
pub proof fn lemma_completed_entries_are_answered(
    board: Map<u64, CompletionView>,
    entries: Seq<PendingEntry>,
    i: int,
)
    requires
        0 <= i < entries.len(),
        entries[i].completion is Some,
    ensures
        is_answered(all_completed(board, entries), (entries[i].completion->0).0),
        board.contains_key((entries[i].completion->0).0) ==> seen_on(
            all_completed(board, entries),
            (entries[i].completion->0).0,
        ).state == CompletionState::Complete,
    decreases entries.len(),
{
    lemma_completing_keeps_records(board, entries.drop_last());
    if i < entries.len() - 1 {
        assert(entries.drop_last()[i] == entries[i]);
        lemma_completed_entries_are_answered(board, entries.drop_last(), i);
    }
}

/// Reporting entries durable neither adds nor drops the record of a waiter.
proof fn lemma_completing_keeps_records(
    board: Map<u64, CompletionView>,
    entries: Seq<PendingEntry>,
)
    ensures
        all_completed(board, entries).dom() == board.dom(),
    decreases entries.len(),
{
    if entries.len() > 0 {
        lemma_completing_keeps_records(board, entries.drop_last());
        assert(all_completed(board, entries).dom() =~= board.dom());
    }
}

/// Nobody is told that an entry is durable unless it was flushed: a waiter
/// whose answer becomes a success waits for one of the entries that were
/// reported durable.
pub proof fn lemma_only_flushed_entries_are_acknowledged(
    board: Map<u64, CompletionView>,
    entries: Seq<PendingEntry>,
    ticket: u64,
)
    requires
        seen_on(board, ticket).state != CompletionState::Complete,
        seen_on(all_completed(board, entries), ticket).state == CompletionState::Complete,
    ensures
        exists|i: int|
            0 <= i < entries.len() && (#[trigger] entries[i]).completion == Some(
                CompletionHandle(ticket),
            ),
    decreases entries.len(),
{
    let init = entries.drop_last();
    if entries.len() > 0 {
        if seen_on(all_completed(board, init), ticket).state == CompletionState::Complete {
            lemma_only_flushed_entries_are_acknowledged(board, init, ticket);
            let i = choose|i: int|
                0 <= i < init.len() && (#[trigger] init[i]).completion == Some(
                    CompletionHandle(ticket),
                );
            assert(entries[i] == init[i]);
        } else {
            assert(entries[entries.len() - 1].completion == Some(CompletionHandle(ticket)));
        }
    }
}

/// Entries that were thrown away are never reported durable.
pub proof fn lemma_discarding_acknowledges_nobody(
    board: Map<u64, CompletionView>,
    entries: Seq<PendingEntry>,
    ticket: u64,
)
    requires
        seen_on(all_discarded(board, entries), ticket).state == CompletionState::Complete,
    ensures
        seen_on(board, ticket).state == CompletionState::Complete,
    decreases entries.len(),
{
    if entries.len() > 0 {
        lemma_discarding_acknowledges_nobody(board, entries.drop_last(), ticket);
    }
}

/// Entries that were reported failed are never reported durable by that.
pub proof fn lemma_failing_acknowledges_nobody(
    board: Map<u64, CompletionView>,
    entries: Seq<PendingEntry>,
    text: Seq<char>,
    ticket: u64,
)
    requires
        seen_on(all_failed(board, entries, text), ticket).state == CompletionState::Complete,
    ensures
        seen_on(board, ticket).state == CompletionState::Complete,
    decreases entries.len(),
{
    if entries.len() > 0 {
        lemma_failing_acknowledges_nobody(board, entries.drop_last(), text, ticket);
    }
}

/// No waiter is left hanging by a flush that failed: every waiter of one of its
/// entries is told why, if its record is still there.
pub proof fn lemma_failed_entries_are_told(
    board: Map<u64, CompletionView>,
    entries: Seq<PendingEntry>,
    text: Seq<char>,
    i: int,
)
    requires
        0 <= i < entries.len(),
        entries[i].completion is Some,
        board.contains_key((entries[i].completion->0).0),
    ensures
        seen_on(all_failed(board, entries, text), (entries[i].completion->0).0) == (CompletionView {
            state: CompletionState::Error,
            error: Some(text),
        }),
    decreases entries.len(),
{
    lemma_failing_keeps_records(board, entries.drop_last(), text);
    if i < entries.len() - 1 {
        assert(entries.drop_last()[i] == entries[i]);
        lemma_failed_entries_are_told(board, entries.drop_last(), text, i);
    }
}

/// Reporting entries failed neither adds nor drops the record of a waiter.
proof fn lemma_failing_keeps_records(
    board: Map<u64, CompletionView>,
    entries: Seq<PendingEntry>,
    text: Seq<char>,
)
    ensures
        all_failed(board, entries, text).dom() == board.dom(),
    decreases entries.len(),
{
    if entries.len() > 0 {
        lemma_failing_keeps_records(board, entries.drop_last(), text);
        assert(all_failed(board, entries, text).dom() =~= board.dom());
    }
}

/// No waiter is left hanging by entries that were thrown away: every waiter of
/// one of them has an answer.
pub proof fn lemma_discarded_entries_are_answered(
    board: Map<u64, CompletionView>,
    entries: Seq<PendingEntry>,
    i: int,
)
    requires
        0 <= i < entries.len(),
        entries[i].completion is Some,
    ensures
        is_answered(all_discarded(board, entries), (entries[i].completion->0).0),
    decreases entries.len(),
{
    if i < entries.len() - 1 {
        assert(entries.drop_last()[i] == entries[i]);
        lemma_discarded_entries_are_answered(board, entries.drop_last(), i);
    }
}

/// Throwing an entry away never takes an answer back.
pub proof fn lemma_discard_keeps_answers(
    board: Map<u64, CompletionView>,
    entry: PendingEntry,
    ticket: u64,
)
    requires
        is_answered(board, ticket),
    ensures
        seen_on(discarded(board, entry), ticket) == seen_on(board, ticket),
{
}

} // verus!
