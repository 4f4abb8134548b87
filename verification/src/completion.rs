//! Completion signalling for entries whose writers wait for durability.

use std::collections::HashMap;
use vstd::prelude::*;

use crate::power::wrap;
use crate::text::{concat3, duration_text, show_duration};

verus! {

broadcast use {crate::power::lemma_wrap_near, vstd::std_specs::hash::group_hash_axioms};

/// Where a waiting entry stands.
#[derive(Debug, Clone, Copy, PartialEq, Eq, Structural)]
pub enum CompletionState {
    /// The entry has not been flushed yet.
    Pending,
    /// The entry has been durably flushed.
    Complete,
    /// The flush failed.
    Error,
}

/// The value of a [`CompletionNotifier`].
pub ghost struct CompletionView {
    pub state: CompletionState,
    pub error: Option<Seq<char>>,
}

/// What a finished wait reports.
pub open spec fn outcome_of(v: CompletionView) -> Result<(), Seq<char>> {
    if v.state == CompletionState::Complete {
        Ok(())
    } else {
        match v.error {
            Some(text) => Err(text),
            None => Err("Unknown error"@),
        }
    }
}

/// The text of a completion wait that ran into its timeout.
pub open spec fn timeout_text(elapsed_ns: u64) -> Seq<char> {
    "Completion wait timed out after "@ + duration_text(elapsed_ns)
        + "; durability status UNKNOWN: the entry was appended and the background flusher may still make it durable (see Issue #3799)"@
}

/// Whether an executable wait result reports `outcome`.
pub open spec fn reports(result: Result<(), String>, outcome: Result<(), Seq<char>>) -> bool {
    match (result, outcome) {
        (Ok(_), Ok(_)) => true,
        (Err(message), Err(text)) => message@ == text,
        _ => false,
    }
}

/// Whether `answer` is what a wait of `elapsed_ns` out of `timeout_ns` gives
/// on a notifier in state `v`: its outcome once it is complete, the timeout
/// error once the time is up, and nothing before that.
pub open spec fn answers_timed_wait(
    answer: Option<Result<(), String>>,
    v: CompletionView,
    elapsed_ns: u64,
    timeout_ns: u64,
) -> bool {
    if v.state != CompletionState::Pending {
        answer matches Some(result) && reports(result, outcome_of(v))
    } else if elapsed_ns >= timeout_ns {
        answer matches Some(Err(message)) && message@ == timeout_text(elapsed_ns)
    } else {
        answer is None
    }
}

/// Notifier for synchronous completion waiting.
///
/// The flush side sets it once the entry's fate is known; the writer polls it
/// and parks between polls.
#[derive(Debug)]
pub struct CompletionNotifier {
    state: CompletionState,
    error: Option<String>,
}

impl View for CompletionNotifier {
    type V = CompletionView;

    closed spec fn view(&self) -> CompletionView {
        CompletionView {
            state: self.state,
            error: match self.error {
                Some(text) => Some(text@),
                None => None,
            },
        }
    }
}

/// A notifier that nobody has signalled.
pub open spec fn pending_completion() -> CompletionView {
    CompletionView { state: CompletionState::Pending, error: None }
}

impl CompletionNotifier {
    /// Create a new completion notifier in pending state.
    pub fn new() -> (notifier: Self)
        ensures
            notifier@ == pending_completion(),
    {
        CompletionNotifier { state: CompletionState::Pending, error: None }
    }

    /// Whether completion has been signalled.
    pub fn is_complete(&self) -> (complete: bool)
        ensures
            complete == (self@.state != CompletionState::Pending),
    {
        self.state != CompletionState::Pending
    }

    /// Signal successful completion.
    pub fn notify_success(&mut self)
        ensures
            final(self)@ == (CompletionView { state: CompletionState::Complete, ..old(self)@ }),
    {
        self.state = CompletionState::Complete;
    }

    /// Signal completion with an error.
    pub fn notify_error(&mut self, error: &str)
        ensures
            final(self)@ == (CompletionView {
                state: CompletionState::Error,
                error: Some(error@),
            }),
    {
        self.error = Some(error.to_string());
        self.state = CompletionState::Error;
    }

    /// The final outcome of a signalled notifier.
    fn outcome(&self) -> (result: Result<(), String>)
        ensures
            reports(result, outcome_of(self@)),
    {
        if self.state == CompletionState::Complete {
            Ok(())
        } else {
            match &self.error {
                Some(text) => Err(text.clone()),
                None => Err("Unknown error".to_string()),
            }
        }
    }

    /// One turn of waiting for completion: the outcome once it is known, and
    /// `None` while the caller has to park.
    pub fn wait(&self) -> (answer: Option<Result<(), String>>)
        ensures
            answer is None <==> self@.state == CompletionState::Pending,
            answer matches Some(result) ==> reports(result, outcome_of(self@)),
    {
        if self.is_complete() {
            Some(self.outcome())
        } else {
            None
        }
    }

    /// One turn of waiting for completion with a timeout. A completion always
    /// beats the timeout.
    ///
    /// On timeout the error discloses that durability is unknown: the entry
    /// was appended, so the flusher may still make it durable.
    pub fn wait_timeout(&self, elapsed_ns: u64, timeout_ns: u64) -> (answer: Option<
        Result<(), String>,
    >)
        ensures
            answers_timed_wait(answer, self@, elapsed_ns, timeout_ns),
    {
        if self.is_complete() {
            Some(self.outcome())
        } else if elapsed_ns >= timeout_ns {
            let shown = show_duration(elapsed_ns);
            Some(
                Err(
                    concat3(
                        "Completion wait timed out after ",
                        shown.as_str(),
                        "; durability status UNKNOWN: the entry was appended and the background flusher may still make it durable (see Issue #3799)",
                    ),
                ),
            )
        } else {
            None
        }
    }
}

impl Default for CompletionNotifier {
    fn default() -> (notifier: Self)
        ensures
            notifier@ == pending_completion(),
    {
        Self::new()
    }
}

/// The notifiers of all entries that somebody waits for, by ticket.
///
/// An entry and the handle of its writer meet here: both name the ticket, which
/// no other entry gets.
pub struct CompletionBoard {
    notifiers: HashMap<u64, CompletionNotifier>,
    next: u64,
}

impl View for CompletionBoard {
    type V = Map<u64, CompletionView>;

    closed spec fn view(&self) -> Map<u64, CompletionView> {
        Map::new(
            |ticket: u64| self.notifiers@.contains_key(ticket),
            |ticket: u64| self.notifiers@[ticket]@,
        )
    }
}

/// The completion state that the waiter with `ticket` sees. A waiter whose record is
/// gone sees an error without a text rather than waiting forever.
pub open spec fn seen_on(board: Map<u64, CompletionView>, ticket: u64) -> CompletionView {
    if board.contains_key(ticket) {
        board[ticket]
    } else {
        CompletionView { state: CompletionState::Error, error: None }
    }
}

/// `board` after the entry with `ticket` was reported durable.
pub open spec fn with_success(board: Map<u64, CompletionView>, ticket: u64) -> Map<
    u64,
    CompletionView,
> {
    if board.contains_key(ticket) {
        board.insert(ticket, CompletionView { state: CompletionState::Complete, ..board[ticket] })
    } else {
        board
    }
}

/// `board` after the entry with `ticket` was reported failed.
pub open spec fn with_error(
    board: Map<u64, CompletionView>,
    ticket: u64,
    text: Seq<char>,
) -> Map<u64, CompletionView> {
    if board.contains_key(ticket) {
        board.insert(ticket, CompletionView { state: CompletionState::Error, error: Some(text) })
    } else {
        board
    }
}

impl CompletionBoard {
    /// The ticket that is handed out next.
    pub closed spec fn next_ticket(&self) -> u64 {
        self.next
    }

    /// A board on which nobody waits.
    pub fn new() -> (board: Self)
        ensures
            board@ == Map::<u64, CompletionView>::empty(),
            board.next_ticket() == 0,
    {
        let board = CompletionBoard { notifiers: HashMap::new(), next: 0 };
        assert(board@ =~= Map::<u64, CompletionView>::empty());
        board
    }

    /// The ticket that the next waiter gets.
    pub fn upcoming(&self) -> (ticket: u64)
        ensures
            ticket == self.next_ticket(),
    {
        self.next
    }

    /// Register a waiter, under a ticket of its own.
    pub fn register(&mut self) -> (handle: CompletionHandle)
        ensures
            handle == CompletionHandle(old(self).next_ticket()),
            final(self)@ == old(self)@.insert(handle.0, pending_completion()),
            final(self).next_ticket() == wrap(old(self).next_ticket() + 1),
    {
        let ticket: u64 = self.next;
        self.next = ticket.wrapping_add(1);
        self.notifiers.insert(ticket, CompletionNotifier::new());
        assert(self@ =~= old(self)@.insert(ticket, pending_completion()));
        CompletionHandle(ticket)
    }

    /// Drop the record of a waiter that is no longer interested.
    pub fn forget(&mut self, handle: CompletionHandle)
        ensures
            final(self)@ == old(self)@.remove(handle.0),
            final(self).next_ticket() == old(self).next_ticket(),
    {
        self.notifiers.remove(&handle.0);
        assert(self@ =~= old(self)@.remove(handle.0));
    }

    /// Whether the waiter with `ticket` has been answered.
    pub fn is_complete(&self, ticket: u64) -> (complete: bool)
        ensures
            complete == (seen_on(self@, ticket).state != CompletionState::Pending),
    {
        match self.notifiers.get(&ticket) {
            Some(notifier) => notifier.is_complete(),
            None => true,
        }
    }

    /// Report the entry with `ticket` durable.
    pub fn notify_success(&mut self, ticket: u64)
        ensures
            final(self)@ == with_success(old(self)@, ticket),
            final(self).next_ticket() == old(self).next_ticket(),
    {
        match self.notifiers.remove(&ticket) {
            Some(mut notifier) => {
                notifier.notify_success();
                self.notifiers.insert(ticket, notifier);
            },
            None => {},
        }
        assert(self@ =~= with_success(old(self)@, ticket));
    }

    /// Report the entry with `ticket` failed.
    pub fn notify_error(&mut self, ticket: u64, error: &str)
        ensures
            final(self)@ == with_error(old(self)@, ticket, error@),
            final(self).next_ticket() == old(self).next_ticket(),
    {
        match self.notifiers.remove(&ticket) {
            Some(mut notifier) => {
                notifier.notify_error(error);
                self.notifiers.insert(ticket, notifier);
            },
            None => {},
        }
        assert(self@ =~= with_error(old(self)@, ticket, error@));
    }
}

/// Handle for waiting on completion: the ticket of the awaited entry.
#[derive(Debug, Clone, Copy, PartialEq, Eq, Structural)]
pub struct CompletionHandle(pub u64);

impl CompletionHandle {
    /// One turn of waiting for the entry to be durably flushed.
    pub fn wait(self, board: &CompletionBoard) -> (answer: Option<Result<(), String>>)
        ensures
            answer is None <==> seen_on(board@, self.0).state == CompletionState::Pending,
            answer matches Some(result) ==> reports(result, outcome_of(seen_on(board@, self.0))),
    {
        match board.notifiers.get(&self.0) {
            Some(notifier) => notifier.wait(),
            None => Some(Err("Unknown error".to_string())),
        }
    }

    /// One turn of waiting for the entry to be durably flushed, with a timeout.
    pub fn wait_timeout(self, board: &CompletionBoard, elapsed_ns: u64, timeout_ns: u64) -> (answer:
        Option<Result<(), String>>)
        ensures
            answers_timed_wait(answer, seen_on(board@, self.0), elapsed_ns, timeout_ns),
    {
        match board.notifiers.get(&self.0) {
            Some(notifier) => notifier.wait_timeout(elapsed_ns, timeout_ns),
            None => Some(Err("Unknown error".to_string())),
        }
    }

    /// Whether completion has been signalled.
    pub fn is_complete(&self, board: &CompletionBoard) -> (complete: bool)
        ensures
            complete == (seen_on(board@, self.0).state != CompletionState::Pending),
    {
        board.is_complete(self.0)
    }
}

/// Each handle is answered on its own: registering another waiter leaves what
/// the holder of an earlier handle sees as it is, whether it was answered,
/// still waits, or was forgotten. This holds until the tickets are used up.
pub proof fn lemma_registering_leaves_others_alone(
    board: Map<u64, CompletionView>,
    next: u64,
    earlier: CompletionHandle,
)
    requires
        earlier.0 < next,
    ensures
        seen_on(board.insert(next, pending_completion()), earlier.0) == seen_on(board, earlier.0),
{
}

/// An answer reaches its own waiter and nobody else.
pub proof fn lemma_answers_reach_their_own_waiter(
    board: Map<u64, CompletionView>,
    ticket: u64,
    text: Seq<char>,
    other: u64,
)
    requires
        board.contains_key(ticket),
    ensures
        outcome_of(seen_on(with_success(board, ticket), ticket)) == Ok::<(), Seq<char>>(()),
        outcome_of(seen_on(with_error(board, ticket, text), ticket)) == Err::<(), Seq<char>>(text),
        other != ticket ==> seen_on(with_success(board, ticket), other) == seen_on(board, other),
        other != ticket ==> seen_on(with_error(board, ticket, text), other) == seen_on(
            board,
            other,
        ),
{
}

} // verus!
