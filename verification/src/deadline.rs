//! The bound on how long a blocking append may wait without making progress.

use vstd::prelude::*;

verus! {

/// Why a blocking append gave up without placing its entry.
#[derive(Debug, Clone, Copy, PartialEq, Eq, Structural)]
pub enum AppendBlockedKind {
    /// The buffer was closed; waiting longer would never help.
    Closed,
    /// The caller's deadline elapsed while the buffer stayed full.
    TimedOut {
        /// How long the caller waited before giving up, in nanoseconds.
        waited_ns: u64,
    },
}

/// The value of an [`AppendDeadline`].
pub ghost struct DeadlineView {
    /// How long the call may wait without progress, in milliseconds.
    pub bound_ms: Option<u64>,
    /// When the current stall began, in nanoseconds of a monotonic clock.
    pub armed: Option<u64>,
    /// How many stall windows were opened.
    pub arms: u32,
}

/// When a stall that began at `armed` must be given up, if that instant can be
/// represented at all.
pub open spec fn stall_end(armed: u64, bound_ms: u64) -> Option<u64> {
    if armed + bound_ms * 1_000_000 <= u64::MAX {
        Some((armed + bound_ms * 1_000_000) as u64)
    } else {
        None
    }
}

/// `a - b`, or zero if that is negative.
pub open spec fn since(a: u64, b: u64) -> u64 {
    if a >= b {
        (a - b) as u64
    } else {
        0
    }
}

impl DeadlineView {
    /// The deadline after the caller blocked at `now`: a stall window is opened
    /// unless one is open or there is no bound.
    pub open spec fn armed_by(self, now: u64) -> DeadlineView {
        if self.bound_ms is Some && self.armed is None {
            DeadlineView {
                armed: Some(now),
                arms: crate::power::wrap32(self.arms + 1),
                ..self
            }
        } else {
            self
        }
    }

    /// The instant by which the caller that blocks at `now` must give up.
    pub open spec fn limit_at(self, now: u64) -> Option<u64> {
        match self.bound_ms {
            Some(bound_ms) => stall_end(
                match self.armed {
                    Some(at) => at,
                    None => now,
                },
                bound_ms,
            ),
            None => None,
        }
    }

    /// The deadline after an entry was placed.
    pub open spec fn progressed(self) -> DeadlineView {
        DeadlineView { armed: None, ..self }
    }

    /// How long the current stall has lasted at `now`.
    pub open spec fn waited_at(self, now: u64) -> u64 {
        match self.armed {
            Some(at) => since(now, at),
            None => 0,
        }
    }
}

/// The bound on how long a blocking append may wait **without making
/// progress**.
///
/// - **Lazy**: it is armed only when an append has to wait.
/// - **Shared across a batch**: consecutive blocked entries with no room
///   appearing between them are one stall window.
/// - **Reset by progress**: [`Self::note_progress`] disarms it.
///
/// It is a stall detector and not a cap on total call time: a batch that keeps
/// getting room takes as long as it takes.
#[derive(Debug)]
pub struct AppendDeadline {
    bound_ms: Option<u64>,
    armed: Option<u64>,
    arms: u32,
}

impl View for AppendDeadline {
    type V = DeadlineView;

    closed spec fn view(&self) -> DeadlineView {
        DeadlineView { bound_ms: self.bound_ms, armed: self.armed, arms: self.arms }
    }
}

/// A deadline of `ms` milliseconds that was never armed; 0 means no bound.
pub open spec fn fresh_deadline(ms: u64) -> DeadlineView {
    DeadlineView {
        bound_ms: if ms == 0 {
            None
        } else {
            Some(ms)
        },
        armed: None,
        arms: 0,
    }
}

impl AppendDeadline {
    /// A bound of `ms` milliseconds; `0` means unbounded.
    pub fn from_millis(ms: u64) -> (deadline: Self)
        ensures
            deadline@ == fresh_deadline(ms),
    {
        AppendDeadline {
            bound_ms: if ms != 0 {
                Some(ms)
            } else {
                None
            },
            armed: None,
            arms: 0,
        }
    }

    /// No bound: wait for as long as it takes.
    pub fn unbounded() -> (deadline: Self)
        ensures
            deadline@ == fresh_deadline(0),
    {
        AppendDeadline { bound_ms: None, armed: None, arms: 0 }
    }

    /// A bound that has already run out at `now`.
    pub fn already_elapsed(now: u64) -> (deadline: Self)
        ensures
            deadline@ == (DeadlineView { bound_ms: Some(0), armed: Some(now), arms: 1 }),
    {
        AppendDeadline { bound_ms: Some(0), armed: Some(now), arms: 1 }
    }

    /// Record that the caller placed an entry, ending the current stall window.
    pub fn note_progress(&mut self)
        ensures
            final(self)@ == old(self)@.progressed(),
    {
        self.armed = None;
    }

    /// When the current stall window began, or `None` if the caller is not
    /// stalled.
    pub fn armed_at(&self) -> (at: Option<u64>)
        ensures
            at == self@.armed,
    {
        self.armed
    }

    /// The instant by which this stall must be given up, arming the deadline
    /// on first use.
    ///
    /// `None` for an unbounded deadline, and also for a bound so large that
    /// the instant is not representable: an absurd configured value degrades
    /// to "unbounded" and never fails a writer.
    pub fn limit(&mut self, now: u64) -> (limit: Option<u64>)
        ensures
            final(self)@ == old(self)@.armed_by(now),
            limit == old(self)@.limit_at(now),
    {
        match self.bound_ms {
            Some(bound_ms) => {
                let armed: u64 = match self.armed {
                    Some(at) => at,
                    None => {
                        self.armed = Some(now);
                        self.arms = self.arms.wrapping_add(1);
                        now
                    },
                };
                match bound_ms.checked_mul(1_000_000) {
                    Some(bound_ns) => armed.checked_add(bound_ns),
                    None => None,
                }
            },
            None => None,
        }
    }

    /// How long the current stall has lasted at `now`; zero if there is none.
    pub fn waited(&self, now: u64) -> (waited_ns: u64)
        ensures
            waited_ns == self@.waited_at(now),
    {
        match self.armed {
            Some(at) => now.saturating_sub(at),
            None => 0,
        }
    }

    /// Whether a stall window is currently open.
    pub fn is_armed(&self) -> (armed: bool)
        ensures
            armed == (self@.armed is Some),
    {
        self.armed.is_some()
    }

    /// How many stall windows this deadline has opened.
    pub fn arm_count(&self) -> (count: u32)
        ensures
            count == self@.arms,
    {
        self.arms
    }
}

/// Blocked turns with no progress between them share one stall window: the
/// second one neither opens a window nor moves the instant of giving up.
pub proof fn lemma_one_window_per_stall(d: DeadlineView, first: u64, second: u64)
    ensures
        d.armed_by(first).armed_by(second) == d.armed_by(first),
        d.armed_by(first).limit_at(second) == d.limit_at(first),
{
}

/// Progress starts the bound afresh: the next blocked turn opens a window of
/// its own, which runs from that turn.
pub proof fn lemma_progress_restarts_the_bound(d: DeadlineView, now: u64)
    requires
        d.bound_ms is Some,
    ensures
        d.progressed().limit_at(now) == stall_end(now, d.bound_ms->0),
        d.progressed().armed_by(now).armed == Some(now),
        d.progressed().armed_by(now).arms == crate::power::wrap32(d.arms + 1),
{
}

/// Without a bound no turn ever arms the deadline or has to give up.
pub proof fn lemma_unbounded_never_gives_up(d: DeadlineView, now: u64)
    requires
        d.bound_ms is None,
    ensures
        d.armed_by(now) == d,
        d.limit_at(now) is None,
{
}

} // verus!
