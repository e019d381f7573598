//! Handles on processes.
use vstd::prelude::*;

verus! {

/// The number of a process.
#[derive(Clone, Copy, Debug, PartialEq, Eq, Structural)]
pub struct ProcessId {
    pub raw: i32,
}

impl ProcessId {
    /// The number itself.
    pub fn as_raw(self) -> (raw: i32)
        ensures
            raw == self.raw,
    {
        self.raw
    }
}

/// The process to open a handle on: only a positive number names one.
pub fn require_handle(pid: i32) -> (process: Option<ProcessId>)
    ensures
        process == if pid > 0 {
            Some(ProcessId { raw: pid })
        } else {
            None
        },
{
    if pid <= 0 {
        None
    } else {
        Some(ProcessId { raw: pid })
    }
}

/// The longest that one look at a process may take, in milliseconds.
pub const POLL_MILLISECONDS: u64 = 100;

/// How long to wait for a process in one go, where this much time is left.
pub fn poll_milliseconds(remaining: u64) -> (milliseconds: i32)
    ensures
        milliseconds == if remaining < POLL_MILLISECONDS {
            remaining as int
        } else {
            POLL_MILLISECONDS as int
        },
{
    if remaining < POLL_MILLISECONDS {
        remaining as i32
    } else {
        100
    }
}

/// What one look at a process gave.
#[derive(Clone, Copy, Debug, PartialEq, Eq, Structural)]
pub enum PollOutcome {
    /// The process has ended.
    Ended,
    /// Nothing happened.
    Quiet,
    Interrupted,
    Failed,
}

/// How the wait for a process goes on.
#[derive(Clone, Copy, Debug, PartialEq, Eq, Structural)]
pub enum WaitDecision {
    LookAgain,
    Ended,
    TimedOut,
    Report,
}

/// How a wait goes on after one look, where `late` says that the deadline has
/// passed.
pub open spec fn after_look(outcome: PollOutcome, late: bool) -> WaitDecision {
    match outcome {
        PollOutcome::Ended => WaitDecision::Ended,
        PollOutcome::Interrupted => WaitDecision::LookAgain,
        PollOutcome::Failed => WaitDecision::Report,
        PollOutcome::Quiet => if late {
            WaitDecision::TimedOut
        } else {
            WaitDecision::LookAgain
        },
    }
}

/// Decides after one look, where `late` says that the deadline has passed.
/// An interrupted look does not count.
pub fn wait_for_exit(outcome: PollOutcome, late: bool) -> (decision: WaitDecision)
    ensures
        decision == after_look(outcome, late),
        decision == match outcome {
            PollOutcome::Ended => WaitDecision::Ended,
            PollOutcome::Interrupted => WaitDecision::LookAgain,
            PollOutcome::Failed => WaitDecision::Report,
            PollOutcome::Quiet => if late {
                WaitDecision::TimedOut
            } else {
                WaitDecision::LookAgain
            },
        },
{
    match outcome {
        PollOutcome::Ended => WaitDecision::Ended,
        PollOutcome::Interrupted => WaitDecision::LookAgain,
        PollOutcome::Failed => WaitDecision::Report,
        PollOutcome::Quiet => if late {
            WaitDecision::TimedOut
        } else {
            WaitDecision::LookAgain
        },
    }
}

/// A wait ends with its process, with the deadline where nothing has happened,
/// and with a failure; a look that was interrupted is taken again.
pub proof fn law_waits_end_with_the_process(outcome: PollOutcome, late: bool)
    ensures
        after_look(outcome, late) == WaitDecision::Ended <==> outcome == PollOutcome::Ended,
        after_look(outcome, late) == WaitDecision::TimedOut <==> outcome == PollOutcome::Quiet
            && late,
        after_look(outcome, late) == WaitDecision::Report <==> outcome == PollOutcome::Failed,
{
}

} // verus!
