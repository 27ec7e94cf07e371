//! How the server winds down and what it says when maintenance fails.

use vstd::prelude::*;

use crate::embedded::TimeSpan;

verus! {

/// What ended the wait for a shutdown.
#[derive(Debug, Clone, Copy, PartialEq, Eq, Structural)]
pub enum ShutdownTrigger {
    /// The process was told to stop.
    Signal,
    /// The administrative switch moved, or nobody holds it any longer.
    Switch {
        /// Whether the switch is still held.
        held: bool,
        /// Whether it asks for a shutdown.
        requested: bool,
    },
}

/// What a trigger leads to.
#[derive(Debug, Clone, Copy, PartialEq, Eq, Structural)]
pub enum ShutdownPlan {
    /// Nothing: the switch moved for another reason.
    Stay,
    /// The listeners are told at once: whoever moved the switch has flushed.
    Announce,
    /// Ingest stops and the store is flushed before the listeners are told.
    DrainFirst,
}

/// Decides what a trigger leads to.
pub fn plan_shutdown(trigger: ShutdownTrigger) -> (plan: ShutdownPlan)
    ensures
        plan == match trigger {
            ShutdownTrigger::Signal => ShutdownPlan::DrainFirst,
            ShutdownTrigger::Switch { held, requested } => if held && !requested {
                ShutdownPlan::Stay
            } else {
                ShutdownPlan::Announce
            },
        },
{
    match trigger {
        ShutdownTrigger::Signal => ShutdownPlan::DrainFirst,
        ShutdownTrigger::Switch { held, requested } => if held && !requested {
            ShutdownPlan::Stay
        } else {
            ShutdownPlan::Announce
        },
    }
}

/// How work on a thread of its own ended.
#[derive(Debug, PartialEq, Eq)]
pub enum TaskOutcome {
    /// It was done.
    Done,
    /// It failed, for a reason.
    Failed(String),
    /// Its thread was lost, for a reason.
    Lost(String),
}

/// What is said of an outcome: nothing where the work was done.
pub open spec fn task_complaint(work: Seq<char>, outcome: TaskOutcome) -> Option<Seq<char>> {
    match outcome {
        TaskOutcome::Done => None,
        TaskOutcome::Failed(reason) => Some(work + " failed: "@ + reason@),
        TaskOutcome::Lost(reason) => Some(work + " task failed: "@ + reason@),
    }
}

fn complain(work: &str, outcome: &TaskOutcome) -> (complaint: Option<String>)
    ensures
        match complaint {
            Some(text) => task_complaint(work@, *outcome) == Some(text@),
            None => task_complaint(work@, *outcome) is None,
        },
{
    let mut text = work.to_owned();
    match outcome {
        TaskOutcome::Done => None,
        TaskOutcome::Failed(reason) => {
            text.append(" failed: ");
            text.append(reason.as_str());
            Some(text)
        },
        TaskOutcome::Lost(reason) => {
            text.append(" task failed: ");
            text.append(reason.as_str());
            Some(text)
        },
    }
}

/// What the server reports of the flush before it stops.
pub fn shutdown_complaint(outcome: &TaskOutcome) -> (complaint: Option<String>)
    ensures
        match complaint {
            Some(text) => task_complaint("shutdown flush"@, *outcome) == Some(text@),
            None => task_complaint("shutdown flush"@, *outcome) is None,
        },
{
    complain("shutdown flush", outcome)
}

/// What the server reports of a retention pass. After a report there is none
/// again.
pub fn retention_complaint(outcome: &TaskOutcome) -> (complaint: Option<String>)
    ensures
        match complaint {
            Some(text) => task_complaint("retention compaction"@, *outcome) == Some(text@),
            None => task_complaint("retention compaction"@, *outcome) is None,
        },
{
    complain("retention compaction", outcome)
}

/// How long records are kept: forever where no time is given.
pub fn retention_of(seconds: u64) -> (retention: Option<TimeSpan>)
    ensures
        retention == if seconds > 0 {
            Some(TimeSpan { nanos: (seconds * 1_000_000_000) as u128 })
        } else {
            None
        },
{
    if seconds > 0 {
        Some(TimeSpan::from_secs(seconds))
    } else {
        None
    }
}

} // verus!
