//! Driving one attempt: its program on one side, its connection on the other.

use vstd::array::array_as_slice;
use vstd::prelude::*;

use crate::bytes::{read_u32, u32_at};
use crate::extension::exit::{
    AttemptFailure, AttemptOutcome, ConnectionFailure, DrivenAttempt, FailureKind,
};

verus! {

/// How the program of an attempt ended, or why that is not known.
pub enum Joined {
    Outcome(AttemptOutcome),
    Lost(String),
}

/// At which point an attempt ended.
pub enum DriveEnd {
    /// There was no connection to give it.
    NoConnection(Joined),
    /// Its program did not start, for this reason.
    NotStarted(String, Joined),
    /// Its program ended during bootstrap.
    EndedEarly(Joined),
    /// Its connection closed, or lost its first message, during bootstrap.
    ClosedEarly(Joined),
    /// It could not be published as running.
    NotPublished(AttemptFailure),
    /// Its first message could not be sent after it was published.
    NotCommitted(Joined),
    /// Its program ended.
    Ended(Joined),
    /// Its connection closed.
    Closed(Joined),
}

/// Whether an outcome is what was joined; a lost program is a failure of the
/// host.
pub open spec fn outcome_of(j: Joined, o: AttemptOutcome) -> bool {
    match j {
        Joined::Outcome(x) => o == x,
        Joined::Lost(text) => o matches AttemptOutcome::Failed(f) && f.kind
            == FailureKind::HostFailure && f.detail@ == text@,
    }
}

fn outcome(j: Joined) -> (o: AttemptOutcome)
    ensures
        outcome_of(j, o),
{
    match j {
        Joined::Outcome(x) => x,
        Joined::Lost(text) => AttemptOutcome::Failed(
            AttemptFailure { kind: FailureKind::HostFailure, detail: text },
        ),
    }
}

/// Whether the end of an attempt is told rightly. A program that returned may
/// have closed its connection by that: it did not close first.
pub open spec fn drove(end: DriveEnd, d: DrivenAttempt, running_for_ms: u64) -> bool {
    match end {
        DriveEnd::NoConnection(j) => outcome_of(j, d.outcome) && d.handler_closed_first
            && d.running_for_ms == 0,
        DriveEnd::NotStarted(text, j) => (match j {
            Joined::Outcome(x) => d.outcome == x,
            Joined::Lost(_) => d.outcome matches AttemptOutcome::Failed(f) && f.kind
                == FailureKind::HostFailure && f.detail@ == text@,
        }) && !d.handler_closed_first && d.running_for_ms == 0,
        DriveEnd::EndedEarly(j) => outcome_of(j, d.outcome) && !d.handler_closed_first
            && d.running_for_ms == 0,
        DriveEnd::ClosedEarly(j) => outcome_of(j, d.outcome) && d.handler_closed_first == !(
        d.outcome is Returned) && d.running_for_ms == 0,
        DriveEnd::NotPublished(f) => d.outcome == AttemptOutcome::Failed(f)
            && !d.handler_closed_first && d.running_for_ms == 0,
        DriveEnd::NotCommitted(j) => outcome_of(j, d.outcome) && d.handler_closed_first
            && d.running_for_ms == running_for_ms,
        DriveEnd::Ended(j) => outcome_of(j, d.outcome) && !d.handler_closed_first
            && d.running_for_ms == running_for_ms,
        DriveEnd::Closed(j) => outcome_of(j, d.outcome) && d.handler_closed_first == !(d.outcome
            is Returned) && d.running_for_ms == running_for_ms,
    }
}

fn returned(o: &AttemptOutcome) -> (r: bool)
    ensures
        r == (*o is Returned),
{
    match o {
        AttemptOutcome::Returned(_) => true,
        _ => false,
    }
}

/// Tells how an attempt ended.
pub fn driven_attempt(
    end: DriveEnd,
    connection_failure: Option<ConnectionFailure>,
    running_for_ms: u64,
) -> (d: DrivenAttempt)
    ensures
        drove(end, d, running_for_ms),
        d.connection_failure == connection_failure,
{
    let (outcome, handler_closed_first, ran) = match end {
        DriveEnd::NoConnection(j) => (outcome(j), true, 0),
        DriveEnd::NotStarted(text, j) => {
            let o = match j {
                Joined::Outcome(x) => x,
                Joined::Lost(_) => AttemptOutcome::Failed(
                    AttemptFailure { kind: FailureKind::HostFailure, detail: text },
                ),
            };
            (o, false, 0)
        },
        DriveEnd::EndedEarly(j) => (outcome(j), false, 0),
        DriveEnd::ClosedEarly(j) => {
            let o = outcome(j);
            let first: bool = !returned(&o);
            (o, first, 0)
        },
        DriveEnd::NotPublished(f) => (AttemptOutcome::Failed(f), false, 0),
        DriveEnd::NotCommitted(j) => (outcome(j), true, running_for_ms),
        DriveEnd::Ended(j) => (outcome(j), false, running_for_ms),
        DriveEnd::Closed(j) => {
            let o = outcome(j);
            let first: bool = !returned(&o);
            (o, first, running_for_ms)
        },
    };
    DrivenAttempt { outcome, handler_closed_first, connection_failure, running_for_ms: ran }
}

/// Whether both sides of an attempt are to be cancelled at its end: all but an
/// orderly return.
pub fn cancels(published: bool, d: &DrivenAttempt) -> (r: bool)
    ensures
        r == (!published || !(d.outcome is Returned) || d.handler_closed_first),
{
    !published || !returned(&d.outcome) || d.handler_closed_first
}

/// Where an attempt stands while it is driven.
#[derive(Clone, Copy, Debug, PartialEq, Eq, Structural)]
pub enum DriveStage {
    /// Starts the program.
    Start,
    /// Until the first message is reserved, or either side ends.
    Bootstrap,
    /// Publishes the attempt as running.
    Publish,
    /// Lets the first message go.
    Commit,
    /// Until either side ends.
    Run,
    /// Over.
    Over,
}

/// What happened to an attempt while it was driven.
#[derive(Clone, Copy, Debug, PartialEq, Eq, Structural)]
pub enum DriveEvent {
    /// What was to be done is done.
    Went,
    /// What was to be done failed.
    Failed,
    ProgramEnded,
    ConnectionClosed,
}

/// Where an attempt goes on.
pub open spec fn next_drive(s: DriveStage, e: DriveEvent) -> DriveStage {
    match (s, e) {
        (DriveStage::Start, DriveEvent::Went) => DriveStage::Bootstrap,
        (DriveStage::Bootstrap, DriveEvent::Went) => DriveStage::Publish,
        (DriveStage::Publish, DriveEvent::Went) => DriveStage::Commit,
        (DriveStage::Commit, DriveEvent::Went) => DriveStage::Run,
        (DriveStage::Run, DriveEvent::Went) => DriveStage::Run,
        _ => DriveStage::Over,
    }
}

pub fn drive_step(s: DriveStage, e: DriveEvent) -> (r: DriveStage)
    ensures
        r == next_drive(s, e),
{
    match (s, e) {
        (DriveStage::Start, DriveEvent::Went) => DriveStage::Bootstrap,
        (DriveStage::Bootstrap, DriveEvent::Went) => DriveStage::Publish,
        (DriveStage::Publish, DriveEvent::Went) => DriveStage::Commit,
        (DriveStage::Commit, DriveEvent::Went) => DriveStage::Run,
        (DriveStage::Run, DriveEvent::Went) => DriveStage::Run,
        _ => DriveStage::Over,
    }
}

/// A program sees its first message only after its attempt was published as
/// running.
pub proof fn law_published_before_first_message(s: DriveStage, e: DriveEvent)
    requires
        next_drive(s, e) == DriveStage::Run,
        s != DriveStage::Run,
    ensures
        s == DriveStage::Commit,
        forall|p: DriveStage, x: DriveEvent| #[trigger]
            next_drive(p, x) == DriveStage::Commit ==> p == DriveStage::Publish && x
                == DriveEvent::Went,
{
}

/// The length of a frame on the connection of an attempt, unless it is one that
/// no peer may send.
pub fn frame_length(header: [u8; 4], max: usize) -> (r: Option<usize>)
    ensures
        ({
            let n = u32_at(header@, 0);
            r == if n == 0 || n > max {
                None
            } else {
                Some(n as usize)
            }
        }),
{
    let n: u32 = read_u32(array_as_slice(&header), 0);
    if n == 0 || n as u64 > max as u64 {
        None
    } else {
        Some(n as usize)
    }
}

} // verus!
