//! What holds of the ways that requests, attempts and supervisors go.

use vstd::prelude::*;

use crate::extension::attempt::NextAttempt;
use crate::extension::definition::Definition;
use crate::extension::drive::{drove, next_drive, DriveEnd, DriveEvent, DriveStage, Joined};
use crate::extension::exit::{AttemptOutcome, DrivenAttempt, FailureKind};
use crate::extension::flow::{
    next_control, next_prepare, next_run, prepare_fault_kind, spec_holds_catalog, spec_prepares_alone,
    spec_run_held,
};
use crate::extension::flow::{
    ControlStage, ControlStep, PrepareStage, PrepareStep, RunStage, RunStep,
};
use crate::extension::protocol::Phase;
use crate::extension::service::Service;
use crate::extension::supervise::{
    at_head, blocked_wait, may_supervise, next_stage, spec_held, still_queued, to_run,
};
use crate::extension::supervise::{BlockedWait, Head, Stage, Step};

verus! {

/// Whatever is refused on the way of a run request is answered, and nothing but an answer
/// that was sent or a cancellation ends it.
pub proof fn law_refused_runs_are_answered(s: RunStage)
    ensures
        s == RunStage::Arrived || s == RunStage::Deciding || s == RunStage::Reading || s
            == RunStage::Repairing || s == RunStage::Naming ==> next_run(s, RunStep::Refused)
            == RunStage::Answering,
        next_run(RunStage::Waiting, RunStep::NoRoom) == RunStage::Answering,
        s == RunStage::Clearing || s == RunStage::Replacing || s == RunStage::Committing || s
            == RunStage::Pinning || s == RunStage::Keeping ==> next_run(s, RunStep::Settled)
            == RunStage::Answering,
        next_run(RunStage::Answering, RunStep::Sent) == RunStage::Done,
        s == RunStage::Looking || s == RunStage::Deciding ==> next_run(s, RunStep::Cancelled)
            == RunStage::Done,
{
}

/// A run request that is not refused looks its object up before it is decided on. An
/// update reads what is there, and repairs it where nothing changes and replaces it
/// where something does. A creation is committed where it is to be kept and its object
/// is there, pinned where the object is there, and kept waiting where it is not.
pub proof fn law_runs_go_their_way(hit: bool, persist: bool)
    ensures
        next_run(RunStage::Arrived, RunStep::Admitted) == RunStage::Waiting,
        next_run(RunStage::Waiting, RunStep::Room) == RunStage::Looking,
        next_run(RunStage::Looking, RunStep::Looked) == RunStage::Deciding,
        next_run(RunStage::Deciding, RunStep::Update) == RunStage::Reading,
        next_run(RunStage::Reading, RunStep::Unchanged) == RunStage::Repairing,
        next_run(RunStage::Reading, RunStep::Changed) == RunStage::Replacing,
        next_run(RunStage::Repairing, RunStep::Repaired) == RunStage::Clearing,
        next_run(RunStage::Deciding, RunStep::Create) == RunStage::Naming,
        ({
            let n = next_run(RunStage::Naming, RunStep::Drafted { hit, persist });
            &&& n == RunStage::Committing <==> hit && persist
            &&& n == RunStage::Pinning <==> hit && !persist
            &&& n == RunStage::Keeping <==> !hit
        }),
{
}

/// What a run request holds: its arguments from its admission on, its place once it has
/// one, and the catalog from the decision on where the extension is stored; nothing
/// before and nothing after.
pub proof fn law_what_runs_hold(s: RunStage, stored: bool)
    ensures
        spec_run_held(s, stored).arguments <==> s != RunStage::Arrived && s != RunStage::Done,
        spec_run_held(s, stored).place <==> s != RunStage::Arrived && s != RunStage::Done && s
            != RunStage::Waiting,
        spec_run_held(s, stored).catalog <==> stored && s != RunStage::Arrived && s
            != RunStage::Done && s != RunStage::Waiting && s != RunStage::Looking,
{
}

/// A request to change an extension is answered where it is refused, repairs what is to
/// be pinned anew only where the extension is kept, and is then written and answered.
pub proof fn law_changes_go_their_way(persistent: bool, repin: bool)
    ensures
        next_control(ControlStage::Arrived, ControlStep::Refused) is Answering,
        next_control(ControlStage::Arrived, ControlStep::Found { persistent }) == (
        ControlStage::Planning { persistent }),
        ({
            let p = ControlStage::Planning { persistent };
            let w = ControlStage::Writing { persistent };
            let a = ControlStage::Answering { persistent };
            &&& next_control(p, ControlStep::Refused) == a
            &&& persistent && repin ==> next_control(p, ControlStep::Allowed { repin })
                == ControlStage::Repairing
            &&& !(persistent && repin) ==> next_control(p, ControlStep::Allowed { repin }) == w
            &&& next_control(w, ControlStep::Settled) == a
            &&& next_control(a, ControlStep::Sent) == ControlStage::Done
            &&& spec_holds_catalog(p) == persistent && spec_holds_catalog(w) == persistent
                && spec_holds_catalog(a) == persistent
        }),
        next_control(ControlStage::Repairing, ControlStep::Repaired) == (ControlStage::Writing {
            persistent: true,
        }),
        next_control(ControlStage::Repairing, ControlStep::Refused) == (ControlStage::Answering {
            persistent: true,
        }),
        spec_holds_catalog(ControlStage::Repairing),
        !spec_holds_catalog(ControlStage::Arrived),
{
}

/// An attempt is prepared step by step, and what is kept stores its number on the way. It
/// fails wherever a step fails, and is superseded only where it is checked or committed.
pub proof fn law_preparation_goes_its_way(s: PrepareStage, persistent: bool)
    ensures
        next_prepare(PrepareStage::Finding, PrepareStep::Went, persistent) == PrepareStage::Loading,
        next_prepare(PrepareStage::Loading, PrepareStep::Went, persistent) == PrepareStage::Reading,
        next_prepare(PrepareStage::Reading, PrepareStep::Went, persistent)
            == PrepareStage::Recording,
        next_prepare(PrepareStage::Recording, PrepareStep::Went, persistent)
            == PrepareStage::Checking,
        next_prepare(PrepareStage::Checking, PrepareStep::Went, true) == PrepareStage::Storing,
        next_prepare(PrepareStage::Checking, PrepareStep::Went, false) == PrepareStage::Committing,
        next_prepare(PrepareStage::Storing, PrepareStep::Went, persistent)
            == PrepareStage::Committing,
        next_prepare(PrepareStage::Committing, PrepareStep::Went, persistent)
            == PrepareStage::Spawning,
        next_prepare(PrepareStage::Spawning, PrepareStep::Went, persistent) == PrepareStage::Ready,
        ({
            let ended = s == PrepareStage::Ready || s == PrepareStage::Failed || s
                == PrepareStage::Superseded;
            let decides = s == PrepareStage::Checking || s == PrepareStage::Committing;
            &&& !ended && !decides ==> next_prepare(s, PrepareStep::Failed, persistent)
                == PrepareStage::Failed
            &&& decides ==> next_prepare(s, PrepareStep::Superseded, persistent)
                == PrepareStage::Superseded
            &&& forall|step: PrepareStep|
                ended ==> #[trigger] next_prepare(s, step, persistent) == s
        }),
{
}

/// What cannot be found, read or recorded was not valid; every other failure on the way
/// is the host's.
pub proof fn law_who_failed_the_preparation(s: PrepareStage)
    ensures
        s == PrepareStage::Finding || s == PrepareStage::Reading || s == PrepareStage::Recording
            ==> prepare_fault_kind(s) == FailureKind::Validation,
        s != PrepareStage::Finding && s != PrepareStage::Reading && s != PrepareStage::Recording
            ==> prepare_fault_kind(s) == FailureKind::HostFailure,
{
}

/// The catalog is held alone while an attempt of a kept extension is checked, stored and
/// committed, and while arguments are loaded that are not in memory.
pub proof fn law_when_the_catalog_is_held(s: PrepareStage, persistent: bool, resident: bool)
    ensures
        spec_prepares_alone(s, persistent, resident) <==> (s == PrepareStage::Loading && !resident)
            || (persistent && (s == PrepareStage::Checking || s == PrepareStage::Storing || s
            == PrepareStage::Committing)),
{
}

/// An attempt is driven step by step, and over with the first thing that is not its next
/// step.
pub proof fn law_attempts_are_driven(s: DriveStage, e: DriveEvent)
    ensures
        next_drive(DriveStage::Start, DriveEvent::Went) == DriveStage::Bootstrap,
        next_drive(DriveStage::Bootstrap, DriveEvent::Went) == DriveStage::Publish,
        next_drive(DriveStage::Publish, DriveEvent::Went) == DriveStage::Commit,
        next_drive(DriveStage::Commit, DriveEvent::Went) == DriveStage::Run,
        next_drive(DriveStage::Run, DriveEvent::Went) == DriveStage::Run,
        e != DriveEvent::Went || s == DriveStage::Over ==> next_drive(s, e) == DriveStage::Over,
{
}

/// What an attempt came to: the outcome of its program where that is known, and else that
/// the host failed, with the text of the loss. Its connection closed first where there was
/// none, where the attempt was not committed, and where it closed on a program that had
/// not returned. Only an attempt that was published has run.
pub proof fn law_what_an_attempt_came_to(end: DriveEnd, d: DrivenAttempt, running_for_ms: u64)
    requires
        drove(end, d, running_for_ms),
    ensures
        end matches DriveEnd::NotPublished(f) ==> d.outcome == AttemptOutcome::Failed(f)
            && !d.handler_closed_first,
        end matches DriveEnd::NoConnection(j) ==> joined(j, d.outcome) && d.handler_closed_first,
        end matches DriveEnd::NotCommitted(j) ==> joined(j, d.outcome) && d.handler_closed_first,
        end matches DriveEnd::EndedEarly(j) ==> joined(j, d.outcome) && !d.handler_closed_first,
        end matches DriveEnd::Ended(j) ==> joined(j, d.outcome) && !d.handler_closed_first,
        end matches DriveEnd::ClosedEarly(j) ==> joined(j, d.outcome) && (d.handler_closed_first
            <==> !(d.outcome is Returned)),
        end matches DriveEnd::Closed(j) ==> joined(j, d.outcome) && (d.handler_closed_first <==> !(
        d.outcome is Returned)),
        end matches DriveEnd::NotStarted(text, j) ==> !d.handler_closed_first && (match j {
            Joined::Outcome(o) => d.outcome == o,
            Joined::Lost(_) => lost(d.outcome, text@),
        }),
        d.running_for_ms == (if end is Ended || end is Closed || end is NotCommitted {
            running_for_ms
        } else {
            0
        }),
{
}

/// Whether an outcome says that the host failed, with this text.
pub open spec fn lost(o: AttemptOutcome, text: Seq<char>) -> bool {
    o matches AttemptOutcome::Failed(f) && f.kind == FailureKind::HostFailure && f.detail@ == text
}

/// Whether this outcome is what a program was joined with.
pub open spec fn joined(j: Joined, o: AttemptOutcome) -> bool {
    &&& j matches Joined::Outcome(x) ==> o == x
    &&& j matches Joined::Lost(text) ==> lost(o, text@)
}

/// A supervisor queues what is to run and lets rest what is not; what rests is left to
/// its end where the server shuts down or the extension is kept.
pub proof fn law_supervisors_look_first(generation: u64, shutting_down: bool, persistent: bool)
    ensures
        next_stage(Stage::Head, Step::Looked(Head::Gone)) == Stage::Done,
        next_stage(Stage::Head, Step::Looked(Head::Run { generation })) == (Stage::Queued {
            generation,
        }),
        ({
            let n = next_stage(
                Stage::Head,
                Step::Looked(Head::Rest { shutting_down, persistent, generation }),
            );
            &&& shutting_down || persistent ==> n == Stage::Done
            &&& !shutting_down && !persistent ==> n == (Stage::Resting { generation })
        }),
        next_stage(Stage::Resting { generation }, Step::Woken) == Stage::Head,
        next_stage(Stage::Resting { generation }, Step::LeaseEnded) == Stage::Done,
{
}

/// An attempt goes from the queue to its end: it needs room to run and room to be
/// prepared, is prepared, installed, made ready and assigned, and then driven. What is
/// superseded on the way starts over.
pub proof fn law_supervised_attempts_go_their_way(generation: u64, wait_ns: u64)
    ensures
        next_stage(Stage::Queued { generation }, Step::Room) == Stage::Admitted,
        next_stage(Stage::Queued { generation }, Step::NoRoom) == Stage::Head,
        next_stage(Stage::Admitted, Step::Room) == Stage::Preparing,
        next_stage(Stage::Admitted, Step::NoRoom) == Stage::Done,
        next_stage(Stage::Preparing, Step::Prepared) == Stage::Installing,
        next_stage(Stage::Preparing, Step::Pressure) == Stage::Pressed,
        next_stage(Stage::Pressed, Step::Woken) == Stage::Head,
        next_stage(Stage::Installing, Step::Installed) == Stage::Readying,
        next_stage(Stage::Readying, Step::Ready) == Stage::Assigning,
        next_stage(Stage::Assigning, Step::Assigned) == Stage::Driving,
        next_stage(Stage::Assigning, Step::Gone) == Stage::Done,
        forall|s: Stage|
            s == Stage::Preparing || s == Stage::Installing || s == Stage::Assigning
                ==> #[trigger] next_stage(s, Step::Superseded) == Stage::Head,
        next_stage(Stage::Driving, Step::Finished(NextAttempt::Stop)) == Stage::Stopped,
        next_stage(Stage::Driving, Step::Finished(NextAttempt::Immediate)) == Stage::Head,
        next_stage(Stage::Driving, Step::Finished(NextAttempt::Backoff(wait_ns))) == (
        Stage::BackingOff { wait_ns }),
        next_stage(Stage::BackingOff { wait_ns }, Step::Woken) == Stage::Head,
        next_stage(Stage::BackingOff { wait_ns }, Step::LeaseEnded) == Stage::Head,
        next_stage(Stage::Stopped, Step::Settled) == Stage::Done,
{
}

/// What cannot go on is announced as blocked. It can be started over unless it found no
/// number for its task, and its arguments stay charged as long as it was prepared.
pub proof fn law_supervised_attempts_block(resumable: bool, prepared: bool)
    ensures
        next_stage(Stage::Preparing, Step::Failed) == (Stage::Blocking {
            resumable: true,
            prepared: false,
        }),
        next_stage(Stage::Readying, Step::Failed) == (Stage::Blocking {
            resumable: true,
            prepared: true,
        }),
        next_stage(Stage::Assigning, Step::NoTaskId) == (Stage::Blocking {
            resumable: false,
            prepared: true,
        }),
        resumable ==> next_stage(Stage::Blocking { resumable, prepared }, Step::Announced) == (
        Stage::Blocked { prepared }),
        !resumable ==> next_stage(Stage::Blocking { resumable, prepared }, Step::Announced)
            == Stage::Done,
        next_stage(Stage::Blocked { prepared }, Step::Restart) == Stage::Head,
        next_stage(Stage::Blocked { prepared }, Step::Settled) == Stage::Done,
        spec_held(Stage::Blocked { prepared }).arguments == prepared,
        spec_held(Stage::Blocking { resumable, prepared }).arguments == prepared,
{
}

/// What an attempt holds on its way: a place to run from its admission to its end, a place
/// to be prepared until it is ready, and the charge of its arguments until it is driven.
pub proof fn law_what_attempts_hold(s: Stage)
    ensures
        s is Admitted || s is Preparing || s is Installing || s is Readying || s is Assigning || s
            is Driving ==> spec_held(s).running,
        s is Preparing || s is Installing || s is Readying ==> spec_held(s).validating,
        s is Admitted || s is Assigning || s is Driving ==> !spec_held(s).validating,
        s is Preparing || s is Installing || s is Readying || s is Assigning ==> spec_held(
            s,
        ).arguments,
        s is Head || s is Resting || s is Queued || s is Pressed || s is Stopped || s is BackingOff
            || s is Done ==> !spec_held(s).running && !spec_held(s).validating && !spec_held(
            s,
        ).arguments,
{
}

/// What is to run is what is wanted and has its object, while the server runs; it is
/// supervised once, and stays queued as long as it does not change.
pub proof fn law_what_is_to_run(s: Service, id: u64, generation: u64)
    ensures
        ({
            let d = s.spec_definitions()[id];
            let wanted = d.flags.enabled && d.flags.desired_running;
            &&& to_run(s, id) <==> !s.shutting_down && wanted && d.phase != Phase::NeedObject
            &&& still_queued(s, id, generation) <==> !s.shutting_down && s.has(id) && d.generation
                == generation && wanted
            &&& may_supervise(s, id) <==> !s.shutting_down && s.has(id) && wanted && d.phase
                != Phase::NeedObject && !s.supervisors@.dom().contains(id)
        }),
{
}

/// At the head of its loop a supervisor queues what is to run and stops what is not;
/// what waits for its object stays as it is.
pub proof fn law_head_of_the_loop(s: Service, id: u64)
    ensures
        ({
            let d = s.spec_definitions()[id];
            let e = at_head(s, id);
            let wanted = d.flags.enabled && d.flags.desired_running;
            &&& d.phase == Phase::NeedObject ==> e == d
            &&& d.phase != Phase::NeedObject ==> e.task_id == 0 && e.next_start_unix_ms == 0
            &&& d.phase != Phase::NeedObject && wanted && !s.shutting_down ==> e.phase
                == Phase::Queued
            &&& d.phase != Phase::NeedObject && !(wanted && !s.shutting_down) ==> e.phase
                == Phase::Stopped
            &&& e.flags == d.flags && e.generation == d.generation && e.attempt == d.attempt
                && e.failure_count == d.failure_count && e.control == d.control && e.interrupt
                == d.interrupt
        }),
{
}

/// What is blocked waits for a change where it is kept, with its owner where that is
/// there, for its end where the owner is gone, and for its time where it had none.
pub proof fn law_what_is_blocked_waits(s: Service, id: u64)
    ensures
        ({
            let d = s.spec_definitions()[id];
            let w = blocked_wait(s, id);
            &&& w is Gone <==> !s.has(id)
            &&& w is Persistent <==> s.has(id) && d.flags.persist
            &&& w is Owned <==> s.has(id) && !d.flags.persist && d.owner_endpoint is Some
                && s.endpoints@.dom().contains(d.owner_endpoint->0)
            &&& w is Ownerless <==> s.has(id) && !d.flags.persist && d.owner_endpoint is Some
                && !s.endpoints@.dom().contains(d.owner_endpoint->0)
            &&& w is Leased <==> s.has(id) && !d.flags.persist && d.owner_endpoint is None
            &&& w matches BlockedWait::Ownerless { generation } ==> generation == d.generation
            &&& w matches BlockedWait::Leased { generation } ==> generation == d.generation
        }),
{
}

} // verus!
