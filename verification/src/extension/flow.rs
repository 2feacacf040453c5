//! The order in which a request is worked through: what is asked of the world
//! next, and what the request holds while it waits for that.

use vstd::prelude::*;

use crate::catalog::BlockedState;
use crate::extension::attempt::FinishPlan;
use crate::extension::definition::Definition;
use crate::extension::exit::{AttemptFailure, FailureKind};
use crate::extension_catalog::LifecycleChange;

verus! {

/// Where a run request stands.
#[derive(Clone, Copy, Debug, PartialEq, Eq, Structural)]
pub enum RunStage {
    /// Its arguments are to be admitted.
    Arrived,
    /// It waits for a place among the validations.
    Waiting,
    /// Its object is looked up.
    Looking,
    /// It is decided what it comes to.
    Deciding,
    /// The stored arguments of the definition that it names are read.
    Reading,
    /// The object of an unchanged definition is pinned again.
    Repairing,
    /// An unchanged definition is stored as one that is not blocked.
    Clearing,
    /// A changed definition is stored.
    Replacing,
    /// A new definition needs an id.
    Naming,
    /// A new persistent definition is stored.
    Committing,
    /// The object of a new transient definition is pinned.
    Pinning,
    /// A new definition is kept until its object comes.
    Keeping,
    /// The reply is sent.
    Answering,
    Done,
}

/// What came of the last thing that was asked for a run request.
#[derive(Clone, Copy, Debug, PartialEq, Eq, Structural)]
pub enum RunStep {
    Refused,
    Admitted,
    Room,
    NoRoom,
    Looked,
    /// The connection's jobs were cancelled.
    Cancelled,
    Update,
    Create,
    Unchanged,
    Changed,
    Repaired,
    Drafted { hit: bool, persist: bool },
    /// What was asked was done, or failed; either is answered.
    Settled,
    Sent,
}

/// What a run request may hold.
#[derive(Clone, Copy, Debug, PartialEq, Eq, Structural)]
pub struct RunHeld {
    /// The charge of its arguments.
    pub arguments: bool,
    /// A place among the validations.
    pub place: bool,
    /// The catalog, which serves one request at a time.
    pub catalog: bool,
}

/// The stage of a run request that comes next. A step that cannot come changes
/// nothing.
pub open spec fn next_run(s: RunStage, step: RunStep) -> RunStage {
    match (s, step) {
        (RunStage::Arrived, RunStep::Refused) => RunStage::Answering,
        (RunStage::Arrived, RunStep::Admitted) => RunStage::Waiting,
        (RunStage::Waiting, RunStep::NoRoom) => RunStage::Answering,
        (RunStage::Waiting, RunStep::Room) => RunStage::Looking,
        (RunStage::Looking, RunStep::Cancelled) => RunStage::Done,
        (RunStage::Looking, RunStep::Looked) => RunStage::Deciding,
        (RunStage::Deciding, RunStep::Cancelled) => RunStage::Done,
        (RunStage::Deciding, RunStep::Refused) => RunStage::Answering,
        (RunStage::Deciding, RunStep::Update) => RunStage::Reading,
        (RunStage::Deciding, RunStep::Create) => RunStage::Naming,
        (RunStage::Reading, RunStep::Refused) => RunStage::Answering,
        (RunStage::Reading, RunStep::Unchanged) => RunStage::Repairing,
        (RunStage::Reading, RunStep::Changed) => RunStage::Replacing,
        (RunStage::Repairing, RunStep::Refused) => RunStage::Answering,
        (RunStage::Repairing, RunStep::Repaired) => RunStage::Clearing,
        (RunStage::Clearing, RunStep::Settled) => RunStage::Answering,
        (RunStage::Replacing, RunStep::Settled) => RunStage::Answering,
        (RunStage::Naming, RunStep::Refused) => RunStage::Answering,
        (RunStage::Naming, RunStep::Drafted { hit, persist }) => if hit && persist {
            RunStage::Committing
        } else if hit {
            RunStage::Pinning
        } else {
            RunStage::Keeping
        },
        (RunStage::Committing, RunStep::Settled) => RunStage::Answering,
        (RunStage::Pinning, RunStep::Settled) => RunStage::Answering,
        (RunStage::Keeping, RunStep::Settled) => RunStage::Answering,
        (RunStage::Answering, RunStep::Sent) => RunStage::Done,
        _ => s,
    }
}

/// What a run request may hold at a stage. Only one that may touch the catalog
/// waits for it.
pub open spec fn spec_run_held(s: RunStage, stored: bool) -> RunHeld {
    match s {
        RunStage::Arrived => RunHeld { arguments: false, place: false, catalog: false },
        RunStage::Waiting => RunHeld { arguments: true, place: false, catalog: false },
        RunStage::Looking => RunHeld { arguments: true, place: true, catalog: false },
        RunStage::Done => RunHeld { arguments: false, place: false, catalog: false },
        _ => RunHeld { arguments: true, place: true, catalog: stored },
    }
}

/// How far a run request has come.
pub open spec fn run_progress(s: RunStage) -> nat {
    match s {
        RunStage::Arrived => 0,
        RunStage::Waiting => 1,
        RunStage::Looking => 2,
        RunStage::Deciding => 3,
        RunStage::Reading => 4,
        RunStage::Naming => 4,
        RunStage::Repairing => 5,
        RunStage::Replacing => 5,
        RunStage::Committing => 5,
        RunStage::Pinning => 5,
        RunStage::Keeping => 5,
        RunStage::Clearing => 6,
        RunStage::Answering => 7,
        RunStage::Done => 8,
    }
}

pub fn run_step(s: RunStage, step: RunStep) -> (r: RunStage)
    ensures
        r == next_run(s, step),
{
    match (s, step) {
        (RunStage::Arrived, RunStep::Refused) => RunStage::Answering,
        (RunStage::Arrived, RunStep::Admitted) => RunStage::Waiting,
        (RunStage::Waiting, RunStep::NoRoom) => RunStage::Answering,
        (RunStage::Waiting, RunStep::Room) => RunStage::Looking,
        (RunStage::Looking, RunStep::Cancelled) => RunStage::Done,
        (RunStage::Looking, RunStep::Looked) => RunStage::Deciding,
        (RunStage::Deciding, RunStep::Cancelled) => RunStage::Done,
        (RunStage::Deciding, RunStep::Refused) => RunStage::Answering,
        (RunStage::Deciding, RunStep::Update) => RunStage::Reading,
        (RunStage::Deciding, RunStep::Create) => RunStage::Naming,
        (RunStage::Reading, RunStep::Refused) => RunStage::Answering,
        (RunStage::Reading, RunStep::Unchanged) => RunStage::Repairing,
        (RunStage::Reading, RunStep::Changed) => RunStage::Replacing,
        (RunStage::Repairing, RunStep::Refused) => RunStage::Answering,
        (RunStage::Repairing, RunStep::Repaired) => RunStage::Clearing,
        (RunStage::Clearing, RunStep::Settled) => RunStage::Answering,
        (RunStage::Replacing, RunStep::Settled) => RunStage::Answering,
        (RunStage::Naming, RunStep::Refused) => RunStage::Answering,
        (RunStage::Naming, RunStep::Drafted { hit, persist }) => {
            if hit && persist {
                RunStage::Committing
            } else if hit {
                RunStage::Pinning
            } else {
                RunStage::Keeping
            }
        },
        (RunStage::Committing, RunStep::Settled) => RunStage::Answering,
        (RunStage::Pinning, RunStep::Settled) => RunStage::Answering,
        (RunStage::Keeping, RunStep::Settled) => RunStage::Answering,
        (RunStage::Answering, RunStep::Sent) => RunStage::Done,
        _ => s,
    }
}

pub fn run_held(s: RunStage, stored: bool) -> (h: RunHeld)
    ensures
        h == spec_run_held(s, stored),
{
    match s {
        RunStage::Arrived => RunHeld { arguments: false, place: false, catalog: false },
        RunStage::Waiting => RunHeld { arguments: true, place: false, catalog: false },
        RunStage::Looking => RunHeld { arguments: true, place: true, catalog: false },
        RunStage::Done => RunHeld { arguments: false, place: false, catalog: false },
        _ => RunHeld { arguments: true, place: true, catalog: stored },
    }
}

/// Where a request to change the lifecycle of a definition stands.
#[derive(Clone, Copy, Debug, PartialEq, Eq, Structural)]
pub enum ControlStage {
    /// The definition is looked for.
    Arrived,
    /// It is decided whether the change is allowed.
    Planning { persistent: bool },
    /// The object of a persistent definition is pinned again.
    Repairing,
    /// The change is stored, where the definition is.
    Writing { persistent: bool },
    /// The reply is sent.
    Answering { persistent: bool },
    Done,
}

/// What came of the last thing that was asked for such a request.
#[derive(Clone, Copy, Debug, PartialEq, Eq, Structural)]
pub enum ControlStep {
    Found { persistent: bool },
    Refused,
    Allowed { repin: bool },
    Repaired,
    /// The change was stored and made, or failed; either is answered.
    Settled,
    Sent,
}

/// The stage of such a request that comes next. A step that cannot come changes
/// nothing.
pub open spec fn next_control(s: ControlStage, step: ControlStep) -> ControlStage {
    match (s, step) {
        (ControlStage::Arrived, ControlStep::Refused) => ControlStage::Answering {
            persistent: false,
        },
        (ControlStage::Arrived, ControlStep::Found { persistent }) => ControlStage::Planning {
            persistent,
        },
        (ControlStage::Planning { persistent }, ControlStep::Refused) => ControlStage::Answering {
            persistent,
        },
        (ControlStage::Planning { persistent }, ControlStep::Allowed { repin }) => if repin
            && persistent {
            ControlStage::Repairing
        } else {
            ControlStage::Writing { persistent }
        },
        (ControlStage::Repairing, ControlStep::Refused) => ControlStage::Answering {
            persistent: true,
        },
        (ControlStage::Repairing, ControlStep::Repaired) => ControlStage::Writing {
            persistent: true,
        },
        (ControlStage::Writing { persistent }, ControlStep::Settled) => ControlStage::Answering {
            persistent,
        },
        (ControlStage::Answering { .. }, ControlStep::Sent) => ControlStage::Done,
        _ => s,
    }
}

pub fn control_step(s: ControlStage, step: ControlStep) -> (r: ControlStage)
    ensures
        r == next_control(s, step),
{
    match (s, step) {
        (ControlStage::Arrived, ControlStep::Refused) => ControlStage::Answering {
            persistent: false,
        },
        (ControlStage::Arrived, ControlStep::Found { persistent }) => ControlStage::Planning {
            persistent,
        },
        (ControlStage::Planning { persistent }, ControlStep::Refused) => ControlStage::Answering {
            persistent,
        },
        (ControlStage::Planning { persistent }, ControlStep::Allowed { repin }) => {
            if repin && persistent {
                ControlStage::Repairing
            } else {
                ControlStage::Writing { persistent }
            }
        },
        (ControlStage::Repairing, ControlStep::Refused) => ControlStage::Answering {
            persistent: true,
        },
        (ControlStage::Repairing, ControlStep::Repaired) => ControlStage::Writing {
            persistent: true,
        },
        (ControlStage::Writing { persistent }, ControlStep::Settled) => ControlStage::Answering {
            persistent,
        },
        (ControlStage::Answering { .. }, ControlStep::Sent) => ControlStage::Done,
        _ => s,
    }
}

/// Whether such a request has the catalog to itself.
pub open spec fn spec_holds_catalog(s: ControlStage) -> bool {
    match s {
        ControlStage::Arrived => false,
        ControlStage::Planning { persistent } => persistent,
        ControlStage::Repairing => true,
        ControlStage::Writing { persistent } => persistent,
        ControlStage::Answering { persistent } => persistent,
        ControlStage::Done => false,
    }
}

pub fn holds_catalog(s: ControlStage) -> (r: bool)
    ensures
        r == spec_holds_catalog(s),
{
    match s {
        ControlStage::Arrived => false,
        ControlStage::Planning { persistent } => persistent,
        ControlStage::Repairing => true,
        ControlStage::Writing { persistent } => persistent,
        ControlStage::Answering { persistent } => persistent,
        ControlStage::Done => false,
    }
}

/// Where the preparation of an attempt stands.
#[derive(Clone, Copy, Debug, PartialEq, Eq, Structural)]
pub enum PrepareStage {
    /// The object is looked for, and kept from then on.
    Finding,
    /// The arguments are loaded.
    Loading,
    /// The object is read and checked.
    Reading,
    /// The order in which objects were used is written.
    Recording,
    /// The definition is looked at again.
    Checking,
    /// The number of the attempt is stored.
    Storing,
    /// The definition is committed to the attempt.
    Committing,
    /// The program is spawned.
    Spawning,
    Ready,
    Failed,
    /// The definition has changed meanwhile.
    Superseded,
}

/// What came of the last thing that was asked for a preparation.
#[derive(Clone, Copy, Debug, PartialEq, Eq, Structural)]
pub enum PrepareStep {
    Went,
    Failed,
    Superseded,
}

/// The stage of a preparation that comes next. A step that cannot come changes
/// nothing.
pub open spec fn next_prepare(s: PrepareStage, step: PrepareStep, persistent: bool) -> PrepareStage {
    match (s, step) {
        (PrepareStage::Finding, PrepareStep::Went) => PrepareStage::Loading,
        (PrepareStage::Finding, PrepareStep::Failed) => PrepareStage::Failed,
        (PrepareStage::Loading, PrepareStep::Went) => PrepareStage::Reading,
        (PrepareStage::Loading, PrepareStep::Failed) => PrepareStage::Failed,
        (PrepareStage::Reading, PrepareStep::Went) => PrepareStage::Recording,
        (PrepareStage::Reading, PrepareStep::Failed) => PrepareStage::Failed,
        (PrepareStage::Recording, PrepareStep::Went) => PrepareStage::Checking,
        (PrepareStage::Recording, PrepareStep::Failed) => PrepareStage::Failed,
        (PrepareStage::Checking, PrepareStep::Went) => if persistent {
            PrepareStage::Storing
        } else {
            PrepareStage::Committing
        },
        (PrepareStage::Checking, PrepareStep::Superseded) => PrepareStage::Superseded,
        (PrepareStage::Storing, PrepareStep::Went) => PrepareStage::Committing,
        (PrepareStage::Storing, PrepareStep::Failed) => PrepareStage::Failed,
        (PrepareStage::Committing, PrepareStep::Went) => PrepareStage::Spawning,
        (PrepareStage::Committing, PrepareStep::Superseded) => PrepareStage::Superseded,
        (PrepareStage::Spawning, PrepareStep::Went) => PrepareStage::Ready,
        (PrepareStage::Spawning, PrepareStep::Failed) => PrepareStage::Failed,
        _ => s,
    }
}

pub fn prepare_step(s: PrepareStage, step: PrepareStep, persistent: bool) -> (r: PrepareStage)
    ensures
        r == next_prepare(s, step, persistent),
{
    match (s, step) {
        (PrepareStage::Finding, PrepareStep::Went) => PrepareStage::Loading,
        (PrepareStage::Finding, PrepareStep::Failed) => PrepareStage::Failed,
        (PrepareStage::Loading, PrepareStep::Went) => PrepareStage::Reading,
        (PrepareStage::Loading, PrepareStep::Failed) => PrepareStage::Failed,
        (PrepareStage::Reading, PrepareStep::Went) => PrepareStage::Recording,
        (PrepareStage::Reading, PrepareStep::Failed) => PrepareStage::Failed,
        (PrepareStage::Recording, PrepareStep::Went) => PrepareStage::Checking,
        (PrepareStage::Recording, PrepareStep::Failed) => PrepareStage::Failed,
        (PrepareStage::Checking, PrepareStep::Went) => {
            if persistent {
                PrepareStage::Storing
            } else {
                PrepareStage::Committing
            }
        },
        (PrepareStage::Checking, PrepareStep::Superseded) => PrepareStage::Superseded,
        (PrepareStage::Storing, PrepareStep::Went) => PrepareStage::Committing,
        (PrepareStage::Storing, PrepareStep::Failed) => PrepareStage::Failed,
        (PrepareStage::Committing, PrepareStep::Went) => PrepareStage::Spawning,
        (PrepareStage::Committing, PrepareStep::Superseded) => PrepareStage::Superseded,
        (PrepareStage::Spawning, PrepareStep::Went) => PrepareStage::Ready,
        (PrepareStage::Spawning, PrepareStep::Failed) => PrepareStage::Failed,
        _ => s,
    }
}

/// Whether a preparation has the catalog to itself: to load arguments that are
/// not in memory, and from its last look at a persistent definition until it is
/// committed.
pub open spec fn spec_prepares_alone(s: PrepareStage, persistent: bool, resident: bool) -> bool {
    match s {
        PrepareStage::Loading => !resident,
        PrepareStage::Checking => persistent,
        PrepareStage::Storing => persistent,
        PrepareStage::Committing => persistent,
        _ => false,
    }
}

pub fn prepares_alone(s: PrepareStage, persistent: bool, resident: bool) -> (r: bool)
    ensures
        r == spec_prepares_alone(s, persistent, resident),
{
    match s {
        PrepareStage::Loading => !resident,
        PrepareStage::Checking => persistent,
        PrepareStage::Storing => persistent,
        PrepareStage::Committing => persistent,
        _ => false,
    }
}

/// What kind of failure it is that a preparation fails at a stage: a bad object
/// is the extension's fault, all else the host's.
pub open spec fn prepare_fault_kind(s: PrepareStage) -> FailureKind {
    match s {
        PrepareStage::Finding => FailureKind::Validation,
        PrepareStage::Reading => FailureKind::Validation,
        PrepareStage::Recording => FailureKind::Validation,
        _ => FailureKind::HostFailure,
    }
}

pub fn preparation_failure(s: PrepareStage, text: String) -> (f: AttemptFailure)
    ensures
        f.kind == prepare_fault_kind(s),
        f.detail == text,
{
    let kind = match s {
        PrepareStage::Finding => FailureKind::Validation,
        PrepareStage::Reading => FailureKind::Validation,
        PrepareStage::Recording => FailureKind::Validation,
        _ => FailureKind::HostFailure,
    };
    AttemptFailure { kind, detail: text }
}

/// What the catalog is told of the numbers of an attempt.
pub fn counters_change<'a>(attempt: u64, last_running_attempt: u64) -> (c: LifecycleChange<'a>)
    ensures
        c == (LifecycleChange {
            enabled: None,
            desired_running: None,
            attempt: Some(attempt),
            last_running_attempt: Some(last_running_attempt),
            failure_count: None,
            next_start_unix_ms: None,
            blocked: None,
        }),
{
    LifecycleChange {
        enabled: None,
        desired_running: None,
        attempt: Some(attempt),
        last_running_attempt: Some(last_running_attempt),
        failure_count: None,
        next_start_unix_ms: None,
        blocked: None,
    }
}

/// What the catalog is told of the end of an attempt.
pub fn end_change<'a>(d: &Definition, plan: &FinishPlan) -> (c: LifecycleChange<'a>)
    ensures
        c == (LifecycleChange {
            enabled: Some(plan.flags.enabled),
            desired_running: Some(plan.flags.desired_running),
            attempt: Some(d.attempt),
            last_running_attempt: Some(d.last_running_attempt),
            failure_count: Some(plan.failure_count),
            next_start_unix_ms: Some(plan.next_start_unix_ms),
            blocked: Some(BlockedState::Clear),
        }),
{
    LifecycleChange {
        enabled: Some(plan.flags.enabled),
        desired_running: Some(plan.flags.desired_running),
        attempt: Some(d.attempt),
        last_running_attempt: Some(d.last_running_attempt),
        failure_count: Some(plan.failure_count),
        next_start_unix_ms: Some(plan.next_start_unix_ms),
        blocked: Some(BlockedState::Clear),
    }
}

/// What the catalog is told of a definition that is blocked.
pub fn block_change<'a>(detail: &'a str) -> (c: LifecycleChange<'a>)
    ensures
        c == (LifecycleChange {
            enabled: None,
            desired_running: None,
            attempt: None,
            last_running_attempt: None,
            failure_count: None,
            next_start_unix_ms: Some(0),
            blocked: Some(BlockedState::Blocked(detail)),
        }),
{
    LifecycleChange {
        enabled: None,
        desired_running: None,
        attempt: None,
        last_running_attempt: None,
        failure_count: None,
        next_start_unix_ms: Some(0),
        blocked: Some(BlockedState::Blocked(detail)),
    }
}

/// What the catalog is told of a definition whose switches a client sets: it is
/// not blocked, and starts at once.
pub fn switch_change<'a>(enabled: Option<bool>, desired_running: Option<bool>) -> (c:
    LifecycleChange<'a>)
    ensures
        c == (LifecycleChange {
            enabled,
            desired_running,
            attempt: None,
            last_running_attempt: None,
            failure_count: None,
            next_start_unix_ms: Some(0),
            blocked: Some(BlockedState::Clear),
        }),
{
    LifecycleChange {
        enabled,
        desired_running,
        attempt: None,
        last_running_attempt: None,
        failure_count: None,
        next_start_unix_ms: Some(0),
        blocked: Some(BlockedState::Clear),
    }
}

/// Every run request ends: a step that does something brings it nearer to its
/// end.
pub proof fn law_run_ends(s: RunStage, step: RunStep)
    ensures
        next_run(s, step) == s || run_progress(next_run(s, step)) > run_progress(s),
        run_progress(s) <= run_progress(RunStage::Done),
{
}

/// A run request is answered exactly once, and not at all only where its
/// connection's jobs were cancelled.
pub proof fn law_run_is_answered_once(s: RunStage, step: RunStep)
    ensures
        next_run(RunStage::Answering, step) == RunStage::Answering || next_run(
            RunStage::Answering,
            step,
        ) == RunStage::Done,
        next_run(RunStage::Done, step) == RunStage::Done,
        s != RunStage::Done && next_run(s, step) == RunStage::Done ==> (s == RunStage::Answering
            && step == RunStep::Sent) || step == RunStep::Cancelled,
{
}

/// A run request takes what it holds in one order: the charge for its
/// arguments, then a place, then the catalog. It lets go of everything, and of
/// nothing before its end.
pub proof fn law_run_takes_in_order(s: RunStage, step: RunStep, stored: bool)
    ensures
        spec_run_held(s, stored).place ==> spec_run_held(s, stored).arguments,
        spec_run_held(s, stored).catalog ==> spec_run_held(s, stored).place && stored,
        ({
            let before = spec_run_held(s, stored);
            let after = spec_run_held(next_run(s, step), stored);
            if next_run(s, step) == RunStage::Done {
                !after.arguments && !after.place && !after.catalog
            } else {
                &&& before.arguments ==> after.arguments
                &&& before.place ==> after.place
                &&& before.catalog ==> after.catalog
            }
        }),
        s == RunStage::Committing || s == RunStage::Replacing || s == RunStage::Clearing
            ==> spec_run_held(s, stored).catalog == stored,
{
}

/// A change of lifecycle is stored only after it was allowed, and for a
/// definition that is to run again only once its object is pinned. Until it is
/// answered, a persistent definition's catalog serves nobody else.
pub proof fn law_change_is_allowed_first(s: ControlStage, step: ControlStep)
    ensures
        next_control(s, step) is Writing && !(s is Writing) ==> (s is Planning && step is Allowed)
            || (s is Repairing && step is Repaired),
        s is Planning && step == (ControlStep::Allowed { repin: true }) && spec_holds_catalog(s)
            ==> next_control(s, step) is Repairing,
        spec_holds_catalog(s) && !(next_control(s, step) is Done) ==> spec_holds_catalog(
            next_control(s, step),
        ),
        !spec_holds_catalog(ControlStage::Done),
        next_control(s, step) is Done ==> s is Done || (s is Answering && step is Sent),
{
}

/// The number of an attempt of a persistent definition is stored before the
/// definition is committed to the attempt, so that no number is given out twice,
/// and a program is spawned only then. While it is stored, nobody else changes
/// the catalog.
pub proof fn law_number_is_stored_first(s: PrepareStage, step: PrepareStep)
    ensures
        next_prepare(s, step, true) == PrepareStage::Committing && s != PrepareStage::Committing
            ==> s == PrepareStage::Storing && step == PrepareStep::Went,
        forall|persistent: bool|
            #![trigger next_prepare(s, step, persistent)]
            next_prepare(s, step, persistent) == PrepareStage::Spawning && s
                != PrepareStage::Spawning ==> s == PrepareStage::Committing && step
                == PrepareStep::Went,
        forall|resident: bool|
            #![trigger spec_prepares_alone(s, true, resident)]
            s == PrepareStage::Storing ==> spec_prepares_alone(s, true, resident),
{
}

} // verus!
