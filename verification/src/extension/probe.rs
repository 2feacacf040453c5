//! Looking an object up before it is used, and when output may go out.

use vstd::prelude::*;

use crate::extension::errors::{ObjectError, ObjectFault};
use crate::extension::run::Probe;

verus! {

/// Where a look-up stands.
pub enum ProbeStage {
    /// The object is read and checked.
    Checking,
    /// It is good and is being written through to the disk.
    Syncing,
    /// The order in which objects were used is being written.
    Recording,
    /// It is bad and its file is being removed.
    Removing,
    Ended,
}

/// What came of the last step of a look-up.
pub enum ProbeEvent {
    Done,
    Failed(ObjectError),
}

/// What a look-up does next.
pub enum ProbeAction {
    /// Note that the object can be run, then write it through.
    MarkAndSync,
    /// Note that the object can be run, then write the order of use.
    MarkAndRecord,
    Record,
    RemoveFile,
    /// Forget the object, and that it is pinned; the look-up is a miss.
    Forget,
    Answer(Probe),
}

/// Whether a fault shows that what is stored is not the object.
pub open spec fn unusable(fault: ObjectFault) -> bool {
    fault == ObjectFault::HashMismatch || fault == ObjectFault::InvalidModule
}

pub open spec fn probe_next(
    stage: ProbeStage,
    event: ProbeEvent,
    durable: bool,
    next: ProbeStage,
    action: ProbeAction,
) -> bool {
    match (stage, event) {
        (ProbeStage::Checking, ProbeEvent::Done) => if durable {
            next is Syncing && action is MarkAndSync
        } else {
            next is Recording && action is MarkAndRecord
        },
        (ProbeStage::Checking, ProbeEvent::Failed(e)) => if e.fault == ObjectFault::Missing {
            next is Ended && action is Forget
        } else if unusable(e.fault) {
            next is Removing && action is RemoveFile
        } else {
            next is Ended && action == ProbeAction::Answer(Probe::Miss)
        },
        (ProbeStage::Syncing, ProbeEvent::Done) => next is Recording && action is Record,
        (ProbeStage::Recording, ProbeEvent::Done) => next is Ended && action
            == ProbeAction::Answer(Probe::Hit),
        (ProbeStage::Syncing, ProbeEvent::Failed(e)) => next is Ended && action
            == ProbeAction::Answer(Probe::Durability(e.text)),
        (ProbeStage::Recording, ProbeEvent::Failed(e)) => next is Ended && action
            == ProbeAction::Answer(Probe::Durability(e.text)),
        (ProbeStage::Removing, ProbeEvent::Done) => next is Ended && action is Forget,
        (ProbeStage::Removing, ProbeEvent::Failed(_)) => next is Ended && action
            == ProbeAction::Answer(Probe::Miss),
        (ProbeStage::Ended, _) => next is Ended && action == ProbeAction::Answer(Probe::Miss),
    }
}

/// One step of a look-up. An object that is good is written through where that
/// is asked for, and the order of use is written before it counts; one that is
/// bad is removed.
pub fn probe_step(stage: ProbeStage, event: ProbeEvent, durable: bool) -> (r: (
    ProbeStage,
    ProbeAction,
))
    ensures
        probe_next(stage, event, durable, r.0, r.1),
{
    match stage {
        ProbeStage::Checking => match event {
            ProbeEvent::Done => if durable {
                (ProbeStage::Syncing, ProbeAction::MarkAndSync)
            } else {
                (ProbeStage::Recording, ProbeAction::MarkAndRecord)
            },
            ProbeEvent::Failed(e) => {
                if e.fault == ObjectFault::Missing {
                    (ProbeStage::Ended, ProbeAction::Forget)
                } else if e.fault == ObjectFault::HashMismatch || e.fault
                    == ObjectFault::InvalidModule {
                    (ProbeStage::Removing, ProbeAction::RemoveFile)
                } else {
                    (ProbeStage::Ended, ProbeAction::Answer(Probe::Miss))
                }
            },
        },
        ProbeStage::Syncing => match event {
            ProbeEvent::Done => (ProbeStage::Recording, ProbeAction::Record),
            ProbeEvent::Failed(e) => (
                ProbeStage::Ended,
                ProbeAction::Answer(Probe::Durability(e.text)),
            ),
        },
        ProbeStage::Recording => match event {
            ProbeEvent::Done => (ProbeStage::Ended, ProbeAction::Answer(Probe::Hit)),
            ProbeEvent::Failed(e) => (
                ProbeStage::Ended,
                ProbeAction::Answer(Probe::Durability(e.text)),
            ),
        },
        ProbeStage::Removing => match event {
            ProbeEvent::Done => (ProbeStage::Ended, ProbeAction::Forget),
            ProbeEvent::Failed(_) => (ProbeStage::Ended, ProbeAction::Answer(Probe::Miss)),
        },
        ProbeStage::Ended => (ProbeStage::Ended, ProbeAction::Answer(Probe::Miss)),
    }
}

/// A look-up that is a hit was checked, and its order of use was written; a
/// durable one was written through before that.
pub proof fn law_hit_was_written(
    stage: ProbeStage,
    event: ProbeEvent,
    durable: bool,
    next: ProbeStage,
    action: ProbeAction,
)
    requires
        probe_next(stage, event, durable, next, action),
    ensures
        action == ProbeAction::Answer(Probe::Hit) ==> stage is Recording && event is Done,
        next is Recording ==> event is Done && (stage is Syncing || stage is Checking && !durable),
        next is Syncing ==> stage is Checking && event is Done && durable,
{
}

/// What an endpoint's writer of output does next.
#[derive(Clone, Copy, Debug, PartialEq, Eq, Structural)]
pub enum WriterStep {
    /// It is no longer the endpoint's.
    Leave,
    /// Wait until something changes.
    Wait,
    /// Offer the endpoint its next record.
    Offer,
}

/// Whether an endpoint's writer goes on: only while it is the endpoint's and
/// the endpoint takes messages; one whose endpoint is behind waits.
pub fn writer_step(
    registered: bool,
    closed: bool,
    gated: bool,
    client_known: bool,
    backpressured: bool,
) -> (r: WriterStep)
    ensures
        r == (if !registered || closed || gated && !client_known {
            WriterStep::Leave
        } else if gated && backpressured {
            WriterStep::Wait
        } else {
            WriterStep::Offer
        }),
{
    if !registered || closed || gated && !client_known {
        WriterStep::Leave
    } else if gated && backpressured {
        WriterStep::Wait
    } else {
        WriterStep::Offer
    }
}

} // verus!
