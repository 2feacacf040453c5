//! The supervisor of a definition: it runs attempt after attempt for as long
//! as the definition is wanted.

use vstd::prelude::*;

use crate::extension::attempt::NextAttempt;
use crate::extension::definition::Definition;
use crate::extension::protocol::Phase;
use crate::extension::release::Release;
use crate::extension::run::lemma_held;
use crate::extension::service::{lemma_changed, only_definition, removed, Service};

verus! {

/// What a supervisor finds at the head of its loop.
#[derive(Clone, Copy, Debug, PartialEq, Eq, Structural)]
pub enum Head {
    /// The definition is gone.
    Gone,
    /// The definition is to run; it is announced as queued.
    Run { generation: u64 },
    /// The definition is not to run.
    Rest { shutting_down: bool, persistent: bool, generation: u64 },
}

/// Whether a definition is to run.
pub open spec fn to_run(s: Service, id: u64) -> bool {
    let d = s.spec_definitions()[id];
    !s.shutting_down && d.spec_wanted() && d.phase != Phase::NeedObject
}

/// What the head of the loop makes of a definition.
pub open spec fn at_head(s: Service, id: u64) -> Definition {
    let d = s.spec_definitions()[id];
    if to_run(s, id) {
        Definition { phase: Phase::Queued, task_id: 0, next_start_unix_ms: 0, ..d }
    } else if d.phase != Phase::NeedObject {
        Definition { phase: Phase::Stopped, task_id: 0, next_start_unix_ms: 0, ..d }
    } else {
        d
    }
}

/// Whether a definition is still queued under the generation with which it
/// began to wait.
pub open spec fn still_queued(s: Service, id: u64, generation: u64) -> bool {
    let d = s.spec_definitions()[id];
    !s.shutting_down && s.has(id) && d.generation == generation && d.spec_wanted()
}

/// Whether a supervisor may start.
pub open spec fn may_supervise(s: Service, id: u64) -> bool {
    let d = s.spec_definitions()[id];
    &&& !s.shutting_down
    &&& s.has(id)
    &&& d.spec_wanted()
    &&& d.phase != Phase::NeedObject
    &&& !s.supervisors@.dom().contains(id)
}

/// What a blocked definition waits for.
#[derive(Clone, Copy, Debug, PartialEq, Eq, Structural)]
pub enum BlockedWait {
    /// Nothing: it is gone.
    Gone,
    /// Nothing: a persistent definition stays as it is, without a supervisor.
    Persistent,
    /// Nothing: its owner is gone, and it is let go.
    Ownerless { generation: u64 },
    /// Being woken; while its owner is there no lease ends it.
    Owned,
    /// Being woken, or the end of its replay lease.
    Leased { generation: u64 },
}

/// What a blocked definition waits for.
pub open spec fn blocked_wait(s: Service, id: u64) -> BlockedWait {
    let d = s.spec_definitions()[id];
    if !s.has(id) {
        BlockedWait::Gone
    } else if d.spec_persistent() {
        BlockedWait::Persistent
    } else {
        match d.owner_endpoint {
            Some(owner) => if s.endpoints@.dom().contains(owner) {
                BlockedWait::Owned
            } else {
                BlockedWait::Ownerless { generation: d.generation }
            },
            None => BlockedWait::Leased { generation: d.generation },
        }
    }
}

/// What a definition that was woken from its block is to do.
#[derive(Clone, Copy, Debug, PartialEq, Eq, Structural)]
pub enum BlockedWake {
    /// It runs again.
    Restart,
    /// It is let go, if it has not changed since.
    Release { generation: u64 },
    Gone,
}

/// What a stopped definition waits for.
#[derive(Clone, Copy, Debug, PartialEq, Eq, Structural)]
pub enum StopWait {
    /// Nothing: it is gone.
    Gone,
    /// Nothing: a persistent definition stays as it is.
    Persistent,
    /// The end of its replay lease, or being woken.
    Leased { generation: u64 },
}

impl Service {
    /// Takes a definition under supervision, unless it is already, or is not to
    /// run.
    pub fn ensure_supervisor(&mut self, id: u64) -> (start: bool)
        requires
            old(self).wf(),
        ensures
            final(self).wf(),
            start == may_supervise(*old(self), id),
            !start ==> *final(self) == *old(self),
            start ==> *final(self) == (Service {
                supervisors: final(self).supervisors,
                ..*old(self)
            }) && final(self).supervisors@ == old(self).supervisors@.insert(id, ()),
    {
        let eligible: bool = match self.registry.definitions.get(id) {
            None => false,
            Some(d) => d.wanted() && match d.phase {
                Phase::NeedObject => false,
                _ => true,
            },
        };
        if self.shutting_down || !eligible || self.supervisors.contains(id) {
            return false;
        }
        self.supervisors.insert(id, ());
        true
    }

    /// Ends the supervision of a definition.
    pub fn leave(&mut self, id: u64)
        requires
            old(self).wf(),
        ensures
            final(self).wf(),
            *final(self) == (Service { supervisors: final(self).supervisors, ..*old(self) }),
            final(self).supervisors@ == old(self).supervisors@.remove(id),
    {
        let _ = self.supervisors.remove(id);
    }

    /// The head of a supervisor's loop.
    pub fn supervise_head(&mut self, id: u64) -> (h: Head)
        requires
            old(self).wf(),
        ensures
            final(self).wf(),
            !old(self).has(id) ==> h is Gone && *final(self) == (Service {
                supervisors: final(self).supervisors,
                ..*old(self)
            }) && final(self).supervisors@ == old(self).supervisors@.remove(id),
            old(self).has(id) ==> {
                let d = old(self).spec_definitions()[id];
                &&& only_definition(*old(self), *final(self), id)
                &&& final(self).spec_definitions()[id] == at_head(*old(self), id)
                &&& h == if to_run(*old(self), id) {
                    Head::Run { generation: d.generation }
                } else {
                    Head::Rest {
                        shutting_down: old(self).shutting_down,
                        persistent: d.spec_persistent(),
                        generation: d.generation,
                    }
                }
            },
    {
        let ghost start = *self;
        let shutting_down: bool = self.shutting_down;
        if !self.registry.definitions.contains(id) {
            let _ = self.supervisors.remove(id);
            return Head::Gone;
        }
        let h = match self.registry.definitions.get_mut(id) {
            None => Head::Gone,
            Some(d) => {
                proof {
                    lemma_held(start, id);
                }
                let waits: bool = match d.phase {
                    Phase::NeedObject => true,
                    _ => false,
                };
                if shutting_down || !d.wanted() || waits {
                    if !waits {
                        d.phase = Phase::Stopped;
                        d.task_id = 0;
                        d.next_start_unix_ms = 0;
                    }
                    Head::Rest {
                        shutting_down,
                        persistent: d.persistent(),
                        generation: d.generation,
                    }
                } else {
                    d.phase = Phase::Queued;
                    d.task_id = 0;
                    d.next_start_unix_ms = 0;
                    Head::Run { generation: d.generation }
                }
            },
        };
        proof {
            lemma_changed(start, *self, id);
        }
        h
    }

    /// Ends the supervision of a definition that rests because the server shuts
    /// down, and takes a transient one away; ends that of a persistent one. A
    /// transient one at rest goes on to wait.
    pub fn rest(&mut self, id: u64, h: Head) -> (ended: bool)
        requires
            old(self).wf(),
        ensures
            final(self).wf(),
            match h {
                Head::Rest { shutting_down, persistent, .. } => if shutting_down && !persistent {
                    ended && removed(*old(self), *final(self), id)
                } else if shutting_down || persistent {
                    ended && *final(self) == (Service {
                        supervisors: final(self).supervisors,
                        ..*old(self)
                    }) && final(self).supervisors@ == old(self).supervisors@.remove(id)
                } else {
                    !ended && *final(self) == *old(self)
                },
                Head::Gone => ended && *final(self) == *old(self),
                Head::Run { .. } => !ended && *final(self) == *old(self),
            },
    {
        match h {
            Head::Gone => true,
            Head::Run { .. } => false,
            Head::Rest { shutting_down, persistent, .. } => {
                if shutting_down && !persistent {
                    let _ = self.remove_definition(id);
                    true
                } else if shutting_down || persistent {
                    let _ = self.supervisors.remove(id);
                    true
                } else {
                    false
                }
            },
        }
    }

    /// Whether a definition still waits for its turn to run.
    pub fn is_still_queued(&self, id: u64, generation: u64) -> (r: bool)
        requires
            self.wf(),
        ensures
            r == still_queued(*self, id, generation),
    {
        if self.shutting_down {
            return false;
        }
        match self.registry.definitions.get(id) {
            None => false,
            Some(d) => d.generation == generation && d.wanted(),
        }
    }

    /// What a blocked definition waits for. A persistent one has no supervisor
    /// from here on.
    pub fn wait_blocked(&mut self, id: u64) -> (w: BlockedWait)
        requires
            old(self).wf(),
        ensures
            final(self).wf(),
            w == blocked_wait(*old(self), id),
            w is Persistent ==> *final(self) == (Service {
                supervisors: final(self).supervisors,
                ..*old(self)
            }) && final(self).supervisors@ == old(self).supervisors@.remove(id),
            !(w is Persistent) ==> *final(self) == *old(self),
    {
        let (persistent, generation, owner) = match self.registry.definitions.get(id) {
            None => {
                return BlockedWait::Gone;
            },
            Some(d) => (d.persistent(), d.generation, d.owner_endpoint),
        };
        if persistent {
            let _ = self.supervisors.remove(id);
            return BlockedWait::Persistent;
        }
        match owner {
            Some(o) => if self.endpoints.contains(o) {
                BlockedWait::Owned
            } else {
                BlockedWait::Ownerless { generation }
            },
            None => BlockedWait::Leased { generation },
        }
    }

    /// What a definition that was woken from its block is to do.
    pub fn wake_blocked(&self, id: u64) -> (w: BlockedWake)
        requires
            self.wf(),
        ensures
            w == if !self.has(id) {
                BlockedWake::Gone
            } else if self.spec_definitions()[id].spec_wanted() {
                BlockedWake::Restart
            } else {
                BlockedWake::Release { generation: self.spec_definitions()[id].generation }
            },
    {
        match self.registry.definitions.get(id) {
            None => BlockedWake::Gone,
            Some(d) => if d.wanted() {
                BlockedWake::Restart
            } else {
                BlockedWake::Release { generation: d.generation }
            },
        }
    }

    /// What a definition waits for whose last attempt is over. It has no
    /// supervisor from here on.
    pub fn wait_stopped(&mut self, id: u64) -> (w: StopWait)
        requires
            old(self).wf(),
        ensures
            final(self).wf(),
            *final(self) == (Service { supervisors: final(self).supervisors, ..*old(self) }),
            final(self).supervisors@ == old(self).supervisors@.remove(id),
            w == if !old(self).has(id) {
                StopWait::Gone
            } else if old(self).spec_definitions()[id].spec_persistent() {
                StopWait::Persistent
            } else {
                StopWait::Leased { generation: old(self).spec_definitions()[id].generation }
            },
    {
        let _ = self.supervisors.remove(id);
        match self.registry.definitions.get(id) {
            None => StopWait::Gone,
            Some(d) => if d.persistent() {
                StopWait::Persistent
            } else {
                StopWait::Leased { generation: d.generation }
            },
        }
    }
}

/// How long arguments that do not fit are waited for before another look, in
/// milliseconds.
pub const PRESSURE_WAIT_MS: u64 = 1_000;

/// Where a supervisor stands. It waits in each stage for the event that takes
/// it on.
#[derive(Clone, Copy, Debug, PartialEq, Eq, Structural)]
pub enum Stage {
    /// Looks at the definition.
    Head,
    /// A transient definition at rest: until it is woken or its lease ends.
    Resting { generation: u64 },
    /// Until there is room to run.
    Queued { generation: u64 },
    /// Until there is room to validate.
    Admitted,
    /// Prepares an attempt.
    Preparing,
    /// Until arguments were released, the definition was woken, or
    /// [`PRESSURE_WAIT_MS`] have passed.
    Pressed,
    /// Tells the definition of the attempt.
    Installing,
    /// Until the attempt's program is ready.
    Readying,
    /// Gives the attempt its task id.
    Assigning,
    /// Runs the attempt to its end and accounts for it.
    Driving,
    /// Blocks the definition; `resumable` if it may run again afterwards,
    /// `prepared` if an attempt had been prepared.
    Blocking { resumable: bool, prepared: bool },
    /// Until a blocked definition was woken or let go.
    Blocked { prepared: bool },
    /// Until a stopped definition was woken or its lease ends.
    Stopped,
    /// Until the wait before the next attempt is over or the definition was
    /// woken.
    BackingOff { wait_ns: u64 },
    /// Over.
    Done,
}

/// What a supervisor met.
#[derive(Clone, Copy, Debug, PartialEq, Eq, Structural)]
pub enum Step {
    Looked(Head),
    Woken,
    LeaseEnded,
    /// There is room, and the definition is still queued.
    Room,
    /// There is no room to be had any more, or the definition is no longer
    /// queued.
    NoRoom,
    Prepared,
    /// The arguments do not fit now.
    Pressure,
    /// Another generation took over.
    Superseded,
    /// The attempt cannot be prepared, or its program is not ready.
    Failed,
    Installed,
    Ready,
    Assigned,
    /// The definition is gone.
    Gone,
    /// No task id could be drawn.
    NoTaskId,
    Finished(NextAttempt),
    /// The definition is blocked or stopped, and that was announced.
    Announced,
    /// A blocked definition is to run again.
    Restart,
    /// A blocked or stopped definition needs no supervisor.
    Settled,
}

/// What a supervisor may hold.
#[derive(Clone, Copy, Debug, PartialEq, Eq, Structural)]
pub struct Held {
    /// A place to run.
    pub running: bool,
    /// A place to validate.
    pub validating: bool,
    /// The charge of arguments that were loaded for an attempt.
    pub arguments: bool,
}

/// What a supervisor may hold in each stage. The charge of loaded arguments
/// goes with a preparation that does not come about; an attempt that is driven
/// has been handed its arguments.
pub open spec fn spec_held(s: Stage) -> Held {
    match s {
        Stage::Admitted => Held { running: true, validating: false, arguments: false },
        Stage::Preparing => Held { running: true, validating: true, arguments: true },
        Stage::Installing => Held { running: true, validating: true, arguments: true },
        Stage::Readying => Held { running: true, validating: true, arguments: true },
        Stage::Assigning => Held { running: true, validating: false, arguments: true },
        Stage::Driving => Held { running: true, validating: false, arguments: false },
        Stage::Blocking { resumable, prepared } => Held {
            running: resumable,
            validating: resumable,
            arguments: prepared,
        },
        Stage::Blocked { prepared } => Held {
            running: false,
            validating: false,
            arguments: prepared,
        },
        _ => Held { running: false, validating: false, arguments: false },
    }
}

pub fn held(s: Stage) -> (h: Held)
    ensures
        h == spec_held(s),
{
    match s {
        Stage::Admitted => Held { running: true, validating: false, arguments: false },
        Stage::Preparing => Held { running: true, validating: true, arguments: true },
        Stage::Installing => Held { running: true, validating: true, arguments: true },
        Stage::Readying => Held { running: true, validating: true, arguments: true },
        Stage::Assigning => Held { running: true, validating: false, arguments: true },
        Stage::Driving => Held { running: true, validating: false, arguments: false },
        Stage::Blocking { resumable, prepared } => Held {
            running: resumable,
            validating: resumable,
            arguments: prepared,
        },
        Stage::Blocked { prepared } => Held {
            running: false,
            validating: false,
            arguments: prepared,
        },
        _ => Held { running: false, validating: false, arguments: false },
    }
}

/// Where a supervisor goes on. A step that cannot come changes nothing.
pub open spec fn next_stage(s: Stage, step: Step) -> Stage {
    match (s, step) {
        (Stage::Head, Step::Looked(Head::Gone)) => Stage::Done,
        (Stage::Head, Step::Looked(Head::Run { generation })) => Stage::Queued { generation },
        (Stage::Head, Step::Looked(Head::Rest { shutting_down, persistent, generation })) =>
            if shutting_down || persistent {
            Stage::Done
        } else {
            Stage::Resting { generation }
        },
        (Stage::Resting { .. }, Step::Woken) => Stage::Head,
        (Stage::Resting { .. }, Step::LeaseEnded) => Stage::Done,
        (Stage::Queued { .. }, Step::Room) => Stage::Admitted,
        (Stage::Queued { .. }, Step::NoRoom) => Stage::Head,
        (Stage::Admitted, Step::Room) => Stage::Preparing,
        (Stage::Admitted, Step::NoRoom) => Stage::Done,
        (Stage::Preparing, Step::Prepared) => Stage::Installing,
        (Stage::Preparing, Step::Pressure) => Stage::Pressed,
        (Stage::Preparing, Step::Superseded) => Stage::Head,
        (Stage::Preparing, Step::Failed) => Stage::Blocking {
            resumable: true,
            prepared: false,
        },
        (Stage::Pressed, Step::Woken) => Stage::Head,
        (Stage::Installing, Step::Installed) => Stage::Readying,
        (Stage::Installing, Step::Superseded) => Stage::Head,
        (Stage::Readying, Step::Ready) => Stage::Assigning,
        (Stage::Readying, Step::Failed) => Stage::Blocking {
            resumable: true,
            prepared: true,
        },
        (Stage::Assigning, Step::Assigned) => Stage::Driving,
        (Stage::Assigning, Step::Gone) => Stage::Done,
        (Stage::Assigning, Step::Superseded) => Stage::Head,
        (Stage::Assigning, Step::NoTaskId) => Stage::Blocking {
            resumable: false,
            prepared: true,
        },
        (Stage::Driving, Step::Finished(NextAttempt::Stop)) => Stage::Stopped,
        (Stage::Driving, Step::Finished(NextAttempt::Immediate)) => Stage::Head,
        (Stage::Driving, Step::Finished(NextAttempt::Backoff(wait_ns))) => Stage::BackingOff {
            wait_ns,
        },
        (Stage::Blocking { resumable, prepared }, Step::Announced) => if resumable {
            Stage::Blocked { prepared }
        } else {
            Stage::Done
        },
        (Stage::Blocked { .. }, Step::Restart) => Stage::Head,
        (Stage::Blocked { .. }, Step::Settled) => Stage::Done,
        (Stage::Stopped, Step::Settled) => Stage::Done,
        (Stage::BackingOff { .. }, Step::Woken) => Stage::Head,
        (Stage::BackingOff { .. }, Step::LeaseEnded) => Stage::Head,
        _ => s,
    }
}

/// Where a supervisor goes on.
pub fn supervise_step(s: Stage, step: Step) -> (r: Stage)
    ensures
        r == next_stage(s, step),
{
    match (s, step) {
        (Stage::Head, Step::Looked(Head::Gone)) => Stage::Done,
        (Stage::Head, Step::Looked(Head::Run { generation })) => Stage::Queued { generation },
        (Stage::Head, Step::Looked(Head::Rest { shutting_down, persistent, generation })) =>
            if shutting_down || persistent {
            Stage::Done
        } else {
            Stage::Resting { generation }
        },
        (Stage::Resting { .. }, Step::Woken) => Stage::Head,
        (Stage::Resting { .. }, Step::LeaseEnded) => Stage::Done,
        (Stage::Queued { .. }, Step::Room) => Stage::Admitted,
        (Stage::Queued { .. }, Step::NoRoom) => Stage::Head,
        (Stage::Admitted, Step::Room) => Stage::Preparing,
        (Stage::Admitted, Step::NoRoom) => Stage::Done,
        (Stage::Preparing, Step::Prepared) => Stage::Installing,
        (Stage::Preparing, Step::Pressure) => Stage::Pressed,
        (Stage::Preparing, Step::Superseded) => Stage::Head,
        (Stage::Preparing, Step::Failed) => Stage::Blocking {
            resumable: true,
            prepared: false,
        },
        (Stage::Pressed, Step::Woken) => Stage::Head,
        (Stage::Installing, Step::Installed) => Stage::Readying,
        (Stage::Installing, Step::Superseded) => Stage::Head,
        (Stage::Readying, Step::Ready) => Stage::Assigning,
        (Stage::Readying, Step::Failed) => Stage::Blocking {
            resumable: true,
            prepared: true,
        },
        (Stage::Assigning, Step::Assigned) => Stage::Driving,
        (Stage::Assigning, Step::Gone) => Stage::Done,
        (Stage::Assigning, Step::Superseded) => Stage::Head,
        (Stage::Assigning, Step::NoTaskId) => Stage::Blocking {
            resumable: false,
            prepared: true,
        },
        (Stage::Driving, Step::Finished(NextAttempt::Stop)) => Stage::Stopped,
        (Stage::Driving, Step::Finished(NextAttempt::Immediate)) => Stage::Head,
        (Stage::Driving, Step::Finished(NextAttempt::Backoff(wait_ns))) => Stage::BackingOff {
            wait_ns,
        },
        (Stage::Blocking { resumable, prepared }, Step::Announced) => if resumable {
            Stage::Blocked { prepared }
        } else {
            Stage::Done
        },
        (Stage::Blocked { .. }, Step::Restart) => Stage::Head,
        (Stage::Blocked { .. }, Step::Settled) => Stage::Done,
        (Stage::Stopped, Step::Settled) => Stage::Done,
        (Stage::BackingOff { .. }, Step::Woken) => Stage::Head,
        (Stage::BackingOff { .. }, Step::LeaseEnded) => Stage::Head,
        (other, _) => other,
    }
}

/// Whether a supervisor that is over this way still has to end its supervision
/// of the definition.
pub fn leaves(s: Stage, step: Step) -> (r: bool)
    ensures
        r == ((s == Stage::Admitted && step == Step::NoRoom) || (s == Stage::Assigning && step
            == Step::Gone)),
{
    match (s, step) {
        (Stage::Admitted, Step::NoRoom) => true,
        (Stage::Assigning, Step::Gone) => true,
        _ => false,
    }
}

/// Whether a supervisor waits in a stage for something that may take long.
pub open spec fn idles(s: Stage) -> bool {
    match s {
        Stage::Resting { .. } => true,
        Stage::Queued { .. } => true,
        Stage::Pressed => true,
        Stage::Blocked { .. } => true,
        Stage::Stopped => true,
        Stage::BackingOff { .. } => true,
        Stage::Done => true,
        _ => false,
    }
}

/// A supervisor that waits holds no place that another could use; contention
/// over arguments is waited out without one.
pub proof fn law_no_place_is_held_while_waiting(s: Stage, step: Step)
    ensures
        idles(s) ==> !spec_held(s).running && !spec_held(s).validating,
        next_stage(s, step) == Stage::Pressed ==> !spec_held(next_stage(s, step)).running,
{
}

/// A place to validate is held only together with a place to run, and both are
/// taken one at a time, the place to run first.
pub proof fn law_places_are_taken_in_order(s: Stage, step: Step)
    ensures
        spec_held(s).validating ==> spec_held(s).running,
        spec_held(next_stage(s, step)).running && !spec_held(s).running ==> step == Step::Room
            && !spec_held(next_stage(s, step)).validating,
        spec_held(next_stage(s, step)).validating && !spec_held(s).validating ==> step
            == Step::Room && spec_held(s).running,
{
}

/// Arguments are charged from the preparation of an attempt on. A preparation
/// that is superseded, does not fit or fails leaves none charged; neither does a
/// supervisor that is over, or one that waits for anything but a block to end.
pub proof fn law_arguments_are_charged_for_an_attempt(s: Stage, step: Step)
    ensures
        s == Stage::Preparing && step != Step::Prepared && next_stage(s, step) != s ==> !spec_held(
            next_stage(s, step),
        ).arguments,
        spec_held(next_stage(s, step)).arguments && !spec_held(s).arguments ==> s
            == Stage::Admitted && next_stage(s, step) == Stage::Preparing,
        !spec_held(Stage::Head).arguments,
        !spec_held(Stage::Driving).arguments,
        !spec_held(Stage::Done).arguments,
        idles(s) && spec_held(s).arguments ==> s is Blocked,
{
}

/// A definition has at most one supervisor: while it has one, none starts.
pub proof fn law_one_supervisor(s: Service, id: u64)
    requires
        s.supervisors@.dom().contains(id),
    ensures
        !may_supervise(s, id),
{
}

} // verus!
