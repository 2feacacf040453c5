//! One attempt of a definition: prepared, published as running and stopping,
//! finished, or blocked before it ran.

use vstd::prelude::*;

use crate::catalog::{error_text, CatalogError};
use crate::extension::definition::{Control, Definition, Snapshot};
use crate::extension::exit::{
    backoff_cap_ns, backoff_duration, classified, classify_outcome, wait_drawn, AttemptFailure,
    DrivenAttempt, Exit, ExitView, FailureKind, NANOS_PER_MS,
};
use crate::extension::lifecycle::{after_ms, next_generation, switched};
use crate::extension::output::Registry;
use crate::extension::protocol::{
    same_hash, ExitReason, Flags, Interrupt, ObjectHash, Phase, Restart,
};
use crate::extension::run::lemma_held;
use crate::extension::service::{harmless, lemma_changed, lemma_swept, only_definition, Service};
use crate::extension::status::{bounded, bounded_detail};
use crate::id_map::{ascending, lemma_row_of, row_of};
use crate::text::concat3;

verus! {

/// Why an attempt could not be prepared.
pub enum PrepareError {
    /// Its arguments do not fit now; there will be room later.
    ArgumentBudget,
    /// It is no longer wanted.
    Superseded,
    Failed(AttemptFailure),
}

/// An attempt that is being prepared.
#[derive(Clone, Copy)]
pub struct Preparation {
    pub snapshot: Snapshot,
    /// The ticket for arguments that are loaded for this attempt alone.
    pub ticket: Option<u64>,
    pub attempt: u64,
}

/// Whether an error says this.
pub open spec fn fails_with(e: PrepareError, kind: FailureKind, detail: Seq<char>) -> bool {
    e matches PrepareError::Failed(f) && f.kind == kind && f.detail@ == detail
}

/// Whether a definition's arguments are loaded for each attempt.
pub open spec fn loads_arguments(d: Definition) -> bool {
    d.spec_persistent() && d.catalog_committed
}

/// Why a preparation cannot begin.
pub open spec fn prepare_fault(s: Service, id: u64, e: PrepareError) -> bool {
    let d = s.spec_definitions()[id];
    if !s.has(id) {
        fails_with(e, FailureKind::HostFailure, "extension disappeared before validation"@)
    } else if !d.spec_wanted() {
        e is Superseded
    } else if loads_arguments(d) && d.argument_bytes > s.arguments.spec_max() {
        fails_with(
            e,
            FailureKind::HostFailure,
            "persistent extension arguments exceed the argument-store budget"@,
        )
    } else if loads_arguments(d) && s.arguments.spec_used() + d.argument_bytes
        > s.arguments.spec_max() {
        e is ArgumentBudget
    } else {
        d.attempt == u64::MAX && fails_with(
            e,
            FailureKind::HostFailure,
            "extension attempt counter exhausted"@,
        )
    }
}

/// Whether a preparation can begin.
pub open spec fn can_prepare(s: Service, id: u64) -> bool {
    let d = s.spec_definitions()[id];
    &&& s.has(id)
    &&& d.spec_wanted()
    &&& loads_arguments(d) ==> s.arguments.spec_used() + d.argument_bytes <= s.arguments.spec_max()
    &&& d.attempt < u64::MAX
}

/// Whether a definition is still the one that an attempt is prepared for.
pub open spec fn still_current(s: Service, snapshot: Snapshot) -> bool {
    let id = snapshot.extension_id;
    let d = s.spec_definitions()[id];
    &&& !s.shutting_down
    &&& s.has(id)
    &&& d.generation == snapshot.generation
    &&& d.definition_revision == snapshot.definition_revision
    &&& d.hash == snapshot.hash
    &&& d.attempt == snapshot.attempt
    &&& d.spec_wanted()
}

/// The attempt that a publication speaks for.
#[derive(Clone, Copy, Debug, PartialEq, Eq, Structural)]
pub struct Publication {
    pub extension_id: u64,
    pub generation: u64,
    pub definition_revision: u64,
    pub attempt: u64,
    pub task_id: u32,
}

/// Whether a definition is committed to this attempt.
pub open spec fn controls(d: Definition, p: Publication) -> bool {
    d.control == Some(
        Control {
            definition_revision: p.definition_revision,
            attempt: p.attempt,
            task_id: p.task_id,
        },
    )
}

/// Whether an attempt may be published as running.
pub open spec fn may_publish(s: Service, p: Publication) -> bool {
    let d = s.spec_definitions()[p.extension_id];
    &&& !s.shutting_down
    &&& s.has(p.extension_id)
    &&& d.generation == p.generation
    &&& d.definition_revision == p.definition_revision
    &&& d.spec_wanted()
    &&& controls(d, p)
}

/// What a finished attempt does to its definition.
pub struct FinishPlan {
    pub exit: Exit,
    pub failure_count: u32,
    pub phase: Phase,
    pub flags: Flags,
    pub next_start_unix_ms: u64,
    pub generation: u64,
    pub restart: bool,
    pub backoff: bool,
    /// How long to wait, in nanoseconds.
    pub wait_ns: u64,
}

/// What a [`FinishPlan`] says.
pub ghost struct FinishPlanView {
    pub exit: ExitView,
    pub failure_count: u32,
    pub phase: Phase,
    pub flags: Flags,
    pub next_start_unix_ms: u64,
    pub generation: u64,
    pub restart: bool,
    pub backoff: bool,
    pub wait_ns: u64,
}

impl View for FinishPlan {
    type V = FinishPlanView;

    open spec fn view(&self) -> FinishPlanView {
        FinishPlanView {
            exit: self.exit@,
            failure_count: self.failure_count,
            phase: self.phase,
            flags: self.flags,
            next_start_unix_ms: self.next_start_unix_ms,
            generation: self.generation,
            restart: self.restart,
            backoff: self.backoff,
            wait_ns: self.wait_ns,
        }
    }
}

/// After running for so long an attempt clears the count of failures.
pub const STEADY_MS: u64 = 60_000;

/// The count of failures after an attempt.
pub open spec fn failures_after(d: Definition, driven: DrivenAttempt, exit: ExitView) -> u32 {
    let base = if driven.running_for_ms >= STEADY_MS {
        0u32
    } else {
        d.failure_count
    };
    if exit.failure {
        if base == u32::MAX {
            u32::MAX
        } else {
            (base + 1) as u32
        }
    } else if exit.reason == ExitReason::Returned && exit.code == 0 {
        0
    } else {
        base
    }
}

/// Whether an interrupt asks for another attempt at once.
pub open spec fn replaces(i: Option<Interrupt>) -> bool {
    i == Some(Interrupt::Updated) || i == Some(Interrupt::Restarted)
}

/// Whether an interrupt forbids another attempt.
pub open spec fn suppresses(i: Option<Interrupt>) -> bool {
    i is Some && !replaces(i)
}

/// Whether the restart policy asks for another attempt.
pub open spec fn restarts_by_policy(d: Definition, exit: ExitView) -> bool {
    !suppresses(d.interrupt) && d.spec_wanted() && (d.restart == Restart::Always || (exit.failure
        && d.restart == Restart::OnFailure))
}

/// Whether another attempt waits first.
pub open spec fn backs_off(d: Definition, driven: DrivenAttempt) -> bool {
    !replaces(d.interrupt) && restarts_by_policy(d, classified(driven, d.interrupt))
}

/// What a finished attempt does to its definition, where it backs off for
/// `wait_ns`.
pub open spec fn finish_plan(
    d: Definition,
    generation: u64,
    driven: DrivenAttempt,
    now_unix_ms: u64,
    wait_ns: u64,
) -> FinishPlanView {
    let exit = classified(driven, d.interrupt);
    let replace = replaces(d.interrupt);
    let backoff = backs_off(d, driven);
    let restart = replace || backoff;
    FinishPlanView {
        exit,
        failure_count: failures_after(d, driven, exit),
        phase: if backoff {
            Phase::Backoff
        } else if restart {
            Phase::Queued
        } else {
            Phase::Stopped
        },
        flags: if !restart && !suppresses(d.interrupt) {
            switched(d.flags, None, Some(false))
        } else {
            d.flags
        },
        next_start_unix_ms: if backoff {
            after_ms(now_unix_ms, wait_ns / NANOS_PER_MS)
        } else {
            0
        },
        generation: if d.generation == generation && replace {
            next_generation(d.generation)
        } else {
            d.generation
        },
        restart,
        backoff,
        wait_ns: if backoff {
            wait_ns
        } else {
            0
        },
    }
}

/// The definition after a finished attempt.
pub open spec fn finished(
    d: Definition,
    e: Definition,
    plan: FinishPlanView,
    persisted: Result<(), CatalogError>,
    detail_max: nat,
) -> bool {
    let failed = persisted is Err;
    &&& e == (Definition {
        control: None,
        task_id: 0,
        interrupt: None,
        next_start_unix_ms: if failed {
            0
        } else {
            plan.next_start_unix_ms
        },
        failure_count: if !failed {
            plan.failure_count
        } else if plan.failure_count == u32::MAX {
            u32::MAX
        } else {
            (plan.failure_count + 1) as u32
        },
        phase: if failed {
            Phase::Blocked
        } else {
            plan.phase
        },
        flags: plan.flags,
        generation: plan.generation,
        detail: e.detail,
        ..d
    })
    &&& e.detail@ == bounded(
        match persisted {
            Err(x) => error_text(x@),
            Ok(_) => plan.exit.detail,
        },
        detail_max,
    )
}

/// What is told to followers of an attempt's end.
pub struct ExitEvent {
    pub extension_id: u64,
    pub definition_revision: u64,
    pub attempt: u64,
    pub task_id: u32,
    pub output_sequence: u64,
    pub reason: ExitReason,
    pub code: i32,
    pub next_start_unix_ms: u64,
    pub detail: String,
}

/// What follows an attempt.
#[derive(Clone, Copy, Debug, PartialEq, Eq, Structural)]
pub enum NextAttempt {
    Stop,
    Immediate,
    /// After so many nanoseconds.
    Backoff(u64),
}

/// A finished attempt: what to tell, what follows, and whether the definition
/// goes away because its owner did.
pub struct Finished {
    pub event: ExitEvent,
    pub next: NextAttempt,
    pub owner_lost: bool,
}

/// Whether the owner of a transient definition is gone.
pub open spec fn spec_owner_lost(s: Service, d: Definition) -> bool {
    !d.spec_persistent() && (d.owner_endpoint matches Some(owner) && !s.endpoints@.dom().contains(
        owner,
    ))
}

/// A definition that was blocked, or stopped because it is no longer wanted.
pub open spec fn blocked_definition(d: Definition, e: Definition, block: bool) -> bool {
    e == (Definition {
        phase: if block {
            Phase::Blocked
        } else {
            Phase::Stopped
        },
        task_id: 0,
        control: None,
        next_start_unix_ms: 0,
        detail: e.detail,
        ..d
    })
}

/// What is told of a blocked definition whose state could not be persisted.
pub open spec fn unpersisted(detail: Seq<char>, e: CatalogError, max: nat) -> Seq<char> {
    bounded(detail + "; could not persist blocked state: "@ + error_text(e@), max)
}

/// The first bytes of a WebAssembly module.
pub open spec fn spec_is_wasm(object: Seq<u8>) -> bool {
    object.len() >= 4 && object[0] == 0 && object[1] == 97 && object[2] == 115 && object[3] == 109
}

/// Whether an object is a WebAssembly module; any other is source text.
pub fn is_wasm_module(object: &[u8]) -> (r: bool)
    ensures
        r == spec_is_wasm(object@),
{
    object.len() >= 4 && object[0] == 0 && object[1] == 97 && object[2] == 115 && object[3] == 109
}

fn fail(kind: FailureKind, detail: &str) -> (e: PrepareError)
    ensures
        fails_with(e, kind, detail@),
{
    PrepareError::Failed(AttemptFailure { kind, detail: detail.to_owned() })
}

fn saturating_next(n: u32) -> (r: u32)
    ensures
        r == if n == u32::MAX {
            u32::MAX
        } else {
            (n + 1) as u32
        },
{
    n.saturating_add(1)
}

/// Whether the preparation `p` of an attempt was begun: its arguments are charged
/// under a new ticket where they must be loaded, and nothing else changed.
pub open spec fn preparation_begun(before: Service, after: Service, id: u64, p: Preparation) -> bool {
    let d = before.spec_definitions()[id];
    &&& after == (Service { tickets: after.tickets, arguments: after.arguments, ..before })
    &&& after.arguments.spec_max() == before.arguments.spec_max()
    &&& p.snapshot == d.spec_snapshot()
    &&& p.attempt == d.attempt + 1
    &&& p.ticket is Some == loads_arguments(d)
    &&& match p.ticket {
        None => after == before,
        Some(t) => {
            &&& !before.tickets@.dom().contains(t)
            &&& after.tickets@ == before.tickets@.insert(t, d.argument_bytes)
            &&& after.arguments.spec_used() == before.arguments.spec_used() + d.argument_bytes
        },
    }
}

/// Whether what was charged for a preparation was given back, and nothing else
/// changed.
pub open spec fn charge_returned(before: Service, after: Service, p: Preparation) -> bool {
    &&& after == (Service { tickets: after.tickets, arguments: after.arguments, ..before })
    &&& after.arguments.spec_max() == before.arguments.spec_max()
    &&& match p.ticket {
        None => after == before,
        Some(t) => {
            &&& after.tickets@ == before.tickets@.remove(t)
            &&& after.arguments.spec_used() == if before.tickets@.dom().contains(t) {
                before.arguments.spec_used() - before.tickets@[t]
            } else {
                before.arguments.spec_used() as int
            }
        },
    }
}

/// A preparation that does not come about leaves no argument bytes charged:
/// `mid` is the service when it ends, with the ticket still held, whatever
/// happened meanwhile.
pub proof fn law_ended_preparation_charges_nothing(
    before: Service,
    begun: Service,
    mid: Service,
    after: Service,
    id: u64,
    p: Preparation,
)
    requires
        preparation_begun(before, begun, id, p),
        p.ticket matches Some(t) ==> mid.tickets@.dom().contains(t) && mid.tickets@[t]
            == begun.tickets@[t],
        charge_returned(mid, after, p),
    ensures
        p.ticket matches Some(t) ==> {
            &&& !after.tickets@.dom().contains(t)
            &&& after.arguments.spec_used() == mid.arguments.spec_used()
                - p.snapshot.argument_bytes
        },
        mid == begun ==> after.tickets@ == before.tickets@ && after.arguments.spec_used()
            == before.arguments.spec_used(),
{
    if mid == begun {
        assert(after.tickets@ =~= before.tickets@);
    }
}

/// Plans what a finished attempt does, with the wait that was drawn for it.
pub fn plan_finish_with(
    d: &Definition,
    generation: u64,
    driven: &DrivenAttempt,
    now_unix_ms: u64,
    wait_ns: u64,
) -> (p: FinishPlan)
    ensures
        p@ == finish_plan(*d, generation, *driven, now_unix_ms, wait_ns),
{
    let exit = classify_outcome(driven, d.interrupt);
    let replace: bool = match d.interrupt {
        Some(Interrupt::Updated) => true,
        Some(Interrupt::Restarted) => true,
        _ => false,
    };
    let suppress: bool = d.interrupt.is_some() && !replace;
    let base: u32 = if driven.running_for_ms >= STEADY_MS {
        0
    } else {
        d.failure_count
    };
    let returned: bool = match exit.reason {
        ExitReason::Returned => true,
        _ => false,
    };
    let failure_count: u32 = if exit.failure {
        saturating_next(base)
    } else if returned && exit.code == 0 {
        0
    } else {
        base
    };
    let policy: bool = match d.restart {
        Restart::Always => true,
        Restart::OnFailure => exit.failure,
        Restart::Never => false,
    };
    let automatic: bool = !suppress && d.wanted() && policy;
    let restart: bool = replace || automatic;
    let backoff: bool = restart && !replace;
    let phase = if backoff {
        Phase::Backoff
    } else if restart {
        Phase::Queued
    } else {
        Phase::Stopped
    };
    let flags = if !restart && !suppress {
        Flags {
            detach: d.flags.detach,
            persist: d.flags.persist,
            enabled: d.flags.enabled,
            desired_running: false,
        }
    } else {
        d.flags
    };
    FinishPlan {
        exit,
        failure_count,
        phase,
        flags,
        next_start_unix_ms: if backoff {
            now_unix_ms.saturating_add(wait_ns / NANOS_PER_MS)
        } else {
            0
        },
        generation: if d.generation == generation && replace {
            d.generation.saturating_add(1)
        } else {
            d.generation
        },
        restart,
        backoff,
        wait_ns: if backoff {
            wait_ns
        } else {
            0
        },
    }
}

impl Service {
    /// Begins to prepare an attempt: it has a number, and room for its
    /// arguments where they must be loaded.
    pub fn begin_prepare(&mut self, id: u64) -> (out: Result<Preparation, PrepareError>)
        requires
            old(self).wf(),
        ensures
            final(self).wf(),
            match out {
                Err(e) => {
                    &&& !can_prepare(*old(self), id)
                    &&& prepare_fault(*old(self), id, e)
                    &&& *final(self) == (Service {
                        tickets: final(self).tickets,
                        arguments: final(self).arguments,
                        ..*old(self)
                    })
                    &&& final(self).tickets@ == old(self).tickets@
                    &&& final(self).arguments.spec_max() == old(self).arguments.spec_max()
                    &&& final(self).arguments.spec_used() == old(self).arguments.spec_used()
                },
                Ok(p) => can_prepare(*old(self), id) && preparation_begun(
                    *old(self),
                    *final(self),
                    id,
                    p,
                ),
            },
    {
        let ghost start = *self;
        let snapshot = match self.registry.definitions.get(id) {
            None => {
                return Err(
                    fail(FailureKind::HostFailure, "extension disappeared before validation"),
                );
            },
            Some(d) => {
                if !d.wanted() {
                    return Err(PrepareError::Superseded);
                }
                d.snapshot()
            },
        };
        let mut ticket: Option<u64> = None;
        if snapshot.flags.persist && snapshot.catalog_committed {
            if snapshot.argument_bytes > self.arguments.max() {
                return Err(
                    fail(
                        FailureKind::HostFailure,
                        "persistent extension arguments exceed the argument-store budget",
                    ),
                );
            }
            match self.reserve_arguments(snapshot.argument_bytes) {
                None => {
                    return Err(PrepareError::ArgumentBudget);
                },
                Some(t) => {
                    ticket = Some(t);
                },
            }
        }
        if snapshot.attempt == u64::MAX {
            match ticket {
                Some(t) => {
                    self.release_ticket(t);
                    proof {
                        assert(self.tickets@ =~= start.tickets@);
                    }
                },
                None => {},
            }
            return Err(
                fail(FailureKind::HostFailure, "extension attempt counter exhausted"),
            );
        }
        Ok(Preparation { snapshot, ticket, attempt: snapshot.attempt + 1 })
    }

    /// Gives back what was charged for a preparation: it does not come about, or
    /// its arguments have been handed on.
    pub fn end_preparation(&mut self, p: &Preparation)
        requires
            old(self).wf(),
        ensures
            final(self).wf(),
            charge_returned(*old(self), *final(self), *p),
    {
        match p.ticket {
            None => {},
            Some(t) => {
                self.release_ticket(t);
            },
        }
    }

    /// Whether a definition is still the one that an attempt is prepared for.
    pub fn is_still_current(&self, snapshot: &Snapshot) -> (r: bool)
        requires
            self.wf(),
        ensures
            r == still_current(*self, *snapshot),
    {
        if self.shutting_down {
            return false;
        }
        match self.registry.definitions.get(snapshot.extension_id) {
            None => false,
            Some(d) => d.generation == snapshot.generation && d.definition_revision
                == snapshot.definition_revision && same_hash(&d.hash, &snapshot.hash) && d.attempt
                == snapshot.attempt && d.wanted(),
        }
    }

    /// Commits to a prepared attempt, if it is still wanted; the definition is
    /// then to be announced.
    pub fn commit_prepare(&mut self, p: &Preparation) -> (committed: bool)
        requires
            old(self).wf(),
        ensures
            final(self).wf(),
            committed == still_current(*old(self), p.snapshot),
            !committed ==> *final(self) == *old(self),
            committed ==> {
                let id = p.snapshot.extension_id;
                let e = final(self).spec_definitions()[id];
                &&& only_definition(*old(self), *final(self), id)
                &&& e == (Definition {
                    phase: Phase::Validating,
                    attempt: p.attempt,
                    task_id: 0,
                    detail: e.detail,
                    ..old(self).spec_definitions()[id]
                })
                &&& e.detail@ == ""@
            },
    {
        if !self.is_still_current(&p.snapshot) {
            return false;
        }
        let ghost start = *self;
        let id: u64 = p.snapshot.extension_id;
        match self.registry.definitions.get_mut(id) {
            None => {},
            Some(d) => {
                proof {
                    lemma_held(start, id);
                }
                d.phase = Phase::Validating;
                d.attempt = p.attempt;
                d.task_id = 0;
                d.detail = "".to_owned();
            },
        }
        proof {
            lemma_changed(start, *self, id);
        }
        true
    }

    /// Every definition of an object loses its pin, because the object is gone.
    pub fn mark_hash_unpinned(&mut self, hash: &ObjectHash)
        requires
            old(self).wf(),
        ensures
            final(self).wf(),
            *final(self) == (Service { registry: final(self).registry, ..*old(self) }),
            final(self).registry.packets == old(self).registry.packets,
            final(self).spec_definitions().dom() == old(self).spec_definitions().dom(),
            forall|k: u64| #[trigger]
                old(self).has(k) ==> final(self).spec_definitions()[k] == (if old(
                    self).spec_definitions()[k].hash == *hash {
                    Definition { object_pinned: false, ..old(self).spec_definitions()[k] }
                } else {
                    old(self).spec_definitions()[k]
                }),
    {
        let ghost start = *self;
        let ghost rows0 = self.registry.definitions.spec_rows();
        proof {
            self.registry.definitions.lemma_rows();
        }
        let n: usize = self.registry.definitions.len();
        let mut i: usize = 0;
        while i < n
            invariant
                i <= n,
                n == rows0.len(),
                ascending(rows0),
                self.registry.definitions.wf(),
                self.registry.definitions.spec_rows().len() == n,
                *self == (Service { registry: self.registry, ..start }),
                self.registry == (Registry {
                    definitions: self.registry.definitions,
                    ..start.registry
                }),
                forall|k: int|
                    0 <= k < n ==> (#[trigger] self.registry.definitions.spec_rows()[k]).0
                        == rows0[k].0,
                forall|k: int|
                    i <= k < n ==> #[trigger] self.registry.definitions.spec_rows()[k] == rows0[k],
                forall|k: int|
                    0 <= k < i ==> (#[trigger] self.registry.definitions.spec_rows()[k]).1 == (
                    if rows0[k].1.hash == *hash {
                        Definition { object_pinned: false, ..rows0[k].1 }
                    } else {
                        rows0[k].1
                    }),
            decreases n - i,
        {
            let d = self.registry.definitions.at_mut(i);
            if same_hash(&d.hash, hash) {
                d.object_pinned = false;
            }
            i = i + 1;
        }
        proof {
            let rows1 = self.registry.definitions.spec_rows();
            self.registry.definitions.lemma_rows();
            lemma_same_ids(rows0, rows1);
            assert forall|k: u64| #[trigger] start.has(k) implies self.spec_definitions()[k] == (
            if start.spec_definitions()[k].hash == *hash {
                Definition { object_pinned: false, ..start.spec_definitions()[k] }
            } else {
                start.spec_definitions()[k]
            }) by {
                let x = row_of(rows0, k);
                lemma_row_of(rows0, x);
                lemma_row_of(rows1, x);
                assert(rows1[x].0 == k);
            }
            assert forall|k: u64| #[trigger] start.has(k) implies harmless(
                start.spec_definitions()[k],
                self.spec_definitions()[k],
            ) && self.spec_definitions()[k].argument_reservation
                == start.spec_definitions()[k].argument_reservation by {
                lemma_held(start, k);
            }
            lemma_swept(start, *self);
        }
    }

    /// Takes note of the attempt that is being prepared, unless it was
    /// superseded.
    pub fn install_preparation(&mut self, id: u64, generation: u64, revision: u64, attempt: u64) -> (r:
        bool)
        requires
            old(self).wf(),
        ensures
            final(self).wf(),
            r == (!old(self).shutting_down && old(self).has(id) && ({
                let d = old(self).spec_definitions()[id];
                d.generation == generation && d.definition_revision == revision && d.spec_wanted()
            })),
            !r ==> *final(self) == *old(self),
            r ==> only_definition(*old(self), *final(self), id) && final(
                self).spec_definitions()[id] == (Definition {
                control: Some(Control { definition_revision: revision, attempt, task_id: 0 }),
                interrupt: None,
                ..old(self).spec_definitions()[id]
            }),
    {
        let ghost start = *self;
        if self.shutting_down {
            return false;
        }
        let valid: bool = match self.registry.definitions.get(id) {
            None => false,
            Some(d) => d.generation == generation && d.definition_revision == revision
                && d.wanted(),
        };
        if !valid {
            return false;
        }
        match self.registry.definitions.get_mut(id) {
            None => {},
            Some(d) => {
                proof {
                    lemma_held(start, id);
                }
                d.control = Some(Control { definition_revision: revision, attempt, task_id: 0 });
                d.interrupt = None;
            },
        }
        proof {
            lemma_changed(start, *self, id);
        }
        true
    }

    /// Whether a prepared attempt may get its task id.
    pub fn may_assign(&self, id: u64, generation: u64, revision: u64, attempt: u64) -> (r: bool)
        requires
            self.wf(),
        ensures
            r == assignable(*self, id, generation, revision, attempt),
    {
        if self.shutting_down {
            return false;
        }
        match self.registry.definitions.get(id) {
            None => false,
            Some(d) => d.generation == generation && d.wanted() && match d.control {
                Some(c) => c.definition_revision == revision && c.attempt == attempt && c.task_id
                    == 0,
                None => false,
            },
        }
    }

    /// Gives a prepared attempt its task id.
    pub fn assign_task(
        &mut self,
        id: u64,
        generation: u64,
        revision: u64,
        attempt: u64,
        task_id: u32,
    )
        requires
            old(self).wf(),
            assignable(*old(self), id, generation, revision, attempt),
            old(self).task_id_free(task_id),
        ensures
            final(self).wf(),
            final(self).tasks@ == old(self).tasks@.insert(task_id as u64, ()),
            *final(self) == (Service {
                registry: final(self).registry,
                tasks: final(self).tasks,
                ..*old(self)
            }),
            final(self).registry.packets == old(self).registry.packets,
            final(self).spec_definitions() == old(self).spec_definitions().insert(
                id,
                Definition {
                    control: Some(Control { definition_revision: revision, attempt, task_id }),
                    ..old(self).spec_definitions()[id]
                },
            ),
    {
        let ghost start = *self;
        self.tasks.insert(task_id as u64, ());
        match self.registry.definitions.get_mut(id) {
            None => {},
            Some(d) => {
                proof {
                    lemma_held(start, id);
                }
                d.control = Some(Control { definition_revision: revision, attempt, task_id });
            },
        }
        proof {
            lemma_changed(start, *self, id);
        }
    }

    /// Checks that an attempt may be published as running.
    pub fn check_publish(&self, p: &Publication) -> (out: Result<(), AttemptFailure>)
        requires
            self.wf(),
        ensures
            out is Ok == may_publish(*self, *p),
            out matches Err(e) ==> e.kind == FailureKind::HostFailure && e.detail@
                == "extension attempt was superseded during bootstrap"@,
    {
        let valid: bool = !self.shutting_down && match self.registry.definitions.get(
            p.extension_id,
        ) {
            None => false,
            Some(d) => d.generation == p.generation && d.definition_revision
                == p.definition_revision && d.wanted() && match d.control {
                Some(c) => c.definition_revision == p.definition_revision && c.attempt == p.attempt
                    && c.task_id == p.task_id,
                None => false,
            },
        };
        if valid {
            Ok(())
        } else {
            Err(
                AttemptFailure {
                    kind: FailureKind::HostFailure,
                    detail: "extension attempt was superseded during bootstrap".to_owned(),
                },
            )
        }
    }

    /// Publishes an attempt as running, once its counters are stored; the
    /// definition is then to be announced.
    pub fn publish_running(&mut self, p: &Publication, persisted: &Result<(), CatalogError>) -> (out:
        Result<(), AttemptFailure>)
        requires
            old(self).wf(),
        ensures
            final(self).wf(),
            match *persisted {
                Err(e) => out matches Err(f) && f.kind == FailureKind::HostFailure && f.detail@
                    == error_text(e@),
                Ok(_) => (out is Ok == may_publish(*old(self), *p)) && (out matches Err(f)
                    ==> f.kind == FailureKind::HostFailure && f.detail@
                    == "extension attempt was superseded during bootstrap"@),
            },
            out is Err ==> *final(self) == *old(self),
            out is Ok ==> {
                let id = p.extension_id;
                let e = final(self).spec_definitions()[id];
                &&& only_definition(*old(self), *final(self), id)
                &&& e == (Definition {
                    phase: Phase::Running,
                    task_id: p.task_id,
                    last_running_attempt: p.attempt,
                    detail: e.detail,
                    ..old(self).spec_definitions()[id]
                })
                &&& e.detail@ == ""@
            },
    {
        match persisted {
            Err(e) => {
                return Err(
                    AttemptFailure { kind: FailureKind::HostFailure, detail: e.text() },
                );
            },
            Ok(_) => {},
        }
        match self.check_publish(p) {
            Err(f) => {
                return Err(f);
            },
            Ok(_) => {},
        }
        let ghost start = *self;
        let id: u64 = p.extension_id;
        match self.registry.definitions.get_mut(id) {
            None => {},
            Some(d) => {
                proof {
                    lemma_held(start, id);
                }
                d.phase = Phase::Running;
                d.task_id = p.task_id;
                d.last_running_attempt = p.attempt;
                d.detail = "".to_owned();
            },
        }
        proof {
            lemma_changed(start, *self, id);
        }
        Ok(())
    }

    /// Publishes a running attempt as stopping. Where it is no longer the
    /// definition's attempt, or is not running, nothing changes.
    pub fn publish_stopping(&mut self, p: &Publication) -> (emit: bool)
        requires
            old(self).wf(),
        ensures
            final(self).wf(),
            emit == (old(self).has(p.extension_id) && ({
                let d = old(self).spec_definitions()[p.extension_id];
                controls(d, *p) && d.phase == Phase::Running
            })),
            !emit ==> *final(self) == *old(self),
            emit ==> only_definition(*old(self), *final(self), p.extension_id) && final(
                self).spec_definitions()[p.extension_id] == (Definition {
                phase: Phase::Stopping,
                task_id: 0,
                ..old(self).spec_definitions()[p.extension_id]
            }),
    {
        let ghost start = *self;
        let id: u64 = p.extension_id;
        let valid: bool = match self.registry.definitions.get(id) {
            None => false,
            Some(d) => (match d.control {
                Some(c) => c.definition_revision == p.definition_revision && c.attempt == p.attempt
                    && c.task_id == p.task_id,
                None => false,
            }) && (match d.phase {
                Phase::Running => true,
                _ => false,
            }),
        };
        if !valid {
            return false;
        }
        match self.registry.definitions.get_mut(id) {
            None => {},
            Some(d) => {
                proof {
                    lemma_held(start, id);
                }
                d.phase = Phase::Stopping;
                d.task_id = 0;
            },
        }
        proof {
            lemma_changed(start, *self, id);
        }
        true
    }

    /// Whether a failure blocks a definition, and whether that is stored.
    pub fn plan_block(&self, id: u64) -> (r: (bool, bool))
        requires
            self.wf(),
        ensures
            r.0 == (!self.shutting_down && self.has(id)
                && self.spec_definitions()[id].spec_wanted()),
            r.1 == (self.has(id) && self.spec_definitions()[id].spec_persistent()),
    {
        match self.registry.definitions.get(id) {
            None => (false, false),
            Some(d) => (!self.shutting_down && d.wanted(), d.persistent()),
        }
    }

    /// Blocks a definition whose attempt could not be prepared, or stops one
    /// that is no longer wanted. The definition is then to be announced.
    pub fn finish_block(
        &mut self,
        id: u64,
        block: bool,
        detail: &str,
        persisted: &Result<(), CatalogError>,
    )
        requires
            old(self).wf(),
        ensures
            final(self).wf(),
            !old(self).has(id) ==> *final(self) == *old(self),
            old(self).has(id) ==> {
                let max = old(self).limits.detail_max as nat;
                let e = final(self).spec_definitions()[id];
                &&& only_definition(*old(self), *final(self), id)
                &&& blocked_definition(old(self).spec_definitions()[id], e, block)
                &&& e.detail@ == match *persisted {
                    Ok(_) => bounded(detail@, max),
                    Err(x) => unpersisted(bounded(detail@, max), x, max),
                }
            },
    {
        let ghost start = *self;
        let max: usize = self.limits.detail_max;
        let plain = bounded_detail(detail, max);
        let text = match persisted {
            Ok(_) => plain,
            Err(e) => bounded_detail(
                concat3(
                    plain.as_str(),
                    "; could not persist blocked state: ",
                    e.text().as_str(),
                ).as_str(),
                max,
            ),
        };
        match self.registry.definitions.get_mut(id) {
            None => {
                return;
            },
            Some(d) => {
                proof {
                    lemma_held(start, id);
                }
                d.phase = if block {
                    Phase::Blocked
                } else {
                    Phase::Stopped
                };
                d.task_id = 0;
                d.control = None;
                d.next_start_unix_ms = 0;
                d.detail = text;
            },
        }
        proof {
            lemma_changed(start, *self, id);
        }
    }

    /// Gives up an attempt's task id and plans what its end does to the
    /// definition. There is no plan where the definition is gone.
    pub fn plan_finish(
        &mut self,
        id: u64,
        generation: u64,
        task_id: u32,
        driven: &DrivenAttempt,
        now_unix_ms: u64,
    ) -> (out: Option<FinishPlan>)
        requires
            old(self).wf(),
        ensures
            final(self).wf(),
            *final(self) == (Service { tasks: final(self).tasks, ..*old(self) }),
            final(self).tasks@ == old(self).tasks@.remove(task_id as u64),
            out is Some == old(self).has(id),
            out matches Some(p) ==> {
                let d = old(self).spec_definitions()[id];
                let exit = classified(*driven, d.interrupt);
                let after = failures_after(d, *driven, exit);
                let failures: u32 = if after == 0 {
                    1
                } else {
                    after
                };
                &&& p@ == finish_plan(d, generation, *driven, now_unix_ms, p.wait_ns)
                &&& p.wait_ns <= backoff_cap_ns(failures)
                &&& p.backoff ==> wait_drawn(failures, p.wait_ns)
            },
    {
        let _ = self.tasks.remove(task_id as u64);
        match self.registry.definitions.get(id) {
            None => None,
            Some(d) => {
                let dry = plan_finish_with(d, generation, driven, now_unix_ms, 0);
                if !dry.backoff {
                    return Some(dry);
                }
                let failures: u32 = if dry.failure_count == 0 {
                    1
                } else {
                    dry.failure_count
                };
                let wait: u64 = backoff_duration(failures);
                Some(plan_finish_with(d, generation, driven, now_unix_ms, wait))
            },
        }
    }

    /// Makes a finished attempt's plan true, once a persistent definition has
    /// stored it or failed to.
    pub fn finish_attempt(
        &mut self,
        id: u64,
        revision: u64,
        attempt: u64,
        task_id: u32,
        plan: FinishPlan,
        persisted: &Result<(), CatalogError>,
    ) -> (out: Option<Finished>)
        requires
            old(self).wf(),
            old(self).has(id) ==> plan.flags.persist
                == old(self).spec_definitions()[id].flags.persist,
        ensures
            final(self).wf(),
            out is Some == old(self).has(id),
            out is None ==> *final(self) == *old(self),
            out matches Some(f) ==> {
                let max = old(self).limits.detail_max as nat;
                let d = old(self).spec_definitions()[id];
                let e = final(self).spec_definitions()[id];
                let failed = *persisted is Err;
                &&& only_definition(*old(self), *final(self), id)
                &&& finished(d, e, plan@, *persisted, max)
                &&& f.event.extension_id == id
                &&& f.event.definition_revision == revision
                &&& f.event.attempt == attempt
                &&& f.event.task_id == task_id
                &&& f.event.output_sequence == d.next_output_sequence
                &&& f.event.reason == if failed {
                    ExitReason::HostFailure
                } else {
                    plan.exit.reason
                }
                &&& f.event.code == if failed {
                    0
                } else {
                    plan.exit.code
                }
                &&& f.event.next_start_unix_ms == e.next_start_unix_ms
                &&& f.event.detail@ == e.detail@
                &&& f.owner_lost == spec_owner_lost(*old(self), d)
                &&& f.next == if failed || !plan.restart || f.owner_lost {
                    NextAttempt::Stop
                } else if plan.backoff {
                    NextAttempt::Backoff(plan.wait_ns)
                } else {
                    NextAttempt::Immediate
                }
            },
    {
        let ghost start = *self;
        let max: usize = self.limits.detail_max;
        let mut plan = plan;
        let ghost plan0 = plan;
        let mut reason = plan.exit.reason;
        let mut code: i32 = plan.exit.code;
        let mut restart: bool = plan.restart;
        let detail = match persisted {
            Ok(_) => bounded_detail(plan.exit.detail.as_str(), max),
            Err(e) => {
                restart = false;
                reason = ExitReason::HostFailure;
                code = 0;
                plan.phase = Phase::Blocked;
                plan.next_start_unix_ms = 0;
                plan.failure_count = saturating_next(plan.failure_count);
                bounded_detail(e.text().as_str(), max)
            },
        };
        let (sequence, persistent, owner) = match self.registry.definitions.get_mut(id) {
            None => {
                return None;
            },
            Some(d) => {
                proof {
                    lemma_held(start, id);
                }
                d.control = None;
                d.task_id = 0;
                d.interrupt = None;
                d.next_start_unix_ms = plan.next_start_unix_ms;
                d.failure_count = plan.failure_count;
                d.phase = plan.phase;
                d.flags = plan.flags;
                d.generation = plan.generation;
                d.detail = detail.as_str().to_owned();
                (d.next_output_sequence, d.persistent(), d.owner_endpoint)
            },
        };
        proof {
            lemma_changed(start, *self, id);
        }
        let owner_lost: bool = !persistent && match owner {
            Some(o) => !self.endpoints.contains(o),
            None => false,
        };
        let next = if !restart || owner_lost {
            NextAttempt::Stop
        } else if plan.backoff {
            NextAttempt::Backoff(plan.wait_ns)
        } else {
            NextAttempt::Immediate
        };
        Some(
            Finished {
                event: ExitEvent {
                    extension_id: id,
                    definition_revision: revision,
                    attempt,
                    task_id,
                    output_sequence: sequence,
                    reason,
                    code,
                    next_start_unix_ms: plan.next_start_unix_ms,
                    detail,
                },
                next,
                owner_lost,
            },
        )
    }
}

/// Whether a prepared attempt may get its task id: it is still the definition's
/// attempt and has none yet.
pub open spec fn assignable(s: Service, id: u64, generation: u64, revision: u64, attempt: u64) -> bool {
    let d = s.spec_definitions()[id];
    &&& !s.shutting_down
    &&& s.has(id)
    &&& d.generation == generation
    &&& d.spec_wanted()
    &&& d.control == Some(Control { definition_revision: revision, attempt, task_id: 0 })
}

/// Rows that have the same ids in the same order stand for maps of the same
/// ids.
pub proof fn lemma_same_ids(a: Seq<(u64, Definition)>, b: Seq<(u64, Definition)>)
    requires
        a.len() == b.len(),
        forall|k: int| 0 <= k < a.len() ==> (#[trigger] b[k]).0 == a[k].0,
    ensures
        crate::id_map::rows_map(a).dom() == crate::id_map::rows_map(b).dom(),
{
    let ma = crate::id_map::rows_map(a);
    let mb = crate::id_map::rows_map(b);
    assert forall|k: u64| ma.dom().contains(k) == mb.dom().contains(k) by {
        if crate::id_map::has_row(a, k) {
            let i = row_of(a, k);
            assert(b[i].0 == k);
        }
        if crate::id_map::has_row(b, k) {
            let i = row_of(b, k);
            assert(a[i].0 == k);
        }
    }
    assert(ma.dom() =~= mb.dom());
}

/// An attempt that was not interrupted runs again only as its restart policy
/// says; one that was cancelled, disabled or shut down never does.
pub proof fn law_restart_policy(
    d: Definition,
    generation: u64,
    driven: DrivenAttempt,
    now_unix_ms: u64,
    wait_ns: u64,
)
    ensures
        ({
            let p = finish_plan(d, generation, driven, now_unix_ms, wait_ns);
            &&& suppresses(d.interrupt) ==> !p.restart
            &&& d.interrupt is None && d.restart == Restart::Never ==> !p.restart
            &&& d.interrupt is None && d.restart == Restart::OnFailure && !p.exit.failure
                ==> !p.restart
            &&& d.interrupt is None && d.spec_wanted() && d.restart == Restart::Always
                ==> p.restart && p.backoff
            &&& d.interrupt is None && !p.restart ==> !p.flags.desired_running
            &&& p.restart && !p.backoff ==> replaces(d.interrupt)
        }),
{
}

} // verus!
