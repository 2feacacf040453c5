//! Running an extension: a new definition, or the update of a persistent one.
//!
//! A request passes through these steps in turn. It is admitted under a ticket
//! for its arguments; its object is probed outside; then it is decided. A
//! creation is drafted, admitted by the object store or the catalog, and
//! finished. An update is compared with what is stored and finished either way.
//! The ticket is released when the request was answered.

use vstd::prelude::*;

use crate::catalog::{error_text, CatalogError};
use crate::extension::arguments::{
    all_text, arguments_are_text, charge_for, contents, encoded_argument_bytes, same_arguments,
};
use crate::extension::definition::{Control, Definition, FollowerCursor, Snapshot};
use crate::extension::errors::{catalog_status, spec_catalog_status, PinOutcome, Refusal};
use crate::extension::lifecycle::{after_ms, next_generation};
use crate::extension::protocol::{same_hash, Flags, Interrupt, ObjectHash, Phase, Restart, Status};
use crate::extension::replay::{followed_by, followers_of};
use crate::extension::service::{
    census, lemma_changed, lemma_reservation_held, name_taken, reservation, ticket_bytes, Service,
};
use crate::extension::status::{
    creation, creation_status, definition_status, run_error, run_error_status, snapshot_status,
    status_packet, status_packet_with_replay, update_operation, update_operation_status,
    StatusReply, StatusView,
};
use crate::id_map::{lemma_weigh_insert, lemma_weigh_remove, IdMap};

verus! {

/// A request to run an extension, without its arguments.
pub struct RunRequest {
    pub nonce: u16,
    pub update: bool,
    pub persist: bool,
    pub detach: bool,
    pub restart: Restart,
    pub expected_id: u64,
    pub expected_revision: u64,
    pub hash: ObjectHash,
    pub name: String,
}

/// What probing the request's object found.
pub enum Probe {
    Hit,
    Miss,
    /// The object is there but could not be made durable.
    Durability(String),
}

/// A request that was admitted: the ticket for its arguments, and their charge.
#[derive(Clone, Copy, Debug, PartialEq, Eq, Structural)]
pub struct Admission {
    pub ticket: u64,
    pub charge: usize,
}

/// Why a request is refused before its object is looked at.
pub open spec fn run_refusal(s: Service, r: RunRequest, arguments: Seq<Seq<u8>>) -> Option<
    StatusView,
> {
    let max = s.limits.detail_max as nat;
    if r.persist && !s.limits.persist_allowed {
        Some(
            run_error(
                r.nonce,
                Status::Permission,
                r.hash@,
                "persistent extensions are disabled on this server"@,
                max,
            ),
        )
    } else if r.persist && !all_text(arguments) {
        Some(
            run_error(
                r.nonce,
                Status::Invalid,
                r.hash@,
                "persistent extension arguments must be UTF-8"@,
                max,
            ),
        )
    } else if s.arguments.spec_used() + charge_for(arguments) > s.arguments.spec_max() {
        Some(
            run_error(
                r.nonce,
                Status::Budget,
                r.hash@,
                "extension argument store is full"@,
                max,
            ),
        )
    } else {
        None
    }
}

/// Whether the id names the persistent definition that an update is for.
pub open spec fn is_named(m: Map<u64, Definition>, name: Seq<char>, id: u64) -> bool {
    m.dom().contains(id) && m[id].spec_persistent() && m[id].name@ == name
}

/// The persistent definition of that name.
pub open spec fn named(m: Map<u64, Definition>, name: Seq<char>) -> u64 {
    choose|id: u64| is_named(m, name, id)
}

/// What is to be done with an admitted request.
pub enum RunDecision {
    /// It is answered.
    Reply(StatusReply),
    /// It updates this definition: go on with the arguments that are stored.
    Update(Snapshot),
    /// It creates a definition: draw an id and draft it.
    Create,
}

/// What a [`RunDecision`] says.
pub ghost enum RunDecisionView {
    Reply(StatusView),
    Update(Snapshot),
    Create,
}

impl View for RunDecision {
    type V = RunDecisionView;

    open spec fn view(&self) -> RunDecisionView {
        match self {
            RunDecision::Reply(r) => RunDecisionView::Reply(r@),
            RunDecision::Update(s) => RunDecisionView::Update(*s),
            RunDecision::Create => RunDecisionView::Create,
        }
    }
}

/// How an update is decided.
pub open spec fn update_decision(s: Service, r: RunRequest, probe: Probe) -> RunDecisionView {
    let max = s.limits.detail_max as nat;
    let m = s.spec_definitions();
    if !name_taken(m, r.name@) {
        RunDecisionView::Reply(
            run_error(
                r.nonce,
                Status::NotFound,
                r.hash@,
                "persistent extension name does not exist"@,
                max,
            ),
        )
    } else {
        let d = m[named(m, r.name@)];
        if d.extension_id != r.expected_id || d.definition_revision != r.expected_revision {
            RunDecisionView::Reply(
                definition_status(
                    d,
                    r.nonce,
                    Status::Conflict,
                    0,
                    "extension definition changed"@,
                    max,
                ),
            )
        } else {
            match probe {
                Probe::Durability(e) => RunDecisionView::Reply(
                    definition_status(d, r.nonce, Status::Other, 0, e@, max),
                ),
                Probe::Miss => RunDecisionView::Reply(
                    update_operation(
                        d.spec_snapshot(),
                        r.nonce,
                        Phase::NeedObject,
                        r.hash@,
                        r.restart,
                        "module upload required"@,
                        max,
                    ),
                ),
                Probe::Hit => RunDecisionView::Update(d.spec_snapshot()),
            }
        }
    }
}

/// How a creation is decided.
pub open spec fn create_decision(s: Service, endpoint: u64, r: RunRequest, probe: Probe) -> RunDecisionView {
    let max = s.limits.detail_max as nat;
    let rows = s.registry.definitions.spec_rows();
    if r.persist && name_taken(s.spec_definitions(), r.name@) {
        RunDecisionView::Reply(
            run_error(
                r.nonce,
                Status::Conflict,
                r.hash@,
                "persistent extension name already exists"@,
                max,
            ),
        )
    } else if census(rows, r.persist) >= (if r.persist {
        s.limits.max_persistent
    } else {
        s.limits.max_transient
    }) {
        RunDecisionView::Reply(
            run_error(
                r.nonce,
                Status::Budget,
                r.hash@,
                "extension supervisor capacity exhausted"@,
                max,
            ),
        )
    } else if followed_by(rows, endpoint) >= s.limits.follow_max_per_endpoint || followers_of(rows)
        >= s.limits.follow_max {
        RunDecisionView::Reply(
            run_error(
                r.nonce,
                Status::Budget,
                r.hash@,
                "extension follower capacity exhausted"@,
                max,
            ),
        )
    } else {
        match probe {
            Probe::Durability(e) => RunDecisionView::Reply(
                run_error(r.nonce, Status::Other, r.hash@, e@, max),
            ),
            _ => RunDecisionView::Create,
        }
    }
}

/// How an admitted request is decided.
pub open spec fn run_decision(s: Service, endpoint: u64, r: RunRequest, probe: Probe) -> RunDecisionView {
    if s.shutting_down {
        RunDecisionView::Reply(
            run_error(
                r.nonce,
                Status::Other,
                r.hash@,
                "server is shutting down"@,
                s.limits.detail_max as nat,
            ),
        )
    } else if r.update {
        update_decision(s, r, probe)
    } else {
        create_decision(s, endpoint, r, probe)
    }
}

/// A definition as a creation drafts it: enabled, wanted, followed by its
/// creator from the first record on, and owned by it unless detached.
pub open spec fn drafted(
    d: Definition,
    endpoint: u64,
    r: RunRequest,
    arguments: Seq<Seq<u8>>,
    charge: usize,
    id: u64,
    hit: bool,
    now: u64,
    pending_timeout_ms: u64,
) -> bool {
    &&& d.extension_id == id
    &&& d.definition_revision == 1
    &&& d.flags == (Flags {
        detach: r.detach,
        persist: r.persist,
        enabled: true,
        desired_running: true,
    })
    &&& d.restart == r.restart
    &&& d.hash == r.hash
    &&& d.name@ == r.name@
    &&& d.args matches Some(a)
    &&& contents(a@) == arguments
    &&& d.argument_bytes == charge
    &&& d.argument_reservation == charge
    &&& d.owner_endpoint == if r.detach {
        None
    } else {
        Some(endpoint)
    }
    &&& d.phase == if hit {
        Phase::Queued
    } else {
        Phase::NeedObject
    }
    &&& d.attempt == 0
    &&& d.last_running_attempt == 0
    &&& d.task_id == 0
    &&& d.next_start_unix_ms == 0
    &&& d.detail@ == if hit {
        ""@
    } else {
        "module upload required"@
    }
    &&& blank_output(d)
    &&& d.followers@ == Map::<u64, FollowerCursor>::empty().insert(
        endpoint,
        FollowerCursor { next_sequence: 1, replay_through: Some(0) },
    )
    &&& d.pending_deadline == if hit {
        None
    } else {
        Some(after_ms(now, pending_timeout_ms))
    }
    &&& d.release_deadline is None
    &&& d.generation == 1
    &&& d.failure_count == 0
    &&& d.interrupt is None
    &&& d.control is None
    &&& !d.object_pinned
    &&& !d.catalog_committed
}

/// A definition that has put out nothing yet.
pub open spec fn blank_output(d: Definition) -> bool {
    &&& d.next_output_sequence == 1
    &&& d.retained@.len() == 0
    &&& d.terminal_replay@.len() == 0
    &&& d.retained_bytes == 0
    &&& d.followers.wf()
}

/// What admitted a drafted creation.
#[derive(Clone, Copy, Debug, PartialEq, Eq, Structural)]
pub enum Admitted {
    /// Nothing yet: its object is still to come.
    Waiting,
    /// Its object is pinned.
    Pinned,
    /// Its object is pinned and the catalog has it.
    Committed { definition_revision: u64, flags: Flags, argument_bytes: usize },
}

/// The definition that an admitted draft becomes.
pub open spec fn admitted_definition(d: Definition, a: Admitted, shutting_down: bool) -> Definition {
    let e = match a {
        Admitted::Waiting => d,
        Admitted::Pinned => Definition { object_pinned: true, ..d },
        Admitted::Committed { definition_revision, flags, argument_bytes } => Definition {
            definition_revision,
            flags,
            argument_bytes,
            catalog_committed: true,
            object_pinned: true,
            args: None,
            argument_reservation: 0,
            ..d
        },
    };
    if a != Admitted::Waiting && shutting_down {
        Definition { phase: Phase::Stopped, ..e }
    } else {
        e
    }
}

/// How a creation was answered, and whether its supervisor is to start.
pub struct CreateOutcome {
    pub reply: StatusReply,
    pub created: bool,
    pub start: bool,
}

/// How an update goes on.
pub enum UpdateDecision {
    Reply(StatusReply),
    /// Nothing changes; the pin and the blocked state are repaired.
    Unchanged,
    /// The catalog takes the new definition.
    Replace,
}

/// How an update was answered and what it set in motion.
pub struct UpdateOutcome {
    pub reply: StatusReply,
    /// The supervisor to start.
    pub start: Option<u64>,
    /// The definition to announce after the reply.
    pub emit: Option<u64>,
    /// The attempt to cancel.
    pub cancel: Option<Control>,
}

/// What the catalog stored for an update.
#[derive(Clone, Copy, Debug, PartialEq, Eq, Structural)]
pub struct Replacement {
    pub definition_revision: u64,
    pub argument_bytes: usize,
}

/// The definition after an update changed nothing: it is no longer blocked.
pub open spec fn unblocked(d: Definition, e: Definition, shutting_down: bool) -> bool {
    if d.phase == Phase::Blocked {
        &&& e == (Definition {
            detail: e.detail,
            generation: next_generation(d.generation),
            phase: if !shutting_down && d.spec_wanted() {
                Phase::Queued
            } else {
                Phase::Stopped
            },
            ..d
        })
        &&& e.detail@ == ""@
    } else {
        e == d
    }
}

/// The definition after an update replaced it.
pub open spec fn replaced(
    d: Definition,
    e: Definition,
    r: RunRequest,
    up: Replacement,
    shutting_down: bool,
) -> bool {
    &&& e == (Definition {
        definition_revision: up.definition_revision,
        hash: r.hash,
        args: None,
        argument_reservation: 0,
        argument_bytes: up.argument_bytes,
        restart: r.restart,
        object_pinned: true,
        generation: next_generation(d.generation),
        failure_count: 0,
        interrupt: Some(Interrupt::Updated),
        detail: e.detail,
        pending_deadline: None,
        next_start_unix_ms: 0,
        phase: if d.control is Some {
            Phase::Stopping
        } else if !shutting_down && d.spec_wanted() {
            Phase::Queued
        } else {
            Phase::Stopped
        },
        task_id: if d.control is Some {
            0
        } else {
            d.task_id
        },
        ..d
    })
    &&& e.detail@ == ""@
}

/// What became of an update that the catalog did not take.
pub open spec fn update_failed(current: Snapshot, nonce: u16, e: CatalogError, max: nat) -> StatusView {
    snapshot_status(current, nonce, spec_catalog_status(e@), 0, error_text(e@), max)
}

/// An update whose definition is gone.
pub open spec fn update_lost(r: RunRequest, max: nat) -> StatusView {
    run_error(r.nonce, Status::Other, r.hash@, "extension disappeared during update"@, max)
}

impl Service {
    /// Admits a request: it may be made, and its arguments fit.
    pub fn admit_run(&mut self, r: &RunRequest, arguments: &Vec<Vec<u8>>) -> (out: Result<
        Admission,
        StatusReply,
    >)
        requires
            old(self).wf(),
        ensures
            final(self).wf(),
            match out {
                Err(reply) => run_refusal(*old(self), *r, contents(arguments@)) == Some(reply@)
                    && *final(self) == *old(self),
                Ok(a) => {
                    &&& run_refusal(*old(self), *r, contents(arguments@)) is None
                    &&& a.charge == charge_for(contents(arguments@))
                    &&& !old(self).tickets@.dom().contains(a.ticket)
                    &&& *final(self) == (Service {
                        tickets: final(self).tickets,
                        arguments: final(self).arguments,
                        ..*old(self)
                    })
                    &&& final(self).tickets@ == old(self).tickets@.insert(a.ticket, a.charge)
                    &&& final(self).arguments.spec_max() == old(self).arguments.spec_max()
                    &&& final(self).arguments.spec_used() == old(self).arguments.spec_used()
                        + a.charge
                },
            },
    {
        let max: usize = self.limits.detail_max;
        if r.persist && !self.limits.persist_allowed {
            return Err(
                run_error_status(
                    r.nonce,
                    Status::Permission,
                    r.hash,
                    "persistent extensions are disabled on this server",
                    max,
                ),
            );
        }
        if r.persist && !arguments_are_text(arguments) {
            return Err(
                run_error_status(
                    r.nonce,
                    Status::Invalid,
                    r.hash,
                    "persistent extension arguments must be UTF-8",
                    max,
                ),
            );
        }
        let charge: usize = encoded_argument_bytes(arguments);
        match self.reserve_arguments(charge) {
            None => Err(
                run_error_status(
                    r.nonce,
                    Status::Budget,
                    r.hash,
                    "extension argument store is full",
                    max,
                ),
            ),
            Some(ticket) => Ok(Admission { ticket, charge }),
        }
    }

    /// The reply where no validation is to be had.
    pub fn run_without_validation(&self, r: &RunRequest) -> (reply: StatusReply)
        ensures
            reply@ == run_error(
                r.nonce,
                Status::Other,
                r.hash@,
                "extension validation service is unavailable"@,
                self.limits.detail_max as nat,
            ),
    {
        run_error_status(
            r.nonce,
            Status::Other,
            r.hash,
            "extension validation service is unavailable",
            self.limits.detail_max,
        )
    }

    /// Decides an admitted request.
    pub fn decide_run(&self, endpoint: u64, r: &RunRequest, probe: &Probe) -> (out: RunDecision)
        requires
            self.wf(),
        ensures
            out@ == run_decision(*self, endpoint, *r, *probe),
    {
        if self.shutting_down {
            return RunDecision::Reply(
                run_error_status(
                    r.nonce,
                    Status::Other,
                    r.hash,
                    "server is shutting down",
                    self.limits.detail_max,
                ),
            );
        }
        if r.update {
            self.decide_named(r, probe)
        } else {
            self.decide_create(endpoint, r, probe)
        }
    }

    fn decide_named(&self, r: &RunRequest, probe: &Probe) -> (out: RunDecision)
        requires
            self.wf(),
        ensures
            out@ == update_decision(*self, *r, *probe),
    {
        let max: usize = self.limits.detail_max;
        let ghost m = self.spec_definitions();
        match self.find_persistent(r.name.as_str()) {
            None => RunDecision::Reply(
                run_error_status(
                    r.nonce,
                    Status::NotFound,
                    r.hash,
                    "persistent extension name does not exist",
                    max,
                ),
            ),
            Some(id) => {
                proof {
                    assert(is_named(m, r.name@, id));
                    let other = named(m, r.name@);
                    assert(is_named(m, r.name@, other));
                    assert(m[other].name@ == m[id].name@);
                }
                match self.registry.definitions.get(id) {
                    None => RunDecision::Create,
                    Some(d) => {
                        if d.extension_id != r.expected_id || d.definition_revision
                            != r.expected_revision {
                            return RunDecision::Reply(
                                status_packet(
                                    d,
                                    r.nonce,
                                    Status::Conflict,
                                    "extension definition changed",
                                    max,
                                ),
                            );
                        }
                        match probe {
                            Probe::Durability(e) => RunDecision::Reply(
                                status_packet(d, r.nonce, Status::Other, e.as_str(), max),
                            ),
                            Probe::Miss => RunDecision::Reply(
                                update_operation_status(
                                    &d.snapshot(),
                                    r.nonce,
                                    Phase::NeedObject,
                                    r.hash,
                                    r.restart,
                                    "module upload required",
                                    max,
                                ),
                            ),
                            Probe::Hit => RunDecision::Update(d.snapshot()),
                        }
                    },
                }
            },
        }
    }

    fn decide_create(&self, endpoint: u64, r: &RunRequest, probe: &Probe) -> (out: RunDecision)
        requires
            self.wf(),
        ensures
            out@ == create_decision(*self, endpoint, *r, *probe),
    {
        let max: usize = self.limits.detail_max;
        let taken: bool = match self.find_persistent(r.name.as_str()) {
            Some(id) => {
                proof {
                    assert(is_named(self.spec_definitions(), r.name@, id));
                    assert(self.spec_definitions().dom().contains(id));
                }
                true
            },
            None => false,
        };
        if r.persist && taken {
            return RunDecision::Reply(
                run_error_status(
                    r.nonce,
                    Status::Conflict,
                    r.hash,
                    "persistent extension name already exists",
                    max,
                ),
            );
        }
        let cap: usize = if r.persist {
            self.limits.max_persistent
        } else {
            self.limits.max_transient
        };
        if self.count(r.persist) >= cap {
            return RunDecision::Reply(
                run_error_status(
                    r.nonce,
                    Status::Budget,
                    r.hash,
                    "extension supervisor capacity exhausted",
                    max,
                ),
            );
        }
        if !self.registry.follower_capacity_available(
            endpoint,
            self.limits.follow_max_per_endpoint,
            self.limits.follow_max,
        ) {
            return RunDecision::Reply(
                run_error_status(
                    r.nonce,
                    Status::Budget,
                    r.hash,
                    "extension follower capacity exhausted",
                    max,
                ),
            );
        }
        match probe {
            Probe::Durability(e) => RunDecision::Reply(
                run_error_status(r.nonce, Status::Other, r.hash, e.as_str(), max),
            ),
            _ => RunDecision::Create,
        }
    }

    /// The reply where no id could be drawn.
    pub fn run_without_id(&self, r: &RunRequest) -> (reply: StatusReply)
        ensures
            reply@ == run_error(
                r.nonce,
                Status::Budget,
                r.hash@,
                "could not allocate an extension ID"@,
                self.limits.detail_max as nat,
            ),
    {
        run_error_status(
            r.nonce,
            Status::Budget,
            r.hash,
            "could not allocate an extension ID",
            self.limits.detail_max,
        )
    }

    /// Drafts the definition of a creation. The draft holds what the request's
    /// ticket reserved once it is finished.
    pub fn draft_run(
        &self,
        endpoint: u64,
        r: &RunRequest,
        arguments: Vec<Vec<u8>>,
        charge: usize,
        id: u64,
        hit: bool,
        now: u64,
    ) -> (d: Definition)
        ensures
            drafted(
                d,
                endpoint,
                *r,
                contents(arguments@),
                charge,
                id,
                hit,
                now,
                self.limits.pending_timeout_ms,
            ),
    {
        let mut followers: IdMap<FollowerCursor> = IdMap::new();
        followers.insert(endpoint, FollowerCursor { next_sequence: 1, replay_through: Some(0) });
        Definition {
            extension_id: id,
            definition_revision: 1,
            flags: Flags {
                detach: r.detach,
                persist: r.persist,
                enabled: true,
                desired_running: true,
            },
            restart: r.restart,
            hash: r.hash,
            name: r.name.as_str().to_owned(),
            args: Some(arguments),
            argument_bytes: charge,
            argument_reservation: charge,
            owner_endpoint: if r.detach {
                None
            } else {
                Some(endpoint)
            },
            phase: if hit {
                Phase::Queued
            } else {
                Phase::NeedObject
            },
            attempt: 0,
            last_running_attempt: 0,
            task_id: 0,
            next_start_unix_ms: 0,
            detail: if hit {
                "".to_owned()
            } else {
                "module upload required".to_owned()
            },
            next_output_sequence: 1,
            retained: Vec::new(),
            terminal_replay: Vec::new(),
            retained_bytes: 0,
            followers,
            pending_deadline: if hit {
                None
            } else {
                Some(now.saturating_add(self.limits.pending_timeout_ms))
            },
            release_deadline: None,
            generation: 1,
            failure_count: 0,
            interrupt: None,
            control: None,
            object_pinned: false,
            catalog_committed: false,
        }
    }

    /// Finishes a creation: the draft takes its place, or the request is
    /// refused. Either way its ticket is spent.
    pub fn finish_create(
        &mut self,
        r: &RunRequest,
        draft: Definition,
        ticket: u64,
        admitted: Result<Admitted, Refusal>,
    ) -> (out: CreateOutcome)
        requires
            old(self).wf(),
            old(self).extension_id_free(draft.extension_id),
            draft.flags.persist ==> !name_taken(old(self).spec_definitions(), draft.name@),
            admitted matches Ok(Admitted::Committed { flags, .. }) && flags.persist
                ==> draft.flags.persist,
            blank_output(draft),
            !draft.catalog_committed,
            old(self).tickets@.dom().contains(ticket),
            old(self).tickets@[ticket] == draft.argument_reservation,
        ensures
            final(self).wf(),
            *final(self) == (Service {
                registry: final(self).registry,
                tickets: final(self).tickets,
                arguments: final(self).arguments,
                ..*old(self)
            }),
            final(self).tickets@ == old(self).tickets@.remove(ticket),
            final(self).arguments.spec_max() == old(self).arguments.spec_max(),
            out.created == admitted is Ok,
            match admitted {
                Ok(a) => {
                    let e = admitted_definition(draft, a, old(self).shutting_down);
                    &&& final(self).registry.packets == old(self).registry.packets
                    &&& final(self).spec_definitions() == old(self).spec_definitions().insert(
                        draft.extension_id,
                        e,
                    )
                    &&& final(self).arguments.spec_used() == old(self).arguments.spec_used()
                        - draft.argument_reservation + e.argument_reservation
                    &&& out.reply@ == creation(
                        e.spec_snapshot(),
                        r.nonce,
                        e.detail@,
                        old(self).limits.detail_max as nat,
                    )
                    &&& out.start == (a != Admitted::Waiting && !old(self).shutting_down)
                },
                Err(refusal) => {
                    &&& final(self).registry == old(self).registry
                    &&& final(self).arguments.spec_used() == old(self).arguments.spec_used()
                        - draft.argument_reservation
                    &&& out.reply@ == run_error(
                        r.nonce,
                        refusal.status,
                        r.hash@,
                        refusal.detail@,
                        old(self).limits.detail_max as nat,
                    )
                    &&& !out.start
                },
            },
    {
        let ghost start = *self;
        let max: usize = self.limits.detail_max;
        let a = match admitted {
            Err(refusal) => {
                self.release_ticket(ticket);
                return CreateOutcome {
                    reply: run_error_status(
                        r.nonce,
                        refusal.status,
                        r.hash,
                        refusal.detail.as_str(),
                        max,
                    ),
                    created: false,
                    start: false,
                };
            },
            Ok(a) => a,
        };
        let mut d = draft;
        let hit: bool = match a {
            Admitted::Waiting => false,
            _ => true,
        };
        let mut released: usize = 0;
        match a {
            Admitted::Waiting => {},
            Admitted::Pinned => {
                d.object_pinned = true;
            },
            Admitted::Committed { definition_revision, flags, argument_bytes } => {
                d.definition_revision = definition_revision;
                d.flags = flags;
                d.argument_bytes = argument_bytes;
                d.catalog_committed = true;
                d.object_pinned = true;
                released = d.release_arguments();
            },
        }
        if hit && self.shutting_down {
            d.phase = Phase::Stopped;
        }
        let reply = creation_status(&d.snapshot(), r.nonce, d.detail.as_str(), max);
        let id: u64 = d.extension_id;
        let ghost e = d;
        proof {
            assert(e == admitted_definition(draft, a, start.shutting_down));
        }
        self.registry.insert_definition(d);
        let _ = self.tickets.remove(ticket);
        proof {
            lemma_weigh_insert(
                start.registry.definitions,
                self.registry.definitions,
                id,
                reservation(),
            );
            lemma_weigh_remove(start.tickets, self.tickets, ticket, ticket_bytes());
            let m = start.spec_definitions();
            let n = self.spec_definitions();
            assert forall|x: u64, y: u64|
                #![trigger n[x], n[y]]
                n.dom().contains(x) && n.dom().contains(y) && x != y && n[x].spec_persistent()
                    && n[y].spec_persistent() implies n[x].name@ != n[y].name@ by {
                if x == id {
                    assert(m.dom().contains(y));
                } else if y == id {
                    assert(m.dom().contains(x));
                } else {
                    assert(m[x].name@ != m[y].name@);
                }
            }
        }
        self.arguments.release(released);
        CreateOutcome { reply, created: true, start: hit && !self.shutting_down }
    }

    /// Compares an update with what is stored.
    pub fn decide_update(
        &self,
        r: &RunRequest,
        arguments: &Vec<Vec<u8>>,
        current: &Snapshot,
        stored: &Result<Vec<Vec<u8>>, CatalogError>,
    ) -> (out: UpdateDecision)
        ensures
            match *stored {
                Err(e) => out matches UpdateDecision::Reply(reply) && reply@ == update_failed(
                    *current,
                    r.nonce,
                    e,
                    self.limits.detail_max as nat,
                ),
                Ok(a) => if current.hash == r.hash && contents(a@) == contents(arguments@)
                    && current.restart == r.restart {
                    out is Unchanged
                } else {
                    out is Replace
                },
            },
    {
        match stored {
            Err(e) => UpdateDecision::Reply(self.refuse_update(r, current, e)),
            Ok(a) => {
                let same_restart: bool = match (current.restart, r.restart) {
                    (Restart::Never, Restart::Never) => true,
                    (Restart::OnFailure, Restart::OnFailure) => true,
                    (Restart::Always, Restart::Always) => true,
                    _ => false,
                };
                if same_hash(&current.hash, &r.hash) && same_arguments(a, arguments)
                    && same_restart {
                    UpdateDecision::Unchanged
                } else {
                    UpdateDecision::Replace
                }
            },
        }
    }

    /// The reply to an update that the catalog did not take.
    pub fn refuse_update(&self, r: &RunRequest, current: &Snapshot, e: &CatalogError) -> (reply:
        StatusReply)
        ensures
            reply@ == update_failed(*current, r.nonce, *e, self.limits.detail_max as nat),
    {
        status_packet_with_replay(
            current,
            r.nonce,
            catalog_status(e),
            0,
            e.text().as_str(),
            self.limits.detail_max,
        )
    }

    /// Whether an update may go on, after its object was to be pinned.
    pub fn update_pin(pin: PinOutcome) -> (r: Result<(), CatalogError>)
        ensures
            match pin {
                PinOutcome::Pinned => r is Ok,
                PinOutcome::Unavailable => r matches Err(CatalogError::Unavailable),
                PinOutcome::Failed(f) => r matches Err(CatalogError::Storage(s)) && s@ == f.text@,
            },
    {
        match pin {
            PinOutcome::Pinned => Ok(()),
            PinOutcome::Unavailable => Err(CatalogError::Unavailable),
            PinOutcome::Failed(f) => Err(CatalogError::Storage(f.text)),
        }
    }

    /// Takes note that a persistent definition's object is pinned again. Where
    /// it was pinned all along, `pin` says nothing.
    pub fn repair_persistent_pin(&mut self, current: &Snapshot, pin: PinOutcome) -> (out: Result<
        (),
        CatalogError,
    >)
        requires
            old(self).wf(),
        ensures
            final(self).wf(),
            current.object_pinned ==> out is Ok && *final(self) == *old(self),
            !current.object_pinned ==> match pin {
                PinOutcome::Unavailable => out matches Err(CatalogError::Unavailable)
                    && *final(self) == *old(self),
                PinOutcome::Failed(f) => out matches Err(CatalogError::Storage(s)) && s@
                    == f.text@ && *final(self) == *old(self),
                PinOutcome::Pinned => if !old(self).has(current.extension_id) {
                    out matches Err(CatalogError::NotFound) && *final(self) == *old(self)
                } else {
                    let id = current.extension_id;
                    &&& out is Ok
                    &&& *final(self) == (Service {
                        registry: final(self).registry,
                        ..*old(self)
                    })
                    &&& final(self).registry.packets == old(self).registry.packets
                    &&& final(self).spec_definitions() == old(self).spec_definitions().insert(
                        id,
                        Definition {
                            object_pinned: true,
                            ..old(self).spec_definitions()[id]
                        },
                    )
                },
            },
    {
        if current.object_pinned {
            return Ok(());
        }
        match pin {
            PinOutcome::Unavailable => Err(CatalogError::Unavailable),
            PinOutcome::Failed(f) => Err(CatalogError::Storage(f.text)),
            PinOutcome::Pinned => {
                let id: u64 = current.extension_id;
                let ghost start = *self;
                if !self.registry.definitions.contains(id) {
                    return Err(CatalogError::NotFound);
                }
                proof {
                    assert(start.registry.definitions@.dom().contains(id));
                    lemma_held(start, id);
                }
                match self.registry.definitions.get_mut(id) {
                    None => {},
                    Some(d) => {
                        d.object_pinned = true;
                    },
                }
                proof {
                    lemma_changed(start, *self, id);
                }
                Ok(())
            },
        }
    }

    /// Finishes an update that changed nothing, once the catalog has cleared
    /// the blocked state.
    pub fn finish_unchanged(
        &mut self,
        r: &RunRequest,
        current: &Snapshot,
        cleared: &Result<(), CatalogError>,
    ) -> (out: UpdateOutcome)
        requires
            old(self).wf(),
        ensures
            final(self).wf(),
            *final(self) == (Service { registry: final(self).registry, ..*old(self) }),
            out.cancel is None,
            ({
                let id = current.extension_id;
                let max = old(self).limits.detail_max as nat;
                let d = old(self).spec_definitions()[id];
                match *cleared {
                    Err(e) => {
                        &&& *final(self) == *old(self)
                        &&& out.reply@ == update_failed(*current, r.nonce, e, max)
                        &&& out.start is None
                        &&& out.emit is None
                    },
                    Ok(_) => if !old(self).has(id) {
                        &&& *final(self) == *old(self)
                        &&& out.reply@ == update_lost(*r, max)
                        &&& out.start is None
                        &&& out.emit is None
                    } else {
                        let e = final(self).spec_definitions()[id];
                        let blocked = d.phase == Phase::Blocked;
                        &&& final(self).registry.packets == old(self).registry.packets
                        &&& final(self).spec_definitions() == old(
                            self).spec_definitions().insert(id, e)
                        &&& unblocked(d, e, old(self).shutting_down)
                        &&& out.reply@ == update_operation(
                            e.spec_snapshot(),
                            r.nonce,
                            Phase::Absent,
                            e.hash@,
                            e.restart,
                            "extension definition is unchanged"@,
                            max,
                        )
                        &&& out.start == if blocked && !old(self).shutting_down && d.spec_wanted() {
                            Some(id)
                        } else {
                            None
                        }
                        &&& out.emit == if blocked {
                            Some(id)
                        } else {
                            None
                        }
                    },
                }
            }),
    {
        let ghost begin = *self;
        let max: usize = self.limits.detail_max;
        let shutting_down: bool = self.shutting_down;
        let id: u64 = current.extension_id;
        match cleared {
            Err(e) => {
                return UpdateOutcome {
                    reply: self.refuse_update(r, current, e),
                    start: None,
                    emit: None,
                    cancel: None,
                };
            },
            Ok(_) => {},
        }
        let mut start: Option<u64> = None;
        let mut emit: Option<u64> = None;
        let reply = match self.registry.definitions.get_mut(id) {
            None => {
                return UpdateOutcome {
                    reply: run_error_status(
                        r.nonce,
                        Status::Other,
                        r.hash,
                        "extension disappeared during update",
                        max,
                    ),
                    start: None,
                    emit: None,
                    cancel: None,
                };
            },
            Some(d) => {
                proof {
                    lemma_held(begin, id);
                }
                if let Phase::Blocked = d.phase {
                    d.detail = "".to_owned();
                    d.generation = d.generation.saturating_add(1);
                    if !shutting_down && d.wanted() {
                        d.phase = Phase::Queued;
                        start = Some(id);
                    } else {
                        d.phase = Phase::Stopped;
                    }
                    emit = Some(id);
                }
                update_operation_status(
                    &d.snapshot(),
                    r.nonce,
                    Phase::Absent,
                    d.hash,
                    d.restart,
                    "extension definition is unchanged",
                    max,
                )
            },
        };
        proof {
            lemma_changed(begin, *self, id);
        }
        UpdateOutcome { reply, start, emit, cancel: None }
    }

    /// Finishes an update that the catalog took, or did not take.
    pub fn finish_replace(
        &mut self,
        r: &RunRequest,
        current: &Snapshot,
        updated: &Result<Replacement, CatalogError>,
    ) -> (out: UpdateOutcome)
        requires
            old(self).wf(),
        ensures
            final(self).wf(),
            *final(self) == (Service {
                registry: final(self).registry,
                arguments: final(self).arguments,
                ..*old(self)
            }),
            final(self).arguments.spec_max() == old(self).arguments.spec_max(),
            ({
                let id = r.expected_id;
                let max = old(self).limits.detail_max as nat;
                let d = old(self).spec_definitions()[id];
                match *updated {
                    Err(e) => {
                        &&& *final(self) == *old(self)
                        &&& out.reply@ == update_failed(*current, r.nonce, e, max)
                        &&& out.start is None
                        &&& out.emit is None
                        &&& out.cancel is None
                    },
                    Ok(up) => if !old(self).has(id) {
                        &&& *final(self) == *old(self)
                        &&& out.reply@ == update_lost(*r, max)
                        &&& out.start is None
                        &&& out.emit is None
                        &&& out.cancel is None
                    } else {
                        let e = final(self).spec_definitions()[id];
                        &&& final(self).registry.packets == old(self).registry.packets
                        &&& final(self).spec_definitions() == old(
                            self).spec_definitions().insert(id, e)
                        &&& replaced(d, e, *r, up, old(self).shutting_down)
                        &&& final(self).arguments.spec_used() == old(self).arguments.spec_used()
                            - d.argument_reservation
                        &&& out.reply@ == update_operation(
                            e.spec_snapshot(),
                            r.nonce,
                            Phase::Absent,
                            e.hash@,
                            e.restart,
                            ""@,
                            max,
                        )
                        &&& out.cancel == d.control
                        &&& out.start == if d.control is None && !old(self).shutting_down
                            && d.spec_wanted() {
                            Some(id)
                        } else {
                            None
                        }
                        &&& out.emit == Some(id)
                    },
                }
            }),
    {
        let ghost begin = *self;
        let max: usize = self.limits.detail_max;
        let shutting_down: bool = self.shutting_down;
        let id: u64 = r.expected_id;
        let up = match updated {
            Err(e) => {
                return UpdateOutcome {
                    reply: self.refuse_update(r, current, e),
                    start: None,
                    emit: None,
                    cancel: None,
                };
            },
            Ok(up) => *up,
        };
        let mut start: Option<u64> = None;
        let mut cancel: Option<Control> = None;
        let mut released: usize = 0;
        let reply = match self.registry.definitions.get_mut(id) {
            None => {
                return UpdateOutcome {
                    reply: run_error_status(
                        r.nonce,
                        Status::Other,
                        r.hash,
                        "extension disappeared during update",
                        max,
                    ),
                    start: None,
                    emit: None,
                    cancel: None,
                };
            },
            Some(d) => {
                proof {
                    lemma_held(begin, id);
                }
                d.definition_revision = up.definition_revision;
                d.hash = r.hash;
                released = d.release_arguments();
                d.argument_bytes = up.argument_bytes;
                d.restart = r.restart;
                d.object_pinned = true;
                d.generation = d.generation.saturating_add(1);
                d.failure_count = 0;
                d.interrupt = Some(Interrupt::Updated);
                d.detail = "".to_owned();
                d.pending_deadline = None;
                d.next_start_unix_ms = 0;
                cancel = d.control;
                if cancel.is_some() {
                    d.phase = Phase::Stopping;
                    d.task_id = 0;
                } else if !shutting_down && d.wanted() {
                    d.phase = Phase::Queued;
                    start = Some(id);
                } else {
                    d.phase = Phase::Stopped;
                }
                update_operation_status(
                    &d.snapshot(),
                    r.nonce,
                    Phase::Absent,
                    d.hash,
                    d.restart,
                    "",
                    max,
                )
            },
        };
        self.arguments.release(released);
        proof {
            lemma_changed(begin, *self, id);
        }
        UpdateOutcome { reply, start, emit: Some(id), cancel }
    }
}

/// What the invariants say of one definition.
pub proof fn lemma_held(s: Service, id: u64)
    requires
        s.wf(),
        s.has(id),
    ensures
        s.spec_definitions()[id].argument_reservation <= s.arguments.spec_used(),
        s.spec_definitions()[id].followers.wf(),
        s.spec_definitions()[id].extension_id == id,
{
    lemma_reservation_held(s, id);
    assert(s.registry.definitions@.dom().contains(id));
    assert(crate::extension::output::output_ok(
        s.registry.definitions@[id],
        id,
        s.registry.packets.spec_slots(),
        s.registry.retention_clock,
    ));
}

/// Which pins an update takes and gives back: it needs its object pinned, and
/// gives up the pin of the object that it replaces, or its own where the
/// catalog did not take it.
pub struct UpdatePins {
    pub acquire: bool,
    pub release_on_success: bool,
    pub release_on_failure: bool,
}

pub fn update_pins(current: &Snapshot, hash: &ObjectHash) -> (p: UpdatePins)
    ensures
        p.acquire == (current.hash != *hash || !current.object_pinned),
        p.release_on_success == (current.hash != *hash && current.object_pinned),
        p.release_on_failure == p.acquire,
{
    let changed: bool = !same_hash(&current.hash, hash);
    let acquire: bool = changed || !current.object_pinned;
    UpdatePins {
        acquire,
        release_on_success: changed && current.object_pinned,
        release_on_failure: acquire,
    }
}

} // verus!
