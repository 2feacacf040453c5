//! What a deployment sets, and what persistent definitions are at startup.

use vstd::prelude::*;

use crate::extension::definition::{Definition, FollowerCursor};
use crate::extension::protocol::{Flags, ObjectHash, Phase, Restart};
use crate::extension::run::blank_output;
use crate::extension::service::{arguments_stored, name_taken, reservation, Limits, Service};
use crate::id_map::{lemma_weigh_insert, IdMap};

verus! {

pub const DEFAULT_MAX_TRANSIENT: usize = 128;

pub const DEFAULT_MAX_PERSISTENT: usize = 128;

pub const DEFAULT_FOLLOW_MAX_PER_ENDPOINT: usize = 128;

pub const DEFAULT_FOLLOW_MAX: usize = 4096;

pub const DEFAULT_MAX_RUNNING: usize = 4;

pub const DEFAULT_MAX_VALIDATING: usize = 2;

pub const DEFAULT_ARGUMENT_STORE_MAX: usize = 268_435_456;

pub const DEFAULT_OUTPUT_RETAIN_MAX: usize = 67_108_864;

pub const DEFAULT_PENDING_TIMEOUT_S: u64 = 300;

pub const DEFAULT_TERMINAL_RETAIN_S: u64 = 30;

/// The most definitions that one list message carries.
pub const LIST_CEILING: usize = 65_535;

pub const MS_PER_S: u64 = 1000;

/// What a deployment sets, each already at its default where it is not set.
pub struct Deployment {
    pub persist_allowed: bool,
    pub max_running: usize,
    pub max_validating: usize,
    pub module_max: u64,
    pub max_transient: usize,
    pub max_persistent: usize,
    pub follow_max_per_endpoint: usize,
    pub follow_max: usize,
    pub argument_store_max: usize,
    pub output_retain_max: usize,
    pub pending_timeout_s: u64,
    pub terminal_retain_s: u64,
}

/// What the protocol bounds.
pub struct WireLimits {
    pub module_max: u64,
    pub detail_max: usize,
}

/// How the service is set up.
pub struct Setup {
    /// How many attempts run at once.
    pub running: usize,
    /// How many objects are validated at once.
    pub validating: usize,
    /// How many bytes of requests wait for validation at once.
    pub validation_request_max: usize,
    pub argument_store_max: usize,
    pub output_retain_max: usize,
    pub limits: Limits,
    /// Whether more definitions are allowed than one list message carries.
    pub over_list_ceiling: bool,
}

pub open spec fn at_most(a: nat, b: nat) -> nat {
    if a <= b {
        a
    } else {
        b
    }
}

/// Seconds as milliseconds, as far as they can be counted.
pub open spec fn as_ms(s: u64) -> u64 {
    if s * MS_PER_S > u64::MAX {
        u64::MAX
    } else {
        (s * MS_PER_S) as u64
    }
}

fn to_ms(s: u64) -> (ms: u64)
    ensures
        ms == as_ms(s),
{
    match s.checked_mul(MS_PER_S) {
        Some(ms) => ms,
        None => u64::MAX,
    }
}

/// How many attempts run at once where nothing is set: one less than there are
/// processors, within bounds.
pub fn host_running_default(processors: Option<usize>) -> (n: usize)
    ensures
        n == match processors {
            None => 1,
            Some(p) => if p <= 2 {
                1
            } else if p - 1 > DEFAULT_MAX_RUNNING {
                DEFAULT_MAX_RUNNING as int
            } else {
                p - 1
            },
        },
{
    match processors {
        None => 1,
        Some(p) => {
            let n: usize = p.saturating_sub(1);
            if n < 1 {
                1
            } else if n > DEFAULT_MAX_RUNNING {
                DEFAULT_MAX_RUNNING
            } else {
                n
            }
        },
    }
}

/// Sets the service up for a deployment that has `stored` persistent
/// definitions.
pub fn set_up(d: &Deployment, wire: &WireLimits, stored: usize) -> (s: Setup)
    ensures
        1 <= s.running <= 4,
        d.max_running < 1 ==> s.running == 1,
        1 <= d.max_running <= 4 ==> s.running == d.max_running,
        d.max_running > 4 ==> s.running == 4,
        s.validating == if d.max_validating < 1 {
            1
        } else {
            d.max_validating
        },
        s.validation_request_max as nat == at_most(
            at_most(d.module_max as nat, wire.module_max as nat),
            usize::MAX as nat,
        ),
        s.argument_store_max == d.argument_store_max,
        s.output_retain_max == d.output_retain_max,
        s.limits == (Limits {
            persist_allowed: d.persist_allowed,
            max_transient: at_most(
                d.max_transient as nat,
                (if stored > LIST_CEILING {
                    0
                } else {
                    LIST_CEILING - stored
                }) as nat,
            ) as usize,
            max_persistent: d.max_persistent,
            follow_max_per_endpoint: d.follow_max_per_endpoint,
            follow_max: d.follow_max,
            pending_timeout_ms: as_ms(d.pending_timeout_s),
            terminal_retain_ms: as_ms(
                if d.terminal_retain_s < 1 {
                    1
                } else {
                    d.terminal_retain_s
                },
            ),
            detail_max: wire.detail_max,
        }),
        s.over_list_ceiling == (d.max_transient + d.max_persistent > LIST_CEILING),
{
    let module: u64 = if d.module_max <= wire.module_max {
        d.module_max
    } else {
        wire.module_max
    };
    let room: usize = LIST_CEILING.saturating_sub(stored);
    let retain: u64 = if d.terminal_retain_s < 1 {
        1
    } else {
        d.terminal_retain_s
    };
    Setup {
        running: if d.max_running < 1 {
            1
        } else if d.max_running > 4 {
            4
        } else {
            d.max_running
        },
        validating: if d.max_validating < 1 {
            1
        } else {
            d.max_validating
        },
        validation_request_max: if module > usize::MAX as u64 {
            usize::MAX
        } else {
            module as usize
        },
        argument_store_max: d.argument_store_max,
        output_retain_max: d.output_retain_max,
        limits: Limits {
            persist_allowed: d.persist_allowed,
            max_transient: if d.max_transient <= room {
                d.max_transient
            } else {
                room
            },
            max_persistent: d.max_persistent,
            follow_max_per_endpoint: d.follow_max_per_endpoint,
            follow_max: d.follow_max,
            pending_timeout_ms: to_ms(d.pending_timeout_s),
            terminal_retain_ms: to_ms(retain),
            detail_max: wire.detail_max,
        },
        over_list_ceiling: d.max_transient > LIST_CEILING || d.max_persistent > LIST_CEILING
            || d.max_transient + d.max_persistent > LIST_CEILING,
    }
}

/// A persistent definition as the catalog has it.
pub struct Stored {
    pub extension_id: u64,
    pub definition_revision: u64,
    pub flags: Flags,
    pub restart: Restart,
    pub hash: ObjectHash,
    pub name: String,
    pub argument_bytes: usize,
    pub attempt: u64,
    pub last_running_attempt: u64,
    pub next_start_unix_ms: u64,
    pub failure_count: u32,
    pub blocked: bool,
    pub blocked_detail: String,
}

/// Whether a stored definition still waits before its next attempt.
pub open spec fn backing_off(s: Stored, now_unix_ms: u64) -> bool {
    !s.blocked && s.next_start_unix_ms > now_unix_ms && s.flags.enabled && s.flags.desired_running
}

/// A definition as it comes from the catalog: blocked, backing off, or stopped,
/// with its arguments left in the catalog.
pub open spec fn from_catalog(d: Definition, s: Stored, now_unix_ms: u64) -> bool {
    &&& d.extension_id == s.extension_id
    &&& d.definition_revision == s.definition_revision
    &&& d.flags == s.flags
    &&& d.restart == s.restart
    &&& d.hash == s.hash
    &&& d.name@ == s.name@
    &&& d.args is None
    &&& d.argument_bytes == s.argument_bytes
    &&& d.argument_reservation == 0
    &&& d.owner_endpoint is None
    &&& d.phase == if s.blocked {
        Phase::Blocked
    } else if backing_off(s, now_unix_ms) {
        Phase::Backoff
    } else {
        Phase::Stopped
    }
    &&& d.attempt == s.attempt
    &&& d.last_running_attempt == s.last_running_attempt
    &&& d.task_id == 0
    &&& d.next_start_unix_ms == if backing_off(s, now_unix_ms) {
        s.next_start_unix_ms
    } else {
        0
    }
    &&& d.detail@ == if s.blocked {
        s.blocked_detail@
    } else {
        ""@
    }
    &&& blank_output(d)
    &&& d.followers@ == Map::<u64, FollowerCursor>::empty()
    &&& d.pending_deadline is None
    &&& d.release_deadline is None
    &&& d.generation == 1
    &&& d.failure_count == s.failure_count
    &&& d.interrupt is None
    &&& d.control is None
    &&& !d.object_pinned
    &&& d.catalog_committed
}

pub fn definition_from_persistent(s: Stored, now_unix_ms: u64) -> (d: Definition)
    ensures
        from_catalog(d, s, now_unix_ms),
{
    let waiting: bool = !s.blocked && s.next_start_unix_ms > now_unix_ms && s.flags.enabled
        && s.flags.desired_running;
    Definition {
        extension_id: s.extension_id,
        definition_revision: s.definition_revision,
        flags: s.flags,
        restart: s.restart,
        hash: s.hash,
        name: s.name,
        args: None,
        argument_bytes: s.argument_bytes,
        argument_reservation: 0,
        owner_endpoint: None,
        phase: if s.blocked {
            Phase::Blocked
        } else if waiting {
            Phase::Backoff
        } else {
            Phase::Stopped
        },
        attempt: s.attempt,
        last_running_attempt: s.last_running_attempt,
        task_id: 0,
        next_start_unix_ms: if waiting {
            s.next_start_unix_ms
        } else {
            0
        },
        detail: if s.blocked {
            s.blocked_detail
        } else {
            "".to_owned()
        },
        next_output_sequence: 1,
        retained: Vec::new(),
        terminal_replay: Vec::new(),
        retained_bytes: 0,
        followers: IdMap::new(),
        pending_deadline: None,
        release_deadline: None,
        generation: 1,
        failure_count: s.failure_count,
        interrupt: None,
        control: None,
        object_pinned: false,
        catalog_committed: true,
    }
}

/// What the object store says of a persistent definition's object at startup.
#[derive(Clone, Copy, Debug, PartialEq, Eq, Structural)]
pub enum StartupObject {
    /// It could not be pinned.
    Absent,
    /// It is pinned and may be run.
    Usable,
    /// It is pinned but larger than the deployment allows.
    TooLarge,
}

/// Why an object blocks its definition.
pub open spec fn object_block(o: StartupObject) -> Option<Seq<char>> {
    match o {
        StartupObject::Usable => None,
        StartupObject::TooLarge => Some(
            "persistent extension object exceeds the configured module limit"@,
        ),
        StartupObject::Absent => Some("persistent extension object is absent from the cache"@),
    }
}

/// A persistent definition at startup. It is blocked where its object is not
/// to be had, which is stored, and where persistent extensions are not allowed.
pub open spec fn started_up(
    e: Definition,
    d: Definition,
    o: StartupObject,
    persist_allowed: bool,
) -> bool {
    let refused = !persist_allowed && d.spec_wanted();
    let phase = if object_block(o) is Some || refused {
        Phase::Blocked
    } else {
        d.phase
    };
    &&& e == (Definition {
        object_pinned: o != StartupObject::Absent,
        phase,
        detail: e.detail,
        next_start_unix_ms: if phase == Phase::Backoff {
            d.next_start_unix_ms
        } else {
            0
        },
        ..d
    })
    &&& e.detail@ == if refused {
        "persistent extensions are disabled on this server"@
    } else {
        match object_block(o) {
            Some(t) => t,
            None => d.detail@,
        }
    }
}

/// Puts a definition from the catalog into its startup state. Returns it, and
/// the blocked detail to store, if there is one.
pub fn start_up(d: Definition, o: StartupObject, persist_allowed: bool) -> (r: (
    Definition,
    Option<String>,
))
    ensures
        started_up(r.0, d, o, persist_allowed),
        match r.1 {
            Some(t) => object_block(o) == Some(t@),
            None => object_block(o) is None,
        },
{
    let mut e = d;
    let mut store: Option<String> = None;
    match o {
        StartupObject::Usable => {
            e.object_pinned = true;
        },
        StartupObject::TooLarge => {
            e.object_pinned = true;
            e.phase = Phase::Blocked;
            e.detail = "persistent extension object exceeds the configured module limit".to_owned();
            store =
            Some("persistent extension object exceeds the configured module limit".to_owned());
        },
        StartupObject::Absent => {
            e.object_pinned = false;
            e.phase = Phase::Blocked;
            e.detail = "persistent extension object is absent from the cache".to_owned();
            store = Some("persistent extension object is absent from the cache".to_owned());
        },
    }
    if !persist_allowed && e.wanted() {
        e.phase = Phase::Blocked;
        e.detail = "persistent extensions are disabled on this server".to_owned();
    }
    match e.phase {
        Phase::Backoff => {},
        _ => {
            e.next_start_unix_ms = 0;
        },
    }
    (e, store)
}

/// What went wrong at startup: the list that does not fit, what the object
/// store's collection failed with, the runtime's limits, or what storing a
/// blocked state failed with, in this order.
pub open spec fn startup_fault(
    stored_error: Option<String>,
    list_fits: bool,
    collection_error: Option<String>,
    limits_valid: bool,
) -> Option<Seq<char>> {
    if !list_fits {
        Some("persistent extension catalog exceeds the wire list ceiling"@)
    } else if collection_error is Some {
        Some(collection_error->0@)
    } else if !limits_valid {
        Some("invalid extension runtime containment limits"@)
    } else if stored_error is Some {
        Some(stored_error->0@)
    } else {
        None
    }
}

/// What went wrong at startup, if anything did.
pub fn startup_diagnostic(
    stored_error: Option<String>,
    list_fits: bool,
    collection_error: Option<String>,
    limits_valid: bool,
    over_list_ceiling: bool,
) -> (r: Option<String>)
    ensures
        match r {
            Some(t) => match startup_fault(stored_error, list_fits, collection_error, limits_valid) {
                Some(x) => t@ == x,
                None => over_list_ceiling && t@
                    == "extension persistent and transient caps exceed the wire list ceiling"@,
            },
            None => startup_fault(stored_error, list_fits, collection_error, limits_valid) is None
                && !over_list_ceiling,
        },
{
    if !list_fits {
        return Some("persistent extension catalog exceeds the wire list ceiling".to_owned());
    }
    match collection_error {
        Some(e) => {
            return Some(e);
        },
        None => {},
    }
    if !limits_valid {
        return Some("invalid extension runtime containment limits".to_owned());
    }
    match stored_error {
        Some(e) => {
            return Some(e);
        },
        None => {},
    }
    if over_list_ceiling {
        Some("extension persistent and transient caps exceed the wire list ceiling".to_owned())
    } else {
        None
    }
}

impl Service {
    /// Takes a definition from the catalog over, unless its id is taken or its
    /// name is.
    pub fn adopt(&mut self, d: Definition) -> (adopted: bool)
        requires
            old(self).wf(),
            blank_output(d),
            d.argument_reservation == 0,
            arguments_stored(d),
        ensures
            final(self).wf(),
            adopted == (!old(self).has(d.extension_id) && !(d.flags.persist && name_taken(
                old(self).spec_definitions(),
                d.name@,
            ))),
            !adopted ==> *final(self) == *old(self),
            adopted ==> *final(self) == (Service {
                registry: final(self).registry,
                ..*old(self)
            }) && final(self).registry.packets == old(self).registry.packets && final(self).spec_definitions() == old(self).spec_definitions().insert(d.extension_id, d),
    {
        let id: u64 = d.extension_id;
        let ghost start = *self;
        if self.registry.definitions.contains(id) {
            return false;
        }
        if d.flags.persist {
            match self.find_persistent(d.name.as_str()) {
                Some(other) => {
                    proof {
                        assert(self.spec_definitions().dom().contains(other));
                        assert(name_taken(self.spec_definitions(), d.name@));
                    }
                    return false;
                },
                None => {},
            }
        }
        self.registry.insert_definition(d);
        proof {
            lemma_weigh_insert(
                start.registry.definitions,
                self.registry.definitions,
                id,
                reservation(),
            );
            let m = start.spec_definitions();
            let n = self.spec_definitions();
            assert forall|x: u64, y: u64|
                #![trigger n[x], n[y]]
                n.dom().contains(x) && n.dom().contains(y) && x != y && n[x].spec_persistent()
                    && n[y].spec_persistent() implies n[x].name@ != n[y].name@ by {
                if x == id {
                    assert(m.dom().contains(y));
                } else if y == id {
                    assert(m.dom().contains(x));
                } else {
                    assert(m[x].name@ != m[y].name@);
                }
            }
        }
        true
    }
}

/// A definition that comes back at startup holds none of the argument budget:
/// its arguments stay in the catalog until an attempt needs them.
pub proof fn law_startup_reserves_no_arguments(
    s: Stored,
    d: Definition,
    e: Definition,
    o: StartupObject,
    persist_allowed: bool,
    now_unix_ms: u64,
)
    requires
        from_catalog(d, s, now_unix_ms),
        started_up(e, d, o, persist_allowed),
    ensures
        e.args is None,
        e.argument_reservation == 0,
        e.argument_bytes == s.argument_bytes,
{
}

} // verus!
