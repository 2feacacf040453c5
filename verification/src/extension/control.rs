//! Control requests: listing, status, following, and the changes of a
//! definition's lifecycle.

use vstd::prelude::*;
use vstd::string::StringSliceAdditionalSpecFns;
use vstd::utf8::encode_utf8;

use crate::bytes::{lemma_lex_irreflexive, lemma_lex_total, lemma_lex_transitive, lex_less, lex_lt};
use crate::catalog::{error_text, CatalogError};
use crate::extension::definition::{Control, Definition, Snapshot};
use crate::extension::errors::{catalog_status, spec_catalog_status};
use crate::extension::lifecycle::mutated;
use crate::extension::protocol::{Flags, Interrupt, ObjectHash, Phase, Restart, Status};
use crate::extension::replay::{attached, follower_moved, followed_by, followers_of};
use crate::extension::run::lemma_held;
use crate::extension::service::{lemma_changed, only_definition, removed, Removed, Service};
use crate::extension::status::{
    definition_status, fixed_status, id_status, snapshot_status, status_packet,
    status_packet_with_replay, StatusReply, StatusView,
};
use crate::id_map::{ascending, lemma_row_of, row_of};

verus! {

/// A request that reads a definition or changes who follows it.
#[derive(Clone, Copy, Debug, PartialEq, Eq, Structural)]
pub enum Inspection {
    Status,
    Attach,
    Unfollow,
    /// A request that nobody knows.
    Unknown,
}

/// A request that changes a definition's lifecycle.
#[derive(Clone, Copy, Debug, PartialEq, Eq, Structural)]
pub enum Mutation {
    Cancel,
    Restart,
    Enable,
    Disable,
    Remove,
}

/// One entry of the list of definitions.
pub struct ListRecord {
    pub extension_id: u64,
    pub definition_revision: u64,
    pub phase: Phase,
    pub flags: Flags,
    pub restart: Restart,
    pub attempt: u64,
    pub last_running_attempt: u64,
    pub task_id: u32,
    pub output_sequence: u64,
    pub next_start_unix_ms: u64,
    pub hash: ObjectHash,
    pub name: String,
}

/// Whether an entry says what the definition is.
pub open spec fn records(r: ListRecord, d: Definition) -> bool {
    &&& r.extension_id == d.extension_id
    &&& r.definition_revision == d.definition_revision
    &&& r.phase == d.phase
    &&& r.flags == d.flags
    &&& r.restart == d.restart
    &&& r.attempt == d.attempt
    &&& r.last_running_attempt == d.last_running_attempt
    &&& r.task_id == d.task_id
    &&& r.output_sequence == d.spec_latest_output_sequence()
    &&& r.next_start_unix_ms == d.next_start_unix_ms
    &&& r.hash == d.hash
    &&& r.name@ == d.name@
}

pub fn extension_record(d: &Definition) -> (r: ListRecord)
    ensures
        records(r, *d),
{
    ListRecord {
        extension_id: d.extension_id,
        definition_revision: d.definition_revision,
        phase: d.phase,
        flags: d.flags,
        restart: d.restart,
        attempt: d.attempt,
        last_running_attempt: d.last_running_attempt,
        task_id: d.task_id,
        output_sequence: d.latest_output_sequence(),
        next_start_unix_ms: d.next_start_unix_ms,
        hash: d.hash,
        name: d.name.as_str().to_owned(),
    }
}

/// Whether one entry comes before another: by the bytes of its name, then by
/// id.
pub open spec fn lists_before(a: ListRecord, b: ListRecord) -> bool {
    let x = encode_utf8(a.name@);
    let y = encode_utf8(b.name@);
    lex_lt(x, y) || (x == y && a.extension_id < b.extension_id)
}

/// Whether entries stand in their order.
pub open spec fn in_list_order(l: Seq<ListRecord>) -> bool {
    forall|i: int, j: int| 0 <= i < j < l.len() ==> lists_before(#[trigger] l[i], #[trigger] l[j])
}

/// Whether an entry of this id is there.
pub open spec fn lists(l: Seq<ListRecord>, id: u64) -> bool {
    exists|i: int| 0 <= i < l.len() && (#[trigger] l[i]).extension_id == id
}

fn comes_before(a: &ListRecord, b: &ListRecord) -> (r: bool)
    ensures
        r == lists_before(*a, *b),
{
    let x = a.name.as_str().as_bytes();
    let y = b.name.as_str().as_bytes();
    proof {
        lemma_lex_total(x@, y@);
        lemma_lex_irreflexive(x@);
        if lex_lt(x@, y@) && lex_lt(y@, x@) {
            lemma_lex_transitive(x@, y@, x@);
        }
    }
    if lex_less(x, y) {
        true
    } else if lex_less(y, x) {
        false
    } else {
        a.extension_id < b.extension_id
    }
}

proof fn lemma_list_transitive(a: ListRecord, b: ListRecord, c: ListRecord)
    requires
        lists_before(a, b),
        lists_before(b, c),
    ensures
        lists_before(a, c),
{
    let x = encode_utf8(a.name@);
    let y = encode_utf8(b.name@);
    let z = encode_utf8(c.name@);
    if lex_lt(x, y) && lex_lt(y, z) {
        lemma_lex_transitive(x, y, z);
    }
}

proof fn lemma_list_total(a: ListRecord, b: ListRecord)
    requires
        a.extension_id != b.extension_id,
    ensures
        lists_before(a, b) || lists_before(b, a),
{
    lemma_lex_total(encode_utf8(a.name@), encode_utf8(b.name@));
}

/// Puts an entry in its place.
fn place(list: &mut Vec<ListRecord>, r: ListRecord)
    requires
        in_list_order(old(list)@),
        !lists(old(list)@, r.extension_id),
    ensures
        in_list_order(final(list)@),
        final(list)@.len() == old(list)@.len() + 1,
        exists|at: int|
            0 <= at <= old(list)@.len() && final(list)@ == #[trigger] old(list)@.insert(at, r),
{
    let ghost before = list@;
    let mut at: usize = 0;
    while at < list.len() && comes_before(&list[at], &r)
        invariant
            list@ == before,
            at <= before.len(),
            forall|k: int| 0 <= k < at ==> lists_before(#[trigger] before[k], r),
        decreases before.len() - at,
    {
        at = at + 1;
    }
    proof {
        assert forall|k: int| at <= k < before.len() implies lists_before(r, #[trigger] before[k]) by {
            assert(!lists_before(before[at as int], r));
            assert(before[at as int].extension_id != r.extension_id);
            lemma_list_total(before[at as int], r);
            if k > at {
                lemma_list_transitive(r, before[at as int], before[k]);
            }
        }
    }
    list.insert(at, r);
    proof {
        let after = list@;
        assert(after == before.insert(at as int, r));
        assert forall|i: int, j: int| 0 <= i < j < after.len() implies lists_before(
            #[trigger] after[i],
            #[trigger] after[j],
        ) by {
            let a = if i < at {
                i
            } else {
                i - 1
            };
            let b = if j < at {
                j
            } else {
                j - 1
            };
            if i != at {
                assert(after[i] == before[a]);
            }
            if j != at {
                assert(after[j] == before[b]);
            }
        }
    }
}

/// What an inspection answers where it changes nothing.
pub open spec fn inspection_reply(d: Definition, nonce: u16, what: Inspection, max: nat) -> StatusView {
    match what {
        Inspection::Status => definition_status(d, nonce, Status::Success, 0, d.detail@, max),
        Inspection::Unfollow => definition_status(d, nonce, Status::Success, 0, ""@, max),
        Inspection::Attach => definition_status(
            d,
            nonce,
            Status::Budget,
            0,
            "extension follower capacity exhausted"@,
            max,
        ),
        Inspection::Unknown => definition_status(
            d,
            nonce,
            Status::Invalid,
            0,
            "unknown extension control action"@,
            max,
        ),
    }
}

/// Whether an endpoint may attach: it follows already, or there is room.
pub open spec fn may_attach(s: Service, id: u64, endpoint: u64) -> bool {
    let rows = s.registry.definitions.spec_rows();
    s.spec_definitions()[id].followers@.dom().contains(endpoint) || (followed_by(rows, endpoint)
        < s.limits.follow_max_per_endpoint && followers_of(rows) < s.limits.follow_max)
}

/// The answer about an id that is not there.
pub open spec fn unknown_id(nonce: u16, id: u64, max: nat) -> StatusView {
    id_status(nonce, Status::UnknownId, id, "extension ID does not exist"@, max)
}

/// Why a change of lifecycle is refused.
pub open spec fn control_refusal(s: Service, id: u64, m: Mutation) -> Option<(Status, Seq<char>)> {
    let d = s.spec_definitions()[id];
    match m {
        Mutation::Cancel => None,
        Mutation::Restart => if d.spec_persistent() && !s.limits.persist_allowed {
            Some((Status::Permission, "persistent extensions are disabled on this server"@))
        } else if d.owner_endpoint matches Some(owner) && !s.endpoints@.dom().contains(owner) {
            Some((Status::Conflict, "attached extension owner is no longer connected"@))
        } else if !d.flags.enabled {
            Some((Status::Conflict, "extension is disabled"@))
        } else {
            None
        },
        Mutation::Enable => if !d.spec_persistent() || !s.limits.persist_allowed {
            Some((Status::Permission, "enable requires persistent-extension permission"@))
        } else {
            None
        },
        Mutation::Disable => if !d.spec_persistent() {
            Some((Status::Permission, "disable requires a persistent extension"@))
        } else {
            None
        },
        Mutation::Remove => if !d.spec_persistent() {
            Some((Status::Permission, "remove requires a persistent extension"@))
        } else if d.flags.enabled || d.control is Some || !(d.phase == Phase::Stopped || d.phase
            == Phase::Blocked) {
            Some((Status::Conflict, "extension must be disabled and quiescent before removal"@))
        } else {
            None
        },
    }
}

/// How a change of lifecycle goes on.
pub enum ControlPlan {
    Reply(StatusReply),
    /// What the definition is now, and whether its object must be pinned first.
    Proceed(Snapshot, bool),
}

/// What a change of lifecycle writes to the catalog.
#[derive(Clone, Copy, Debug, PartialEq, Eq, Structural)]
pub enum CatalogWrite {
    Nothing,
    Remove,
    /// Clears the blocked state and the start time, and sets these switches.
    Lifecycle { enabled: Option<bool>, desired: Option<bool> },
}

/// The switches that a change of lifecycle sets.
pub open spec fn spec_switches(m: Mutation) -> (Option<bool>, Option<bool>) {
    match m {
        Mutation::Cancel => (None, Some(false)),
        Mutation::Restart => (None, Some(true)),
        Mutation::Enable => (Some(true), None),
        Mutation::Disable => (Some(false), None),
        Mutation::Remove => (None, None),
    }
}

pub fn switches(m: Mutation) -> (r: (Option<bool>, Option<bool>))
    ensures
        r == spec_switches(m),
{
    match m {
        Mutation::Cancel => (None, Some(false)),
        Mutation::Restart => (None, Some(true)),
        Mutation::Enable => (Some(true), None),
        Mutation::Disable => (Some(false), None),
        Mutation::Remove => (None, None),
    }
}

/// The interrupt that a change of lifecycle sends.
pub open spec fn spec_interrupt_of(m: Mutation) -> Interrupt {
    match m {
        Mutation::Cancel => Interrupt::Cancelled,
        Mutation::Restart => Interrupt::Restarted,
        Mutation::Enable => Interrupt::Restarted,
        Mutation::Disable => Interrupt::Disabled,
        Mutation::Remove => Interrupt::Cancelled,
    }
}

fn interrupt_of(m: Mutation) -> (r: Interrupt)
    ensures
        r == spec_interrupt_of(m),
{
    match m {
        Mutation::Cancel => Interrupt::Cancelled,
        Mutation::Restart => Interrupt::Restarted,
        Mutation::Enable => Interrupt::Restarted,
        Mutation::Disable => Interrupt::Disabled,
        Mutation::Remove => Interrupt::Cancelled,
    }
}

/// What a change of lifecycle writes to the catalog: nothing for a definition
/// that the catalog does not have.
pub fn catalog_write(m: Mutation, current: &Snapshot) -> (w: CatalogWrite)
    ensures
        w == if !current.catalog_committed {
            CatalogWrite::Nothing
        } else if m == Mutation::Remove {
            CatalogWrite::Remove
        } else {
            CatalogWrite::Lifecycle { enabled: spec_switches(m).0, desired: spec_switches(m).1 }
        },
{
    if !current.catalog_committed {
        return CatalogWrite::Nothing;
    }
    match m {
        Mutation::Remove => CatalogWrite::Remove,
        _ => {
            let (enabled, desired) = switches(m);
            CatalogWrite::Lifecycle { enabled, desired }
        },
    }
}

/// How a change of lifecycle was answered and what it set in motion.
pub struct ControlOutcome {
    pub reply: StatusReply,
    /// Whether the definition is to be announced after the reply.
    pub emit: bool,
    /// The attempt to cancel.
    pub cancel: Option<Control>,
    /// Whether the supervisor is to start.
    pub start: bool,
    /// Whether the commands of this revision are to be withdrawn.
    pub withdraw: Option<u64>,
    /// What a removed definition leaves to be undone.
    pub removed: Option<Removed>,
}

/// Whether an outcome sets nothing in motion.
pub open spec fn only_replies(o: ControlOutcome) -> bool {
    o.cancel is None && !o.start && o.withdraw is None && o.removed is None
}

impl Service {
    /// The list of all definitions, in order.
    pub fn list(&self) -> (l: Vec<ListRecord>)
        requires
            self.wf(),
        ensures
            in_list_order(l@),
            forall|i: int|
                0 <= i < l@.len() ==> self.has((#[trigger] l@[i]).extension_id) && records(
                    l@[i],
                    self.spec_definitions()[l@[i].extension_id],
                ),
            forall|id: u64| #[trigger] self.has(id) ==> lists(l@, id),
    {
        let mut l: Vec<ListRecord> = Vec::new();
        let ghost rows = self.registry.definitions.spec_rows();
        let ghost m = self.spec_definitions();
        proof {
            self.registry.definitions.lemma_rows();
        }
        let mut i: usize = 0;
        while i < self.registry.definitions.len()
            invariant
                i <= rows.len(),
                self.wf(),
                rows == self.registry.definitions.spec_rows(),
                m == self.spec_definitions(),
                ascending(rows),
                in_list_order(l@),
                forall|k: int|
                    0 <= k < l@.len() ==> self.has((#[trigger] l@[k]).extension_id) && records(
                        l@[k],
                        m[l@[k].extension_id],
                    ),
                forall|id: u64|
                    lists(l@, id) <==> exists|k: int| 0 <= k < i && (#[trigger] rows[k]).0 == id,
            decreases rows.len() - i,
        {
            let d = self.registry.definitions.value_at(i);
            let ghost id = rows[i as int].0;
            proof {
                lemma_row_of(rows, i as int);
                assert(self.has(id));
                lemma_held(*self, id);
                if lists(l@, id) {
                    let k = choose|k: int| 0 <= k < i && (#[trigger] rows[k]).0 == id;
                    assert(rows[k].0 < rows[i as int].0);
                }
            }
            let r = extension_record(d);
            let ghost before = l@;
            place(&mut l, r);
            proof {
                let at = choose|at: int|
                    0 <= at <= before.len() && l@ == #[trigger] before.insert(at, r);
                assert forall|k: int| 0 <= k < l@.len() implies self.has(
                    (#[trigger] l@[k]).extension_id,
                ) && records(l@[k], m[l@[k].extension_id]) by {
                    if k < at {
                        assert(l@[k] == before[k]);
                    } else if k > at {
                        assert(l@[k] == before[k - 1]);
                    } else {
                        assert(l@[k] == r);
                    }
                }
                assert forall|x: u64|
                    lists(l@, x) <==> exists|k: int| 0 <= k < i + 1 && (#[trigger] rows[k]).0 == x by {
                    if lists(l@, x) {
                        let k = choose|k: int| 0 <= k < l@.len() && (#[trigger] l@[k]).extension_id
                            == x;
                        if k < at {
                            assert(l@[k] == before[k]);
                            assert(lists(before, x));
                        } else if k > at {
                            assert(l@[k] == before[k - 1]);
                            assert(lists(before, x));
                        } else {
                            assert(rows[i as int].0 == x);
                        }
                        if lists(before, x) {
                            let j = choose|j: int| 0 <= j < i && (#[trigger] rows[j]).0 == x;
                            assert(rows[j].0 == x);
                        }
                    }
                    if exists|k: int| 0 <= k < i + 1 && (#[trigger] rows[k]).0 == x {
                        let j = choose|j: int| 0 <= j < i + 1 && (#[trigger] rows[j]).0 == x;
                        if j == i {
                            assert(l@[at].extension_id == x);
                        } else {
                            assert(rows[j].0 == x);
                            assert(lists(before, x));
                            let k = choose|k: int|
                                0 <= k < before.len() && (#[trigger] before[k]).extension_id == x;
                            if k < at {
                                assert(l@[k] == before[k]);
                            } else {
                                assert(l@[k + 1] == before[k]);
                            }
                        }
                    }
                }
            }
            i = i + 1;
        }
        proof {
            assert forall|id: u64| #[trigger] self.has(id) implies lists(l@, id) by {
                let k = row_of(rows, id);
                lemma_row_of(rows, k);
                assert(rows[k].0 == id);
            }
        }
        l
    }

    /// Answers a request that reads a definition or changes who follows it.
    pub fn inspect(&mut self, endpoint: u64, nonce: u16, id: u64, what: Inspection) -> (reply:
        StatusReply)
        requires
            old(self).wf(),
        ensures
            final(self).wf(),
            *final(self) == (Service { registry: final(self).registry, ..*old(self) }),
            ({
                let max = old(self).limits.detail_max as nat;
                let d = old(self).spec_definitions()[id];
                let e = final(self).spec_definitions()[id];
                if !old(self).has(id) {
                    &&& *final(self) == *old(self)
                    &&& reply@ == unknown_id(nonce, id, max)
                } else if what == Inspection::Attach && may_attach(*old(self), id, endpoint) {
                    &&& attached(d, endpoint, e.followers@[endpoint], reply.replay_from_sequence)
                    &&& follower_moved(
                        old(self).registry,
                        final(self).registry,
                        id,
                        endpoint,
                        e.followers@[endpoint],
                    )
                    &&& final(self).registry.packets == old(self).registry.packets
                    &&& reply@ == definition_status(
                        d,
                        nonce,
                        Status::Success,
                        reply.replay_from_sequence,
                        d.detail@,
                        max,
                    )
                } else {
                    &&& reply@ == inspection_reply(d, nonce, what, max)
                    &&& what != Inspection::Unfollow ==> *final(self) == *old(self)
                    &&& what == Inspection::Unfollow ==> {
                        &&& final(self).registry.packets == old(self).registry.packets
                        &&& final(self).spec_definitions() == old(self).spec_definitions().insert(
                            id,
                            e,
                        )
                        &&& e == (Definition { followers: e.followers, ..d })
                        &&& e.followers@ == d.followers@.remove(endpoint)
                    }
                }
            }),
    {
        let ghost start = *self;
        let max: usize = self.limits.detail_max;
        let per: usize = self.limits.follow_max_per_endpoint;
        let all: usize = self.limits.follow_max;
        let (following, reply) = match self.registry.definitions.get(id) {
            None => {
                return fixed_status(
                    nonce,
                    Status::UnknownId,
                    id,
                    "extension ID does not exist",
                    max,
                );
            },
            Some(d) => {
                proof {
                    lemma_held(start, id);
                }
                let following: bool = d.followers.contains(endpoint);
                let reply = match what {
                    Inspection::Status => status_packet(
                        d,
                        nonce,
                        Status::Success,
                        d.detail.as_str(),
                        max,
                    ),
                    Inspection::Unfollow => status_packet(d, nonce, Status::Success, "", max),
                    Inspection::Attach => status_packet(
                        d,
                        nonce,
                        Status::Budget,
                        "extension follower capacity exhausted",
                        max,
                    ),
                    Inspection::Unknown => status_packet(
                        d,
                        nonce,
                        Status::Invalid,
                        "unknown extension control action",
                        max,
                    ),
                };
                (following, reply)
            },
        };
        match what {
            Inspection::Unfollow => {
                self.registry.unfollow(id, endpoint);
                proof {
                    assert(self.registry.definitions@[id].followers.wf()) by {
                        assert(self.registry.definitions@.dom().contains(id));
                    }
                    lemma_changed(start, *self, id);
                }
                reply
            },
            Inspection::Attach => {
                if following || self.registry.follower_capacity_available(endpoint, per, all) {
                    let from: u64 = self.registry.attach(id, endpoint);
                    proof {
                        assert(self.registry.definitions@[id].followers.wf()) by {
                            assert(self.registry.definitions@.dom().contains(id));
                        }
                        lemma_changed(start, *self, id);
                    }
                    match self.registry.definitions.get(id) {
                        None => reply,
                        Some(d) => status_packet_with_replay(
                            &d.snapshot(),
                            nonce,
                            Status::Success,
                            from,
                            d.detail.as_str(),
                            max,
                        ),
                    }
                } else {
                    reply
                }
            },
            _ => reply,
        }
    }

    /// Looks up what a change of lifecycle is for: whether the definition is
    /// persistent, or the reply that there is none.
    pub fn find_control(&self, nonce: u16, id: u64) -> (r: Result<bool, StatusReply>)
        requires
            self.wf(),
        ensures
            match r {
                Ok(persistent) => self.has(id) && persistent
                    == self.spec_definitions()[id].spec_persistent(),
                Err(reply) => !self.has(id) && reply@ == unknown_id(
                    nonce,
                    id,
                    self.limits.detail_max as nat,
                ),
            },
    {
        match self.registry.definitions.get(id) {
            None => Err(
                fixed_status(
                    nonce,
                    Status::UnknownId,
                    id,
                    "extension ID does not exist",
                    self.limits.detail_max,
                ),
            ),
            Some(d) => Ok(d.persistent()),
        }
    }

    /// Checks a change of lifecycle before anything is written.
    pub fn plan_control(&self, nonce: u16, id: u64, m: Mutation) -> (p: ControlPlan)
        requires
            self.wf(),
        ensures
            ({
                let max = self.limits.detail_max as nat;
                let d = self.spec_definitions()[id];
                if !self.has(id) {
                    p matches ControlPlan::Reply(r) && r@ == unknown_id(nonce, id, max)
                } else {
                    match control_refusal(*self, id, m) {
                        Some((status, detail)) => p matches ControlPlan::Reply(r) && r@
                            == definition_status(d, nonce, status, 0, detail, max),
                        None => p matches ControlPlan::Proceed(s, repin) && s == d.spec_snapshot()
                            && repin == ((m == Mutation::Restart || m == Mutation::Enable)
                            && d.spec_persistent() && !d.object_pinned),
                    }
                }
            }),
    {
        let max: usize = self.limits.detail_max;
        let d = match self.registry.definitions.get(id) {
            None => {
                return ControlPlan::Reply(
                    fixed_status(nonce, Status::UnknownId, id, "extension ID does not exist", max),
                );
            },
            Some(d) => d,
        };
        let persistent: bool = d.persistent();
        let allowed: bool = self.limits.persist_allowed;
        let owner_gone: bool = match d.owner_endpoint {
            Some(owner) => !self.endpoints.contains(owner),
            None => false,
        };
        let quiet: bool = match d.phase {
            Phase::Stopped => true,
            Phase::Blocked => true,
            _ => false,
        };
        let refusal: Option<(Status, &'static str)> = match m {
            Mutation::Cancel => None,
            Mutation::Restart => if persistent && !allowed {
                Some((Status::Permission, "persistent extensions are disabled on this server"))
            } else if owner_gone {
                Some((Status::Conflict, "attached extension owner is no longer connected"))
            } else if !d.enabled() {
                Some((Status::Conflict, "extension is disabled"))
            } else {
                None
            },
            Mutation::Enable => if !persistent || !allowed {
                Some((Status::Permission, "enable requires persistent-extension permission"))
            } else {
                None
            },
            Mutation::Disable => if !persistent {
                Some((Status::Permission, "disable requires a persistent extension"))
            } else {
                None
            },
            Mutation::Remove => if !persistent {
                Some((Status::Permission, "remove requires a persistent extension"))
            } else if d.enabled() || d.control.is_some() || !quiet {
                Some(
                    (Status::Conflict, "extension must be disabled and quiescent before removal"),
                )
            } else {
                None
            },
        };
        match refusal {
            Some((status, detail)) => ControlPlan::Reply(
                status_packet(d, nonce, status, detail, max),
            ),
            None => {
                let repins: bool = match m {
                    Mutation::Restart => true,
                    Mutation::Enable => true,
                    _ => false,
                };
                ControlPlan::Proceed(d.snapshot(), repins && persistent && !d.object_pinned)
            },
        }
    }

    /// The reply to a change of lifecycle that the catalog, or the pin of the
    /// object, did not allow.
    pub fn refuse_control(&self, nonce: u16, current: &Snapshot, e: &CatalogError) -> (reply:
        StatusReply)
        ensures
            reply@ == snapshot_status(
                *current,
                nonce,
                spec_catalog_status(e@),
                0,
                error_text(e@),
                self.limits.detail_max as nat,
            ),
    {
        status_packet_with_replay(
            current,
            nonce,
            catalog_status(e),
            0,
            e.text().as_str(),
            self.limits.detail_max,
        )
    }

    /// Makes a change of lifecycle, once the catalog has it or refused it.
    pub fn finish_control(
        &mut self,
        nonce: u16,
        id: u64,
        m: Mutation,
        current: &Snapshot,
        persisted: &Result<(), CatalogError>,
        now: u64,
    ) -> (out: ControlOutcome)
        requires
            old(self).wf(),
        ensures
            final(self).wf(),
            ({
                let max = old(self).limits.detail_max as nat;
                let d = old(self).spec_definitions()[id];
                match *persisted {
                    Err(e) => {
                        &&& *final(self) == *old(self)
                        &&& out.reply@ == snapshot_status(
                            *current,
                            nonce,
                            spec_catalog_status(e@),
                            0,
                            error_text(e@),
                            max,
                        )
                        &&& only_replies(out)
                        &&& !out.emit
                    },
                    Ok(_) => if m == Mutation::Remove {
                        &&& removed(*old(self), *final(self), id)
                        &&& out.reply@ == id_status(nonce, Status::Success, id, "removed"@, max)
                        &&& out.cancel is None
                        &&& !out.start
                        &&& out.withdraw is None
                        &&& !out.emit
                        &&& out.removed is Some == old(self).has(id)
                        &&& out.removed matches Some(x) ==> x.unpin == if d.object_pinned {
                            Some(d.hash)
                        } else {
                            None
                        }
                    } else if !old(self).has(id) {
                        &&& *final(self) == *old(self)
                        &&& out.reply@ == unknown_id(nonce, id, max)
                        &&& only_replies(out)
                        &&& out.emit
                    } else {
                        let e = mutated(
                            d,
                            spec_switches(m).0,
                            spec_switches(m).1,
                            spec_interrupt_of(m),
                            now,
                            old(self).limits.terminal_retain_ms,
                        );
                        &&& only_definition(*old(self), *final(self), id)
                        &&& final(self).spec_definitions()[id] == e
                        &&& out.reply@ == definition_status(e, nonce, Status::Success, 0, ""@, max)
                        &&& out.emit
                        &&& out.cancel == d.control
                        &&& out.start == ((m == Mutation::Restart || m == Mutation::Enable)
                            && e.spec_wanted() && d.control is None)
                        &&& out.withdraw == if m == Mutation::Disable {
                            Some(d.definition_revision)
                        } else {
                            None
                        }
                        &&& out.removed is None
                    },
                }
            }),
    {
        let ghost begin = *self;
        let max: usize = self.limits.detail_max;
        let retain: u64 = self.limits.terminal_retain_ms;
        match persisted {
            Err(e) => {
                return ControlOutcome {
                    reply: self.refuse_control(nonce, current, e),
                    emit: false,
                    cancel: None,
                    start: false,
                    withdraw: None,
                    removed: None,
                };
            },
            Ok(_) => {},
        }
        if let Mutation::Remove = m {
            let gone = self.remove_definition(id);
            return ControlOutcome {
                reply: fixed_status(nonce, Status::Success, id, "removed", max),
                emit: false,
                cancel: None,
                start: false,
                withdraw: None,
                removed: gone,
            };
        }
        let (enabled, desired) = switches(m);
        let interrupt = interrupt_of(m);
        let mut released: usize = 0;
        let mut cancel: Option<Control> = None;
        let mut wanted: bool = false;
        let mut withdraw: Option<u64> = None;
        let reply = match self.registry.definitions.get_mut(id) {
            None => {
                return ControlOutcome {
                    reply: fixed_status(
                        nonce,
                        Status::UnknownId,
                        id,
                        "extension ID does not exist",
                        max,
                    ),
                    emit: true,
                    cancel: None,
                    start: false,
                    withdraw: None,
                    removed: None,
                };
            },
            Some(d) => {
                proof {
                    lemma_held(begin, id);
                }
                released = d.mutate(enabled, desired, interrupt, now, retain);
                cancel = d.control;
                wanted = d.wanted();
                if let Mutation::Disable = m {
                    withdraw = Some(d.definition_revision);
                }
                status_packet(d, nonce, Status::Success, "", max)
            },
        };
        self.arguments.release(released);
        proof {
            lemma_changed(begin, *self, id);
        }
        let starts: bool = match m {
            Mutation::Restart => true,
            Mutation::Enable => true,
            _ => false,
        };
        ControlOutcome {
            reply,
            emit: true,
            cancel,
            start: starts && wanted && cancel.is_none(),
            withdraw,
            removed: None,
        }
    }
}

/// A change of lifecycle that goes through bumps the generation and leaves an
/// interrupt, so that whoever waits on an earlier generation gives up.
pub proof fn law_change_is_noticed(d: Definition, m: Mutation, now: u64, terminal_retain_ms: u64)
    requires
        m != Mutation::Remove,
        d.generation < u64::MAX,
    ensures
        mutated(
            d,
            spec_switches(m).0,
            spec_switches(m).1,
            spec_interrupt_of(m),
            now,
            terminal_retain_ms,
        ).generation == d.generation + 1,
        mutated(
            d,
            spec_switches(m).0,
            spec_switches(m).1,
            spec_interrupt_of(m),
            now,
            terminal_retain_ms,
        ).interrupt is Some,
{
}

/// Cancelling or disabling leaves a definition that is not to run: no
/// supervisor starts for it, and without an attempt it is stopped at once.
pub proof fn law_cancelled_does_not_run(
    d: Definition,
    m: Mutation,
    now: u64,
    terminal_retain_ms: u64,
)
    requires
        m == Mutation::Cancel || m == Mutation::Disable,
    ensures
        ({
            let e = mutated(
                d,
                spec_switches(m).0,
                spec_switches(m).1,
                spec_interrupt_of(m),
                now,
                terminal_retain_ms,
            );
            &&& !e.spec_wanted()
            &&& e.phase == Phase::Stopped || e.phase == Phase::Stopping
            &&& e.phase == Phase::Stopping ==> d.control is Some
        }),
{
}

} // verus!
