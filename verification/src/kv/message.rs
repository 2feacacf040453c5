//! What a connection asks of the store, and what it is answered.

use vstd::prelude::*;

use crate::bytes::{read_u16, u16_at};
use crate::kv::sessions::{first_free, id_after, id_free, KvSubs, SubsView, KV_ID_INVALID};
use crate::kv::store::{Budgets, Entries, PutRequest, PutResult, SnapshotRow};
use crate::kv::store::{snapshot_rows, snapshot_views};
use crate::kv::subscription::{SubEntry, SubView};
use crate::kv::watches::{kept_ids, kept_rows, WatchView, Watches};
use crate::text::{parse_unsigned, text_view, unsigned_up_to};

verus! {

pub const DEFAULT_VALUE_MAX: u64 = 0x40_0000;

pub const DEFAULT_TOTAL_MAX: u64 = 0x1000_0000;

pub const DEFAULT_MAX_ENTRIES: u64 = 16384;

pub const DEFAULT_MAX_SUBS: u64 = 16;

pub const DEFAULT_MAX_INFLIGHT: u64 = 16;

pub const DEFAULT_UNACKED_MAX: u64 = 0x100_0000;

/// How a request ended.
#[derive(Clone, Copy, Debug, PartialEq, Eq, Structural)]
pub enum KvStatus {
    Success,
    Conflict,
    NotFound,
    TooLarge,
    Budget,
    Invalid,
    Permission,
    Other,
}

/// A limit as it was set, or its default where it is unset or no number.
pub open spec fn budget(setting: Option<Seq<char>>, default: u64) -> u64 {
    match setting {
        Some(s) => match unsigned_up_to(s, u64::MAX as nat) {
            Some(n) => n as u64,
            None => default,
        },
        None => default,
    }
}

pub fn env_budget(setting: &Option<String>, default: u64) -> (n: u64)
    ensures
        n == budget(text_view(*setting), default),
{
    match setting {
        Some(s) => match parse_unsigned(s.as_str(), u64::MAX) {
            Some(n) => n,
            None => default,
        },
        None => default,
    }
}

/// The limits as they were set.
pub struct BudgetSettings {
    pub value_max: Option<String>,
    pub total_max: Option<String>,
    pub max_entries: Option<String>,
    pub max_subs: Option<String>,
    pub max_inflight: Option<String>,
    pub unacked_max: Option<String>,
}

pub fn budgets(s: &BudgetSettings) -> (b: Budgets)
    ensures
        b.value_max == budget(text_view(s.value_max), DEFAULT_VALUE_MAX),
        b.total_max == budget(text_view(s.total_max), DEFAULT_TOTAL_MAX),
        b.max_entries == budget(text_view(s.max_entries), DEFAULT_MAX_ENTRIES),
        b.max_subs == budget(text_view(s.max_subs), DEFAULT_MAX_SUBS),
        b.max_inflight == budget(text_view(s.max_inflight), DEFAULT_MAX_INFLIGHT),
        b.unacked_max == budget(text_view(s.unacked_max), DEFAULT_UNACKED_MAX),
{
    Budgets {
        value_max: env_budget(&s.value_max, DEFAULT_VALUE_MAX),
        total_max: env_budget(&s.total_max, DEFAULT_TOTAL_MAX),
        max_entries: env_budget(&s.max_entries, DEFAULT_MAX_ENTRIES),
        max_subs: env_budget(&s.max_subs, DEFAULT_MAX_SUBS),
        max_inflight: env_budget(&s.max_inflight, DEFAULT_MAX_INFLIGHT),
        unacked_max: env_budget(&s.unacked_max, DEFAULT_UNACKED_MAX),
    }
}

/// The kind of system, for where state is kept.
#[derive(Clone, Copy, PartialEq, Eq, Structural)]
pub enum Platform {
    MacOs,
    Unix,
    Windows,
}

/// The setting that a path starts from.
#[derive(Clone, Copy, PartialEq, Eq, Structural)]
pub enum PathBase {
    Given,
    StateHome,
    Home,
    AppData,
}

/// Which of the settings are there.
#[derive(Clone, Copy)]
pub struct PathSettings {
    pub given: bool,
    pub state_home: bool,
    pub home: bool,
    pub app_data: bool,
}

/// Where the database is: the setting that its path starts from, and what is
/// joined to it, if anything. There is no place where no setting names one.
pub open spec fn database_place(
    platform: Platform,
    s: PathSettings,
) -> Option<(PathBase, Option<Seq<char>>)> {
    if s.given {
        Some((PathBase::Given, None))
    } else {
        match platform {
            Platform::MacOs => if s.home {
                Some((PathBase::Home, Some("Library/Application Support/blit/kv.redb"@)))
            } else {
                None
            },
            Platform::Unix => if s.state_home {
                Some((PathBase::StateHome, Some("blit/kv.redb"@)))
            } else if s.home {
                Some((PathBase::Home, Some(".local/state/blit/kv.redb"@)))
            } else {
                None
            },
            Platform::Windows => if s.app_data {
                Some((PathBase::AppData, Some("blit\\kv.redb"@)))
            } else {
                None
            },
        }
    }
}

pub fn db_path(platform: Platform, s: &PathSettings) -> (r: Option<(PathBase, Option<&'static str>)>)
    ensures
        match r {
            Some((base, rest)) => database_place(platform, *s) == Some(
                (
                    base,
                    match rest {
                        Some(t) => Some(t@),
                        None => None,
                    },
                ),
            ),
            None => database_place(platform, *s) is None,
        },
{
    if s.given {
        return Some((PathBase::Given, None));
    }
    match platform {
        Platform::MacOs => if s.home {
            Some((PathBase::Home, Some("Library/Application Support/blit/kv.redb")))
        } else {
            None
        },
        Platform::Unix => if s.state_home {
            Some((PathBase::StateHome, Some("blit/kv.redb")))
        } else if s.home {
            Some((PathBase::Home, Some(".local/state/blit/kv.redb")))
        } else {
            None
        },
        Platform::Windows => if s.app_data {
            Some((PathBase::AppData, Some("blit\\kv.redb")))
        } else {
            None
        },
    }
}

/// The nonce of a request; none where the message is too short.
pub open spec fn nonce(data: Seq<u8>) -> u16 {
    if data.len() >= 3 {
        u16_at(data, 1)
    } else {
        0
    }
}

pub fn nonce_of(data: &[u8]) -> (n: u16)
    ensures
        n == nonce(data@),
{
    if data.len() >= 3 {
        read_u16(data, 1)
    } else {
        0
    }
}

/// The kinds of request.
#[derive(Clone, Copy)]
pub struct KvOpcodes {
    pub open: u8,
    pub stop: u8,
    pub ack: u8,
    pub put: u8,
    pub fetch: u8,
}

/// What a connection is answered.
#[derive(Clone, Copy, Debug, PartialEq, Eq)]
pub enum KvReply {
    Opened { nonce: u16, kv_id: u16, status: KvStatus, detail: &'static str },
    Done { nonce: u16, status: KvStatus, hash: u128, mtime_ns: u64 },
    /// The value goes with it where there is one.
    Value { nonce: u16, status: KvStatus, hash: u128 },
}

/// What a request is answered while the store is switched off: one refusal, if
/// it has a nonce.
pub open spec fn refusal(data: Seq<u8>, ops: KvOpcodes) -> Option<KvReply> {
    if data.len() == 0 {
        None
    } else if data[0] == ops.open {
        Some(
            KvReply::Opened {
                nonce: nonce(data),
                kv_id: KV_ID_INVALID,
                status: KvStatus::Permission,
                detail: "kv disabled",
            },
        )
    } else if data[0] == ops.put {
        Some(
            KvReply::Done { nonce: nonce(data), status: KvStatus::Permission, hash: 0, mtime_ns: 0 },
        )
    } else if data[0] == ops.fetch {
        Some(KvReply::Value { nonce: nonce(data), status: KvStatus::Permission, hash: 0 })
    } else {
        None
    }
}

pub fn refuse_kv_message(data: &[u8], ops: &KvOpcodes) -> (r: Option<KvReply>)
    ensures
        r == refusal(data@, *ops),
{
    if data.len() == 0 {
        return None;
    }
    let kind: u8 = data[0];
    let n: u16 = nonce_of(data);
    if kind == ops.open {
        Some(
            KvReply::Opened {
                nonce: n,
                kv_id: KV_ID_INVALID,
                status: KvStatus::Permission,
                detail: "kv disabled",
            },
        )
    } else if kind == ops.put {
        Some(KvReply::Done { nonce: n, status: KvStatus::Permission, hash: 0, mtime_ns: 0 })
    } else if kind == ops.fetch {
        Some(KvReply::Value { nonce: n, status: KvStatus::Permission, hash: 0 })
    } else {
        None
    }
}

/// A put as it was read.
pub struct RawPut {
    pub flags: u8,
    pub base: u128,
    pub key: String,
    pub value: Vec<u8>,
}

/// The bits of a put.
#[derive(Clone, Copy)]
pub struct PutBits {
    pub no_cas: u8,
    pub delete: u8,
    pub durable: u8,
}

pub open spec fn unknown_flags(flags: u8, bits: PutBits) -> bool {
    flags & !(bits.no_cas | bits.delete | bits.durable) != 0
}

/// Why a put is turned away before the store is looked at.
pub open spec fn put_fault(
    declared: Option<u64>,
    raw: Option<RawPut>,
    key_valid: bool,
    bits: PutBits,
    pending: nat,
    budgets: Budgets,
) -> Option<KvStatus> {
    if declared is Some && declared->0 > budgets.value_max {
        Some(KvStatus::TooLarge)
    } else {
        match raw {
            None => Some(KvStatus::Invalid),
            Some(p) => {
                let delete = p.flags & bits.delete != 0;
                let no_cas = p.flags & bits.no_cas != 0;
                if unknown_flags(p.flags, bits) || !key_valid {
                    Some(KvStatus::Invalid)
                } else if delete && p.value@.len() > 0 {
                    Some(KvStatus::Invalid)
                } else if delete && !no_cas && p.base == 0 {
                    Some(KvStatus::Invalid)
                } else if !delete && p.value@.len() > budgets.value_max {
                    Some(KvStatus::TooLarge)
                } else if p.flags & bits.durable != 0 && pending >= budgets.max_inflight {
                    Some(KvStatus::Budget)
                } else {
                    None
                }
            },
        }
    }
}

/// Whether the length that a put declares is over the limit, which is known
/// before its value is unpacked.
pub fn declared_too_large(declared: Option<u64>, budgets: &Budgets) -> (r: bool)
    ensures
        r == (declared is Some && declared->0 > budgets.value_max),
{
    match declared {
        Some(n) => n > budgets.value_max,
        None => false,
    }
}

/// Checks a put before the store is looked at.
pub fn check_put(
    declared: Option<u64>,
    raw: Option<RawPut>,
    key_valid: bool,
    bits: &PutBits,
    pending: usize,
    budgets: &Budgets,
) -> (r: Result<PutRequest, KvStatus>)
    ensures
        match r {
            Ok(put) => put_fault(declared, raw, key_valid, *bits, pending as nat, *budgets) is None
                && put == (PutRequest {
                key: raw->0.key,
                value: raw->0.value,
                base: raw->0.base,
                delete: raw->0.flags & bits.delete != 0,
                no_cas: raw->0.flags & bits.no_cas != 0,
                durable: raw->0.flags & bits.durable != 0,
            }),
            Err(status) => put_fault(declared, raw, key_valid, *bits, pending as nat, *budgets)
                == Some(status),
        },
{
    if declared_too_large(declared, budgets) {
        return Err(KvStatus::TooLarge);
    }
    let p: RawPut = match raw {
        Some(p) => p,
        None => {
            return Err(KvStatus::Invalid);
        },
    };
    if p.flags & !(bits.no_cas | bits.delete | bits.durable) != 0 || !key_valid {
        return Err(KvStatus::Invalid);
    }
    let delete: bool = p.flags & bits.delete != 0;
    let no_cas: bool = p.flags & bits.no_cas != 0;
    let durable: bool = p.flags & bits.durable != 0;
    if delete && p.value.len() > 0 {
        return Err(KvStatus::Invalid);
    }
    if delete && !no_cas && p.base == 0 {
        return Err(KvStatus::Invalid);
    }
    if !delete && p.value.len() as u64 > budgets.value_max {
        return Err(KvStatus::TooLarge);
    }
    if durable && pending as u64 >= budgets.max_inflight {
        return Err(KvStatus::Budget);
    }
    Ok(PutRequest { key: p.key, value: p.value, base: p.base, delete, no_cas, durable })
}

/// Takes a put up: it goes to the store, or is turned away with one answer,
/// which has the put's nonce and names no entry.
pub fn begin_put(
    data: &[u8],
    declared: Option<u64>,
    raw: Option<RawPut>,
    key_valid: bool,
    bits: &PutBits,
    subs: &KvSubs,
    budgets: &Budgets,
) -> (r: Result<PutRequest, KvReply>)
    ensures
        match put_fault(
            declared,
            raw,
            key_valid,
            *bits,
            subs@.pending_puts as nat,
            *budgets,
        ) {
            None => r == Ok::<PutRequest, KvReply>(
                PutRequest {
                    key: raw->0.key,
                    value: raw->0.value,
                    base: raw->0.base,
                    delete: raw->0.flags & bits.delete != 0,
                    no_cas: raw->0.flags & bits.no_cas != 0,
                    durable: raw->0.flags & bits.durable != 0,
                },
            ),
            Some(status) => r == Err::<PutRequest, KvReply>(
                KvReply::Done { nonce: nonce(data@), status, hash: 0, mtime_ns: 0 },
            ),
        },
{
    match check_put(declared, raw, key_valid, bits, subs.pending_puts(), budgets) {
        Ok(put) => Ok(put),
        Err(status) => Err(
            KvReply::Done { nonce: nonce_of(data), status, hash: 0, mtime_ns: 0 },
        ),
    }
}

/// What a put is answered at once, and whether its change goes out at once.
/// Both wait for the disk where the put is durable and was queued for it; a
/// durable put that could not be queued is told so.
pub open spec fn put_answer(
    n: u16,
    result: PutResult,
    durable: bool,
    queued: bool,
) -> (Option<KvReply>, bool) {
    let landed = if durable {
        KvStatus::Other
    } else {
        KvStatus::Success
    };
    match result {
        PutResult::Conflict { current } => (
            Some(
                KvReply::Done { nonce: n, status: KvStatus::Conflict, hash: current, mtime_ns: 0 },
            ),
            false,
        ),
        PutResult::AlreadyAbsent => (
            Some(KvReply::Done { nonce: n, status: KvStatus::Success, hash: 0, mtime_ns: 0 }),
            false,
        ),
        PutResult::TooManyEntries => (
            Some(KvReply::Done { nonce: n, status: KvStatus::Budget, hash: 0, mtime_ns: 0 }),
            false,
        ),
        PutResult::TooManyBytes => (
            Some(KvReply::Done { nonce: n, status: KvStatus::Budget, hash: 0, mtime_ns: 0 }),
            false,
        ),
        PutResult::Deleted => if durable && queued {
            (None, false)
        } else {
            (Some(KvReply::Done { nonce: n, status: landed, hash: 0, mtime_ns: 0 }), true)
        },
        PutResult::Stored { hash, mtime_ns } => if durable && queued {
            (None, false)
        } else {
            (Some(KvReply::Done { nonce: n, status: landed, hash, mtime_ns }), true)
        },
    }
}

/// Answers a put. One whose answer waits for the disk takes a place among the
/// connection's puts in flight.
pub fn put_reply(
    subs: &mut KvSubs,
    n: u16,
    result: PutResult,
    durable: bool,
    queued: bool,
) -> (r: (Option<KvReply>, bool))
    requires
        old(subs)@.pending_puts < usize::MAX,
    ensures
        r == put_answer(n, result, durable, queued),
        final(subs)@ == (SubsView {
            pending_puts: if r.0 is None {
                (old(subs)@.pending_puts + 1) as usize
            } else {
                old(subs)@.pending_puts
            },
            ..old(subs)@
        }),
{
    let landed: KvStatus = if durable {
        KvStatus::Other
    } else {
        KvStatus::Success
    };
    match result {
        PutResult::Conflict { current } => (
            Some(
                KvReply::Done { nonce: n, status: KvStatus::Conflict, hash: current, mtime_ns: 0 },
            ),
            false,
        ),
        PutResult::AlreadyAbsent => (
            Some(KvReply::Done { nonce: n, status: KvStatus::Success, hash: 0, mtime_ns: 0 }),
            false,
        ),
        PutResult::TooManyEntries => (
            Some(KvReply::Done { nonce: n, status: KvStatus::Budget, hash: 0, mtime_ns: 0 }),
            false,
        ),
        PutResult::TooManyBytes => (
            Some(KvReply::Done { nonce: n, status: KvStatus::Budget, hash: 0, mtime_ns: 0 }),
            false,
        ),
        PutResult::Deleted => if durable && queued {
            subs.put_deferred();
            (None, false)
        } else {
            (Some(KvReply::Done { nonce: n, status: landed, hash: 0, mtime_ns: 0 }), true)
        },
        PutResult::Stored { hash, mtime_ns } => if durable && queued {
            subs.put_deferred();
            (None, false)
        } else {
            (Some(KvReply::Done { nonce: n, status: landed, hash, mtime_ns }), true)
        },
    }
}

/// Whether a change was queued for the disk. Without a writer nothing is, and a
/// writer that takes no more is given up.
pub fn enqueue(writer: &mut bool, sent: bool) -> (queued: bool)
    ensures
        queued == (*old(writer) && sent),
        *final(writer) == (*old(writer) && sent),
{
    if !*writer {
        return false;
    }
    *writer = sent;
    sent
}

/// Whether a batch of changes goes to the disk at once: whenever a put in it
/// waits for that.
pub fn batch_durable(waiting: &Vec<bool>) -> (r: bool)
    ensures
        r == waiting@.contains(true),
{
    let mut i: usize = 0;
    while i < waiting.len()
        invariant
            i <= waiting@.len(),
            forall|j: int| 0 <= j < i ==> !(#[trigger] waiting@[j]),
        decreases waiting@.len() - i,
    {
        if waiting[i] {
            proof {
                assert(waiting@[i as int] == true);
            }
            return true;
        }
        i = i + 1;
    }
    false
}

/// What a put that waited for the disk is answered.
pub fn commit_reply(subs: &mut KvSubs, n: u16, committed: bool, hash: u128, mtime_ns: u64) -> (r:
    KvReply)
    requires
        old(subs)@.pending_puts > 0,
    ensures
        r == (KvReply::Done {
            nonce: n,
            status: if committed {
                KvStatus::Success
            } else {
                KvStatus::Other
            },
            hash,
            mtime_ns,
        }),
        final(subs)@ == (SubsView {
            pending_puts: (old(subs)@.pending_puts - 1) as usize,
            ..old(subs)@
        }),
{
    subs.put_settled();
    let status = if committed {
        KvStatus::Success
    } else {
        KvStatus::Other
    };
    KvReply::Done { nonce: n, status, hash, mtime_ns }
}

/// Answers a fetch; the value goes with the answer where there is one.
pub fn fetch_reply(entries: &Entries, n: u16, key: &Option<String>) -> (r: (KvReply, Vec<u8>))
    requires
        entries.wf(),
    ensures
        match *key {
            None => r.0 == (KvReply::Value { nonce: n, status: KvStatus::Invalid, hash: 0 })
                && r.1@.len() == 0,
            Some(k) => if entries.map@.dom().contains(k@) {
                r.0 == (KvReply::Value {
                    nonce: n,
                    status: KvStatus::Success,
                    hash: entries.map@[k@].hash,
                }) && r.1@ == entries.map@[k@].value@
            } else {
                r.0 == (KvReply::Value { nonce: n, status: KvStatus::NotFound, hash: 0 })
                    && r.1@.len() == 0
            },
        },
{
    match key {
        None => (KvReply::Value { nonce: n, status: KvStatus::Invalid, hash: 0 }, Vec::new()),
        Some(k) => match entries.fetch(k.as_str()) {
            Some((hash, value)) => (
                KvReply::Value { nonce: n, status: KvStatus::Success, hash },
                value,
            ),
            None => (KvReply::Value { nonce: n, status: KvStatus::NotFound, hash: 0 }, Vec::new()),
        },
    }
}

/// A request for a subscription as it was read.
pub struct OpenRequest {
    pub nonce: u16,
    pub flags: u8,
    pub inline_max: u32,
    pub prefix: String,
}

/// What became of a request for a subscription.
pub enum OpenOutcome {
    Refused(KvReply),
    /// It is answered first, then its snapshot goes out.
    Opened { reply: KvReply, watch: u64, rows: Vec<SnapshotRow> },
}

pub open spec fn open_refused(n: u16, status: KvStatus, detail: &'static str) -> KvReply {
    KvReply::Opened { nonce: n, kv_id: KV_ID_INVALID, status, detail }
}

/// Why a request for a subscription is turned away, given how many the
/// connection has and whether an id is left.
pub open spec fn open_fault(
    n: u16,
    request: Option<OpenRequest>,
    live: nat,
    id_left: bool,
    budgets: Budgets,
) -> Option<KvReply> {
    match request {
        None => Some(open_refused(n, KvStatus::Invalid, "malformed request")),
        Some(o) => if o.flags != 0 {
            Some(open_refused(n, KvStatus::Invalid, "unknown flags"))
        } else if live >= budgets.max_subs {
            Some(open_refused(n, KvStatus::Budget, "subscription limit reached"))
        } else if !id_left {
            Some(open_refused(n, KvStatus::Budget, "no ids left"))
        } else {
            None
        },
    }
}

/// Whether a connection has an id left.
pub open spec fn id_left(map: Map<u16, u64>) -> bool {
    exists|id: u16| #[trigger] id_free(map, id)
}

/// A subscription as it starts.
pub open spec fn opened(kv_id: u16, o: OpenRequest, budgets: Budgets) -> SubView {
    SubView {
        kv_id,
        prefix: o.prefix@,
        inline_max: o.inline_max,
        unacked_max: budgets.unacked_max,
        connected: true,
        update_id: 0,
        pending: Some(Seq::empty()),
        unacked: Seq::empty(),
        closed: false,
    }
}

/// Admits a request for a subscription. Subscriptions that were given up are
/// taken away first, so that they count no more. What is under the prefix is
/// handed back; what changes from now on is queued behind it.
pub fn open_subscription(
    watches: &mut Watches,
    subs: &mut KvSubs,
    entries: &Entries,
    n: u16,
    request: Option<OpenRequest>,
    budgets: &Budgets,
) -> (r: OpenOutcome)
    requires
        old(watches).wf(),
        old(watches).linked(old(subs)@),
        old(watches).next < u64::MAX,
        entries.wf(),
        request is Some ==> request->0.nonce == n,
    ensures
        final(watches).wf(),
        final(watches).linked(final(subs)@),
        final(watches).others_kept(*old(watches), old(subs)@.connection),
        (request is None || request->0.flags != 0) ==> *final(watches) == *old(watches)
            && final(subs)@ == old(subs)@,
        (request is Some && request->0.flags == 0) ==> final(subs)@ == (SubsView {
            map: kept_ids(*old(watches), old(subs)@),
            next_id: final(subs)@.next_id,
            ..old(subs)@
        }),
        match r {
            OpenOutcome::Refused(reply) => {
                &&& open_fault(
                    n,
                    request,
                    final(subs)@.map.dom().len(),
                    id_left(final(subs)@.map),
                    *budgets,
                ) == Some(reply)
                &&& final(watches).next == old(watches).next
                &&& final(subs)@.next_id == old(subs)@.next_id
                &&& (request is Some && request->0.flags == 0) ==> final(watches).rows@
                    == kept_rows(*old(watches), old(subs)@)
            },
            OpenOutcome::Opened { reply, watch, rows } => {
                &&& open_fault(
                    n,
                    request,
                    final(subs)@.map.dom().len(),
                    id_left(final(subs)@.map),
                    *budgets,
                ) is None
                &&& watch == old(watches).next
                &&& final(watches).next == old(watches).next + 1
                &&& final(watches).rows@ == kept_rows(*old(watches), old(subs)@).insert(
                    watch,
                    final(watches).rows@[watch],
                )
                &&& ({
                    let w = final(watches).rows@[watch]@;
                    &&& w == (WatchView {
                        connection: old(subs)@.connection,
                        sub: opened(w.sub.kv_id, request->0, *budgets),
                        watched: true,
                    })
                    &&& id_free(final(subs)@.map, w.sub.kv_id)
                    &&& exists|k: int|
                        first_free(final(subs)@.map, old(subs)@.next_id, k) && w.sub.kv_id
                            == #[trigger] id_after(old(subs)@.next_id, k) && final(subs)@.next_id
                            == id_after(old(subs)@.next_id, k + 1)
                    &&& reply == (KvReply::Opened {
                        nonce: n,
                        kv_id: w.sub.kv_id,
                        status: KvStatus::Success,
                        detail: "",
                    })
                    &&& snapshot_views(rows@) == snapshot_rows(
                        entries.map.spec_rows(),
                        request->0.prefix@,
                        if request->0.inline_max == 0 {
                            u64::MAX
                        } else {
                            request->0.inline_max as u64
                        },
                    )
                })
            },
        },
{
    let o: OpenRequest = match request {
        Some(o) => o,
        None => {
            return OpenOutcome::Refused(
                KvReply::Opened {
                    nonce: n,
                    kv_id: KV_ID_INVALID,
                    status: KvStatus::Invalid,
                    detail: "malformed request",
                },
            );
        },
    };
    if o.flags != 0 {
        return OpenOutcome::Refused(
            KvReply::Opened {
                nonce: n,
                kv_id: KV_ID_INVALID,
                status: KvStatus::Invalid,
                detail: "unknown flags",
            },
        );
    }
    watches.sweep(subs);
    if subs.len() as u64 >= budgets.max_subs {
        return OpenOutcome::Refused(
            KvReply::Opened {
                nonce: n,
                kv_id: KV_ID_INVALID,
                status: KvStatus::Budget,
                detail: "subscription limit reached",
            },
        );
    }
    let kv_id: u16 = match subs.alloc_id() {
        Some(id) => id,
        None => {
            return OpenOutcome::Refused(
                KvReply::Opened {
                    nonce: n,
                    kv_id: KV_ID_INVALID,
                    status: KvStatus::Budget,
                    detail: "no ids left",
                },
            );
        },
    };
    proof {
        assert(id_free(subs@.map, kv_id));
    }
    let ghost swept = *watches;
    let sub = SubEntry::new(kv_id, o.prefix, o.inline_max, budgets.unacked_max);
    let rows = entries.matching(sub.prefix.as_str(), sub.inline_limit());
    let watch: u64 = watches.register(subs.connection(), sub);
    proof {
        assert(watches.linked(subs@)) by {
            assert forall|k: u16| #[trigger] subs@.map.dom().contains(k) implies {
                &&& k != KV_ID_INVALID
                &&& watches.rows@.dom().contains(subs@.map[k])
                &&& watches.rows@[subs@.map[k]].connection == subs@.connection
                &&& watches.rows@[subs@.map[k]].sub.kv_id == k
            } by {
                assert(swept.rows@.dom().contains(subs@.map[k]));
            }
        }
        assert(watches.others_kept(*old(watches), old(subs)@.connection)) by {
            assert forall|w: u64|
                #![trigger watches.rows@.dom().contains(w)]
                #![trigger old(watches).rows@.dom().contains(w)]
                (old(watches).rows@.dom().contains(w) && old(watches).rows@[w].connection != old(subs)@.connection) implies watches.rows@.dom().contains(w) && watches.rows@[w] == old(watches).rows@[w] by {
                assert(swept.rows@.dom().contains(w));
            }
        }
    }
    OpenOutcome::Opened {
        reply: KvReply::Opened { nonce: n, kv_id, status: KvStatus::Success, detail: "" },
        watch,
        rows,
    }
}

/// A put that lands at once is answered before its change goes out, and one
/// that waits for the disk is neither answered nor told of before that.
pub proof fn law_answer_comes_first(n: u16, result: PutResult, durable: bool, queued: bool)
    ensures
        put_answer(n, result, durable, queued).1 ==> put_answer(n, result, durable, queued).0
            is Some,
        put_answer(n, result, durable, queued).0 is None <==> durable && queued && (result is Deleted
            || result is Stored),
        put_answer(n, result, durable, queued).1 <==> !(durable && queued) && (result is Deleted
            || result is Stored),
{
}

/// A durable put is never told of success before it is on the disk.
pub proof fn law_durable_is_honest(n: u16, result: PutResult, queued: bool)
    ensures
        put_answer(n, result, true, queued).0 matches Some(KvReply::Done { status, .. })
            ==> (status == KvStatus::Success ==> result is AlreadyAbsent),
{
}

} // verus!
