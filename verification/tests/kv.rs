use blit_server::kv::message::{
    batch_durable, begin_put, budgets, check_put, commit_reply, db_path, declared_too_large, enqueue,
    env_budget, fetch_reply, nonce_of, open_subscription, put_reply, refuse_kv_message,
    BudgetSettings, KvOpcodes, KvReply, KvStatus, OpenOutcome, OpenRequest, PathBase,
    PathSettings, Platform, PutBits, RawPut, DEFAULT_VALUE_MAX,
};
use blit_server::kv::sessions::{KvSubs, KV_ID_INVALID};
use blit_server::kv::store::{
    chunk_records, encode_row, parse_row, snapshot_pieces, Budgets, Entries, PutRequest, PutResult,
    SNAPSHOT_CHUNK,
};
use blit_server::kv::subscription::{Sent, SubEntry};
use blit_server::kv::watches::{Change, Delivery, Watches};

const BITS: PutBits = PutBits { no_cas: 1, delete: 2, durable: 4 };
const OPS: KvOpcodes = KvOpcodes { open: 0x70, stop: 0x71, ack: 0x72, put: 0x73, fetch: 0x74 };

fn unset() -> BudgetSettings {
    BudgetSettings {
        value_max: None,
        total_max: None,
        max_entries: None,
        max_subs: None,
        max_inflight: None,
        unacked_max: None,
    }
}

fn frame(kv_id: u16, body: &[u8]) -> Vec<u8> {
    let mut msg = vec![0x60];
    msg.extend_from_slice(&kv_id.to_le_bytes());
    msg.extend_from_slice(&0u32.to_le_bytes());
    msg.extend_from_slice(body);
    msg
}

fn update(sent: Option<Sent>) -> Vec<u8> {
    match sent {
        Some(Sent::Update(bytes)) => bytes,
        Some(Sent::Closed { kv_id }) => panic!("closed {kv_id}"),
        None => panic!("nothing sent"),
    }
}

fn update_id(bytes: &[u8]) -> u32 {
    u32::from_le_bytes([bytes[3], bytes[4], bytes[5], bytes[6]])
}

fn raw(flags: u8, base: u128, key: &str, value: &[u8]) -> RawPut {
    RawPut { flags, base, key: key.to_string(), value: value.to_vec() }
}

#[test]
fn oversized_put_is_refused_before_inflating() {
    let limits = budgets(&unset());
    let over = limits.value_max + 1;
    assert!(declared_too_large(Some(over), &limits));
    let refused = check_put(Some(over), None, true, &BITS, 0, &limits);
    assert!(matches!(refused, Err(KvStatus::TooLarge)));

    // The one answer has the put's nonce, and no store was touched for it.
    let h = Harness::new(4096);
    let value = vec![0u8; over as usize];
    let mut data = vec![OPS.put, 1, 0, BITS.no_cas];
    data.extend_from_slice(b"big");
    data.extend_from_slice(&value);
    for put in [None, Some(raw(BITS.no_cas, 0, "big", &value))] {
        let refused = begin_put(&data, Some(over), put, true, &BITS, &h.subs, &limits);
        let reply =
            KvReply::Done { nonce: 1, status: KvStatus::TooLarge, hash: 0, mtime_ns: 0 };
        assert_eq!(refused.err(), Some(reply));
    }
    assert!(h.entries.fetch("big").is_none());
    assert_eq!(h.entries.total_bytes, 0);
}

#[test]
fn the_store_keeps_its_books_over_many_puts() {
    let mut h = Harness::new(4096);
    let keys = ["a", "b/1", "b/2", "c"];
    for round in 0..40u16 {
        let key = keys[round as usize % keys.len()];
        let value = vec![round as u8; round as usize % 7];
        let flags = if round % 5 == 4 { BITS.no_cas | BITS.delete } else { BITS.no_cas };
        let value: &[u8] = if round % 5 == 4 { &[] } else { &value };
        h.put(round, flags, 0, key, value);
        let rows = h.entries.matching("", u64::MAX);
        let total: usize = rows.iter().map(|row| row.key.len() + row.size).sum();
        assert_eq!(h.entries.total_bytes, total as u64);
        assert!(rows.iter().all(|row| row.hash == hash(row.value.as_deref().unwrap())));
    }
}

#[test]
fn sub_snapshot_buffering_orders_updates() {
    let mut sub = SubEntry::new(7, String::new(), 0, u64::MAX);
    let mut sent = Vec::new();
    // A change lands while the snapshot is still being written: it is queued.
    let (ok, now) = sub.deliver(frame(7, b""));
    assert!(ok);
    assert!(now.is_none());
    // The snapshot goes out first, as the first update.
    let (ok, now) = sub.send_chunk(frame(7, b""));
    assert!(ok);
    sent.push(update(now));
    for more in sub.go_live() {
        sent.push(update(Some(more)));
    }
    // What comes later keeps counting.
    let (ok, now) = sub.deliver(frame(7, b""));
    assert!(ok);
    sent.push(update(now));
    let ids: Vec<u32> = sent.iter().map(|m| update_id(m)).collect();
    assert_eq!(ids, vec![1, 2, 3]);
}

#[test]
fn sub_budget_breach_closes_and_silences() {
    let message = frame(7, b"records");
    let mut sub = SubEntry::new(7, String::new(), 0, 2 * message.len() as u64);
    assert!(sub.go_live().is_empty());
    let mut sent = Vec::new();
    let (ok, now) = sub.deliver(message.clone());
    assert!(ok);
    sent.extend(now);
    let (ok, now) = sub.deliver(message.clone());
    assert!(ok);
    sent.extend(now);
    let (ok, now) = sub.deliver(message.clone());
    assert!(!ok);
    sent.extend(now);
    assert!(sub.is_closed());
    let (ok, now) = sub.deliver(message.clone());
    assert!(!ok);
    sent.extend(now);
    assert_eq!(sent.len(), 3);
    assert!(matches!(sent[0], Sent::Update(_)));
    assert!(matches!(sent[1], Sent::Update(_)));
    assert!(matches!(sent[2], Sent::Closed { kv_id: 7 }));
}

#[test]
fn sub_ack_floor_releases_budget() {
    let message = frame(7, b"records");
    let mut sub = SubEntry::new(7, String::new(), 0, message.len() as u64);
    sub.go_live();
    for _ in 0..5 {
        let (ok, now) = sub.deliver(message.clone());
        assert!(ok);
        let id = update_id(&update(now));
        // An acknowledgement of what was acknowledged before frees nothing.
        sub.ack(id.wrapping_sub(1));
        sub.ack(id);
    }
    assert!(!sub.is_closed());
    assert_eq!(sub.unacked_bytes, 0);
}

/// A store with one connection, whose values hash to their length and first
/// byte.
struct Harness {
    entries: Entries,
    watches: Watches,
    subs: KvSubs,
    limits: Budgets,
    writer: bool,
    clock: u64,
}

fn hash(value: &[u8]) -> u128 {
    (value.len() as u128) << 8 | value.first().copied().unwrap_or(0) as u128 | 1 << 64
}

impl Harness {
    fn new(unacked_max: u64) -> Self {
        let mut limits = budgets(&unset());
        limits.unacked_max = unacked_max;
        Harness {
            entries: Entries::new(),
            watches: Watches::new(),
            subs: KvSubs::new(1),
            limits,
            writer: false,
            clock: 100,
        }
    }

    fn open(&mut self, nonce: u16, inline_max: u32, prefix: &str) -> (u16, Vec<Sent>) {
        let request = OpenRequest { nonce, flags: 0, inline_max, prefix: prefix.to_string() };
        match open_subscription(
            &mut self.watches,
            &mut self.subs,
            &self.entries,
            nonce,
            Some(request),
            &self.limits,
        ) {
            OpenOutcome::Opened { reply, watch, rows } => {
                let kv_id = match reply {
                    KvReply::Opened { kv_id, status: KvStatus::Success, .. } => kv_id,
                    other => panic!("{other:?}"),
                };
                let records: Vec<Vec<u8>> = rows
                    .iter()
                    .map(|row| {
                        let mut record = row.key.as_bytes().to_vec();
                        record.push(b'=');
                        record.extend_from_slice(row.value.as_deref().unwrap_or(b"?"));
                        record
                    })
                    .collect();
                let frames =
                    snapshot_pieces(&records).iter().map(|(_, c)| frame(kv_id, c)).collect();
                (kv_id, self.watches.finish_open(&mut self.subs, watch, frames))
            }
            OpenOutcome::Refused(reply) => panic!("{reply:?}"),
        }
    }

    fn put(
        &mut self,
        nonce: u16,
        flags: u8,
        base: u128,
        key: &str,
        value: &[u8],
    ) -> (Option<KvReply>, Vec<Delivery>) {
        let pending = self.subs.pending_puts();
        let put = check_put(
            Some(value.len() as u64),
            Some(raw(flags, base, key, value)),
            !key.is_empty(),
            &BITS,
            pending,
            &self.limits,
        )
        .unwrap();
        let durable = put.durable;
        self.clock += 1;
        let result = self.entries.apply_put(put, hash(value), self.clock, &self.limits);
        let queued = enqueue(&mut self.writer, true);
        let (reply, echo) = put_reply(&mut self.subs, nonce, result, durable, queued);
        let out = if echo { self.tell(key) } else { Vec::new() };
        (reply, out)
    }

    fn tell(&mut self, key: &str) -> Vec<Delivery> {
        let size = self.entries.size_of(key);
        let value = self.entries.fetch(key).map(|(_, v)| v).unwrap_or_default();
        let change = Change {
            size,
            inlined: frame(0, &[key.as_bytes(), b"=", &value].concat()),
            metadata: frame(0, &[key.as_bytes(), b"*"].concat()),
        };
        self.watches.broadcast(key, &change)
    }
}

fn done(reply: Option<KvReply>) -> (KvStatus, u128) {
    match reply {
        Some(KvReply::Done { status, hash, .. }) => (status, hash),
        other => panic!("{other:?}"),
    }
}

fn body(delivery: &Delivery) -> &[u8] {
    match &delivery.sent {
        Sent::Update(bytes) => &bytes[7..],
        Sent::Closed { kv_id } => panic!("closed {kv_id}"),
    }
}

#[test]
fn puts_fetches_and_watches_agree() {
    let mut h = Harness::new(4096);
    let (kv_id, snapshot) = h.open(1, 1024, "editor/");
    assert_eq!(snapshot.len(), 1);
    assert_eq!(kv_id, 0);

    // An entry that must not be there yet is created, and the watcher hears of it.
    let (reply, told) = h.put(2, 0, 0, "editor/x", b"one");
    let (status, h1) = done(reply);
    assert_eq!(status, KvStatus::Success);
    assert_eq!(h1, hash(b"one"));
    assert_eq!(told.len(), 1);
    assert_eq!(told[0].connection, 1);
    assert_eq!(body(&told[0]), b"editor/x=one");

    // A stale base conflicts and is told the current hash.
    let (reply, told) = h.put(3, 0, 0, "editor/x", b"stale");
    assert_eq!(done(reply), (KvStatus::Conflict, h1));
    assert!(told.is_empty());

    let (reply, _) = h.put(4, 0, h1, "editor/x", b"two");
    let (status, h2) = done(reply);
    assert_eq!(status, KvStatus::Success);

    let (reply, value) = fetch_reply(&h.entries, 5, &Some("editor/x".to_string()));
    assert_eq!(reply, KvReply::Value { nonce: 5, status: KvStatus::Success, hash: h2 });
    assert_eq!(value, b"two");

    // A key outside the prefix is not the watcher's.
    let (_, told) = h.put(6, 0, 0, "roots", b"main = /x\n");
    assert!(told.is_empty());

    let (reply, told) = h.put(7, BITS.delete, h2, "editor/x", b"");
    assert_eq!(done(reply), (KvStatus::Success, 0));
    assert_eq!(body(&told[0]), b"editor/x*");
    let (reply, value) = fetch_reply(&h.entries, 8, &Some("editor/x".to_string()));
    assert_eq!(reply, KvReply::Value { nonce: 8, status: KvStatus::NotFound, hash: 0 });
    assert!(value.is_empty());
    let (reply, _) = fetch_reply(&h.entries, 9, &None);
    assert_eq!(reply, KvReply::Value { nonce: 9, status: KvStatus::Invalid, hash: 0 });

    // A stopped subscription hears nothing more.
    h.watches.stop(&mut h.subs, kv_id);
    let (_, told) = h.put(10, 0, 0, "editor/y", b"z");
    assert!(told.is_empty());
}

#[test]
fn durable_puts_wait_for_the_disk() {
    let mut h = Harness::new(4096);
    h.writer = true;
    h.open(1, 0, "");
    let (reply, told) = h.put(2, BITS.durable, 0, "d", b"parked");
    assert!(reply.is_none());
    assert!(told.is_empty());
    assert_eq!(h.subs.pending_puts(), 1);
    let reply = commit_reply(&mut h.subs, 2, true, hash(b"parked"), 7);
    assert_eq!(
        reply,
        KvReply::Done { nonce: 2, status: KvStatus::Success, hash: hash(b"parked"), mtime_ns: 7 }
    );
    assert_eq!(h.subs.pending_puts(), 0);
    assert_eq!(h.tell("d").len(), 1);

    h.put(3, BITS.durable | BITS.no_cas, 0, "d", b"again");
    let reply = commit_reply(&mut h.subs, 3, false, 1, 2);
    assert_eq!(reply, KvReply::Done { nonce: 3, status: KvStatus::Other, hash: 1, mtime_ns: 2 });

    // Without a writer a durable put lands, and is told that it is not durable.
    h.writer = false;
    let (reply, told) = h.put(4, BITS.durable | BITS.no_cas, 0, "d", b"lost");
    assert_eq!(done(reply).0, KvStatus::Other);
    assert_eq!(told.len(), 1);
}

#[test]
fn a_watch_that_never_acknowledges_is_dropped_without_loss() {
    let mut h = Harness::new(4096);
    let (kv_id, _) = h.open(20, 0, "ret/");
    let mut updates = 0;
    let mut closed = 0;
    for i in 0..4u8 {
        let (reply, told) = h.put(21 + i as u16, BITS.no_cas, 0, "ret/x", &[i; 1500]);
        assert_eq!(done(reply).0, KvStatus::Success);
        for d in told {
            match d.sent {
                Sent::Update(_) => updates += 1,
                Sent::Closed { kv_id: id } => {
                    assert_eq!(id, kv_id);
                    closed += 1;
                }
            }
        }
    }
    assert_eq!((updates, closed), (2, 1));
    let (_, told) = h.put(25, BITS.no_cas, 0, "ret/x", &[99; 1500]);
    assert!(told.is_empty());

    // Opening again gives the present state under another id.
    let (again, snapshot) = h.open(26, 0, "ret/");
    assert_ne!(again, kv_id);
    assert_eq!(snapshot.len(), 1);
    match &snapshot[0] {
        Sent::Update(bytes) => assert!(bytes.ends_with(&[99; 1500])),
        Sent::Closed { .. } => panic!("closed"),
    }
    assert_eq!(h.subs.len(), 1);
}

#[test]
fn an_acknowledging_watch_goes_on() {
    let mut h = Harness::new(4096);
    let (kv_id, snapshot) = h.open(27, 0, "ack/");
    assert_eq!(snapshot.len(), 1);
    h.watches.ack(&h.subs, kv_id, 1);
    for i in 0..8u8 {
        let (_, told) = h.put(28, BITS.no_cas, 0, "ack/x", &[i; 1500]);
        match &told[0].sent {
            Sent::Update(bytes) => {
                assert_eq!(update_id(bytes), i as u32 + 2);
                h.watches.ack(&h.subs, kv_id, update_id(bytes));
            }
            Sent::Closed { .. } => panic!("closed"),
        }
    }
    // An id that names no subscription is passed over.
    h.watches.ack(&h.subs, 400, 1);
}

#[test]
fn a_snapshot_over_the_budget_closes_at_once() {
    let mut h = Harness::new(4096);
    for i in 0..4u8 {
        h.put(40, BITS.no_cas, 0, &format!("snap/{i}"), &[i; 1500]);
    }
    let (kv_id, sent) = h.open(44, 0, "snap/");
    assert_eq!(sent.len(), 1);
    assert!(matches!(sent[0], Sent::Closed { kv_id: id } if id == kv_id));
    assert_eq!(h.subs.len(), 0);
    let (_, told) = h.put(45, BITS.no_cas, 0, "snap/0", b"x");
    assert!(told.is_empty());
}

#[test]
fn values_over_the_inline_limit_stay_out() {
    let mut h = Harness::new(1 << 20);
    h.put(1, 0, 0, "a", b"12345");
    let (_, snapshot) = h.open(2, 4, "");
    match &snapshot[0] {
        Sent::Update(bytes) => assert_eq!(&bytes[7..], b"a=?"),
        Sent::Closed { .. } => panic!("closed"),
    }
    let (_, told) = h.put(3, BITS.no_cas, 0, "b", b"1234");
    assert_eq!(body(&told[0]), b"b=1234");
    let (_, told) = h.put(4, BITS.no_cas, 0, "b", b"12345");
    assert_eq!(body(&told[0]), b"b*");
}

#[test]
fn subscriptions_are_limited_and_refused_in_words() {
    let mut h = Harness::new(4096);
    h.limits.max_subs = 1;
    h.open(1, 0, "a");
    let ask = |h: &mut Harness, request: Option<OpenRequest>| match open_subscription(
        &mut h.watches,
        &mut h.subs,
        &h.entries,
        9,
        request,
        &h.limits,
    ) {
        OpenOutcome::Refused(KvReply::Opened { kv_id, status, detail, nonce }) => {
            assert_eq!((kv_id, nonce), (KV_ID_INVALID, 9));
            (status, detail)
        }
        _ => panic!("not refused"),
    };
    let request = |flags: u8| {
        Some(OpenRequest { nonce: 9, flags, inline_max: 0, prefix: String::new() })
    };
    assert_eq!(ask(&mut h, None), (KvStatus::Invalid, "malformed request"));
    assert_eq!(ask(&mut h, request(1)), (KvStatus::Invalid, "unknown flags"));
    assert_eq!(ask(&mut h, request(0)), (KvStatus::Budget, "subscription limit reached"));
}

#[test]
fn ids_are_given_in_turn_and_skip_what_is_in_use() {
    let mut subs = KvSubs::new(1);
    assert_eq!(subs.alloc_id(), Some(0));
    subs.set(0, 5);
    subs.set(2, 6);
    assert_eq!(subs.alloc_id(), Some(1));
    assert_eq!(subs.alloc_id(), Some(3));
    assert_eq!(subs.get(2), Some(6));
    subs.remove(2);
    assert_eq!(subs.get(2), None);
    assert_eq!(subs.len(), 1);
    for id in 0..KV_ID_INVALID {
        subs.set(id, id as u64);
    }
    assert_eq!(subs.alloc_id(), None);
    subs.remove(2);
    assert_eq!(subs.alloc_id(), Some(2));
}

#[test]
fn puts_are_checked_before_the_store_is_looked_at() {
    let limits = budgets(&unset());
    let check = |r: Option<RawPut>, valid: bool, pending: usize| {
        check_put(None, r, valid, &BITS, pending, &limits).map(|p| (p.delete, p.no_cas, p.durable))
    };
    assert_eq!(check(None, true, 0), Err(KvStatus::Invalid));
    assert_eq!(check(Some(raw(8, 0, "k", b"")), true, 0), Err(KvStatus::Invalid));
    assert_eq!(check(Some(raw(0, 0, "", b"")), false, 0), Err(KvStatus::Invalid));
    assert_eq!(check(Some(raw(2, 1, "k", b"v")), true, 0), Err(KvStatus::Invalid));
    assert_eq!(check(Some(raw(2, 0, "k", b"")), true, 0), Err(KvStatus::Invalid));
    assert_eq!(check(Some(raw(3, 0, "k", b"")), true, 0), Ok((true, true, false)));
    assert_eq!(check(Some(raw(4, 0, "k", b"v")), true, 16), Err(KvStatus::Budget));
    assert_eq!(check(Some(raw(4, 0, "k", b"v")), true, 15), Ok((false, false, true)));
    let mut small = limits;
    small.value_max = 2;
    assert_eq!(
        check_put(None, Some(raw(0, 0, "k", b"abc")), true, &BITS, 0, &small).map(|_| ()),
        Err(KvStatus::TooLarge)
    );
}

#[test]
fn entries_and_bytes_are_limited() {
    let mut limits = budgets(&unset());
    limits.max_entries = 1;
    limits.total_max = 6;
    let mut entries = Entries::new();
    let put = |key: &str, value: &[u8], delete: bool| PutRequest {
        key: key.to_string(),
        value: value.to_vec(),
        base: 0,
        delete,
        no_cas: true,
        durable: false,
    };
    assert_eq!(
        entries.apply_put(put("ab", b"cdef", false), 5, 9, &limits),
        PutResult::Stored { hash: 5, mtime_ns: 9 }
    );
    assert_eq!(entries.total_bytes, 6);
    assert_eq!(
        entries.apply_put(put("x", b"", false), 6, 9, &limits),
        PutResult::TooManyEntries
    );
    assert_eq!(
        entries.apply_put(put("ab", b"cdefg", false), 6, 9, &limits),
        PutResult::TooManyBytes
    );
    assert_eq!(entries.apply_put(put("zz", b"", true), 0, 9, &limits), PutResult::AlreadyAbsent);
    assert_eq!(entries.apply_put(put("ab", b"", true), 0, 9, &limits), PutResult::Deleted);
    assert_eq!(entries.total_bytes, 0);
}

#[test]
fn stored_rows_are_read_back() {
    let raw = encode_row(0x0102_0304_0506_0708, &b"value".to_vec());
    assert_eq!(raw, b"\x08\x07\x06\x05\x04\x03\x02\x01value");
    assert_eq!(parse_row(&raw), Some((0x0102_0304_0506_0708, b"value".to_vec())));
    assert_eq!(parse_row(&vec![0; 7]), None);
    let mut entries = Entries::new();
    entries.load("k".to_string(), &raw, 42);
    entries.load("short".to_string(), &vec![1, 2], 43);
    assert_eq!(entries.fetch("k"), Some((42, b"value".to_vec())));
    assert_eq!(entries.fetch("short"), None);
    assert_eq!(entries.total_bytes, 6);
}

#[test]
fn snapshots_come_in_order_and_in_pieces() {
    let mut entries = Entries::new();
    for key in ["b/2", "a", "b/1", "c"] {
        entries.load(key.to_string(), &encode_row(1, &key.as_bytes().to_vec()), 1);
    }
    let keys: Vec<String> = entries.matching("b/", u64::MAX).into_iter().map(|r| r.key).collect();
    assert_eq!(keys, vec!["b/1", "b/2"]);

    let big = vec![1u8; SNAPSHOT_CHUNK - 1];
    let pieces = chunk_records(&vec![big.clone(), vec![2], vec![3]]);
    assert_eq!(pieces.len(), 2);
    assert_eq!(pieces[0].len(), SNAPSHOT_CHUNK);
    assert_eq!(pieces[1], vec![3]);
    let records = vec![big, vec![2]];
    assert_eq!(chunk_records(&records).last().unwrap().len(), 0);
    assert_eq!(chunk_records(&Vec::new()), vec![Vec::<u8>::new()]);
    // The last message of a snapshot ends it, an empty one too.
    let ends: Vec<bool> = snapshot_pieces(&records).iter().map(|(end, _)| *end).collect();
    assert_eq!(ends, vec![false, true]);
    assert_eq!(snapshot_pieces(&Vec::new()), vec![(true, Vec::new())]);
}

#[test]
fn a_gone_connection_takes_its_watches_with_it() {
    let mut h = Harness::new(4096);
    h.open(1, 0, "");
    h.watches.disconnect(2);
    assert_eq!(h.put(2, 0, 0, "a", b"1").1.len(), 1);
    h.watches.disconnect(1);
    assert!(h.put(3, 0, 0, "b", b"1").1.is_empty());
}

#[test]
fn every_request_with_a_nonce_is_refused_once_while_switched_off() {
    assert_eq!(
        refuse_kv_message(&[OPS.open, 5, 1], &OPS),
        Some(KvReply::Opened {
            nonce: 0x0105,
            kv_id: KV_ID_INVALID,
            status: KvStatus::Permission,
            detail: "kv disabled",
        })
    );
    assert_eq!(
        refuse_kv_message(&[OPS.put, 5], &OPS),
        Some(KvReply::Done { nonce: 0, status: KvStatus::Permission, hash: 0, mtime_ns: 0 })
    );
    assert_eq!(
        refuse_kv_message(&[OPS.fetch, 10, 0, 9], &OPS),
        Some(KvReply::Value { nonce: 10, status: KvStatus::Permission, hash: 0 })
    );
    assert_eq!(refuse_kv_message(&[OPS.ack, 10, 0], &OPS), None);
    assert_eq!(refuse_kv_message(&[], &OPS), None);
    assert_eq!(nonce_of(&[1, 2]), 0);
}

#[test]
fn batches_are_durable_when_a_put_waits() {
    assert!(!batch_durable(&vec![false, false]));
    assert!(batch_durable(&vec![false, true]));
    let mut writer = true;
    assert!(!enqueue(&mut writer, false));
    assert!(!writer);
    assert!(!enqueue(&mut writer, true));
}

#[test]
fn limits_are_read_from_settings() {
    assert_eq!(budgets(&unset()).value_max, DEFAULT_VALUE_MAX);
    assert_eq!(DEFAULT_VALUE_MAX, 4 * 1024 * 1024);
    assert_eq!(env_budget(&Some("4096".to_string()), 1), 4096);
    assert_eq!(env_budget(&Some("4k".to_string()), 1), 1);
    assert_eq!(env_budget(&None, 16), 16);
    let limits = budgets(&unset());
    assert_eq!(limits.total_max, 256 * 1024 * 1024);
    assert_eq!((limits.max_entries, limits.max_subs, limits.max_inflight), (16384, 16, 16));
    assert_eq!(limits.unacked_max, 16 * 1024 * 1024);
}

#[test]
fn the_database_lies_under_the_state_directory() {
    let s = |given, state_home, home, app_data| PathSettings { given, state_home, home, app_data };
    assert_eq!(
        db_path(Platform::Unix, &s(true, true, true, true)).map(|p| p.0 == PathBase::Given),
        Some(true)
    );
    let (base, rest) = db_path(Platform::Unix, &s(false, true, true, false)).unwrap();
    assert!(base == PathBase::StateHome);
    assert_eq!(rest, Some("blit/kv.redb"));
    let (base, rest) = db_path(Platform::Unix, &s(false, false, true, false)).unwrap();
    assert!(base == PathBase::Home);
    assert_eq!(rest, Some(".local/state/blit/kv.redb"));
    let (_, rest) = db_path(Platform::MacOs, &s(false, true, true, false)).unwrap();
    assert_eq!(rest, Some("Library/Application Support/blit/kv.redb"));
    let (_, rest) = db_path(Platform::Windows, &s(false, false, false, true)).unwrap();
    assert_eq!(rest, Some("blit\\kv.redb"));
    assert!(db_path(Platform::Unix, &s(false, false, false, true)).is_none());
}
