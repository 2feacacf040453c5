//! What holds of the store and its subscriptions as a whole.

use vstd::prelude::*;

use crate::bytes::{le16, le32, lemma_le_bytes_len};
use crate::kv::message::{
    budget, database_place, nonce, open_fault, opened, put_answer, put_fault, refusal,
};
use crate::kv::message::{
    KvOpcodes, KvReply, KvStatus, OpenRequest, PathBase, PathSettings, Platform, PutBits,
    RawPut,
};
use crate::kv::sessions::{first_free, id_after};
use crate::kv::store::{after_put, chunked, put_result, row_bytes, row_parts, snapshot_rows};
use crate::kv::store::{Budgets, Entries, Entry, PutRequest, PutResult, SnapshotRowView};
use crate::kv::subscription::{after_ack, delivered, window};
use crate::kv::subscription::{SentView, SubEntry, SubView};
use crate::kv::watches::{after_change, fan_out, sent_for};
use crate::kv::watches::{Change, Watch, WatchView};
use crate::text::digits_of;
use crate::text::laws::law_numbers_are_read_back;
use crate::text_map::{has_key, lemma_key_row, sorted, text_lt, text_rows_map};

verus! {

/// Whether a row of a snapshot is that of an entry under the prefix, with its value
/// exactly where that is no longer than the limit.
spec fn row_of_entry(
    r: SnapshotRowView,
    e: Entry,
    prefix: Seq<char>,
    limit: u64,
) -> bool {
    &&& prefix.len() <= r.key.len()
    &&& forall|i: int| 0 <= i < prefix.len() ==> r.key[i] == #[trigger] prefix[i]
    &&& r.hash == e.hash
    &&& r.size as nat == e.value@.len()
    &&& r.mtime_ns == e.mtime_ns
    &&& r.value is Some <==> e.value@.len() <= limit
    &&& r.value is Some ==> r.value == Some(e.value@)
}

proof fn lemma_snapshot(rows: Seq<(String, Entry)>, prefix: Seq<char>, limit: u64)
    requires
        sorted(rows),
    ensures
        ({
            let out = snapshot_rows(rows, prefix, limit);
            &&& forall|i: int|
                0 <= i < out.len() ==> has_key(rows, (#[trigger] out[i]).key) && row_of_entry(
                    out[i],
                    text_rows_map(rows)[out[i].key],
                    prefix,
                    limit,
                )
            &&& forall|i: int, j: int|
                0 <= i < j < out.len() ==> text_lt(
                    (#[trigger] out[i]).key,
                    (#[trigger] out[j]).key,
                )
            &&& forall|k: int|
                0 <= k < rows.len() && prefix.len() <= (#[trigger] rows[k]).0@.len() && (forall|
                    i: int,
                |
                    0 <= i < prefix.len() ==> rows[k].0@[i] == #[trigger] prefix[i])
                    ==> exists|i: int|
                    0 <= i < out.len() && (#[trigger] out[i]).key == rows[k].0@
        }),
    decreases rows.len(),
{
    if rows.len() > 0 {
        let front = rows.drop_last();
        let last = rows.last();
        let n = rows.len() - 1;
        lemma_snapshot(front, prefix, limit);
        let rest = snapshot_rows(front, prefix, limit);
        let out = snapshot_rows(rows, prefix, limit);
        let key = last.0@;
        lemma_key_row(rows, n);
        assert(last.1.value.len() == last.1.value@.len());
        let under = prefix.len() <= key.len() && forall|i: int|
            0 <= i < prefix.len() ==> key[i] == #[trigger] prefix[i];
        assert(under ==> key.subrange(0, prefix.len() as int) =~= prefix);
        if key.subrange(0, prefix.len() as int) == prefix && prefix.len() <= key.len() {
            assert forall|i: int| 0 <= i < prefix.len() implies key[i] == #[trigger] prefix[i] by {
                assert(key.subrange(0, prefix.len() as int)[i] == key[i]);
            }
        }
        assert forall|i: int| 0 <= i < out.len() implies has_key(rows, (#[trigger] out[i]).key)
            && row_of_entry(out[i], text_rows_map(rows)[out[i].key], prefix, limit) by {
            if i < rest.len() {
                assert(out[i] == rest[i]);
                let m = choose|m: int| 0 <= m < front.len() && (#[trigger] front[m]).0@ == rest[i].key;
                assert(has_key(front, rest[i].key));
                assert(rows[m] == front[m]);
                lemma_key_row(rows, m);
                lemma_key_row(front, m);
            }
        }
        assert forall|i: int, j: int| 0 <= i < j < out.len() implies text_lt(
            (#[trigger] out[i]).key,
            (#[trigger] out[j]).key,
        ) by {
            assert(out[i] == rest[i]);
            if j < rest.len() {
                assert(out[j] == rest[j]);
            } else {
                assert(has_key(front, rest[i].key));
                let m = choose|m: int| 0 <= m < front.len() && (#[trigger] front[m]).0@ == rest[i].key;
                assert(rows[m] == front[m]);
                assert(text_lt(rows[m].0@, rows[n].0@));
            }
        }
        assert forall|k: int|
            0 <= k < rows.len() && prefix.len() <= (#[trigger] rows[k]).0@.len() && (forall|i: int|
                0 <= i < prefix.len() ==> rows[k].0@[i] == #[trigger] prefix[i]) implies exists|
            i: int,
        |
            0 <= i < out.len() && (#[trigger] out[i]).key == rows[k].0@ by {
            if k < n {
                assert(front[k] == rows[k]);
                let i = choose|i: int|
                    0 <= i < rest.len() && (#[trigger] rest[i]).key == rows[k].0@;
                assert(out[i] == rest[i]);
            } else {
                assert(out[out.len() - 1].key == key);
            }
        }
    }
}

/// A snapshot has exactly one row for each entry whose key has the prefix, in the
/// order of the keys. A row gives the hash, the size and the time of its entry, and
/// its value exactly where that is no longer than the limit.
pub proof fn law_snapshot_shows_the_prefix(e: Entries, prefix: Seq<char>, limit: u64)
    requires
        e.wf(),
    ensures
        ({
            let out = snapshot_rows(e.map.spec_rows(), prefix, limit);
            &&& forall|i: int|
                0 <= i < out.len() ==> {
                    let r = #[trigger] out[i];
                    let entry = e.map@[r.key];
                    &&& e.map@.dom().contains(r.key)
                    &&& prefix.len() <= r.key.len()
                    &&& forall|k: int| 0 <= k < prefix.len() ==> r.key[k] == #[trigger] prefix[k]
                    &&& r.hash == entry.hash
                    &&& r.size as nat == entry.value@.len()
                    &&& r.mtime_ns == entry.mtime_ns
                    &&& r.value is Some <==> entry.value@.len() <= limit
                    &&& r.value is Some ==> r.value == Some(entry.value@)
                }
            &&& forall|i: int, j: int|
                0 <= i < j < out.len() ==> text_lt(
                    (#[trigger] out[i]).key,
                    (#[trigger] out[j]).key,
                )
            &&& forall|key: Seq<char>|
                #![trigger e.map@.dom().contains(key)]
                e.map@.dom().contains(key) && prefix.len() <= key.len() && (forall|k: int|
                    0 <= k < prefix.len() ==> key[k] == #[trigger] prefix[k]) ==> exists|i: int|
                    0 <= i < out.len() && (#[trigger] out[i]).key == key
        }),
{
    let rows = e.map.spec_rows();
    e.map.lemma_rows();
    lemma_snapshot(rows, prefix, limit);
    let out = snapshot_rows(rows, prefix, limit);
    assert forall|key: Seq<char>|
        #![trigger e.map@.dom().contains(key)]
        e.map@.dom().contains(key) && prefix.len() <= key.len() && (forall|k: int|
            0 <= k < prefix.len() ==> key[k] == #[trigger] prefix[k]) implies exists|i: int|
        0 <= i < out.len() && (#[trigger] out[i]).key == key by {
        assert(has_key(rows, key));
        let k = choose|k: int| 0 <= k < rows.len() && (#[trigger] rows[k]).0@ == key;
        assert(rows[k].0@ == key);
    }
}

/// A subscription that names a longest value gets values up to that length; one that
/// names none gets values of any length.
pub proof fn law_inline_limit(s: SubEntry, len: nat)
    requires
        len <= u64::MAX,
    ensures
        len <= s.spec_inline_limit() <==> s.inline_max == 0 || len <= s.inline_max,
{
}

/// Whether the entry is the one that a put was made for: any will do where the put says
/// so, none where its base is zero, and else the one with the base's hash.
pub open spec fn base_holds(entries: Map<Seq<char>, Entry>, put: PutRequest) -> bool {
    ||| put.no_cas
    ||| entries.dom().contains(put.key@) && entries[put.key@].hash == put.base
    ||| !entries.dom().contains(put.key@) && put.base == 0
}

/// The bytes of an entry's key and value; none where there is no entry.
pub open spec fn held_bytes(entries: Map<Seq<char>, Entry>, key: Seq<char>) -> nat {
    if entries.dom().contains(key) {
        vstd::utf8::encode_utf8(key).len() + entries[key].value@.len()
    } else {
        0
    }
}

/// A value is stored exactly where its base holds, there is a place for it, and the store
/// with it stays within its bytes; each of these that fails is told apart. A deletion
/// asks for no more than that its base holds. What is not changed is as it was.
pub proof fn law_put_that_fits_is_stored(
    entries: Map<Seq<char>, Entry>,
    count: nat,
    total: nat,
    put: PutRequest,
    hash: u128,
    mtime_ns: u64,
    budgets: Budgets,
)
    ensures
        ({
            let r = put_result(entries, count, total, put, hash, mtime_ns, budgets);
            let held = entries.dom().contains(put.key@);
            let place = held || count < budgets.max_entries;
            let size = vstd::utf8::encode_utf8(put.key@).len() + put.value@.len();
            let room = total - held_bytes(entries, put.key@) + size <= budgets.total_max;
            let after = after_put(entries, put, r);
            &&& r is Conflict <==> !base_holds(entries, put)
            &&& r is Stored <==> base_holds(entries, put) && !put.delete && place && room
            &&& r is Stored ==> r == (PutResult::Stored { hash, mtime_ns })
            &&& r is TooManyEntries <==> base_holds(entries, put) && !put.delete && !place
            &&& r is TooManyBytes <==> base_holds(entries, put) && !put.delete && place && !room
            &&& r is Deleted <==> base_holds(entries, put) && put.delete && held
            &&& r is AlreadyAbsent <==> base_holds(entries, put) && put.delete && !held
            &&& r matches PutResult::Conflict { current } ==> (held ==> current
                == entries[put.key@].hash) && (!held ==> current == 0)
            &&& !(r is Stored || r is Deleted) ==> after == entries
            &&& r is Stored ==> after.dom().contains(put.key@) && after[put.key@].value == put.value
                && after[put.key@].hash == hash && after[put.key@].mtime_ns == mtime_ns
            &&& r is Deleted ==> !after.dom().contains(put.key@)
        }),
{
}

/// Which puts are taken up: those that are well-formed, whose value is not too long, that
/// set no bit that has no meaning, that carry no value to delete with, and that find a
/// place to wait where they are to be durable.
pub proof fn law_puts_are_taken_up(
    declared: Option<u64>,
    p: RawPut,
    key_valid: bool,
    bits: PutBits,
    pending: nat,
    budgets: Budgets,
)
    requires
        declared is Some ==> declared->0 <= budgets.value_max,
    ensures
        ({
            let r = put_fault(declared, Some(p), key_valid, bits, pending, budgets);
            let known = p.flags & !(bits.no_cas | bits.delete | bits.durable) == 0;
            let delete = p.flags & bits.delete != 0;
            let no_cas = p.flags & bits.no_cas != 0;
            let durable = p.flags & bits.durable != 0;
            let sound = known && key_valid && (delete ==> p.value@.len() == 0 && (no_cas || p.base
                != 0));
            &&& put_fault(declared, None, key_valid, bits, pending, budgets) == Some(
                KvStatus::Invalid,
            )
            &&& r == Some(KvStatus::Invalid) <==> !sound
            &&& r == Some(KvStatus::TooLarge) <==> sound && !delete && p.value@.len()
                > budgets.value_max
            &&& r == Some(KvStatus::Budget) <==> sound && (delete || p.value@.len()
                <= budgets.value_max) && durable && pending >= budgets.max_inflight
            &&& r is None <==> sound && (delete || p.value@.len() <= budgets.value_max) && (durable
                ==> pending < budgets.max_inflight)
        }),
{
}

/// A value that is said to be too long is refused as such before anything else is read.
pub proof fn law_announced_length_is_refused(
    declared: u64,
    raw: Option<RawPut>,
    key_valid: bool,
    bits: PutBits,
    pending: nat,
    budgets: Budgets,
)
    requires
        declared > budgets.value_max,
    ensures
        put_fault(Some(declared), raw, key_valid, bits, pending, budgets) == Some(
            KvStatus::TooLarge,
        ),
{
}

/// What a put is answered: success with the new hash and time for one that is stored and
/// was not to be durable, success for a deletion, the hash that is there for a conflict,
/// and the budget where that stood in the way. One that is to be durable is answered
/// when it is, and told of a failure where nothing will write it.
pub proof fn law_puts_are_answered(n: u16, hash: u128, mtime_ns: u64, current: u128, queued: bool)
    ensures
        ({
            let done = |status: KvStatus, hash: u128, mtime_ns: u64|
                Some(KvReply::Done { nonce: n, status, hash, mtime_ns });
            let stored = PutResult::Stored { hash, mtime_ns };
            &&& put_answer(n, stored, false, queued).0 == done(KvStatus::Success, hash, mtime_ns)
            &&& put_answer(n, PutResult::Deleted, false, queued).0 == done(KvStatus::Success, 0, 0)
            &&& put_answer(n, stored, true, true).0 is None
            &&& put_answer(n, PutResult::Deleted, true, true).0 is None
            &&& put_answer(n, stored, true, false).0 == done(KvStatus::Other, hash, mtime_ns)
            &&& put_answer(n, PutResult::Deleted, true, false).0 == done(KvStatus::Other, 0, 0)
            &&& forall|durable: bool|
                {
                    &&& #[trigger] put_answer(n, PutResult::AlreadyAbsent, durable, queued).0
                        == done(KvStatus::Success, 0, 0)
                    &&& put_answer(n, PutResult::TooManyEntries, durable, queued).0 == done(
                        KvStatus::Budget,
                        0,
                        0,
                    )
                    &&& put_answer(n, PutResult::TooManyBytes, durable, queued).0 == done(
                        KvStatus::Budget,
                        0,
                        0,
                    )
                    &&& put_answer(n, PutResult::Conflict { current }, durable, queued).0 == done(
                        KvStatus::Conflict,
                        current,
                        0,
                    )
                }
        }),
{
}

/// A request to open is refused with the id that no subscription has, and says which of
/// the four things stood in its way; else it is not refused.
pub proof fn law_opening_is_refused(
    n: u16,
    request: Option<OpenRequest>,
    live: nat,
    id_left: bool,
    budgets: Budgets,
)
    ensures
        ({
            let r = open_fault(n, request, live, id_left, budgets);
            let sound = request is Some && request->0.flags == 0;
            &&& r is None <==> sound && live < budgets.max_subs && id_left
            &&& r is Some ==> (r->0 matches KvReply::Opened { nonce, kv_id, status, .. } && nonce
                == n && kv_id == 0xffff && status == (if sound {
                KvStatus::Budget
            } else {
                KvStatus::Invalid
            }))
        }),
{
}

/// A new subscription has the prefix and the limit that were asked for, waits for its
/// snapshot, and owes nothing.
pub proof fn law_new_subscription(kv_id: u16, o: OpenRequest, budgets: Budgets, msg: Seq<u8>)
    ensures
        ({
            let s = opened(kv_id, o, budgets);
            &&& s.kv_id == kv_id && s.prefix == o.prefix@ && s.inline_max == o.inline_max
            &&& s.unacked_max == budgets.unacked_max && s.unacked.len() == 0
            &&& s.connected && !s.closed
            &&& delivered(s, msg).ok && delivered(s, msg).sent.len() == 0
            &&& delivered(s, msg).sub.pending == Some(seq![msg])
        }),
{
    assert(Seq::<Seq<u8>>::empty().push(msg) =~= seq![msg]);
}

/// While the store is off, what opens, puts or fetches is answered that this is not
/// permitted, under the number that it came with, and everything else is passed over.
pub proof fn law_store_that_is_off(data: Seq<u8>, ops: KvOpcodes)
    requires
        ops.open != ops.put,
        ops.open != ops.fetch,
        ops.put != ops.fetch,
    ensures
        data.len() == 0 || (data[0] != ops.open && data[0] != ops.put && data[0] != ops.fetch)
            ==> refusal(data, ops) is None,
        data.len() > 0 && data[0] == ops.open ==> (refusal(data, ops) matches Some(
            KvReply::Opened { nonce: n, kv_id, status, .. },
        ) && n == nonce(data) && kv_id == 0xffff && status == KvStatus::Permission),
        data.len() > 0 && data[0] == ops.put ==> (refusal(data, ops) matches Some(
            KvReply::Done { nonce: n, status, .. },
        ) && n == nonce(data) && status == KvStatus::Permission),
        data.len() > 0 && data[0] == ops.fetch ==> (refusal(data, ops) matches Some(
            KvReply::Value { nonce: n, status, .. },
        ) && n == nonce(data) && status == KvStatus::Permission),
{
}

/// The number of a request is in its second and third byte, the lower one first.
pub proof fn law_request_number(n: u16, first: u8, rest: Seq<u8>)
    ensures
        nonce(seq![first] + le16(n) + rest) == n,
{
    lemma_le_bytes_len(n as nat, 2);
    let data = seq![first] + le16(n) + rest;
    assert(data.subrange(1, 3) =~= le16(n));
    crate::bytes::lemma_byte_range_values();
    crate::bytes::law_le_round_trip(n as nat, 2);
}

/// A change under the prefix of a watch that is live and has room for it is sent to the
/// watch's connection once: with the value where that is no longer than the watch
/// takes, under the subscription's id and the number after that of the last update. The
/// update counts toward what is not acknowledged.
pub proof fn law_matching_prefix_hears(w: WatchView, key: Seq<char>, change: Change)
    requires
        w.watched,
        w.sub.prefix.len() <= key.len(),
        forall|i: int| 0 <= i < w.sub.prefix.len() ==> key[i] == w.sub.prefix[i],
        !w.sub.closed,
        w.sub.connected,
        w.sub.pending is None,
        change.inlined@.len() >= 7,
        change.metadata@.len() >= 7,
        window(w.sub.unacked) + change.inlined@.len() <= w.sub.unacked_max,
        window(w.sub.unacked) + change.metadata@.len() <= w.sub.unacked_max,
    ensures
        ({
            let sent = sent_for(w, key, change);
            let after = after_change(w, key, change);
            let whole = change.size is Some && (w.sub.inline_max == 0 || change.size->0
                <= w.sub.inline_max);
            let body = if whole {
                change.inlined@
            } else {
                change.metadata@
            };
            let id = ((w.sub.update_id + 1) % 0x1_0000_0000) as u32;
            &&& sent.len() == 1
            &&& sent[0].connection == w.connection
            &&& sent[0].sent matches SentView::Update(m) && m.len() == body.len() && m[0] == body[0]
                && m.subrange(1, 3) == le16(w.sub.kv_id) && m.subrange(3, 7) == le32(id) && m.skip(7)
                == body.skip(7)
            &&& after.watched && !after.sub.closed && after.connection == w.connection
            &&& after.sub.update_id == id
            &&& after.sub.unacked == w.sub.unacked.push((id, body.len() as u64))
        }),
{
    assert(key.subrange(0, w.sub.prefix.len() as int) =~= w.sub.prefix);
    let whole = change.size is Some && (w.sub.inline_max == 0 || change.size->0
        <= w.sub.inline_max);
    let body = if whole {
        change.inlined@
    } else {
        change.metadata@
    };
    assert(crate::kv::watches::chosen(w.sub, change) == body);
    let id = ((w.sub.update_id + 1) % 0x1_0000_0000) as u32;
    assert(crate::kv::subscription::next_id(w.sub.update_id) == id);
    lemma_le_bytes_len(w.sub.kv_id as nat, 2);
    lemma_le_bytes_len(id as nat, 4);
    let a = crate::kv::subscription::addressed(body, w.sub.kv_id);
    let m = crate::kv::subscription::stamped(a, id);
    assert(a.len() == body.len());
    assert(m.subrange(1, 3) =~= le16(w.sub.kv_id));
    assert(m.subrange(3, 7) =~= le32(id));
    assert(m.skip(7) =~= body.skip(7));
    assert(sent_for(w, key, change)[0].sent == SentView::Update(m));
}

/// What changes before the snapshot has gone out waits behind what already waits, and is
/// not lost.
pub proof fn law_changes_wait_for_the_snapshot(s: SubView, queue: Seq<Seq<u8>>, msg: Seq<u8>)
    requires
        !s.closed,
        s.pending == Some(queue),
    ensures
        ({
            let r = delivered(s, msg);
            &&& r.ok && r.sent.len() == 0
            &&& r.sub.pending == Some(queue.push(msg))
            &&& r.sub.unacked == s.unacked && r.sub.update_id == s.update_id && !r.sub.closed
        }),
{
}

/// A watch that nobody reads any more is told nothing, and is not kept.
pub proof fn law_lost_connection_is_not_watched(w: WatchView, key: Seq<char>, change: Change)
    requires
        !w.sub.connected,
    ensures
        w.sub.pending is None ==> sent_for(w, key, change).len() == 0,
        w.sub.pending is None && w.watched && crate::text::begins_with(key, w.sub.prefix)
            ==> !after_change(w, key, change).watched,
{
}

/// What a broadcast sends is what each watch gets, in the order of the watches.
pub proof fn law_every_watch_gets_its_own(
    rows: Seq<(u64, Watch)>,
    key: Seq<char>,
    change: Change,
    n: int,
)
    requires
        0 <= n < rows.len(),
    ensures
        fan_out(rows.take(n + 1), key, change) == fan_out(rows.take(n), key, change) + sent_for(
            rows[n].1@,
            key,
            change,
        ),
        fan_out(rows.take(0), key, change).len() == 0,
        fan_out(rows.take(rows.len() as int), key, change) == fan_out(rows, key, change),
{
    assert(rows.take(n + 1).drop_last() =~= rows.take(n));
    assert(rows.take(n + 1).last() == rows[n]);
    assert(rows.take(rows.len() as int) =~= rows);
}

/// An acknowledgement covers the updates at the front up to the first with a higher
/// number, and no others.
pub proof fn law_ack_covers_the_front(unacked: Seq<(u32, u64)>, id: u32) -> (n: int)
    ensures
        0 <= n <= unacked.len(),
        after_ack(unacked, id) == unacked.skip(n),
        forall|i: int| 0 <= i < n ==> (#[trigger] unacked[i]).0 <= id,
        n < unacked.len() ==> unacked[n].0 > id,
    decreases unacked.len(),
{
    if unacked.len() == 0 || unacked[0].0 > id {
        assert(unacked.skip(0) =~= unacked);
        0
    } else {
        let tail = unacked.subrange(1, unacked.len() as int);
        let n = law_ack_covers_the_front(tail, id);
        assert(tail.skip(n) =~= unacked.skip(n + 1));
        assert forall|i: int| 0 <= i < n + 1 implies (#[trigger] unacked[i]).0 <= id by {
            if i > 0 {
                assert(unacked[i] == tail[i - 1]);
            }
        }
        if n + 1 < unacked.len() {
            assert(unacked[n + 1] == tail[n]);
        }
        n + 1
    }
}

/// A subscription's id is the nearest after the last that none has, round the end; the
/// largest number is never one.
pub proof fn law_subscription_ids(map: Map<u16, u64>, from: u16, n: int, other: int)
    requires
        first_free(map, from, n),
        0 <= other < n,
    ensures
        id_after(from, n) != 0xffff,
        !map.dom().contains(id_after(from, n)),
        id_after(from, n) == (if from + n <= 0xffff {
            from + n
        } else {
            from + n - 0x1_0000
        }),
        id_after(from, other) == 0xffff || map.dom().contains(id_after(from, other)),
{
}

/// A budget that is given as a number is that number; one that is not given, or too large,
/// is the one that the server comes with.
pub proof fn law_budgets_are_read(n: nat, default: u64)
    ensures
        n <= u64::MAX ==> budget(Some(digits_of(n)), default) == n,
        n > u64::MAX ==> budget(Some(digits_of(n)), default) == default,
        budget(None, default) == default,
{
    law_numbers_are_read_back(n, u64::MAX as nat);
}

/// The database is where the setting says; else it is below a directory that is known,
/// and nowhere where none is.
pub proof fn law_database_place(platform: Platform, s: PathSettings)
    ensures
        ({
            let r = database_place(platform, s);
            &&& s.given ==> r == Some((PathBase::Given, None::<Seq<char>>))
            &&& r matches Some((PathBase::Given, _)) ==> s.given
            &&& r matches Some((PathBase::StateHome, _)) ==> s.state_home && platform is Unix
            &&& r matches Some((PathBase::Home, _)) ==> s.home && (platform is MacOs || (platform
                is Unix && !s.state_home))
            &&& r matches Some((PathBase::AppData, _)) ==> s.app_data && platform is Windows
            &&& !s.given ==> (r is Some <==> match platform {
                Platform::MacOs => s.home,
                Platform::Unix => s.state_home || s.home,
                Platform::Windows => s.app_data,
            })
            &&& !s.given && r is Some ==> (r matches Some((_, Some(_))))
        }),
{
}

/// A piece of a snapshot is closed once it holds two mebibytes, and not before.
pub proof fn law_snapshot_pieces(records: Seq<Seq<u8>>, i: int)
    requires
        0 <= i < chunked(records).0.len(),
    ensures
        chunked(records).0[i].len() >= 2 * 1024 * 1024,
        chunked(records).1.len() < 2 * 1024 * 1024,
{
    crate::kv::store::law_chunks_hold_the_records(records);
}

/// A stored row that is too short to hold its time is no row.
pub proof fn law_short_rows_are_refused(raw: Seq<u8>)
    ensures
        row_parts(raw) is None <==> raw.len() < 8,
        raw.len() >= 8 ==> (row_parts(raw) matches Some((t, value)) && row_bytes(t, value) == raw),
{
    if raw.len() >= 8 {
        let head = raw.subrange(0, 8);
        crate::bytes::law_le_value_round_trip(head);
        crate::bytes::lemma_byte_range_values();
        assert(head + raw.subrange(8, raw.len() as int) =~= raw);
    }
}

} // verus!
