//! What holds of the journal as a whole.

use vstd::prelude::*;

use crate::bytes::{
    law_le_round_trip, le16, le32, le64, lemma_byte_range_values, lemma_le_bytes_len, u16_at, u32_at,
    u64_at,
};
use crate::events::log::{
    activated, dump_head, event_head, next_number, set_ring_size, startup_flags, stream_id, stream_next,
};
use crate::events::log::{
    DumpFormat, EventLog, StreamAction, StreamBits, StreamEvent, StreamPhase,
};
use crate::events::record::{fitting, frame_payload, gap_bytes, name_payload, record_bytes, RecordHead};
use crate::events::ring::{all_appended, appended, law_oldest_go_first, resized, roomy, total, RingView};
use crate::text::digits_of;
use crate::text::laws::law_numbers_are_read_back;

verus! {

/// The number of a bit tells it from every other: two kinds in one word have
/// different bits.
proof fn lemma_bits_apart(w: u64, a: u64, b: u64)
    requires
        a < 64,
        b < 64,
    ensures
        ((w | (1u64 << a)) & (1u64 << a)) != 0,
        a != b ==> ((w | (1u64 << a)) & (1u64 << b)) == w & (1u64 << b),
        (0u64 & (1u64 << b)) == 0,
        ((1u64 << a) & (1u64 << b) != 0) == (a == b),
        (w & !(1u64 << a)) & (1u64 << a) == 0,
        a != b ==> ((w & !(1u64 << a)) & (1u64 << b)) == w & (1u64 << b),
{
    assert(((w | (1u64 << a)) & (1u64 << a)) != 0) by (bit_vector)
        requires
            a < 64,
    ;
    assert(a != b ==> ((w | (1u64 << a)) & (1u64 << b)) == w & (1u64 << b)) by (bit_vector)
        requires
            a < 64,
            b < 64,
    ;
    assert((0u64 & (1u64 << b)) == 0) by (bit_vector);
    assert(((1u64 << a) & (1u64 << b) != 0) == (a == b)) by (bit_vector)
        requires
            a < 64,
            b < 64,
    ;
    assert((w & !(1u64 << a)) & (1u64 << a) == 0) by (bit_vector);
    assert(a != b ==> ((w & !(1u64 << a)) & (1u64 << b)) == w & (1u64 << b)) by (bit_vector)
        requires
            a < 64,
            b < 64,
    ;
}

/// Where the only bit that is set is that of one kind, that kind is recorded and no
/// other.
pub proof fn law_one_kind_alone(words: Seq<u64>, k: u16, j: u16)
    requires
        k / 64 < words.len(),
        j / 64 < words.len(),
        words[(k / 64) as int] == 1u64 << ((k % 64) as u64),
        forall|i: int| 0 <= i < words.len() && i != k / 64 ==> #[trigger] words[i] == 0,
    ensures
        activated(words, j) == (j == k),
{
    lemma_bits_apart(0, (k % 64) as u64, (j % 64) as u64);
    if j / 64 != k / 64 {
        assert(words[(j / 64) as int] == 0);
    }
}

/// Setting the bit of one kind switches that kind on, clearing it switches it off,
/// and neither changes what is said of any other kind.
pub proof fn law_kinds_are_switched_alone(words: Seq<u64>, k: u16, j: u16)
    requires
        k / 64 < words.len(),
        j / 64 < words.len(),
    ensures
        ({
            let at = (k / 64) as int;
            let bit = 1u64 << ((k % 64) as u64);
            let on = words.update(at, words[at] | bit);
            let off = words.update(at, words[at] & !bit);
            &&& activated(on, k)
            &&& !activated(off, k)
            &&& j != k ==> activated(on, j) == activated(words, j)
            &&& j != k ==> activated(off, j) == activated(words, j)
        }),
{
    let at = (k / 64) as int;
    lemma_bits_apart(words[at], (k % 64) as u64, (j % 64) as u64);
}

/// With no bit set nothing is recorded.
pub proof fn law_nothing_is_recorded_unasked(words: Seq<u64>, k: u16)
    requires
        k / 64 < words.len(),
        words[(k / 64) as int] == 0,
    ensures
        !activated(words, k),
{
    lemma_bits_apart(0, 0, (k % 64) as u64);
}

proof fn lemma_reads(n16: u16, n32: u32, n64: u64)
    ensures
        le16(n16).len() == 2,
        le32(n32).len() == 4,
        le64(n64).len() == 8,
        crate::bytes::le_value(le16(n16)) == n16,
        crate::bytes::le_value(le32(n32)) == n32,
        crate::bytes::le_value(le64(n64)) == n64,
{
    lemma_byte_range_values();
    lemma_le_bytes_len(n16 as nat, 2);
    lemma_le_bytes_len(n32 as nat, 4);
    lemma_le_bytes_len(n64 as nat, 8);
    law_le_round_trip(n16 as nat, 2);
    law_le_round_trip(n32 as nat, 4);
    law_le_round_trip(n64 as nat, 8);
}

/// A record says its whole length, its kind, its flags, its number and its two times, in
/// this order, and what follows them is its payload.
pub proof fn law_records_say_what_they_hold(head: RecordHead, payload: Seq<u8>)
    requires
        payload.len() <= 0xffff_ffff - 32,
    ensures
        ({
            let r = record_bytes(head, payload);
            &&& r.len() == 32 + payload.len()
            &&& u32_at(r, 0) == r.len()
            &&& u16_at(r, 4) == head.kind
            &&& u16_at(r, 6) == head.flags
            &&& u64_at(r, 8) == head.sequence
            &&& u64_at(r, 16) == head.monotonic_ns
            &&& u64_at(r, 24) == head.unix_ns
            &&& r.skip(32) == payload
        }),
{
    let r = record_bytes(head, payload);
    let n = (32 + payload.len()) as u32;
    lemma_reads(head.kind, n, head.sequence);
    lemma_reads(head.flags, n, head.monotonic_ns);
    lemma_reads(head.flags, n, head.unix_ns);
    assert(r.subrange(0, 4) =~= le32(n));
    assert(r.subrange(4, 6) =~= le16(head.kind));
    assert(r.subrange(6, 8) =~= le16(head.flags));
    assert(r.subrange(8, 16) =~= le64(head.sequence));
    assert(r.subrange(16, 24) =~= le64(head.monotonic_ns));
    assert(r.subrange(24, 32) =~= le64(head.unix_ns));
    assert(r.skip(32) =~= payload);
}

/// A payload is kept whole as long as the length of its record can be said, and else cut
/// to the longest that can.
pub proof fn law_payloads_are_kept_whole(payload: Seq<u8>)
    ensures
        32 + payload.len() <= 0xffff_ffff ==> fitting(payload) == payload,
        32 + payload.len() > 0xffff_ffff ==> fitting(payload).len() + 32 == 0xffff_ffff && fitting(
            payload,
        ) == payload.take(fitting(payload).len() as int),
{
}

/// A gap is a record of its own kind that says how many were lost.
pub proof fn law_gap_says_how_many(kind: u16, lost: u64)
    ensures
        gap_bytes(kind, lost).len() == 40,
        u16_at(gap_bytes(kind, lost), 4) == kind,
        u64_at(gap_bytes(kind, lost), 32) == lost,
{
    let head = RecordHead { kind, flags: 0, sequence: 0, monotonic_ns: 0, unix_ns: 0 };
    lemma_reads(kind, 40, lost);
    law_records_say_what_they_hold(head, le64(lost));
    let g = gap_bytes(kind, lost);
    assert(g.subrange(32, 40) =~= g.skip(32).subrange(0, 8));
    assert(g.skip(32).subrange(0, 8) =~= le64(lost));
}

/// A name is recorded with its length in bytes before it, and cut where the length could
/// not be said.
pub proof fn law_names_are_recorded(name: Seq<char>)
    ensures
        ({
            let p = name_payload(name);
            let bytes = vstd::utf8::encode_utf8(name);
            &&& u16_at(p, 0) == p.len() - 2
            &&& bytes.len() <= 0xffff ==> p.skip(2) == bytes
            &&& bytes.len() > 0xffff ==> p.skip(2) == bytes.take(0xffff)
        }),
{
    let p = name_payload(name);
    let bytes = crate::events::record::cut(vstd::utf8::encode_utf8(name), 0xffff);
    lemma_reads(bytes.len() as u16, 0, 0);
    assert(p.subrange(0, 2) =~= le16(bytes.len() as u16));
    assert(p.skip(2) =~= bytes);
}

/// A frame is recorded with the client it is of and its length before it.
pub proof fn law_frames_are_recorded(client_id: u64, frame: Seq<u8>)
    requires
        frame.len() <= 0xffff_ffff,
    ensures
        ({
            let p = frame_payload(client_id, frame);
            &&& u64_at(p, 0) == client_id
            &&& u32_at(p, 8) == frame.len()
            &&& p.skip(12) == frame
        }),
{
    let p = frame_payload(client_id, frame);
    lemma_reads(0, frame.len() as u32, client_id);
    assert(p.subrange(0, 8) =~= le64(client_id));
    assert(p.subrange(8, 12) =~= le32(frame.len() as u32));
    assert(p.skip(12) =~= frame);
}

/// An event has the journal's next number and the time since it was started, which is
/// added to the time of the start as far as that can be said.
pub proof fn law_events_are_timed(log: EventLog, kind: u16, flags: u16, monotonic_ns: u64)
    ensures
        ({
            let h = event_head(log, kind, flags, monotonic_ns);
            &&& h.kind == kind && h.flags == flags
            &&& h.sequence == log.next_sequence
            &&& h.monotonic_ns == monotonic_ns
            &&& log.started_unix_ns + monotonic_ns <= u64::MAX ==> h.unix_ns == log.started_unix_ns
                + monotonic_ns
            &&& log.started_unix_ns + monotonic_ns > u64::MAX ==> h.unix_ns == u64::MAX
        }),
{
}

/// Numbers follow each other, round the end, and no stream has the number zero.
pub proof fn law_numbers_follow(n: u64, id: u32)
    ensures
        next_number(n) == (n + 1) % 0x1_0000_0000_0000_0000,
        stream_id(id) != 0,
        id != 0 ==> stream_id(id) == id,
        stream_id(0) == 1,
{
}

/// Every record that is offered is either kept or counted as lost.
pub proof fn law_kept_or_counted(v: RingView, record: Seq<u8>)
    requires
        v.dropped + v.records.len() < u64::MAX,
    ensures
        ({
            let r = appended(v, record);
            &&& r.dropped + r.records.len() == v.dropped + v.records.len() + 1
            &&& r.capacity == v.capacity
        }),
{
    lemma_roomy_counts(v, record.len());
}

proof fn lemma_roomy_counts(v: RingView, need: nat)
    requires
        v.dropped + v.records.len() < u64::MAX,
    ensures
        ({
            let r = roomy(v, need);
            &&& r.dropped + r.records.len() == v.dropped + v.records.len()
            &&& r.capacity == v.capacity
        }),
    decreases v.records.len(),
{
    if v.records.len() == 0 || total(v.records) + need <= v.capacity {
    } else {
        lemma_roomy_counts(
            RingView {
                records: v.records.subrange(1, v.records.len() as int),
                dropped: (v.dropped + 1) as u64,
                ..v
            },
            need,
        );
    }
}

proof fn lemma_total_with(records: Seq<Seq<u8>>, record: Seq<u8>)
    ensures
        total(records.push(record)) == total(records) + record.len(),
    decreases records.len(),
{
    let all = records.push(record);
    if records.len() == 0 {
        assert(all.subrange(1, 1) =~= Seq::<Seq<u8>>::empty());
        assert(total(all.subrange(1, 1)) == 0);
    } else {
        let tail = records.subrange(1, records.len() as int);
        assert(all.subrange(1, all.len() as int) =~= tail.push(record));
        lemma_total_with(tail, record);
    }
}

proof fn lemma_all_appended(v: RingView, records: Seq<Seq<u8>>)
    requires
        total(v.records) <= v.capacity,
        v.dropped + v.records.len() + records.len() < u64::MAX,
    ensures
        ({
            let r = all_appended(v, records);
            &&& r.capacity == v.capacity
            &&& total(r.records) <= r.capacity
            &&& r.dropped + r.records.len() == v.dropped + v.records.len() + records.len()
            &&& total(v.records) + total(records) <= v.capacity ==> r.records == v.records + records
            &&& r.records.len() <= v.records.len() + records.len()
        }),
    decreases records.len(),
{
    if records.len() == 0 {
        assert(v.records + records =~= v.records);
    } else {
        let front = records.drop_last();
        let m = all_appended(v, front);
        lemma_all_appended(v, front);
        law_kept_or_counted(m, records.last());
        lemma_total_with(front, records.last());
        assert(front.push(records.last()) =~= records);
        let r = appended(m, records.last());
        if records.last().len() <= m.capacity {
            law_oldest_go_first(m, records.last().len());
            lemma_total_with(roomy(m, records.last().len()).records, records.last());
        }
        if total(v.records) + total(records) <= v.capacity {
            lemma_total_both(v.records, front);
            assert(r.records =~= v.records + records);
        }
    }
}

proof fn lemma_total_both(a: Seq<Seq<u8>>, b: Seq<Seq<u8>>)
    ensures
        total(a + b) == total(a) + total(b),
    decreases b.len(),
{
    if b.len() == 0 {
        assert(a + b =~= a);
    } else {
        lemma_total_both(a, b.drop_last());
        lemma_total_with(a + b.drop_last(), b.last());
        lemma_total_with(b.drop_last(), b.last());
        assert(b.drop_last().push(b.last()) =~= b);
        assert((a + b.drop_last()).push(b.last()) =~= a + b);
    }
}

/// A journal of another size keeps all its records where they fit, in their order, and
/// counts those that it does not keep; what it keeps fits.
pub proof fn law_another_size(v: RingView, capacity: nat)
    requires
        total(v.records) <= v.capacity,
        v.dropped + v.records.len() < u64::MAX,
    ensures
        ({
            let r = resized(v, capacity);
            &&& r.capacity == capacity
            &&& total(r.records) <= capacity
            &&& r.dropped + r.records.len() == v.dropped + v.records.len()
            &&& total(v.records) <= capacity ==> r.records == v.records
        }),
{
    if capacity != v.capacity {
        let e = RingView { capacity, records: Seq::empty(), dropped: v.dropped };
        lemma_all_appended(e, v.records);
        assert(e.records + v.records =~= v.records);
    }
}

/// A size that is given as a number from four kibibytes up to the largest that is accepted
/// is the journal's; any other leaves it at one mebibyte.
pub proof fn law_journal_size(n: nat, max: usize)
    requires
        max as nat <= u64::MAX,
    ensures
        4096 <= n <= max ==> set_ring_size(Some(digits_of(n)), max) == n,
        n < 4096 || n > max ==> set_ring_size(Some(digits_of(n)), max) == 1024 * 1024,
        set_ring_size(None, max) == 1024 * 1024,
{
    law_numbers_are_read_back(n, u64::MAX as nat);
}

/// A stream at the start brings what the journal holds unless that is switched off, and
/// appends to its file only where that is switched on.
pub proof fn law_stream_at_the_start(
    history: Option<Seq<char>>,
    append: Option<Seq<char>>,
    bits: StreamBits,
)
    requires
        bits.history != 0,
        bits.append != 0,
        bits.history & bits.append == 0,
    ensures
        ({
            let f = startup_flags(history, append, bits);
            &&& f & bits.history != 0 <==> history != Some("0"@)
            &&& f & bits.append != 0 <==> append == Some("1"@)
        }),
{
    let h = bits.history;
    let a = bits.append;
    assert((h | a) & h != 0 && (h | a) & a != 0 && (0u8 | a) & a != 0 && (0u8 | a) & h == 0 && h & h
        != 0 && 0u8 & h == 0 && 0u8 & a == 0) by (bit_vector)
        requires
            h != 0,
            a != 0,
            h & a == 0,
    ;
}

/// A dump begins with its magic, the length of its header and its version, and says how
/// much the journal can hold and holds, how many records there are and were lost, and the
/// next number.
pub proof fn law_dumps_say_what_they_hold(
    f: DumpFormat,
    capacity: u64,
    used: u64,
    records: u64,
    dropped: u64,
    next_sequence: u64,
    activations: Seq<u8>,
)
    ensures
        ({
            let d = dump_head(f, capacity, used, records, dropped, next_sequence, activations);
            let m = f.magic@.len() as int;
            &&& d.take(m) == f.magic@
            &&& u16_at(d, m) == f.header_len
            &&& u16_at(d, m + 2) == f.version
            &&& u64_at(d, m + 4) == capacity
            &&& u64_at(d, m + 12) == used
            &&& u64_at(d, m + 20) == records
            &&& u64_at(d, m + 28) == dropped
            &&& u64_at(d, m + 36) == next_sequence
            &&& d.skip(m + 44) == activations
        }),
{
    let d = dump_head(f, capacity, used, records, dropped, next_sequence, activations);
    let m = f.magic@.len() as int;
    lemma_reads(f.header_len, 0, capacity);
    lemma_reads(f.version, 0, used);
    lemma_reads(0, 0, records);
    lemma_reads(0, 0, dropped);
    lemma_reads(0, 0, next_sequence);
    assert(d.take(m) =~= f.magic@);
    assert(d.subrange(m, m + 2) =~= le16(f.header_len));
    assert(d.subrange(m + 2, m + 4) =~= le16(f.version));
    assert(d.subrange(m + 4, m + 12) =~= le64(capacity));
    assert(d.subrange(m + 12, m + 20) =~= le64(used));
    assert(d.subrange(m + 20, m + 28) =~= le64(records));
    assert(d.subrange(m + 28, m + 36) =~= le64(dropped));
    assert(d.subrange(m + 36, m + 44) =~= le64(next_sequence));
    assert(d.skip(m + 44) =~= activations);
}

/// A stream that follows the journal, or drains it, writes every record that comes and a
/// gap for those that it missed; it flushes when nothing is left to drain; a write that
/// fails ends what it drains; and one that has ended does nothing more.
pub proof fn law_streams_write_what_comes(
    phase: StreamPhase,
    event: StreamEvent,
    gap_kind: u16,
    next: StreamPhase,
    action: StreamAction,
)
    requires
        stream_next(phase, event, gap_kind, next, action),
    ensures
        phase is Following || phase is Draining ==> {
            &&& event matches StreamEvent::Record(r) ==> action == StreamAction::Write(r) && next
                == phase
            &&& event matches StreamEvent::Lagged(lost) ==> (action matches StreamAction::Write(g)
                && g@ == gap_bytes(gap_kind, lost)) && next == phase
        },
        phase is Following && (event is Stopped || event is Closed || event is WriteFailed)
            ==> next is Draining && action is Wait,
        phase is Draining && (event is Empty || event is Closed) ==> next is Ended && action
            is Flush,
        phase is Draining && event is WriteFailed ==> next is Ended && action is Stop,
        phase is Opening && event is WriteFailed ==> next is Ended && action is Stop,
        phase is Opening && event is Written ==> next is Following && action is Wait,
        phase is Ended ==> next is Ended && action is Stop,
        action is Write ==> event is Record || event is Lagged,
        next is Ended && !(phase is Ended) ==> event is WriteFailed || phase is Draining,
{
}

} // verus!
