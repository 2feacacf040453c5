//! What holds of an extension's output: what is kept, what is let go of, and what its
//! followers read.

use vstd::prelude::*;

use crate::extension::definition::{Definition, FollowerCursor, Record};
use crate::extension::output::{
    evicts, evicts_at, freeing, new_record, record_numbered, retention, sequence_exhausted, total_len,
    trimmed_for,
};
use crate::extension::output::{Registry, Room};
use crate::extension::packets::{charge, Packet, PacketStore};
use crate::extension::protocol::Phase;
use crate::extension::replay::{
    advanced, attached, comes_next, forced, has_offer, none_within, offered, owed_through,
    reads_from, reads_through, replay_start, replayable, turn_before, within,
};
use crate::extension::replay::{ForcedReplay, Offer};
use crate::extension::terminal::{at_rest, describes, exits, last_two, terminal_next};
use crate::extension::terminal::{InfoStatus, TerminalRecordKind};

verus! {

/// A follower is offered the oldest record that it has not read: none that is still kept
/// is passed over.
pub proof fn law_no_record_is_passed_over(d: Definition, endpoint: u64, offer: Offer, r: Record)
    requires
        offered(d, endpoint, offer),
        replayable(d).contains(r),
        d.followers@[endpoint].next_sequence <= r.sequence,
        d.followers@[endpoint].replay_through matches Some(t) ==> r.sequence <= t,
    ensures
        offer matches Offer::Record { record, .. } ==> record.sequence <= r.sequence
            && record.sequence >= d.followers@[endpoint].next_sequence && replayable(d).contains(
            record,
        ),
        !(offer is Done),
        !(offer is Idle),
{
    let f = d.followers@[endpoint];
    let k = choose|k: int| 0 <= k < replayable(d).len() && replayable(d)[k] == r;
    match offer {
        Offer::Record { record, cursor, .. } => {
            assert(cursor <= r.sequence);
            assert(within(replayable(d)[k], cursor, reads_through(f)));
        },
        Offer::Done { cursor, .. } => {
            assert(cursor <= r.sequence);
            assert(within(replayable(d)[k], cursor, reads_through(f)));
        },
        Offer::Idle => {},
    }
}

/// A follower has an offer wherever a kept record is there for it to read, and wherever a
/// replay is to be ended.
pub proof fn law_followers_are_served(d: Definition, endpoint: u64, r: Record, start: u64)
    requires
        d.followers@.dom().contains(endpoint),
        replay_start(d, start),
        d.followers@[endpoint].replay_through is Some || (replayable(d).contains(r)
            && d.followers@[endpoint].next_sequence <= r.sequence),
    ensures
        has_offer(d, endpoint),
{
    let f = d.followers@[endpoint];
    if f.replay_through is None {
        let k = choose|k: int| 0 <= k < replayable(d).len() && replayable(d)[k] == r;
        let s = if f.next_sequence >= start {
            f.next_sequence
        } else {
            start
        };
        assert(reads_from(d, f, s));
        assert(start <= replayable(d)[k].sequence);
        assert(within(replayable(d)[k], s, reads_through(f)));
    }
}

/// Reading starts at the oldest kept record, or where the next one will be.
pub proof fn law_where_reading_starts(d: Definition, s: u64, r: Record)
    requires
        replay_start(d, s),
    ensures
        replayable(d).contains(r) ==> s <= r.sequence,
        replayable(d).len() == 0 ==> s == d.next_output_sequence,
        replayable(d).len() > 0 ==> exists|i: int|
            0 <= i < replayable(d).len() && (#[trigger] replayable(d)[i]).sequence == s,
{
    if replayable(d).contains(r) {
        let k = choose|k: int| 0 <= k < replayable(d).len() && replayable(d)[k] == r;
        assert(s <= replayable(d)[k].sequence);
    }
}

/// After a record a follower reads from the next number on; after the end of a replay it
/// reads from behind that, and owes nothing to it any more.
pub proof fn law_followers_move_on(f: FollowerCursor, id: u64, r: Record, through: u64, cursor: u64)
    ensures
        advanced(f, Offer::Idle) == f,
        ({
            let a = advanced(f, Offer::Record { extension_id: id, record: r, cursor });
            &&& r.sequence < u64::MAX ==> a.next_sequence == r.sequence + 1
            &&& a.replay_through == f.replay_through
        }),
        ({
            let a = advanced(f, Offer::Done { extension_id: id, through, cursor });
            &&& a.replay_through is None
            &&& through < u64::MAX ==> a.next_sequence > through
            &&& a.next_sequence >= cursor
            &&& cursor > through ==> a.next_sequence == cursor
        }),
{
}

/// What a follower is owed only grows, and where it reads stays as it was.
pub proof fn law_debts_only_grow(f: FollowerCursor, through: u64)
    ensures
        ({
            let a = owed_through(f, through);
            &&& a.next_sequence == f.next_sequence
            &&& a.replay_through is Some
            &&& a.replay_through->0 >= through
            &&& f.replay_through matches Some(t) ==> a.replay_through->0 >= t
            &&& a.replay_through == Some(through) || a.replay_through == f.replay_through
        }),
{
}

/// A new follower reads from the oldest kept record on, and one that comes back from where
/// it was; both are owed all that has been put out. They are told the first record that
/// comes, and nothing where none does.
pub proof fn law_followers_attach(
    d: Definition,
    endpoint: u64,
    f: FollowerCursor,
    replay_from: u64,
    r: Record,
)
    requires
        attached(d, endpoint, f, replay_from),
        d.next_output_sequence > 0,
        replayable(d).contains(r),
    ensures
        f.replay_through is Some && f.replay_through->0 >= d.next_output_sequence - 1,
        !d.followers@.dom().contains(endpoint) ==> f.next_sequence <= r.sequence,
        d.followers@.dom().contains(endpoint) ==> f.next_sequence
            >= d.followers@[endpoint].next_sequence,
        d.followers@.dom().contains(endpoint) && d.followers@[endpoint].next_sequence <= r.sequence
            ==> f.next_sequence <= r.sequence,
        f.next_sequence <= r.sequence < d.next_output_sequence && replay_from != 0 ==> replay_from
            <= r.sequence,
        f.next_sequence <= r.sequence < d.next_output_sequence && r.sequence > 0 ==> replay_from
            != 0 || exists|x: Record| #[trigger] replayable(d).contains(x) && x.sequence == 0,
{
    let k = choose|k: int| 0 <= k < replayable(d).len() && replayable(d)[k] == r;
    let through = d.spec_latest_output_sequence();
    if f.next_sequence <= r.sequence < d.next_output_sequence {
        assert(within(replayable(d)[k], f.next_sequence, through));
        let rec = choose|rec: Record| #[trigger]
            comes_next(replayable(d), rec, f.next_sequence, through) && rec.sequence
                == replay_from;
        assert(comes_next(replayable(d), rec, f.next_sequence, through));
        assert(replayable(d).contains(rec));
    }
    assert(replayable(d)[k] == r);
}

/// Extensions take turns in the order of their ids, and those after the last one served
/// come before those that are not.
pub proof fn law_turns_go_round(a: u64, b: u64, c: u64, last: Option<u64>)
    ensures
        a != b ==> (turn_before(a, b, last) <==> !turn_before(b, a, last)),
        !turn_before(a, a, last),
        turn_before(a, b, last) && turn_before(b, c, last) ==> turn_before(a, c, last),
        last is None ==> (turn_before(a, b, last) <==> a < b),
        last matches Some(l) ==> (a > l && b <= l ==> turn_before(a, b, last)),
        last matches Some(l) ==> (a > l && b > a ==> turn_before(a, b, last)),
        last matches Some(l) ==> (b <= l && a < b ==> turn_before(a, b, last)),
{
}

/// A follower that is made to end its replay gets the last records of the definition that
/// it has not read, in their order, and no others.
pub proof fn law_forced_replay(d: Definition, f: FollowerCursor, r: ForcedReplay, x: Record, i: int, j: int)
    requires
        forced(d, f, r),
    ensures
        f.replay_through == Some(r.through),
        r.records@.contains(x) <==> d.terminal_replay@.contains(x) && f.next_sequence <= x.sequence
            <= r.through,
        0 <= i < j < r.records@.len() ==> r.records@[i].sequence < r.records@[j].sequence,
{
    assert(r.records@.contains(x) == (d.terminal_replay@.contains(x) && within(
        x,
        f.next_sequence,
        r.through,
    )));
}

/// What is kept of exits is every exit, in order, and nothing else.
pub proof fn law_exits_are_kept(records: Seq<Record>, r: Record)
    ensures
        exits(Seq::empty()).len() == 0,
        r.exit ==> exits(records.push(r)) == exits(records).push(r),
        !r.exit ==> exits(records.push(r)) == exits(records),
{
    assert(records.push(r).drop_last() =~= records);
}

/// At rest an extension keeps at most its last two records: an exit takes the place of all
/// before it, and a status comes behind the last exit.
pub proof fn law_last_records(records: Seq<Record>, record: Record)
    ensures
        ({
            let after_exit = terminal_next(records, TerminalRecordKind::Exit, record);
            let after_status = terminal_next(records, TerminalRecordKind::Status, record);
            let kept = exits(records);
            &&& after_exit == seq![record]
            &&& after_status.last() == record
            &&& after_status.len() <= 2
            &&& kept.len() > 0 ==> after_status.len() == 2 && after_status[0] == kept.last()
            &&& kept.len() == 0 ==> after_status == seq![record]
            &&& last_two(records).len() == (if records.len() < 2 {
                records.len()
            } else {
                2
            })
            &&& records.len() > 0 ==> last_two(records).last() == records.last()
        }),
{
    let kept = exits(records);
    assert(Seq::<Record>::empty().push(record) =~= seq![record]);
    if kept.len() == 0 {
        assert(kept.push(record) =~= seq![record]);
    }
}

/// An extension that is not kept is at rest where it is stopped or blocked.
pub proof fn law_what_is_at_rest(d: Definition)
    ensures
        at_rest(d) <==> !d.flags.persist && (d.phase == Phase::Stopped || d.phase
            == Phase::Blocked),
{
}

/// What is announced of a definition is what it holds.
pub proof fn law_announcements_describe(i: InfoStatus, d: Definition, detail_max: nat)
    requires
        describes(i, d, detail_max),
    ensures
        i.extension_id == d.extension_id && i.definition_revision == d.definition_revision
            && i.phase == d.phase && i.flags == d.flags && i.restart == d.restart && i.attempt
            == d.attempt && i.last_running_attempt == d.last_running_attempt && i.task_id
            == d.task_id && i.output_sequence == d.next_output_sequence && i.next_start_unix_ms
            == d.next_start_unix_ms && i.hash == d.hash,
        vstd::utf8::encode_utf8(d.detail@).len() <= detail_max ==> i.detail@ == d.detail@,
{
}

/// A history makes room for a record by letting its oldest records go, no more of them than
/// it has to, until it is within four mebibytes with the record. For a record that is
/// longer than that nothing is let go of.
pub proof fn law_histories_are_trimmed(records: Seq<Record>, len: nat) -> (n: int)
    ensures
        0 <= n <= records.len(),
        trimmed_for(records, len) == records.skip(n),
        len > 4 * 1024 * 1024 ==> n == 0,
        len <= 4 * 1024 * 1024 && n < records.len() ==> total_len(records.skip(n)) + len <= 4 * 1024
            * 1024,
        n > 0 ==> total_len(records.skip(n - 1)) + len > 4 * 1024 * 1024,
    decreases records.len(),
{
    assert(records.skip(0) =~= records);
    if len <= 4 * 1024 * 1024 && records.len() > 0 && total_len(records) + len > 4 * 1024 * 1024 {
        let tail = records.subrange(1, records.len() as int);
        let n = law_histories_are_trimmed(tail, len);
        assert(tail.skip(n) =~= records.skip(n + 1));
        if n > 0 {
            assert(tail.skip(n - 1) =~= records.skip(n));
        }
        n + 1
    } else {
        0
    }
}

/// A record that fits is kept, and nothing makes way for it but what its own extension has
/// too much of.
pub proof fn law_record_that_fits_is_kept(
    before: Registry,
    after: Registry,
    id: u64,
    len: nat,
    kept: bool,
)
    requires
        retention(before, after, id, len, kept),
        len <= 4 * 1024 * 1024,
        before.spec_trimmed(id, len).used + len <= before.packets.spec_max(),
    ensures
        kept,
        after.packets.spec_used() == before.spec_trimmed(id, len).used + len,
        after.spec_histories().insert(id, after.spec_histories()[id].drop_last())
            == before.spec_trimmed(id, len).histories,
{
    let first = before.spec_trimmed(id, len);
    let last = if kept {
        Room {
            histories: after.spec_histories().insert(id, after.spec_histories()[id].drop_last()),
            used: after.packets.spec_used() - len,
        }
    } else {
        after.spec_room()
    };
    let steps = choose|steps: Seq<Room>| #[trigger]
        evicts(before.packets, steps, len) && steps[0] == first && steps.last() == last;
    if steps.len() > 1 {
        assert(evicts_at(before.packets, steps, len, 0));
    }
    assert(steps.last() == steps[0]);
}

/// A record that is longer than a history may be is not kept.
pub proof fn law_record_that_is_too_long(
    before: Registry,
    after: Registry,
    id: u64,
    len: nat,
    kept: bool,
)
    requires
        retention(before, after, id, len, kept),
        len > 4 * 1024 * 1024,
    ensures
        !kept,
{
}

/// Letting go of a record gives back its bytes only where nothing else holds them.
pub proof fn law_what_letting_go_gives_back(p: PacketStore, rec: Record, packet: Packet)
    ensures
        p.spec_slots()[rec.packet as int].terminal is Some || p.spec_leased(rec.packet) ==> freeing(
            p,
            rec,
        ) == 0,
        p.spec_slots()[rec.packet as int].terminal is None && !p.spec_leased(rec.packet) ==> freeing(
            p,
            rec,
        ) == rec.len,
        packet.charged ==> charge(packet) == packet.bytes@.len(),
        !packet.charged ==> charge(packet) == 0,
{
}

/// A record gets the number that the definition has next and the registry's next time;
/// both go up by one.
pub proof fn law_records_are_numbered(
    before: Registry,
    after: Registry,
    id: u64,
    len: nat,
    exit: bool,
    slot: usize,
)
    requires
        record_numbered(before, after, id),
        len <= usize::MAX,
    ensures
        ({
            let r = new_record(before, id, len, exit, slot);
            let d = before.definitions@[id];
            let e = after.definitions@[id];
            &&& r.sequence == d.next_output_sequence && r.packet == slot && r.len == len && r.exit
                == exit
            &&& e.next_output_sequence == d.next_output_sequence + 1
            &&& before.retention_clock < u64::MAX ==> r.clock == before.retention_clock + 1
                && after.retention_clock == r.clock
            &&& e.phase == d.phase && e.flags == d.flags && e.followers == d.followers && e.control
                == d.control && e.generation == d.generation && e.terminal_replay
                == d.terminal_replay
        }),
{
}

/// An extension whose records cannot be numbered any more is blocked.
pub proof fn law_numbers_run_out(before: Registry, after: Registry, id: u64)
    requires
        sequence_exhausted(before, after, id),
    ensures
        after.definitions@[id].phase == Phase::Blocked,
        after.definitions@[id].detail@ == "extension output sequence exhausted"@,
        after.definitions@[id].flags == before.definitions@[id].flags,
        after.definitions@[id].retained == before.definitions@[id].retained,
        forall|k: u64|
            k != id && #[trigger] before.definitions@.dom().contains(k)
                ==> after.definitions@.dom().contains(k) && after.definitions@[k]
                == before.definitions@[k],
{
}

} // verus!
