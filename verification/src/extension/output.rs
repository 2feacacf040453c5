//! What extensions put out: retained history, compact replay of a last state,
//! and the followers that read both.

use vstd::prelude::*;

use crate::extension::definition::{Definition, Record};
use crate::extension::packets::{
    lemma_released_more, only_released, released_at, released_but, Packet, PacketStore, Place,
};
use crate::extension::protocol::Phase;
use crate::id_map::{ascending, lemma_row_of, row_of, IdMap};

verus! {

/// How much history one extension keeps.
pub const OUTPUT_RETAIN_PER_EXTENSION: usize = 4 * 1024 * 1024;

/// How many records describe a last state: the exit and the status after it.
pub const TERMINAL_RECORDS: usize = 2;

/// The definitions and their shared output.
pub struct Registry {
    pub definitions: IdMap<Definition>,
    pub packets: PacketStore,
    pub retention_clock: u64,
}

/// The bytes of a run of records.
pub open spec fn total_len(records: Seq<Record>) -> nat
    decreases records.len(),
{
    if records.len() == 0 {
        0
    } else {
        records[0].len as nat + total_len(records.subrange(1, records.len() as int))
    }
}

proof fn lemma_total_push(records: Seq<Record>, r: Record)
    ensures
        total_len(records.push(r)) == total_len(records) + r.len,
    decreases records.len(),
{
    if records.len() == 0 {
        assert(records.push(r).subrange(1, 1) =~= Seq::<Record>::empty());
        assert(total_len(Seq::<Record>::empty()) == 0);
    } else {
        let rest = records.subrange(1, records.len() as int);
        lemma_total_push(rest, r);
        assert(records.push(r).subrange(1, records.len() as int + 1) =~= rest.push(r));
    }
}

/// Whether the history's hold on a record's packet is as it should be. What stands
/// in a history is charged.
pub open spec fn in_history(slots: Seq<Packet>, id: u64, r: Record) -> bool {
    &&& r.packet < slots.len()
    &&& slots[r.packet as int].charged
    &&& slots[r.packet as int].history == Some((id, r.sequence))
    &&& slots[r.packet as int].bytes@.len() == r.len
}

/// Whether the compact replay's hold on a record's packet is as it should be.
pub open spec fn in_terminal(slots: Seq<Packet>, id: u64, r: Record) -> bool {
    &&& r.packet < slots.len()
    &&& slots[r.packet as int].terminal == Some((id, r.sequence))
    &&& slots[r.packet as int].bytes@.len() == r.len
}

/// Records in the order in which they were put out, the oldest first.
pub open spec fn in_order(records: Seq<Record>) -> bool {
    forall|i: int, j: int|
        0 <= i < j < records.len() ==> (#[trigger] records[i]).sequence < (
        #[trigger] records[j]).sequence && records[i].clock <= records[j].clock
}

/// One definition and the packets that it holds.
pub open spec fn output_ok(d: Definition, id: u64, slots: Seq<Packet>, clock: u64) -> bool {
    &&& d.extension_id == id
    &&& d.followers.wf()
    &&& in_order(d.retained@)
    &&& in_order(d.terminal_replay@)
    &&& d.terminal_replay@.len() <= TERMINAL_RECORDS
    &&& d.retained_bytes as nat == total_len(d.retained@)
    &&& forall|i: int|
        0 <= i < d.retained@.len() ==> in_history(slots, id, #[trigger] d.retained@[i])
            && d.retained@[i].sequence < d.next_output_sequence && d.retained@[i].clock <= clock
    &&& forall|i: int|
        0 <= i < d.terminal_replay@.len() ==> in_terminal(
            slots,
            id,
            #[trigger] d.terminal_replay@[i],
        ) && d.terminal_replay@[i].sequence < d.next_output_sequence
            && d.terminal_replay@[i].clock <= clock
}

/// Whether one of the records has the packet at `slot` and the sequence number.
pub open spec fn has_record(records: Seq<Record>, slot: int, sequence: u64) -> bool {
    exists|k: int|
        0 <= k < records.len() && (#[trigger] records[k]).packet == slot && records[k].sequence
            == sequence
}

/// Whether the history's hold on the packet at `i`, if there is one, is that of a
/// record that the history has.
pub open spec fn history_backed(m: Map<u64, Definition>, slots: Seq<Packet>, i: int) -> bool {
    slots[i].history matches Some((id, sequence)) ==> m.dom().contains(id) && has_record(
        m[id].retained@,
        i,
        sequence,
    )
}

/// Whether the compact replay's hold on the packet at `i`, if there is one, is
/// that of a record that the replay has.
pub open spec fn terminal_backed(m: Map<u64, Definition>, slots: Seq<Packet>, i: int) -> bool {
    slots[i].terminal matches Some((id, sequence)) ==> m.dom().contains(id) && has_record(
        m[id].terminal_replay@,
        i,
        sequence,
    )
}

/// Whether nobody holds the packet at `i` for a record that is gone.
pub open spec fn backed_at(m: Map<u64, Definition>, slots: Seq<Packet>, i: int) -> bool {
    history_backed(m, slots, i) && terminal_backed(m, slots, i)
}

/// What the packet of a record holds.
pub open spec fn payload(r: Registry, rec: Record) -> Seq<u8> {
    r.packets.spec_slots()[rec.packet as int].bytes@
}

/// Whether a definition has a record to give to its followers.
pub open spec fn gives(r: Registry, id: u64, rec: Record) -> bool {
    r.definitions@.dom().contains(id) && (r.definitions@[id].retained@.contains(rec)
        || r.definitions@[id].terminal_replay@.contains(rec))
}

/// Whether the packet of a record counts against the budget.
pub open spec fn counts(r: Registry, rec: Record) -> bool {
    r.packets.spec_slots()[rec.packet as int].charged
}

/// Whether every record that there was and still is holds what it held, and counts
/// for what it did.
pub open spec fn payloads_kept(before: Registry, after: Registry) -> bool {
    forall|id: u64, rec: Record|
        gives(before, id, rec) && #[trigger] gives(after, id, rec) ==> payload(after, rec)
            == payload(before, rec) && counts(after, rec) == counts(before, rec)
}

/// Whether a hold is on a record that is numbered next.
pub open spec fn fresh(r: Registry, id: u64, place: Place) -> bool {
    place is None || place == Some((id, r.definitions@[id].next_output_sequence))
}

/// The retained history of every extension.
pub open spec fn histories(m: Map<u64, Definition>) -> Map<u64, Seq<Record>> {
    Map::new(|id: u64| m.dom().contains(id), |id: u64| m[id].retained@)
}

/// `short` is `long` without some records at its front.
pub open spec fn is_suffix(short: Seq<Record>, long: Seq<Record>) -> bool {
    short.len() <= long.len() && short == long.subrange(
        long.len() - short.len(),
        long.len() as int,
    )
}

/// Whether the record at `k` of the history `from[id]` is gone from `to`.
pub open spec fn gone(
    from: Map<u64, Seq<Record>>,
    to: Map<u64, Seq<Record>>,
    id: u64,
    k: int,
) -> bool {
    from.dom().contains(id) && 0 <= k < from[id].len() - to[id].len()
}

/// Histories lost records at their fronts only, and no record that was lost
/// is newer than one that was kept.
pub open spec fn oldest_first(from: Map<u64, Seq<Record>>, to: Map<u64, Seq<Record>>) -> bool {
    &&& to.dom() == from.dom()
    &&& forall|id: u64| #[trigger] from.dom().contains(id) ==> is_suffix(to[id], from[id])
    &&& forall|id: u64, k: int, other: u64, j: int|
        #![trigger from[id][k], to[other][j]]
        gone(from, to, id, k) && to.dom().contains(other) && 0 <= j < to[other].len()
            ==> from[id][k].clock <= to[other][j].clock
}

/// What the histories hold, and how much of the output budget is used.
#[verifier::ext_equal]
pub ghost struct Room {
    pub histories: Map<u64, Seq<Record>>,
    pub used: int,
}

/// The bytes that come free when its history lets go of a record: none where the
/// compact replay or an outbox holds the packet too.
pub open spec fn freeing(p: PacketStore, rec: Record) -> nat {
    if p.spec_slots()[rec.packet as int].terminal is None && !p.spec_leased(rec.packet) {
        rec.len as nat
    } else {
        0
    }
}

/// The bytes that come free when their history lets go of these records.
pub open spec fn freed_by(p: PacketStore, records: Seq<Record>) -> nat
    decreases records.len(),
{
    if records.len() == 0 {
        0
    } else {
        freeing(p, records[0]) + freed_by(p, records.subrange(1, records.len() as int))
    }
}

/// Whether the first record of one history is the oldest of all.
pub open spec fn oldest_in(h: Map<u64, Seq<Record>>, id: u64) -> bool {
    &&& h.dom().contains(id)
    &&& h[id].len() > 0
    &&& forall|other: u64, j: int|
        #![trigger h[other][j]]
        h.dom().contains(other) && 0 <= j < h[other].len() ==> h[id][0].clock <= h[other][j].clock
}

/// Whether one history let go of its first record.
pub open spec fn front_gone(p: PacketStore, a: Room, b: Room, id: u64) -> bool {
    &&& a.histories.dom().contains(id)
    &&& a.histories[id].len() > 0
    &&& b.histories == a.histories.insert(
        id,
        a.histories[id].subrange(1, a.histories[id].len() as int),
    )
    &&& b.used == a.used - freeing(p, a.histories[id][0])
}

/// Whether `len` bytes did not fit at the step `i`, and the oldest record of all
/// went there.
pub open spec fn evicts_at(p: PacketStore, steps: Seq<Room>, len: nat, i: int) -> bool {
    &&& steps[i].used + len > p.spec_max()
    &&& exists|id: u64| #[trigger]
        oldest_in(steps[i].histories, id) && front_gone(p, steps[i], steps[i + 1], id)
}

/// Whether these are the steps of an eviction that goes on only while `len` bytes
/// do not fit.
pub open spec fn evicts(p: PacketStore, steps: Seq<Room>, len: nat) -> bool {
    &&& steps.len() > 0
    &&& forall|i: int| 0 <= i < steps.len() - 1 ==> #[trigger] evicts_at(p, steps, len, i)
}

/// Whether making room for `len` bytes leads from `first` to `last`: the oldest
/// record of all goes, again and again, for as long as the bytes do not fit, and
/// none once they do.
pub open spec fn evicted_to(p: PacketStore, first: Room, last: Room, len: nat) -> bool {
    &&& exists|steps: Seq<Room>| #[trigger]
        evicts(p, steps, len) && steps[0] == first && steps.last() == last
    &&& last.used + len <= p.spec_max() || no_history(last.histories)
}

/// Whether every history is empty.
pub open spec fn no_history(h: Map<u64, Seq<Record>>) -> bool {
    forall|id: u64| #[trigger] h.dom().contains(id) ==> h[id].len() == 0
}

/// The history that leaves room for `len` more bytes under the cap of one
/// extension, by dropping the oldest records. A record that is over the cap
/// by itself makes no room.
pub open spec fn trimmed_for(records: Seq<Record>, len: nat) -> Seq<Record>
    decreases records.len(),
{
    if len <= OUTPUT_RETAIN_PER_EXTENSION && records.len() > 0 && total_len(records) + len
        > OUTPUT_RETAIN_PER_EXTENSION {
        trimmed_for(records.subrange(1, records.len() as int), len)
    } else {
        records
    }
}

/// Whether compact replays and outboxes hold the same packets.
pub open spec fn same_holds(a: PacketStore, b: PacketStore) -> bool {
    &&& b.spec_leases() == a.spec_leases()
    &&& b.spec_slots().len() == a.spec_slots().len()
    &&& forall|j: int|
        0 <= j < a.spec_slots().len() ==> (#[trigger] b.spec_slots()[j]).terminal
            == a.spec_slots()[j].terminal
}

/// `b` is `a` with another history.
pub open spec fn same_but_history(a: Definition, b: Definition) -> bool {
    b == (Definition { retained: b.retained, retained_bytes: b.retained_bytes, ..a })
}

impl Registry {
    /// Every definition finds its records' packets, and no packet is held for a
    /// record that is gone.
    pub open spec fn wf(self) -> bool {
        &&& self.rows_ok()
        &&& forall|i: int|
            0 <= i < self.packets.spec_slots().len() ==> #[trigger] backed_at(
                self.definitions@,
                self.packets.spec_slots(),
                i,
            )
    }

    /// As [`Registry::wf`], but that the packet of `rec` is held for the compact
    /// replay of `id`, which is about to take that record.
    pub open spec fn placing(self, id: u64, rec: Record) -> bool {
        let slots = self.packets.spec_slots();
        &&& self.rows_ok()
        &&& forall|i: int|
            0 <= i < slots.len() ==> #[trigger] backed_at(self.definitions@, slots, i) || (i
                == rec.packet && slots[i].terminal == Some((id, rec.sequence)) && history_backed(
                self.definitions@,
                slots,
                i,
            ))
    }

    /// Every definition finds its records' packets.
    pub open spec fn rows_ok(self) -> bool {
        &&& self.definitions.wf()
        &&& self.packets.wf()
        &&& forall|id: u64| #[trigger]
            self.definitions@.dom().contains(id) ==> output_ok(
                self.definitions@[id],
                id,
                self.packets.spec_slots(),
                self.retention_clock,
            )
    }

    pub open spec fn spec_histories(self) -> Map<u64, Seq<Record>> {
        histories(self.definitions@)
    }

    pub open spec fn spec_room(self) -> Room {
        Room { histories: self.spec_histories(), used: self.packets.spec_used() as int }
    }

    /// What is left once one history has made room for `len` bytes under its own
    /// cap.
    pub open spec fn spec_trimmed(self, id: u64, len: nat) -> Room {
        let all = self.spec_histories()[id];
        let rest = trimmed_for(all, len);
        Room {
            histories: self.spec_histories().insert(id, rest),
            used: self.packets.spec_used() - freed_by(self.packets, all) + freed_by(
                self.packets,
                rest,
            ),
        }
    }

    pub fn new(output_retain_max: usize) -> (r: Registry)
        ensures
            r.wf(),
            r.definitions@ == Map::<u64, Definition>::empty(),
            r.packets.spec_max() == output_retain_max,
            r.packets.spec_used() == 0,
            r.retention_clock == 0,
    {
        let r = Registry {
            definitions: IdMap::new(),
            packets: PacketStore::new(output_retain_max),
            retention_clock: 0,
        };
        proof {
            assert(crate::extension::packets::charges(Seq::<Packet>::empty()) == 0);
        }
        r
    }

    /// Adds a definition that has put out nothing yet.
    pub fn insert_definition(&mut self, d: Definition)
        requires
            old(self).wf(),
            !old(self).definitions@.dom().contains(d.extension_id),
            d.followers.wf(),
            d.retained@.len() == 0,
            d.terminal_replay@.len() == 0,
            d.retained_bytes == 0,
        ensures
            final(self).wf(),
            final(self).packets == old(self).packets,
            final(self).retention_clock == old(self).retention_clock,
            final(self).definitions@ == old(self).definitions@.insert(d.extension_id, d),
    {
        let ghost start = *self;
        let id: u64 = d.extension_id;
        self.definitions.insert(id, d);
        proof {
            assert forall|k: u64| #[trigger] self.definitions@.dom().contains(k) implies output_ok(
                self.definitions@[k],
                k,
                self.packets.spec_slots(),
                self.retention_clock,
            ) by {
                if k != id {
                    assert(start.definitions@.dom().contains(k));
                }
            }
            lemma_still_backed(start, *self);
        }
    }

    /// Drops the oldest record of one history.
    fn evict_front(&mut self, id: u64)
        requires
            old(self).wf(),
            old(self).definitions@.dom().contains(id),
            old(self).definitions@[id].retained@.len() > 0,
        ensures
            final(self).wf(),
            final(self).retention_clock == old(self).retention_clock,
            final(self).packets.spec_max() == old(self).packets.spec_max(),
            final(self).packets.spec_leases() == old(self).packets.spec_leases(),
            final(self).packets.spec_used() <= old(self).packets.spec_used(),
            front_gone(old(self).packets, old(self).spec_room(), final(self).spec_room(), id),
            same_holds(old(self).packets, final(self).packets),
            final(self).definitions@ == old(self).definitions@.insert(
                id,
                final(self).definitions@[id],
            ),
            same_but_history(old(self).definitions@[id], final(self).definitions@[id]),
            final(self).definitions@[id].retained@ == old(self).definitions@[id].retained@.subrange(
                1,
                old(self).definitions@[id].retained@.len() as int,
            ),
            only_released(old(self).packets, final(self).packets),
    {
        let ghost start = *self;
        let ghost m = self.definitions@;
        let ghost d0 = m[id];
        let ghost slots = self.packets.spec_slots();
        let mut slot: usize = 0;
        match self.definitions.get_mut(id) {
            Some(d) => {
                let r = d.retained.remove(0);
                proof {
                    assert(total_len(d0.retained@) == r.len + total_len(
                        d0.retained@.subrange(1, d0.retained@.len() as int),
                    ));
                    assert(d.retained@ =~= d0.retained@.subrange(1, d0.retained@.len() as int));
                }
                d.retained_bytes = d.retained_bytes - r.len;
                slot = r.packet;
            },
            None => {},
        }
        proof {
            assert(in_history(slots, id, d0.retained@[0]));
            assert(slot == d0.retained@[0].packet);
        }
        self.packets.drop_history(slot);
        proof {
            let d1 = self.definitions@[id];
            let after = self.packets.spec_slots();
            assert(self.spec_histories() =~= start.spec_histories().insert(
                id,
                d0.retained@.subrange(1, d0.retained@.len() as int),
            ));
            assert forall|k: u64| #[trigger] self.definitions@.dom().contains(k) implies output_ok(
                self.definitions@[k],
                k,
                after,
                self.retention_clock,
            ) by {
                let d = self.definitions@[k];
                assert(m.dom().contains(k));
                let o = m[k];
                assert forall|i: int| 0 <= i < d.retained@.len() implies in_history(
                    after,
                    k,
                    #[trigger] d.retained@[i],
                ) && d.retained@[i].sequence < d.next_output_sequence && d.retained@[i].clock
                    <= self.retention_clock by {
                    if k == id {
                        assert(d.retained@[i] == o.retained@[i + 1]);
                        assert(in_history(slots, k, o.retained@[i + 1]));
                        assert(o.retained@[0].sequence < o.retained@[i + 1].sequence);
                    } else {
                        assert(in_history(slots, k, o.retained@[i]));
                    }
                }
                assert forall|i: int| 0 <= i < d.terminal_replay@.len() implies in_terminal(
                    after,
                    k,
                    #[trigger] d.terminal_replay@[i],
                ) && d.terminal_replay@[i].sequence < d.next_output_sequence
                    && d.terminal_replay@[i].clock <= self.retention_clock by {
                    assert(in_terminal(slots, k, o.terminal_replay@[i]));
                }
                if k == id {
                    assert forall|i: int, j: int| 0 <= i < j < d.retained@.len() implies (
                    #[trigger] d.retained@[i]).sequence < (#[trigger] d.retained@[j]).sequence
                        && d.retained@[i].clock <= d.retained@[j].clock by {
                        assert(d.retained@[i] == o.retained@[i + 1]);
                        assert(d.retained@[j] == o.retained@[j + 1]);
                    }
                }
            }
            assert forall|i: int| 0 <= i < after.len() implies #[trigger] backed_at(
                self.definitions@,
                after,
                i,
            ) by {
                assert(backed_at(m, slots, i));
                match after[i].history {
                    Some((x, sequence)) => {
                        if x == id {
                            let k = choose|k: int|
                                0 <= k < d0.retained@.len() && (
                                #[trigger] d0.retained@[k]).packet == i
                                    && d0.retained@[k].sequence == sequence;
                            assert(k > 0);
                            assert(d1.retained@[k - 1] == d0.retained@[k]);
                        }
                    },
                    None => {},
                }
            }
        }
    }

    /// Drops a whole history.
    pub fn clear_history(&mut self, id: u64)
        requires
            old(self).wf(),
            old(self).definitions@.dom().contains(id),
        ensures
            final(self).wf(),
            final(self).retention_clock == old(self).retention_clock,
            final(self).packets.spec_max() == old(self).packets.spec_max(),
            final(self).packets.spec_leases() == old(self).packets.spec_leases(),
            final(self).packets.spec_used() <= old(self).packets.spec_used(),
            final(self).definitions@ == old(self).definitions@.insert(
                id,
                final(self).definitions@[id],
            ),
            same_but_history(old(self).definitions@[id], final(self).definitions@[id]),
            final(self).definitions@[id].retained@.len() == 0,
            final(self).packets.spec_used() == old(self).packets.spec_used() - freed_by(
                old(self).packets,
                old(self).definitions@[id].retained@,
            ),
            only_released(old(self).packets, final(self).packets),
    {
        let ghost start = *self;
        let ghost all = self.definitions@[id].retained@;
        proof {
            assert(self.definitions@ =~= start.definitions@.insert(id, self.definitions@[id]));
        }
        loop
            invariant
                self.wf(),
                start.definitions@.dom().contains(id),
                self.definitions@ == start.definitions@.insert(id, self.definitions@[id]),
                self.definitions@.dom().contains(id),
                same_but_history(start.definitions@[id], self.definitions@[id]),
                self.retention_clock == start.retention_clock,
                self.packets.spec_max() == start.packets.spec_max(),
                self.packets.spec_leases() == start.packets.spec_leases(),
                self.packets.spec_used() <= start.packets.spec_used(),
                all == start.definitions@[id].retained@,
                self.packets.spec_used() == start.packets.spec_used() - freed_by(
                    start.packets,
                    all,
                ) + freed_by(start.packets, self.definitions@[id].retained@),
                same_holds(start.packets, self.packets),
                only_released(start.packets, self.packets),
            ensures
                self.definitions@[id].retained@.len() == 0,
            decreases self.definitions@[id].retained@.len(),
        {
            let more: bool = match self.definitions.get(id) {
                Some(d) => d.retained.len() > 0,
                None => false,
            };
            if !more {
                break;
            }
            let ghost before = *self;
            self.evict_front(id);
            proof {
                lemma_same_freeing(start.packets, before, id);
                assert(self.definitions@ =~= start.definitions@.insert(id, self.definitions@[id]));
                lemma_released_more(
                    start.packets,
                    before.packets,
                    self.packets,
                    -1,
                );
            }
        }
    }

    /// The extension whose oldest record is the oldest of all.
    fn find_oldest(&self) -> (r: Option<u64>)
        requires
            self.wf(),
        ensures
            match r {
                Some(id) => oldest_in(self.spec_histories(), id),
                None => no_history(self.spec_histories()),
            },
    {
        let mut best: Option<(u64, u64)> = None;
        let mut i: usize = 0;
        let ghost rows = self.definitions.spec_rows();
        let ghost m = self.definitions@;
        proof {
            self.definitions.lemma_rows();
        }
        while i < self.definitions.len()
            invariant
                i <= rows.len(),
                self.wf(),
                rows == self.definitions.spec_rows(),
                m == self.definitions@,
                ascending(rows),
                match best {
                    Some((id, clock)) => m.dom().contains(id) && m[id].retained@.len() > 0
                        && m[id].retained@[0].clock == clock && forall|k: int|
                        0 <= k < i && (#[trigger] rows[k]).1.retained@.len() > 0 ==> clock
                            <= rows[k].1.retained@[0].clock,
                    None => forall|k: int|
                        0 <= k < i ==> (#[trigger] rows[k]).1.retained@.len() == 0,
                },
            decreases rows.len() - i,
        {
            let id: u64 = self.definitions.id_at(i);
            let d = self.definitions.value_at(i);
            if d.retained.len() > 0 {
                let clock: u64 = d.retained[0].clock;
                let better: bool = match best {
                    Some((_, c)) => clock < c,
                    None => true,
                };
                if better {
                    best = Some((id, clock));
                }
            }
            i = i + 1;
        }
        proof {
            assert forall|other: u64| #[trigger] m.dom().contains(other) implies ({
                let k = row_of(rows, other);
                0 <= k < rows.len() && rows[k].0 == other && rows[k].1 == m[other]
            }) by {
                let k = row_of(rows, other);
                lemma_row_of(rows, k);
            }
            match best {
                Some((id, clock)) => {
                    let h = histories(m);
                    assert forall|other: u64, j: int|
                        #![trigger h[other][j]]
                        h.dom().contains(other) && 0 <= j < h[other].len() implies h[id][0].clock
                        <= h[other][j].clock by {
                        assert(m.dom().contains(other));
                        let k = row_of(rows, other);
                        assert(rows[k].1 == m[other]);
                        assert(in_order(m[other].retained@));
                        if j > 0 {
                            assert(m[other].retained@[0].clock <= m[other].retained@[j].clock);
                        }
                    }
                },
                None => {
                    assert forall|other: u64| #[trigger]
                        histories(m).dom().contains(other) implies histories(m)[other].len() == 0 by {
                        let k = row_of(rows, other);
                        assert(m.dom().contains(other));
                        assert(rows[k].1 == m[other]);
                    }
                },
            }
        }
        match best {
            Some((id, _)) => Some(id),
            None => None,
        }
    }

    /// Drops the oldest record of all histories; false where there is none.
    pub fn evict_oldest_history(&mut self) -> (r: bool)
        requires
            old(self).wf(),
        ensures
            final(self).wf(),
            final(self).retention_clock == old(self).retention_clock,
            final(self).packets.spec_max() == old(self).packets.spec_max(),
            final(self).packets.spec_leases() == old(self).packets.spec_leases(),
            final(self).packets.spec_used() <= old(self).packets.spec_used(),
            r == !no_history(old(self).spec_histories()),
            only_released(old(self).packets, final(self).packets),
            !r ==> *final(self) == *old(self),
            same_holds(old(self).packets, final(self).packets),
            r ==> exists|id: u64|
                {
                    &&& #[trigger] oldest_in(old(self).spec_histories(), id)
                    &&& front_gone(
                        old(self).packets,
                        old(self).spec_room(),
                        final(self).spec_room(),
                        id,
                    )
                    &&& final(self).definitions@ == old(self).definitions@.insert(
                        id,
                        final(self).definitions@[id],
                    )
                    &&& same_but_history(old(self).definitions@[id], final(self).definitions@[id])
                },
    {
        match self.find_oldest() {
            None => false,
            Some(id) => {
                self.evict_front(id);
                proof {
                    assert(histories(old(self).definitions@).dom().contains(id));
                }
                true
            },
        }
    }

    /// Makes room for `len` bytes: first under the cap of the extension itself,
    /// then under the budget of all, dropping the oldest record first. True
    /// where the record can be kept.
    fn make_room(&mut self, id: u64, len: usize) -> (kept: bool)
        requires
            old(self).wf(),
            old(self).definitions@.dom().contains(id),
        ensures
            final(self).wf(),
            final(self).retention_clock == old(self).retention_clock,
            final(self).packets.spec_max() == old(self).packets.spec_max(),
            final(self).packets.spec_leases() == old(self).packets.spec_leases(),
            final(self).packets.spec_used() <= old(self).packets.spec_used(),
            only_released(old(self).packets, final(self).packets),
            final(self).definitions@.dom() == old(self).definitions@.dom(),
            forall|k: u64| #[trigger]
                final(self).definitions@.dom().contains(k) ==> same_but_history(
                    old(self).definitions@[k],
                    final(self).definitions@[k],
                ),
            ({
                let first = old(self).spec_trimmed(id, len as nat);
                let last = final(self).spec_room();
                let max = final(self).packets.spec_max();
                &&& oldest_first(first.histories, last.histories)
                &&& kept == (len <= OUTPUT_RETAIN_PER_EXTENSION && last.used + len <= max)
                &&& if len <= OUTPUT_RETAIN_PER_EXTENSION {
                    evicted_to(old(self).packets, first, last, len as nat)
                } else {
                    last == first
                }
            }),
    {
        let ghost start = *self;
        let ghost all = self.definitions@[id].retained@;
        let ghost first = self.spec_trimmed(id, len as nat);
        let ghost h1 = first.histories;
        let mut more: bool = len <= OUTPUT_RETAIN_PER_EXTENSION;
        while more
            invariant
                self.wf(),
                start.definitions@.dom().contains(id),
                self.retention_clock == start.retention_clock,
                self.packets.spec_max() == start.packets.spec_max(),
                self.packets.spec_leases() == start.packets.spec_leases(),
                self.packets.spec_used() <= start.packets.spec_used(),
                only_released(start.packets, self.packets),
                self.definitions@ == start.definitions@.insert(id, self.definitions@[id]),
                same_but_history(start.definitions@[id], self.definitions@[id]),
                same_holds(start.packets, self.packets),
                self.packets.spec_used() == start.packets.spec_used() - freed_by(
                    start.packets,
                    all,
                ) + freed_by(start.packets, self.definitions@[id].retained@),
                trimmed_for(self.definitions@[id].retained@, len as nat) == trimmed_for(
                    all,
                    len as nat,
                ),
                more ==> len <= OUTPUT_RETAIN_PER_EXTENSION,
                !more ==> self.definitions@[id].retained@ == trimmed_for(all, len as nat),
            decreases self.definitions@[id].retained@.len() + (if more { 1nat } else { 0nat }),
        {
            let (bytes, count) = match self.definitions.get(id) {
                Some(d) => (d.retained_bytes, d.retained.len()),
                None => (0, 0),
            };
            if count > 0 && bytes > OUTPUT_RETAIN_PER_EXTENSION - len {
                let ghost mid = *self;
                self.evict_front(id);
                proof {
                    lemma_same_freeing(start.packets, mid, id);
                    lemma_released_more(
                        start.packets,
                        mid.packets,
                        self.packets,
                        -1,
                    );
                    assert(start.definitions@.insert(id, self.definitions@[id])
                        =~= self.definitions@);
                }
            } else {
                more = false;
            }
        }
        proof {
            assert(self.spec_histories() =~= h1);
            assert(self.spec_room() == first);
            lemma_trim_step(all, len as nat);
            assert forall|k: u64| #[trigger] h1.dom().contains(k) implies is_suffix(h1[k], h1[k]) by {
                assert(h1[k] =~= h1[k].subrange(0, h1[k].len() as int));
            }
            assert(oldest_first(h1, h1));
        }
        if len > OUTPUT_RETAIN_PER_EXTENSION {
            return false;
        }
        let ghost mut steps = seq![first];
        let mut fits: bool = self.packets.fits(len);
        let mut dry: bool = false;
        while !fits && !dry
            invariant
                self.wf(),
                start.definitions@.dom().contains(id),
                first == start.spec_trimmed(id, len as nat),
                h1 == first.histories,
                same_holds(start.packets, self.packets),
                evicts(start.packets, steps, len as nat),
                steps[0] == first,
                steps.last() == self.spec_room(),
                self.retention_clock == start.retention_clock,
                self.packets.spec_max() == start.packets.spec_max(),
                self.packets.spec_leases() == start.packets.spec_leases(),
                self.packets.spec_used() <= start.packets.spec_used(),
                only_released(start.packets, self.packets),
                self.definitions@.dom() == start.definitions@.dom(),
                forall|k: u64| #[trigger]
                    self.definitions@.dom().contains(k) ==> same_but_history(
                        start.definitions@[k],
                        self.definitions@[k],
                    ),
                fits == (self.packets.spec_used() + len <= self.packets.spec_max()),
                dry ==> no_history(self.spec_histories()),
                oldest_first(h1, self.spec_histories()),
            decreases
                    total_records(self.definitions.spec_rows()) + (if dry {
                        0nat
                    } else {
                        1nat
                    }),
        {
            let ghost before = *self;
            let ghost hb = self.spec_histories();
            let more = self.evict_oldest_history();
            proof {
                lemma_released_more(
                    start.packets,
                    before.packets,
                    self.packets,
                    -1,
                );
            }
            if more {
                proof {
                    let k = choose|k: u64|
                        {
                            &&& #[trigger] oldest_in(before.spec_histories(), k)
                            &&& front_gone(
                                before.packets,
                                before.spec_room(),
                                self.spec_room(),
                                k,
                            )
                            &&& self.definitions@ == before.definitions@.insert(
                                k,
                                self.definitions@[k],
                            )
                            &&& same_but_history(before.definitions@[k], self.definitions@[k])
                        };
                    let ha = self.spec_histories();
                    lemma_oldest_first_step(h1, hb, ha, k);
                    lemma_same_freeing(start.packets, before, k);
                    lemma_evicts_more(start.packets, steps, self.spec_room(), len as nat, k);
                    steps = steps.push(self.spec_room());
                    assert(before.definitions@.dom().contains(k));
                    assert(self.definitions@.dom().contains(k));
                    assert(ha[k] == self.definitions@[k].retained@);
                    lemma_total_records_shrink(before.definitions, self.definitions, k);
                    assert forall|o: u64| #[trigger]
                        self.definitions@.dom().contains(o) implies same_but_history(
                        start.definitions@[o],
                        self.definitions@[o],
                    ) by {
                        assert(before.definitions@.dom().contains(o));
                    }
                }
            } else {
                dry = true;
            }
            fits = self.packets.fits(len);
        }
        fits
    }

    /// Numbers one packet of output and keeps it in the history where there is
    /// room. With `compact`, a packet that finds no room is held for the
    /// compact replay alone, outside the budget.
    pub fn retain_record(&mut self, id: u64, packet: Vec<u8>, exit: bool, compact: bool) -> (r:
        Retained)
        requires
            old(self).wf(),
        ensures
            !(r is Compact) ==> final(self).wf(),
            r matches Retained::Compact(rec) ==> final(self).placing(id, rec),
            final(self).packets.spec_max() == old(self).packets.spec_max(),
            final(self).packets.spec_leases() == old(self).packets.spec_leases(),
            final(self).definitions@.dom() == old(self).definitions@.dom(),
            r is Unknown <==> !old(self).definitions@.dom().contains(id),
            r is Unknown ==> *final(self) == *old(self),
            r is Exhausted <==> old(self).definitions@.dom().contains(id) && old(self).definitions@[id].next_output_sequence == u64::MAX,
            r is Exhausted ==> sequence_exhausted(*old(self), *final(self), id),
            r is Dropped || r is Kept || r is Compact ==> {
                &&& record_numbered(*old(self), *final(self), id)
                &&& retention(*old(self), *final(self), id, packet@.len(), r is Kept)
            },
            r is Dropped ==> !compact,
            r is Compact ==> compact,
            r is Dropped || r is Compact ==> final(self).packets.spec_used()
                <= old(self).packets.spec_used(),
            r is Kept ==> final(self).packets.spec_used() <= old(self).packets.spec_used()
                + packet@.len(),
            payloads_kept(*old(self), *final(self)),
            r is Dropped ==> only_released(
                old(self).packets,
                final(self).packets,
            ),
            r matches Retained::Kept(rec) ==> released_but(
                old(self).packets,
                final(self).packets,
                rec.packet as int,
            ),
            r matches Retained::Compact(rec) ==> released_but(
                old(self).packets,
                final(self).packets,
                rec.packet as int,
            ),
            r matches Retained::Kept(rec) ==> {
                &&& rec == new_record(*old(self), id, packet@.len(), exit, rec.packet)
                &&& final(self).definitions@[id].retained@.last() == rec
                &&& final(self).packets.spec_slots()[rec.packet as int] == (Packet {
                    bytes: packet,
                    charged: true,
                    history: Some((id, rec.sequence)),
                    terminal: None,
                })
                &&& in_history(final(self).packets.spec_slots(), id, rec)
            },
            r matches Retained::Compact(rec) ==> {
                &&& rec == new_record(*old(self), id, packet@.len(), exit, rec.packet)
                &&& final(self).packets.spec_slots()[rec.packet as int] == (Packet {
                    bytes: packet,
                    charged: false,
                    history: None,
                    terminal: Some((id, rec.sequence)),
                })
                &&& in_terminal(final(self).packets.spec_slots(), id, rec)
            },
    {
        let len: usize = packet.len();
        let ghost start = *self;
        let (exhausted, known) = match self.definitions.get(id) {
            None => (false, false),
            Some(d) => (d.next_output_sequence == u64::MAX, true),
        };
        if !known {
            return Retained::Unknown;
        }
        if exhausted {
            self.exhaust(id);
            return Retained::Exhausted;
        }
        proof {
            assert(output_ok(
                start.definitions@[id],
                id,
                start.packets.spec_slots(),
                start.retention_clock,
            ));
        }
        let (sequence, clock) = self.number(id);
        let ghost numbered = *self;
        let kept = self.make_room(id, len);
        let ghost roomy = *self;
        proof {
            assert(numbered.definitions@.dom() =~= start.definitions@.dom());
            assert forall|k: u64| k != id && #[trigger] start.definitions@.dom().contains(k) implies
                same_but_history(start.definitions@[k], roomy.definitions@[k]) by {
                assert(roomy.definitions@.dom().contains(k));
            }
            assert(roomy.definitions@.dom().contains(id));
        }
        if kept {
            proof {
                lemma_retained_bound(start, numbered, roomy, id, len as nat);
                lemma_room_is_suffix(start, roomy, id, len as nat);
                let o = start.definitions@[id];
                let d = roomy.definitions@[id];
                assert forall|i: int| 0 <= i < d.retained@.len() implies (
                #[trigger] d.retained@[i]).sequence < sequence by {
                    let k = o.retained@.len() - d.retained@.len() + i;
                    assert(d.retained@[i] == o.retained@[k]);
                    assert(in_history(start.packets.spec_slots(), id, o.retained@[k]));
                }
            }
            let record = self.place_kept(id, packet, sequence, clock, exit);
            proof {
                assert(self.definitions@[id].retained@.drop_last()
                    =~= roomy.definitions@[id].retained@);
                assert(self.spec_histories().insert(id, self.spec_histories()[id].drop_last())
                    =~= roomy.spec_histories());
                assert(self.definitions@.dom() =~= start.definitions@.dom());
                lemma_released_more(
                    start.packets,
                    roomy.packets,
                    self.packets,
                    record.packet as int,
                );
                lemma_payloads_kept(start, *self, record.packet as int, id);
            }
            Retained::Kept(record)
        } else if compact {
            let slot = self.packets.put(packet, false, None, Some((id, sequence)));
            proof {
                lemma_put_keeps(roomy, *self, slot);
                assert forall|i: int|
                    0 <= i < self.packets.spec_slots().len() && i
                        != slot implies #[trigger] backed_at(
                    self.definitions@,
                    self.packets.spec_slots(),
                    i,
                ) by {
                    assert(backed_at(roomy.definitions@, roomy.packets.spec_slots(), i));
                }
                lemma_released_more(
                    start.packets,
                    roomy.packets,
                    self.packets,
                    slot as int,
                );
                lemma_payloads_kept(start, *self, slot as int, id);
            }
            Retained::Compact(Record { sequence, clock, packet: slot, len, exit })
        } else {
            proof {
                lemma_payloads_kept(start, *self, -1, id);
            }
            Retained::Dropped
        }
    }

    /// Blocks an extension that has used up its sequence numbers.
    fn exhaust(&mut self, id: u64)
        requires
            old(self).wf(),
            old(self).definitions@.dom().contains(id),
        ensures
            final(self).wf(),
            sequence_exhausted(*old(self), *final(self), id),
            final(self).definitions@.dom() == old(self).definitions@.dom(),
    {
        let ghost start = *self;
        match self.definitions.get_mut(id) {
            None => {},
            Some(d) => {
                d.phase = Phase::Blocked;
                d.detail = "extension output sequence exhausted".to_owned();
            },
        }
        proof {
            lemma_definition_replaced(start, *self, id);
        }
    }

    /// Takes the next sequence number of an extension and the next tick.
    fn number(&mut self, id: u64) -> (r: (u64, u64))
        requires
            old(self).wf(),
            old(self).definitions@.dom().contains(id),
            old(self).definitions@[id].next_output_sequence < u64::MAX,
        ensures
            final(self).wf(),
            final(self).packets == old(self).packets,
            r.0 == old(self).definitions@[id].next_output_sequence,
            r.1 == final(self).retention_clock,
            final(self).retention_clock == if old(self).retention_clock == u64::MAX {
                u64::MAX
            } else {
                (old(self).retention_clock + 1) as u64
            },
            final(self).definitions@ == old(self).definitions@.insert(
                id,
                Definition {
                    next_output_sequence: (r.0 + 1) as u64,
                    ..old(self).definitions@[id]
                },
            ),
            final(self).spec_histories() == old(self).spec_histories(),
    {
        let ghost start = *self;
        let mut sequence: u64 = 0;
        match self.definitions.get_mut(id) {
            None => {},
            Some(d) => {
                sequence = d.next_output_sequence;
                d.next_output_sequence = sequence + 1;
            },
        }
        self.retention_clock = self.retention_clock.saturating_add(1);
        proof {
            assert forall|k: u64| #[trigger] self.definitions@.dom().contains(k) implies output_ok(
                self.definitions@[k],
                k,
                self.packets.spec_slots(),
                self.retention_clock,
            ) by {
                assert(start.definitions@.dom().contains(k));
                let d = self.definitions@[k];
                let o = start.definitions@[k];
                assert(output_ok(o, k, start.packets.spec_slots(), start.retention_clock));
                assert(d.retained == o.retained && d.terminal_replay == o.terminal_replay);
            }
            lemma_still_backed(start, *self);
            assert(self.spec_histories() =~= start.spec_histories());
        }
        (sequence, self.retention_clock)
    }

    /// Puts a packet that fits at the end of its history.
    fn place_kept(&mut self, id: u64, packet: Vec<u8>, sequence: u64, clock: u64, exit: bool) -> (r:
        Record)
        requires
            old(self).wf(),
            old(self).definitions@.dom().contains(id),
            old(self).packets.spec_used() + packet@.len() <= old(self).packets.spec_max(),
            old(self).definitions@[id].retained_bytes + packet@.len() <= usize::MAX,
            old(self).definitions@[id].next_output_sequence == sequence + 1,
            old(self).retention_clock == clock,
            forall|i: int|
                0 <= i < old(self).definitions@[id].retained@.len() ==> (#[trigger] old(self).definitions@[id].retained@[i]).sequence < sequence,
        ensures
            final(self).wf(),
            final(self).retention_clock == old(self).retention_clock,
            final(self).packets.spec_max() == old(self).packets.spec_max(),
            final(self).packets.spec_leases() == old(self).packets.spec_leases(),
            final(self).packets.spec_used() == old(self).packets.spec_used() + packet@.len(),
            final(self).definitions@ == old(self).definitions@.insert(
                id,
                final(self).definitions@[id],
            ),
            same_but_history(old(self).definitions@[id], final(self).definitions@[id]),
            final(self).definitions@[id].retained@ == old(self).definitions@[id].retained@.push(r),
            r == (Record { sequence, clock, packet: r.packet, len: packet.len(), exit }),
            final(self).packets.spec_slots()[r.packet as int] == (Packet {
                bytes: packet,
                charged: true,
                history: Some((id, sequence)),
                terminal: None,
            }),
            in_history(final(self).packets.spec_slots(), id, r),
            released_but(
                old(self).packets,
                final(self).packets,
                r.packet as int,
            ),
    {
        let ghost start = *self;
        let len: usize = packet.len();
        let slot = self.packets.put(packet, true, Some((id, sequence)), None);
        let record = Record { sequence, clock, packet: slot, len, exit };
        proof {
            lemma_put_keeps(start, *self, slot);
            lemma_total_push(start.definitions@[id].retained@, record);
        }
        let ghost held = *self;
        match self.definitions.get_mut(id) {
            None => {},
            Some(d) => {
                d.retained_bytes = d.retained_bytes + len;
                d.retained.push(record);
            },
        }
        proof {
            let slots = self.packets.spec_slots();
            assert forall|k: u64| #[trigger] self.definitions@.dom().contains(k) implies output_ok(
                self.definitions@[k],
                k,
                slots,
                self.retention_clock,
            ) by {
                assert(held.definitions@.dom().contains(k));
                assert(output_ok(held.definitions@[k], k, slots, self.retention_clock));
                if k == id {
                    let d = self.definitions@[k];
                    let o = held.definitions@[k];
                    assert(d.retained@ =~= o.retained@.push(record));
                    assert forall|i: int| 0 <= i < d.retained@.len() implies in_history(
                        slots,
                        k,
                        #[trigger] d.retained@[i],
                    ) && d.retained@[i].sequence < d.next_output_sequence && d.retained@[i].clock
                        <= self.retention_clock by {
                        if i < o.retained@.len() {
                            assert(d.retained@[i] == o.retained@[i]);
                        }
                    }
                    assert forall|i: int, j: int| 0 <= i < j < d.retained@.len() implies (
                    #[trigger] d.retained@[i]).sequence < (#[trigger] d.retained@[j]).sequence
                        && d.retained@[i].clock <= d.retained@[j].clock by {
                        assert(d.retained@[i] == o.retained@[i]);
                        if j < o.retained@.len() {
                            assert(d.retained@[j] == o.retained@[j]);
                        }
                    }
                }
            }
            let kept = self.definitions@[id].retained@;
            let before = start.definitions@[id].retained@;
            assert forall|i: int| 0 <= i < slots.len() implies #[trigger] backed_at(
                self.definitions@,
                slots,
                i,
            ) by {
                if i == slot {
                    assert(kept[kept.len() - 1] == record);
                } else {
                    assert(backed_at(start.definitions@, start.packets.spec_slots(), i));
                    match slots[i].history {
                        Some((x, number)) => {
                            if x == id {
                                let k = choose|k: int|
                                    0 <= k < before.len() && (#[trigger] before[k]).packet == i
                                        && before[k].sequence == number;
                                assert(kept[k] == before[k]);
                            }
                        },
                        None => {},
                    }
                }
            }
        }
        record
    }
}

/// Records that there were and still are hold what they held, where at most the
/// packet of a record that is numbered next was written.
pub proof fn lemma_payloads_kept(before: Registry, after: Registry, slot: int, id: u64)
    requires
        before.rows_ok(),
        after.rows_ok(),
        released_but(before.packets, after.packets, slot),
        0 <= slot ==> {
            &&& before.definitions@.dom().contains(id)
            &&& fresh(before, id, after.packets.spec_slots()[slot].history)
            &&& fresh(before, id, after.packets.spec_slots()[slot].terminal)
        },
    ensures
        payloads_kept(before, after),
{
    let a = before.packets.spec_slots();
    let b = after.packets.spec_slots();
    assert forall|k: u64, rec: Record|
        gives(before, k, rec) && #[trigger] gives(after, k, rec) implies payload(after, rec)
        == payload(before, rec) && counts(after, rec) == counts(before, rec) by {
        let d = before.definitions@[k];
        let e = after.definitions@[k];
        assert(output_ok(d, k, a, before.retention_clock));
        assert(output_ok(e, k, b, after.retention_clock));
        if d.retained@.contains(rec) {
            let i = choose|i: int| 0 <= i < d.retained@.len() && d.retained@[i] == rec;
            assert(in_history(a, k, d.retained@[i]));
        } else {
            let i = choose|i: int| 0 <= i < d.terminal_replay@.len() && d.terminal_replay@[i]
                == rec;
            assert(in_terminal(a, k, d.terminal_replay@[i]));
        }
        assert(rec.packet < a.len() && rec.sequence < d.next_output_sequence);
        if e.retained@.contains(rec) {
            let i = choose|i: int| 0 <= i < e.retained@.len() && e.retained@[i] == rec;
            assert(in_history(b, k, e.retained@[i]));
        } else {
            let i = choose|i: int| 0 <= i < e.terminal_replay@.len() && e.terminal_replay@[i]
                == rec;
            assert(in_terminal(b, k, e.terminal_replay@[i]));
        }
        assert(rec.packet as int != slot);
        assert(released_at(before.packets, after.packets, rec.packet as int));
    }
}

/// Where no definition lost a record, and packets were at most let go of, none is
/// held for a record that is gone.
pub proof fn lemma_still_backed(before: Registry, after: Registry)
    requires
        before.wf(),
        after.rows_ok(),
        after.packets.spec_slots().len() == before.packets.spec_slots().len(),
        forall|i: int|
            0 <= i < before.packets.spec_slots().len() ==> holds_released(
                before.packets.spec_slots()[i],
                #[trigger] after.packets.spec_slots()[i],
            ),
        forall|k: u64| #[trigger]
            before.definitions@.dom().contains(k) ==> after.definitions@.dom().contains(k)
                && after.definitions@[k].retained == before.definitions@[k].retained
                && after.definitions@[k].terminal_replay == before.definitions@[k].terminal_replay,
    ensures
        after.wf(),
{
    let slots = after.packets.spec_slots();
    assert forall|i: int| 0 <= i < slots.len() implies #[trigger] backed_at(
        after.definitions@,
        slots,
        i,
    ) by {
        assert(backed_at(before.definitions@, before.packets.spec_slots(), i));
        assert(holds_released(before.packets.spec_slots()[i], slots[i]));
    }
}

/// Whether a packet's holds are those that it had, or some of them.
pub open spec fn holds_released(p: Packet, q: Packet) -> bool {
    &&& q.history is None || q.history == p.history
    &&& q.terminal is None || q.terminal == p.terminal
}

/// A packet that is put in a free slot disturbs no other.
proof fn lemma_put_keeps(before: Registry, after: Registry, slot: usize)
    requires
        before.rows_ok(),
        after.definitions == before.definitions,
        after.retention_clock == before.retention_clock,
        after.packets.wf(),
        slot < before.packets.spec_slots().len() ==> !before.packets.spec_held(slot),
        after.packets.spec_slots().len() >= before.packets.spec_slots().len(),
        forall|j: int|
            0 <= j < before.packets.spec_slots().len() && j != slot
                ==> #[trigger] after.packets.spec_slots()[j] == before.packets.spec_slots()[j],
    ensures
        after.rows_ok(),
{
    let slots0 = before.packets.spec_slots();
    let slots1 = after.packets.spec_slots();
    assert forall|k: u64| #[trigger] after.definitions@.dom().contains(k) implies output_ok(
        after.definitions@[k],
        k,
        slots1,
        after.retention_clock,
    ) by {
        let d = after.definitions@[k];
        assert(output_ok(d, k, slots0, after.retention_clock));
        assert forall|i: int| 0 <= i < d.retained@.len() implies in_history(
            slots1,
            k,
            #[trigger] d.retained@[i],
        ) && d.retained@[i].sequence < d.next_output_sequence && d.retained@[i].clock
            <= after.retention_clock by {
            assert(in_history(slots0, k, d.retained@[i]));
            assert(before.packets.spec_held(d.retained@[i].packet));
        }
        assert forall|i: int| 0 <= i < d.terminal_replay@.len() implies in_terminal(
            slots1,
            k,
            #[trigger] d.terminal_replay@[i],
        ) && d.terminal_replay@[i].sequence < d.next_output_sequence && d.terminal_replay@[i].clock
            <= after.retention_clock by {
            assert(in_terminal(slots0, k, d.terminal_replay@[i]));
            assert(before.packets.spec_held(d.terminal_replay@[i].packet));
        }
    }
}

/// A definition may change in whatever has nothing to do with its output.
pub proof fn lemma_definition_replaced(before: Registry, after: Registry, id: u64)
    requires
        before.wf(),
        before.definitions@.dom().contains(id),
        after.definitions.wf(),
        after.definitions@ == before.definitions@.insert(id, after.definitions@[id]),
        after.packets == before.packets,
        after.retention_clock == before.retention_clock,
        after.definitions@[id].extension_id == before.definitions@[id].extension_id,
        after.definitions@[id].followers.wf(),
        after.definitions@[id].retained == before.definitions@[id].retained,
        after.definitions@[id].retained_bytes == before.definitions@[id].retained_bytes,
        after.definitions@[id].terminal_replay == before.definitions@[id].terminal_replay,
        after.definitions@[id].next_output_sequence
            == before.definitions@[id].next_output_sequence,
    ensures
        after.wf(),
        after.definitions@.dom() == before.definitions@.dom(),
{
    assert(after.definitions@.dom() =~= before.definitions@.dom());
    assert forall|k: u64| #[trigger] after.definitions@.dom().contains(k) implies output_ok(
        after.definitions@[k],
        k,
        after.packets.spec_slots(),
        after.retention_clock,
    ) by {
        assert(before.definitions@.dom().contains(k));
        assert(output_ok(
            before.definitions@[k],
            k,
            before.packets.spec_slots(),
            before.retention_clock,
        ));
    }
    lemma_still_backed(before, after);
}

/// What became of a packet of output.
pub enum Retained {
    /// There is no such extension.
    Unknown,
    /// The extension has used up its sequence numbers.
    Exhausted,
    /// The packet was numbered and dropped.
    Dropped,
    /// The packet stands in the history.
    Kept(Record),
    /// The packet is held for the compact replay alone.
    Compact(Record),
}

/// An extension that has used up its sequence numbers is blocked.
pub open spec fn sequence_exhausted(before: Registry, after: Registry, id: u64) -> bool {
    let d = after.definitions@[id];
    &&& after.definitions@ == before.definitions@.insert(id, d)
    &&& d == (Definition { phase: Phase::Blocked, detail: d.detail, ..before.definitions@[id] })
    &&& d.detail@ == "extension output sequence exhausted"@
    &&& after.packets == before.packets
    &&& after.retention_clock == before.retention_clock
}

/// One sequence number was used, and nothing but histories changed besides.
pub open spec fn record_numbered(before: Registry, after: Registry, id: u64) -> bool {
    let d = before.definitions@[id];
    let e = after.definitions@[id];
    &&& before.definitions@.dom().contains(id)
    &&& after.packets.spec_max() == before.packets.spec_max()
    &&& after.packets.spec_leases() == before.packets.spec_leases()
    &&& d.next_output_sequence < u64::MAX
    &&& e == (Definition {
        next_output_sequence: (d.next_output_sequence + 1) as u64,
        retained: e.retained,
        retained_bytes: e.retained_bytes,
        ..d
    })
    &&& forall|k: u64|
        k != id && #[trigger] before.definitions@.dom().contains(k) ==> same_but_history(
            before.definitions@[k],
            after.definitions@[k],
        )
    &&& after.retention_clock == if before.retention_clock == u64::MAX {
        u64::MAX
    } else {
        (before.retention_clock + 1) as u64
    }
}

/// The record that a packet of output becomes.
pub open spec fn new_record(before: Registry, id: u64, len: nat, exit: bool, slot: usize) -> Record {
    Record {
        sequence: before.definitions@[id].next_output_sequence,
        clock: if before.retention_clock == u64::MAX {
            u64::MAX
        } else {
            (before.retention_clock + 1) as u64
        },
        packet: slot,
        len: len as usize,
        exit,
    }
}

proof fn lemma_suffix_total(short: Seq<Record>, long: Seq<Record>)
    requires
        is_suffix(short, long),
    ensures
        total_len(short) <= total_len(long),
    decreases long.len(),
{
    if short.len() < long.len() {
        let rest = long.subrange(1, long.len() as int);
        assert(short =~= rest.subrange(rest.len() - short.len(), rest.len() as int));
        lemma_suffix_total(short, rest);
    } else {
        assert(short =~= long);
    }
}

proof fn lemma_room_is_suffix(start: Registry, roomy: Registry, id: u64, len: nat)
    requires
        start.definitions@.dom().contains(id),
        roomy.definitions@.dom().contains(id),
        oldest_first(
            start.spec_histories().insert(id, trimmed_for(start.spec_histories()[id], len)),
            roomy.spec_histories(),
        ),
    ensures
        is_suffix(roomy.definitions@[id].retained@, start.definitions@[id].retained@),
        is_suffix(
            roomy.definitions@[id].retained@,
            trimmed_for(start.definitions@[id].retained@, len),
        ),
{
    let all = start.definitions@[id].retained@;
    let h1 = start.spec_histories().insert(id, trimmed_for(all, len));
    lemma_trim_step(all, len);
    assert(h1.dom().contains(id));
    assert(is_suffix(roomy.spec_histories()[id], h1[id]));
    let short = roomy.definitions@[id].retained@;
    assert(short =~= all.subrange(all.len() - short.len(), all.len() as int));
}

/// What is left of the history leaves room under the extension's own cap.
proof fn lemma_retained_bound(
    start: Registry,
    numbered: Registry,
    roomy: Registry,
    id: u64,
    len: nat,
)
    requires
        start.definitions@.dom().contains(id),
        roomy.definitions@.dom().contains(id),
        numbered.spec_histories() == start.spec_histories(),
        len <= OUTPUT_RETAIN_PER_EXTENSION,
        oldest_first(
            numbered.spec_histories().insert(id, trimmed_for(numbered.spec_histories()[id], len)),
            roomy.spec_histories(),
        ),
    ensures
        total_len(roomy.definitions@[id].retained@) + len <= OUTPUT_RETAIN_PER_EXTENSION,
{
    lemma_room_is_suffix(start, roomy, id, len);
    lemma_trim_step(start.definitions@[id].retained@, len);
    lemma_suffix_total(
        roomy.definitions@[id].retained@,
        trimmed_for(start.definitions@[id].retained@, len),
    );
}

/// How many records all histories hold.
spec fn total_records(rows: Seq<(u64, Definition)>) -> nat
    decreases rows.len(),
{
    if rows.len() == 0 {
        0
    } else {
        total_records(rows.drop_last()) + rows.last().1.retained@.len()
    }
}

proof fn lemma_total_records_update(rows: Seq<(u64, Definition)>, i: int, d: Definition)
    requires
        0 <= i < rows.len(),
    ensures
        total_records(rows.update(i, (rows[i].0, d))) == total_records(rows)
            - rows[i].1.retained@.len() + d.retained@.len(),
    decreases rows.len(),
{
    let after = rows.update(i, (rows[i].0, d));
    if i == rows.len() - 1 {
        assert(after.drop_last() =~= rows.drop_last());
    } else {
        lemma_total_records_update(rows.drop_last(), i, d);
        assert(after.drop_last() =~= rows.drop_last().update(i, (rows[i].0, d)));
    }
}

/// Dropping a record of one history leaves fewer records in all.
proof fn lemma_total_records_shrink(before: IdMap<Definition>, after: IdMap<Definition>, id: u64)
    requires
        before.wf(),
        after.wf(),
        before@.dom().contains(id),
        after@ == before@.insert(id, after@[id]),
        after@[id].retained@.len() < before@[id].retained@.len(),
    ensures
        total_records(after.spec_rows()) < total_records(before.spec_rows()),
{
    let rows = before.spec_rows();
    before.lemma_rows();
    after.lemma_rows();
    let i = row_of(rows, id);
    lemma_row_of(rows, i);
    crate::id_map::lemma_row_update(rows, i, after@[id]);
    crate::id_map::lemma_rows_determined(
        after.spec_rows(),
        rows.update(i, (rows[i].0, after@[id])),
    );
    lemma_total_records_update(rows, i, after@[id]);
}

/// What comes free with the first record of a history depends on holds that
/// dropping other records does not change.
proof fn lemma_same_freeing(p: PacketStore, r: Registry, id: u64)
    requires
        r.wf(),
        same_holds(p, r.packets),
        r.definitions@.dom().contains(id),
        r.definitions@[id].retained@.len() > 0,
    ensures
        freeing(p, r.definitions@[id].retained@[0]) == freeing(
            r.packets,
            r.definitions@[id].retained@[0],
        ),
{
    let rec = r.definitions@[id].retained@[0];
    assert(in_history(r.packets.spec_slots(), id, rec));
    assert(r.packets.spec_slots()[rec.packet as int].terminal
        == p.spec_slots()[rec.packet as int].terminal);
}

/// One more record goes.
proof fn lemma_evicts_more(p: PacketStore, steps: Seq<Room>, next: Room, len: nat, id: u64)
    requires
        evicts(p, steps, len),
        steps.last().used + len > p.spec_max(),
        oldest_in(steps.last().histories, id),
        front_gone(p, steps.last(), next, id),
    ensures
        evicts(p, steps.push(next), len),
{
    let all = steps.push(next);
    assert forall|i: int| 0 <= i < all.len() - 1 implies #[trigger] evicts_at(p, all, len, i) by {
        if i < steps.len() - 1 {
            assert(evicts_at(p, steps, len, i));
            assert(all[i] == steps[i] && all[i + 1] == steps[i + 1]);
        } else {
            assert(all[i] == steps.last() && all[i + 1] == next);
        }
    }
}

/// Histories that lost records twice, each time the oldest first, lost the
/// oldest first.
proof fn lemma_oldest_first_step(
    from: Map<u64, Seq<Record>>,
    mid: Map<u64, Seq<Record>>,
    to: Map<u64, Seq<Record>>,
    id: u64,
)
    requires
        oldest_first(from, mid),
        mid.dom().contains(id),
        mid[id].len() > 0,
        to == mid.insert(id, mid[id].subrange(1, mid[id].len() as int)),
        forall|other: u64, j: int|
            #![trigger mid[other][j]]
            mid.dom().contains(other) && 0 <= j < mid[other].len() ==> mid[id][0].clock
                <= mid[other][j].clock,
    ensures
        oldest_first(from, to),
        gone(from, to, id, from[id].len() - mid[id].len()),
        from[id][from[id].len() - mid[id].len()] == mid[id][0],
{
    assert(to.dom() =~= from.dom());
    let cut = from[id].len() - mid[id].len();
    assert(from.dom().contains(id));
    assert(is_suffix(mid[id], from[id]));
    assert(from[id][cut] == mid[id][0]);
    assert forall|k: u64| #[trigger] from.dom().contains(k) implies is_suffix(to[k], from[k]) by {
        assert(is_suffix(mid[k], from[k]));
        if k == id {
            assert(to[k] =~= from[k].subrange(from[k].len() - to[k].len(), from[k].len() as int));
        }
    }
    assert forall|a: u64, k: int, other: u64, j: int|
        #![trigger from[a][k], to[other][j]]
        gone(from, to, a, k) && to.dom().contains(other) && 0 <= j < to[other].len() implies
        from[a][k].clock <= to[other][j].clock by {
        let mj = if other == id {
            j + 1
        } else {
            j
        };
        assert(to[other][j] == mid[other][mj]);
        if gone(from, mid, a, k) {
            assert(from[a][k].clock <= mid[other][mj].clock);
        } else {
            assert(a == id && k == cut);
            assert(mid[id][0].clock <= mid[other][mj].clock);
        }
    }
}

/// What is left of a history after the oldest records were dropped is its end.
pub proof fn lemma_trimmed(records: Seq<Record>, len: nat)
    ensures
        is_suffix(trimmed_for(records, len), records),
{
    lemma_trim_step(records, len);
}

proof fn lemma_trim_step(records: Seq<Record>, len: nat)
    ensures
        is_suffix(trimmed_for(records, len), records),
        total_len(trimmed_for(records, len)) + len <= OUTPUT_RETAIN_PER_EXTENSION || len
            > OUTPUT_RETAIN_PER_EXTENSION,
    decreases records.len(),
{
    if len <= OUTPUT_RETAIN_PER_EXTENSION && records.len() > 0 && total_len(records) + len
        > OUTPUT_RETAIN_PER_EXTENSION {
        let rest = records.subrange(1, records.len() as int);
        lemma_trim_step(rest, len);
        let t = trimmed_for(rest, len);
        assert(t =~= records.subrange(records.len() - t.len(), records.len() as int));
    } else {
        assert(records =~= records.subrange(0, records.len() as int));
        if records.len() == 0 {
            assert(total_len(records) == 0);
        }
    }
}

/// How a record of `len` bytes fared: what the histories are without it, how much
/// of the budget is used, and whether it was kept. One that is kept is charged.
pub open spec fn retention(
    before: Registry,
    after: Registry,
    id: u64,
    len: nat,
    kept: bool,
) -> bool {
    let first = before.spec_trimmed(id, len);
    let last = if kept {
        Room {
            histories: after.spec_histories().insert(id, after.spec_histories()[id].drop_last()),
            used: after.packets.spec_used() - len,
        }
    } else {
        after.spec_room()
    };
    &&& oldest_first(first.histories, last.histories)
    &&& kept ==> after.spec_histories()[id].len() > 0
    &&& kept == (len <= OUTPUT_RETAIN_PER_EXTENSION && last.used + len <= before.packets.spec_max())
    &&& if len <= OUTPUT_RETAIN_PER_EXTENSION {
        evicted_to(before.packets, first, last, len)
    } else {
        last == first
    }
}

} // verus!
