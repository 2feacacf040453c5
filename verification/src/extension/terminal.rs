//! The compact replay of a last state: the exit of the last attempt and the
//! status after it, kept for late followers whatever the budget holds.

use vstd::prelude::*;

use crate::extension::definition::{Definition, FollowerCursor, Record};
use crate::extension::output::{
    backed_at, counts, gives, has_record, history_backed, holds_released, in_history, in_order,
    in_terminal, lemma_payloads_kept, new_record, output_ok, payload, payloads_kept,
    record_numbered, retention, sequence_exhausted, terminal_backed, Registry, Retained,
    TERMINAL_RECORDS,
};
use crate::extension::packets::{
    lemma_released_more, only_released, released_at, released_but, terminal_dropped,
    without_terminal, Packet, PacketStore,
};
use crate::extension::protocol::{Flags, ObjectHash, Phase, Restart};
use crate::extension::replay::owed_through;
use crate::extension::status::{bounded, bounded_detail};

verus! {

/// Which record of a last state a packet is.
#[derive(Clone, Copy, Debug, PartialEq, Eq, Structural)]
pub enum TerminalRecordKind {
    Exit,
    Status,
}

/// The exits of a run of records.
pub open spec fn exits(records: Seq<Record>) -> Seq<Record>
    decreases records.len(),
{
    if records.len() == 0 {
        Seq::empty()
    } else if records.last().exit {
        exits(records.drop_last()).push(records.last())
    } else {
        exits(records.drop_last())
    }
}

/// The last records of a run, as many as describe a last state.
pub open spec fn last_two(records: Seq<Record>) -> Seq<Record> {
    if records.len() <= TERMINAL_RECORDS {
        records
    } else {
        records.subrange(records.len() - TERMINAL_RECORDS, records.len() as int)
    }
}

/// The compact replay after one more record: an exit starts it anew, a status
/// follows the exit and replaces an earlier status.
pub open spec fn terminal_next(
    records: Seq<Record>,
    kind: TerminalRecordKind,
    record: Record,
) -> Seq<Record> {
    last_two(
        (if kind == TerminalRecordKind::Exit {
            Seq::empty()
        } else {
            exits(records)
        }).push(record),
    )
}

proof fn lemma_exits(records: Seq<Record>)
    ensures
        exits(records).len() <= records.len(),
        forall|k: int| 0 <= k < exits(records).len() ==> records.contains(#[trigger] exits(records)[k]),
        in_order(records) ==> in_order(exits(records)),
    decreases records.len(),
{
    if records.len() > 0 {
        let rest = records.drop_last();
        lemma_exits(rest);
        assert forall|k: int| 0 <= k < exits(records).len() implies records.contains(
            #[trigger] exits(records)[k],
        ) by {
            if k < exits(rest).len() {
                let x = exits(rest)[k];
                assert(rest.contains(x));
                let j = choose|j: int| 0 <= j < rest.len() && rest[j] == x;
                assert(records[j] == x);
            } else {
                assert(records[records.len() - 1] == exits(records)[k]);
            }
        }
        if in_order(records) {
            assert(in_order(rest));
            assert forall|i: int, j: int| 0 <= i < j < exits(records).len() implies (
            #[trigger] exits(records)[i]).sequence < (#[trigger] exits(records)[j]).sequence
                && exits(records)[i].clock <= exits(records)[j].clock by {
                assert(exits(records)[i] == exits(rest)[i]);
                if j < exits(rest).len() {
                    assert(exits(records)[j] == exits(rest)[j]);
                } else {
                    assert(rest.contains(exits(rest)[i]));
                    let k = choose|k: int| 0 <= k < rest.len() && rest[k] == exits(rest)[i];
                    assert(records[k] == rest[k]);
                }
            }
        }
    }
}

/// Whether one of the records has the sequence number `sequence`.
pub open spec fn has_sequence(records: Seq<Record>, sequence: u64) -> bool {
    exists|k: int| 0 <= k < records.len() && (#[trigger] records[k]).sequence == sequence
}

/// Whether the packet `p` in `slot` is held for a record of `gone` that is not
/// among the records `kept`.
pub open spec fn leaves(
    p: Packet,
    slot: usize,
    id: u64,
    gone: Seq<Record>,
    kept: Seq<Record>,
) -> bool {
    exists|k: int|
        0 <= k < gone.len() && (#[trigger] gone[k]).packet == slot && p.terminal == Some(
            (id, gone[k].sequence),
        ) && !has_sequence(kept, gone[k].sequence)
}

/// What became of the packet in `slot` when a compact replay with the records
/// `gone` was replaced by `kept`.
pub open spec fn let_go_at(
    a: PacketStore,
    b: PacketStore,
    id: u64,
    gone: Seq<Record>,
    kept: Seq<Record>,
    slot: usize,
) -> bool {
    let p = a.spec_slots()[slot as int];
    let q = b.spec_slots()[slot as int];
    if leaves(p, slot, id, gone, kept) {
        without_terminal(a, slot, q)
    } else {
        q == p
    }
}

/// Whether the packets of the records that left a compact replay were let go of,
/// and no other packet changed.
pub open spec fn replay_let_go(
    a: PacketStore,
    b: PacketStore,
    id: u64,
    gone: Seq<Record>,
    kept: Seq<Record>,
) -> bool {
    &&& b.spec_slots().len() == a.spec_slots().len()
    &&& forall|slot: usize|
        slot < a.spec_slots().len() ==> #[trigger] let_go_at(a, b, id, gone, kept, slot)
}

/// Whether a compact replay took hold of the packet of `rec`, its newest record,
/// the packets of the records that left were let go of, and no other packet
/// changed.
pub open spec fn replay_took(
    a: PacketStore,
    b: PacketStore,
    id: u64,
    gone: Seq<Record>,
    kept: Seq<Record>,
    rec: Record,
) -> bool {
    let p = a.spec_slots()[rec.packet as int];
    &&& b.spec_slots().len() == a.spec_slots().len()
    &&& b.spec_slots()[rec.packet as int] == (Packet { terminal: Some((id, rec.sequence)), ..p })
    &&& forall|slot: usize|
        slot < a.spec_slots().len() && slot != rec.packet ==> #[trigger] let_go_at(
            a,
            b,
            id,
            gone,
            kept,
            slot,
        )
}

/// A replay that let go of what left, with `rec` held already, took `rec`.
proof fn lemma_took(
    a: PacketStore,
    held: PacketStore,
    b: PacketStore,
    id: u64,
    gone: Seq<Record>,
    kept: Seq<Record>,
    rec: Record,
)
    requires
        rec.packet < a.spec_slots().len(),
        held.spec_leases() == a.spec_leases(),
        held.spec_slots() == a.spec_slots().update(
            rec.packet as int,
            Packet {
                terminal: Some((id, rec.sequence)),
                ..a.spec_slots()[rec.packet as int]
            },
        ),
        replay_let_go(held, b, id, gone, kept),
        kept.len() > 0,
        kept.last() == rec,
    ensures
        replay_took(a, b, id, gone, kept, rec),
{
    assert(has_sequence(kept, rec.sequence)) by {
        assert(kept[kept.len() - 1].sequence == rec.sequence);
    }
    assert(let_go_at(held, b, id, gone, kept, rec.packet));
    assert forall|slot: usize|
        slot < a.spec_slots().len() && slot != rec.packet implies #[trigger] let_go_at(
        a,
        b,
        id,
        gone,
        kept,
        slot,
    ) by {
        assert(let_go_at(held, b, id, gone, kept, slot));
        assert(held.spec_slots()[slot as int] == a.spec_slots()[slot as int]);
    }
}

/// One more record of those that left was let go of.
proof fn lemma_let_go_more(
    a: PacketStore,
    b: PacketStore,
    c: PacketStore,
    id: u64,
    gone: Seq<Record>,
    kept: Seq<Record>,
    i: int,
)
    requires
        0 <= i < gone.len(),
        gone[i].packet < a.spec_slots().len(),
        b.spec_leases() == a.spec_leases(),
        replay_let_go(a, b, id, gone.take(i), kept),
        if has_sequence(kept, gone[i].sequence)
            || b.spec_slots()[gone[i].packet as int].terminal != Some((id, gone[i].sequence)) {
            c.spec_slots() == b.spec_slots()
        } else {
            terminal_dropped(b, c, gone[i].packet)
        },
    ensures
        replay_let_go(a, c, id, gone.take(i + 1), kept),
{
    let before = gone.take(i);
    let after = gone.take(i + 1);
    let rec = gone[i];
    assert forall|slot: usize| slot < a.spec_slots().len() implies #[trigger] let_go_at(
        a,
        c,
        id,
        after,
        kept,
        slot,
    ) by {
        let p = a.spec_slots()[slot as int];
        assert(let_go_at(a, b, id, before, kept, slot));
        if leaves(p, slot, id, before, kept) {
            let k = choose|k: int|
                0 <= k < before.len() && (#[trigger] before[k]).packet == slot && p.terminal == Some(
                    (id, before[k].sequence),
                ) && !has_sequence(kept, before[k].sequence);
            assert(after[k] == before[k]);
            assert(leaves(p, slot, id, after, kept));
        } else if leaves(p, slot, id, after, kept) {
            let k = choose|k: int|
                0 <= k < after.len() && (#[trigger] after[k]).packet == slot && p.terminal == Some(
                    (id, after[k].sequence),
                ) && !has_sequence(kept, after[k].sequence);
            if k < i {
                assert(before[k] == after[k]);
            }
            assert(after[k] == rec);
        } else {
            assert(after[i] == rec);
        }
    }
}

/// One definition has another compact replay, and nothing else changed in any
/// definition.
pub open spec fn terminal_replaced(
    before: Registry,
    after: Registry,
    id: u64,
    records: Seq<Record>,
) -> bool {
    let e = after.definitions@[id];
    &&& after.definitions@ == before.definitions@.insert(id, e)
    &&& e == (Definition { terminal_replay: e.terminal_replay, ..before.definitions@[id] })
    &&& e.terminal_replay@ == records
    &&& after.retention_clock == before.retention_clock
    &&& after.packets.spec_max() == before.packets.spec_max()
    &&& after.packets.spec_leases() == before.packets.spec_leases()
    &&& after.packets.spec_used() <= before.packets.spec_used()
}

/// What a record of a last state came to: `mid` is the registry with the record
/// numbered, before the compact replay takes it.
pub open spec fn terminal_retained(
    before: Registry,
    mid: Registry,
    after: Registry,
    id: u64,
    packet: Seq<u8>,
    kind: TerminalRecordKind,
    r: Retained,
) -> bool {
    let persistent = before.definitions@[id].spec_persistent();
    let gone = before.definitions@[id].terminal_replay@;
    let exit = kind == TerminalRecordKind::Exit;
    &&& record_numbered(before, mid, id)
    &&& retention(before, mid, id, packet.len(), r is Kept)
    &&& mid.packets.wf()
    &&& payloads_kept(before, after)
    &&& match r {
        Retained::Dropped => persistent && after == mid && only_released(
            before.packets,
            mid.packets,
        ),
        Retained::Kept(rec) => {
            &&& released_but(before.packets, mid.packets, rec.packet as int)
            &&& in_history(mid.packets.spec_slots(), id, rec)
            &&& mid.packets.spec_slots()[rec.packet as int].terminal is None
            &&& rec == new_record(before, id, packet.len(), exit, rec.packet)
            &&& payload(after, rec) == packet
            &&& mid.definitions@[id].retained@.last() == rec
            &&& if persistent {
                after == mid
            } else {
                &&& terminal_replaced(mid, after, id, terminal_next(gone, kind, rec))
                &&& replay_took(
                    mid.packets,
                    after.packets,
                    id,
                    gone,
                    terminal_next(gone, kind, rec),
                    rec,
                )
            }
        },
        Retained::Compact(rec) => {
            &&& released_but(before.packets, mid.packets, rec.packet as int)
            &&& in_terminal(mid.packets.spec_slots(), id, rec)
            &&& mid.packets.spec_slots()[rec.packet as int].history is None
            &&& !mid.packets.spec_slots()[rec.packet as int].charged
            &&& rec == new_record(before, id, packet.len(), exit, rec.packet)
            &&& payload(after, rec) == packet
            &&& !persistent
            &&& terminal_replaced(mid, after, id, terminal_next(gone, kind, rec))
            &&& replay_took(
                mid.packets,
                after.packets,
                id,
                gone,
                terminal_next(gone, kind, rec),
                rec,
            )
        },
        _ => false,
    }
}

/// What a definition's lifecycle event says.
pub struct InfoStatus {
    pub extension_id: u64,
    pub definition_revision: u64,
    pub phase: Phase,
    pub flags: Flags,
    pub restart: Restart,
    pub attempt: u64,
    pub last_running_attempt: u64,
    pub task_id: u32,
    pub output_sequence: u64,
    pub next_start_unix_ms: u64,
    pub hash: ObjectHash,
    pub detail: String,
}

/// Whether an event says what the definition is, under the sequence that the
/// event itself will have.
pub open spec fn describes(i: InfoStatus, d: Definition, detail_max: nat) -> bool {
    &&& i.extension_id == d.extension_id
    &&& i.definition_revision == d.definition_revision
    &&& i.phase == d.phase
    &&& i.flags == d.flags
    &&& i.restart == d.restart
    &&& i.attempt == d.attempt
    &&& i.last_running_attempt == d.last_running_attempt
    &&& i.task_id == d.task_id
    &&& i.output_sequence == d.next_output_sequence
    &&& i.next_start_unix_ms == d.next_start_unix_ms
    &&& i.hash == d.hash
    &&& i.detail@ == bounded(d.detail@, detail_max)
}

/// The event that announces where a definition stands now.
pub fn lifecycle_event(d: &Definition, detail_max: usize) -> (i: InfoStatus)
    ensures
        describes(i, *d, detail_max as nat),
{
    InfoStatus {
        extension_id: d.extension_id,
        definition_revision: d.definition_revision,
        phase: d.phase,
        flags: d.flags,
        restart: d.restart,
        attempt: d.attempt,
        last_running_attempt: d.last_running_attempt,
        task_id: d.task_id,
        output_sequence: d.next_output_sequence,
        next_start_unix_ms: d.next_start_unix_ms,
        hash: d.hash,
        detail: bounded_detail(d.detail.as_str(), detail_max),
    }
}

/// Whether a definition's next event belongs to a last state.
pub open spec fn at_rest(d: Definition) -> bool {
    !d.spec_persistent() && (d.phase == Phase::Stopped || d.phase == Phase::Blocked)
}

/// Every follower of a definition is owed a mark through `through`.
pub open spec fn all_owed(
    before: Map<u64, FollowerCursor>,
    after: Map<u64, FollowerCursor>,
    through: u64,
) -> bool {
    &&& after.dom() == before.dom()
    &&& forall|ep: u64| #[trigger]
        before.dom().contains(ep) ==> after[ep] == owed_through(before[ep], through)
}

/// Whether the holds on the packet at `j` are those of records that there are, or
/// the compact replay of `id` holds it for one of `rest`.
pub open spec fn letting(
    m: Map<u64, Definition>,
    slots: Seq<Packet>,
    id: u64,
    rest: Seq<Record>,
    j: int,
) -> bool {
    &&& history_backed(m, slots, j)
    &&& terminal_backed(m, slots, j) || (slots[j].terminal matches Some((x, sequence)) && x == id
        && has_record(rest, j, sequence))
}

/// One record fewer is to be let go of.
proof fn lemma_letting(
    m: Map<u64, Definition>,
    before: Seq<Packet>,
    after: Seq<Packet>,
    id: u64,
    gone: Seq<Record>,
    kept: Seq<Record>,
    i: int,
)
    requires
        0 <= i < gone.len(),
        m.dom().contains(id),
        m[id].terminal_replay@ == kept,
        after.len() == before.len(),
        forall|j: int|
            0 <= j < before.len() ==> #[trigger] letting(m, before, id, gone.skip(i), j),
        forall|j: int|
            0 <= j < before.len() ==> holds_released(before[j], #[trigger] after[j]),
        has_sequence(kept, gone[i].sequence) || (0 <= gone[i].packet < after.len()
            && after[gone[i].packet as int].terminal != Some((id, gone[i].sequence))),
        forall|a: int, b: int|
            #![trigger gone[a], kept[b]]
            0 <= a < gone.len() && 0 <= b < kept.len() && gone[a].sequence == kept[b].sequence
                ==> gone[a].packet == kept[b].packet,
    ensures
        forall|j: int|
            0 <= j < after.len() ==> #[trigger] letting(m, after, id, gone.skip(i + 1), j),
{
    assert forall|j: int| 0 <= j < after.len() implies #[trigger] letting(
        m,
        after,
        id,
        gone.skip(i + 1),
        j,
    ) by {
        assert(letting(m, before, id, gone.skip(i), j));
        assert(holds_released(before[j], after[j]));
        if !terminal_backed(m, after, j) {
            let (_, sequence) = after[j].terminal->0;
            let k = choose|k: int|
                0 <= k < gone.skip(i).len() && (#[trigger] gone.skip(i)[k]).packet == j
                    && gone.skip(i)[k].sequence == sequence;
            if k == 0 {
                let b = choose|b: int|
                    0 <= b < kept.len() && (#[trigger] kept[b]).sequence == gone[i].sequence;
                assert(gone[i].packet == kept[b].packet);
                assert(kept[b].packet == j && kept[b].sequence == sequence);
            } else {
                assert(gone.skip(i + 1)[k - 1] == gone.skip(i)[k]);
            }
        }
    }
}

impl Registry {
    /// Sets the compact replay of a definition; packets that leave it are let
    /// go.
    fn replace_terminal(&mut self, id: u64, next: Vec<Record>)
        requires
            old(self).rows_ok(),
            forall|i: int|
                0 <= i < old(self).packets.spec_slots().len() ==> #[trigger] letting(
                    old(self).definitions@,
                    old(self).packets.spec_slots(),
                    id,
                    next@,
                    i,
                ),
            forall|i: int, j: int|
                #![trigger old(self).definitions@[id].terminal_replay@[i], next@[j]]
                0 <= i < old(self).definitions@[id].terminal_replay@.len() && 0 <= j < next@.len()
                    && old(self).definitions@[id].terminal_replay@[i].sequence == next@[j].sequence
                    ==> old(self).definitions@[id].terminal_replay@[i].packet == next@[j].packet,
            old(self).definitions@.dom().contains(id),
            in_order(next@),
            next@.len() <= TERMINAL_RECORDS,
            forall|i: int|
                0 <= i < next@.len() ==> in_terminal(
                    old(self).packets.spec_slots(),
                    id,
                    #[trigger] next@[i],
                ) && next@[i].sequence < old(self).definitions@[id].next_output_sequence
                    && next@[i].clock <= old(self).retention_clock,
        ensures
            final(self).wf(),
            terminal_replaced(*old(self), *final(self), id, next@),
            final(self).definitions@.dom() == old(self).definitions@.dom(),
            only_released(old(self).packets, final(self).packets),
            replay_let_go(
                old(self).packets,
                final(self).packets,
                id,
                old(self).definitions@[id].terminal_replay@,
                next@,
            ),
    {
        let ghost start = *self;
        let ghost kept = next@;
        let mut gone: Vec<Record> = next;
        match self.definitions.get_mut(id) {
            None => {},
            Some(d) => {
                std::mem::swap(&mut d.terminal_replay, &mut gone);
            },
        }
        let ghost replaced = self.definitions@;
        proof {
            assert(gone@ == start.definitions@[id].terminal_replay@);
            assert(self.definitions@.dom() =~= start.definitions@.dom());
            assert forall|k: u64| #[trigger] self.definitions@.dom().contains(k) implies output_ok(
                self.definitions@[k],
                k,
                self.packets.spec_slots(),
                self.retention_clock,
            ) by {
                assert(start.definitions@.dom().contains(k));
                assert(output_ok(
                    start.definitions@[k],
                    k,
                    start.packets.spec_slots(),
                    start.retention_clock,
                ));
            }
            assert forall|i: int| 0 <= i < gone@.len() implies (#[trigger] gone@[i]).packet
                < self.packets.spec_slots().len() by {
                assert(in_terminal(start.packets.spec_slots(), id, gone@[i]));
            }
            assert(gone@.skip(0) =~= gone@);
            assert forall|i: int| 0 <= i < self.packets.spec_slots().len() implies #[trigger] letting(
                replaced,
                self.packets.spec_slots(),
                id,
                gone@.skip(0),
                i,
            ) by {
                assert(letting(start.definitions@, start.packets.spec_slots(), id, kept, i));
            }
        }
        let mut i: usize = 0;
        while i < gone.len()
            invariant
                i <= gone@.len(),
                self.rows_ok(),
                forall|j: int|
                    0 <= j < self.packets.spec_slots().len() ==> #[trigger] letting(
                        replaced,
                        self.packets.spec_slots(),
                        id,
                        gone@.skip(i as int),
                        j,
                    ),
                forall|a: int, b: int|
                    #![trigger gone@[a], kept[b]]
                    0 <= a < gone@.len() && 0 <= b < kept.len() && gone@[a].sequence
                        == kept[b].sequence ==> gone@[a].packet == kept[b].packet,
                self.definitions@ == replaced,
                replaced.dom().contains(id),
                replaced[id].terminal_replay@ == kept,
                self.retention_clock == start.retention_clock,
                self.packets.spec_max() == start.packets.spec_max(),
                self.packets.spec_leases() == start.packets.spec_leases(),
                self.packets.spec_used() <= start.packets.spec_used(),
                only_released(start.packets, self.packets),
                replay_let_go(start.packets, self.packets, id, gone@.take(i as int), kept),
                forall|k: int|
                    0 <= k < gone@.len() ==> (#[trigger] gone@[k]).packet
                        < self.packets.spec_slots().len(),
            decreases gone@.len() - i,
        {
            let rec = gone[i];
            let ghost mid = self.packets;
            self.let_go(id, rec);
            proof {
                lemma_letting(
                    replaced,
                    mid.spec_slots(),
                    self.packets.spec_slots(),
                    id,
                    gone@,
                    kept,
                    i as int,
                );
                lemma_released_more(
                    start.packets,
                    mid,
                    self.packets,
                    -1,
                );
                lemma_let_go_more(
                    start.packets,
                    mid,
                    self.packets,
                    id,
                    gone@,
                    kept,
                    i as int,
                );
            }
            i = i + 1;
        }
        proof {
            assert(gone@.take(gone@.len() as int) =~= gone@);
            assert forall|j: int| 0 <= j < self.packets.spec_slots().len() implies #[trigger] backed_at(
                self.definitions@,
                self.packets.spec_slots(),
                j,
            ) by {
                assert(letting(
                    replaced,
                    self.packets.spec_slots(),
                    id,
                    gone@.skip(gone@.len() as int),
                    j,
                ));
            }
        }
    }

    /// Lets go of the compact replay's hold on a record's packet, unless the
    /// replay still has that record or the hold is another's.
    fn let_go(&mut self, id: u64, rec: Record)
        requires
            old(self).rows_ok(),
            old(self).definitions@.dom().contains(id),
            rec.packet < old(self).packets.spec_slots().len(),
        ensures
            final(self).rows_ok(),
            final(self).definitions == old(self).definitions,
            final(self).retention_clock == old(self).retention_clock,
            final(self).packets.spec_max() == old(self).packets.spec_max(),
            final(self).packets.spec_leases() == old(self).packets.spec_leases(),
            only_released(old(self).packets, final(self).packets),
            if has_sequence(old(self).definitions@[id].terminal_replay@, rec.sequence)
                || old(self).packets.spec_slots()[rec.packet as int].terminal != Some(
                (id, rec.sequence),
            ) {
                *final(self) == *old(self)
            } else {
                terminal_dropped(old(self).packets, final(self).packets, rec.packet)
            },
    {
        let mut used: bool = false;
        match self.definitions.get(id) {
            None => {},
            Some(d) => {
                let mut j: usize = 0;
                while j < d.terminal_replay.len()
                    invariant
                        j <= d.terminal_replay@.len(),
                        used == exists|k: int|
                            0 <= k < j && (#[trigger] d.terminal_replay@[k]).sequence
                                == rec.sequence,
                    decreases d.terminal_replay@.len() - j,
                {
                    if d.terminal_replay[j].sequence == rec.sequence {
                        used = true;
                    }
                    j = j + 1;
                }
            },
        }
        let owner = self.packets.terminal_place(rec.packet);
        let mine: bool = match owner {
            Some((ext, sequence)) => ext == id && sequence == rec.sequence,
            None => false,
        };
        if used || !mine {
            return;
        }
        let ghost start = *self;
        self.packets.drop_terminal(rec.packet);
        proof {
            let before = start.packets.spec_slots();
            let after = self.packets.spec_slots();
            assert forall|k: u64| #[trigger] self.definitions@.dom().contains(k) implies output_ok(
                self.definitions@[k],
                k,
                after,
                self.retention_clock,
            ) by {
                let d = self.definitions@[k];
                assert(output_ok(d, k, before, self.retention_clock));
                assert forall|i: int| 0 <= i < d.retained@.len() implies in_history(
                    after,
                    k,
                    #[trigger] d.retained@[i],
                ) && d.retained@[i].sequence < d.next_output_sequence && d.retained@[i].clock
                    <= self.retention_clock by {
                    assert(in_history(before, k, d.retained@[i]));
                }
                assert forall|i: int| 0 <= i < d.terminal_replay@.len() implies in_terminal(
                    after,
                    k,
                    #[trigger] d.terminal_replay@[i],
                ) && d.terminal_replay@[i].sequence < d.next_output_sequence
                    && d.terminal_replay@[i].clock <= self.retention_clock by {
                    assert(in_terminal(before, k, d.terminal_replay@[i]));
                }
            }
        }
    }

    /// Puts a record at the end of a compact replay.
    fn place_terminal(&mut self, id: u64, kind: TerminalRecordKind, rec: Record)
        requires
            old(self).placing(id, rec),
            old(self).definitions@.dom().contains(id),
            in_terminal(old(self).packets.spec_slots(), id, rec),
            rec.sequence < old(self).definitions@[id].next_output_sequence,
            rec.clock == old(self).retention_clock,
            forall|i: int|
                0 <= i < old(self).definitions@[id].terminal_replay@.len() ==> (
                #[trigger] old(self).definitions@[id].terminal_replay@[i]).sequence < rec.sequence,
        ensures
            final(self).wf(),
            terminal_replaced(
                *old(self),
                *final(self),
                id,
                terminal_next(old(self).definitions@[id].terminal_replay@, kind, rec),
            ),
            final(self).definitions@.dom() == old(self).definitions@.dom(),
            only_released(old(self).packets, final(self).packets),
            replay_let_go(
                old(self).packets,
                final(self).packets,
                id,
                old(self).definitions@[id].terminal_replay@,
                terminal_next(old(self).definitions@[id].terminal_replay@, kind, rec),
            ),
    {
        let ghost list = self.definitions@[id].terminal_replay@;
        let mut next: Vec<Record> = Vec::new();
        match self.definitions.get(id) {
            None => {},
            Some(d) => {
                if let TerminalRecordKind::Status = kind {
                    let mut i: usize = 0;
                    while i < d.terminal_replay.len()
                        invariant
                            i <= list.len(),
                            list == d.terminal_replay@,
                            next@ == exits(list.take(i as int)),
                        decreases list.len() - i,
                    {
                        let r = d.terminal_replay[i];
                        proof {
                            assert(list.take(i + 1).drop_last() =~= list.take(i as int));
                            assert(list.take(i + 1).last() == r);
                        }
                        if r.exit {
                            next.push(r);
                        }
                        i = i + 1;
                    }
                    proof {
                        assert(list.take(list.len() as int) =~= list);
                    }
                }
            },
        }
        let ghost base = next@;
        proof {
            lemma_exits(list);
            assert(output_ok(
                self.definitions@[id],
                id,
                self.packets.spec_slots(),
                self.retention_clock,
            ));
            assert forall|k: int| 0 <= k < base.len() implies list.contains(#[trigger] base[k]) by {}
        }
        next.push(rec);
        if next.len() > TERMINAL_RECORDS {
            let _ = next.remove(0);
        }
        proof {
            let all = base.push(rec);
            assert(next@ =~= last_two(all));
            let shift = all.len() - next@.len();
            assert forall|k: int| 0 <= k < next@.len() implies #[trigger] next@[k] == all[k
                + shift] by {}
            assert forall|i: int|
                0 <= i < next@.len() implies in_terminal(
                self.packets.spec_slots(),
                id,
                #[trigger] next@[i],
            ) && next@[i].sequence < self.definitions@[id].next_output_sequence && next@[i].clock
                <= self.retention_clock by {
                let x = all[i + shift];
                if i + shift < base.len() {
                    assert(list.contains(base[i + shift]));
                    let j = choose|j: int| 0 <= j < list.len() && list[j] == x;
                    assert(in_terminal(self.packets.spec_slots(), id, list[j]));
                }
            }
            assert forall|i: int, j: int| 0 <= i < j < next@.len() implies (
            #[trigger] next@[i]).sequence < (#[trigger] next@[j]).sequence && next@[i].clock
                <= next@[j].clock by {
                assert(next@[i] == base[i + shift]);
                assert(list.contains(base[i + shift]));
                let m = choose|m: int| 0 <= m < list.len() && list[m] == base[i + shift];
                assert(in_terminal(self.packets.spec_slots(), id, list[m]));
                if j + shift < base.len() {
                    assert(next@[j] == base[j + shift]);
                }
            }
            assert forall|i: int, j: int|
                #![trigger list[i], next@[j]]
                0 <= i < list.len() && 0 <= j < next@.len() && list[i].sequence
                    == next@[j].sequence implies list[i].packet == next@[j].packet by {
                assert(list[i].sequence < rec.sequence);
                assert(next@[j] == base[j + shift]);
                assert(list.contains(base[j + shift]));
                let m = choose|m: int| 0 <= m < list.len() && list[m] == base[j + shift];
                assert(list[m].sequence == list[i].sequence);
            }
            assert(next@[next@.len() - 1] == rec);
            assert forall|i: int| 0 <= i < self.packets.spec_slots().len() implies #[trigger] letting(
                self.definitions@,
                self.packets.spec_slots(),
                id,
                next@,
                i,
            ) by {
                let slots = self.packets.spec_slots();
                if !backed_at(self.definitions@, slots, i) {
                    assert(slots[i].terminal == Some((id, rec.sequence)));
                    assert(has_record(next@, rec.packet as int, rec.sequence));
                }
            }
        }
        self.replace_terminal(id, next);
    }

    /// Takes hold of a record of the history for the compact replay too.
    fn hold_record(&mut self, id: u64, rec: Record)
        requires
            old(self).wf(),
            in_history(old(self).packets.spec_slots(), id, rec),
            old(self).packets.spec_slots()[rec.packet as int].terminal is None,
        ensures
            final(self).placing(id, rec),
            final(self).definitions == old(self).definitions,
            final(self).retention_clock == old(self).retention_clock,
            final(self).packets.spec_max() == old(self).packets.spec_max(),
            final(self).packets.spec_leases() == old(self).packets.spec_leases(),
            final(self).packets.spec_used() == old(self).packets.spec_used(),
            in_terminal(final(self).packets.spec_slots(), id, rec),
            final(self).packets.spec_slots() == old(self).packets.spec_slots().update(
                rec.packet as int,
                Packet {
                    terminal: Some((id, rec.sequence)),
                    ..old(self).packets.spec_slots()[rec.packet as int]
                },
            ),
    {
        let ghost start = *self;
        self.packets.hold_terminal(rec.packet, (id, rec.sequence));
        proof {
            let before = start.packets.spec_slots();
            let after = self.packets.spec_slots();
            assert forall|k: u64| #[trigger] self.definitions@.dom().contains(k) implies output_ok(
                self.definitions@[k],
                k,
                after,
                self.retention_clock,
            ) by {
                let d = self.definitions@[k];
                assert(output_ok(d, k, before, self.retention_clock));
                assert forall|i: int| 0 <= i < d.retained@.len() implies in_history(
                    after,
                    k,
                    #[trigger] d.retained@[i],
                ) && d.retained@[i].sequence < d.next_output_sequence && d.retained@[i].clock
                    <= self.retention_clock by {
                    assert(in_history(before, k, d.retained@[i]));
                }
                assert forall|i: int| 0 <= i < d.terminal_replay@.len() implies in_terminal(
                    after,
                    k,
                    #[trigger] d.terminal_replay@[i],
                ) && d.terminal_replay@[i].sequence < d.next_output_sequence
                    && d.terminal_replay@[i].clock <= self.retention_clock by {
                    assert(in_terminal(before, k, d.terminal_replay@[i]));
                }
            }
            assert forall|i: int| 0 <= i < after.len() && i != rec.packet implies #[trigger] backed_at(
                self.definitions@,
                after,
                i,
            ) by {
                assert(backed_at(start.definitions@, before, i));
            }
            assert(backed_at(start.definitions@, before, rec.packet as int));
        }
    }

    /// Forgets the compact replay of a definition.
    pub fn clear_terminal(&mut self, id: u64)
        requires
            old(self).wf(),
        ensures
            final(self).wf(),
            !old(self).definitions@.dom().contains(id) ==> *final(self) == *old(self),
            old(self).definitions@.dom().contains(id) ==> terminal_replaced(
                *old(self),
                *final(self),
                id,
                Seq::empty(),
            ),
            final(self).definitions@.dom() == old(self).definitions@.dom(),
            only_released(old(self).packets, final(self).packets),
            old(self).definitions@.dom().contains(id) ==> replay_let_go(
                old(self).packets,
                final(self).packets,
                id,
                old(self).definitions@[id].terminal_replay@,
                Seq::empty(),
            ),
    {
        if self.definitions.contains(id) {
            let none: Vec<Record> = Vec::new();
            proof {
                assert forall|i: int|
                    0 <= i < self.packets.spec_slots().len() implies #[trigger] letting(
                    self.definitions@,
                    self.packets.spec_slots(),
                    id,
                    none@,
                    i,
                ) by {
                    assert(backed_at(self.definitions@, self.packets.spec_slots(), i));
                }
            }
            self.replace_terminal(id, none);
        }
    }

    /// Numbers one record of a last state. A persistent definition keeps it in
    /// its history like any other; a transient one keeps it for replay even
    /// where the history has no room. Returns its sequence, unless it was
    /// dropped or the definition has none left.
    pub fn retain_terminal(&mut self, id: u64, packet: Vec<u8>, kind: TerminalRecordKind) -> (r:
        Option<u64>)
        requires
            old(self).wf(),
        ensures
            final(self).wf(),
            final(self).packets.spec_max() == old(self).packets.spec_max(),
            final(self).packets.spec_leases() == old(self).packets.spec_leases(),
            final(self).definitions@.dom() == old(self).definitions@.dom(),
            !old(self).definitions@.dom().contains(id) ==> r is None && *final(self) == *old(self),
            old(self).definitions@.dom().contains(id)
                && old(self).definitions@[id].next_output_sequence == u64::MAX ==> r is None
                && sequence_exhausted(*old(self), *final(self), id),
            old(self).definitions@.dom().contains(id)
                && old(self).definitions@[id].next_output_sequence < u64::MAX ==> exists|
                mid: Registry,
                kept: Retained,
            | #[trigger]
                terminal_retained(*old(self), mid, *final(self), id, packet@, kind, kept)
                    && (r is None <==> kept is Dropped) && (r is Some ==> r == Some(
                    old(self).definitions@[id].next_output_sequence,
                )),
    {
        let ghost start = *self;
        let ghost bytes = packet@;
        let exit: bool = match kind {
            TerminalRecordKind::Exit => true,
            TerminalRecordKind::Status => false,
        };
        let persistent: bool = match self.definitions.get(id) {
            None => {
                return None;
            },
            Some(d) => d.persistent(),
        };
        let kept = self.retain_record(id, packet, exit, !persistent);
        let ghost mid = *self;
        proof {
            assert(output_ok(
                start.definitions@[id],
                id,
                start.packets.spec_slots(),
                start.retention_clock,
            ));
            if !(kept is Exhausted) {
                assert(mid.definitions@[id].terminal_replay
                    == start.definitions@[id].terminal_replay);
                assert forall|i: int|
                    0 <= i < mid.definitions@[id].terminal_replay@.len() implies (
                #[trigger] mid.definitions@[id].terminal_replay@[i]).sequence
                    < start.definitions@[id].next_output_sequence by {
                    assert(in_terminal(
                        start.packets.spec_slots(),
                        id,
                        start.definitions@[id].terminal_replay@[i],
                    ));
                }
            }
        }
        match kept {
            Retained::Unknown => None,
            Retained::Exhausted => None,
            Retained::Dropped => {
                proof {
                    assert(terminal_retained(start, mid, *self, id, bytes, kind, kept));
                }
                None
            },
            Retained::Kept(rec) => {
                if !persistent {
                    self.hold_record(id, rec);
                    let ghost held = self.packets;
                    self.place_terminal(id, kind, rec);
                    proof {
                        let a = start.packets;
                        let slot = rec.packet as int;
                        assert(released_but(a, held, slot)) by {
                            assert forall|j: int|
                                0 <= j < a.spec_slots().len() && j != slot implies #[trigger] released_at(
                                a,
                                held,
                                j,
                            ) by {
                                assert(released_at(a, mid.packets, j));
                                assert(held.spec_slots()[j] == mid.packets.spec_slots()[j]);
                            }
                        }
                        lemma_released_more(a, held, self.packets, slot);
                        assert(released_at(held, self.packets, slot));
                        let kept_records = self.definitions@[id].retained@;
                        assert(kept_records == mid.definitions@[id].retained@);
                        assert(in_history(
                            self.packets.spec_slots(),
                            id,
                            kept_records[kept_records.len() - 1],
                        ));
                        lemma_payloads_kept(start, *self, slot, id);
                        lemma_took(
                            mid.packets,
                            held,
                            self.packets,
                            id,
                            start.definitions@[id].terminal_replay@,
                            self.definitions@[id].terminal_replay@,
                            rec,
                        );
                    }
                }
                proof {
                    assert(terminal_retained(start, mid, *self, id, bytes, kind, kept));
                }
                Some(rec.sequence)
            },
            Retained::Compact(rec) => {
                self.place_terminal(id, kind, rec);
                proof {
                    let slot = rec.packet as int;
                    lemma_released_more(
                        start.packets,
                        mid.packets,
                        self.packets,
                        slot,
                    );
                    assert(released_at(mid.packets, self.packets, slot));
                    let replay = self.definitions@[id].terminal_replay@;
                    assert(replay[replay.len() - 1] == rec);
                    assert(in_terminal(
                        self.packets.spec_slots(),
                        id,
                        replay[replay.len() - 1],
                    ));
                    lemma_payloads_kept(start, *self, slot, id);
                    assert(mid.packets.spec_slots() =~= mid.packets.spec_slots().update(
                        slot,
                        Packet {
                            terminal: Some((id, rec.sequence)),
                            ..mid.packets.spec_slots()[slot]
                        },
                    ));
                    lemma_took(
                        mid.packets,
                        mid.packets,
                        self.packets,
                        id,
                        start.definitions@[id].terminal_replay@,
                        replay,
                        rec,
                    );
                    assert(terminal_retained(start, mid, *self, id, bytes, kind, kept));
                }
                Some(rec.sequence)
            },
        }
    }

    /// Puts out the event that `lifecycle_event` describes, as the codec encoded
    /// it. The event of a last state joins the compact replay, and every
    /// follower is owed a mark through it; any other event ends the replay of
    /// an earlier last state.
    pub fn emit(&mut self, id: u64, packet: Vec<u8>)
        requires
            old(self).wf(),
        ensures
            final(self).wf(),
            final(self).packets.spec_max() == old(self).packets.spec_max(),
            final(self).packets.spec_leases() == old(self).packets.spec_leases(),
            final(self).definitions@.dom() == old(self).definitions@.dom(),
            !old(self).definitions@.dom().contains(id) ==> *final(self) == *old(self),
            old(self).definitions@.dom().contains(id) ==> if at_rest(old(self).definitions@[id]) {
                exists|mid: Registry, r: Option<u64>| #[trigger]
                    emitted_at_rest(*old(self), mid, *final(self), id, packet@, r)
            } else {
                exists|mid: Registry, kept: Retained| #[trigger]
                    emitted_in_motion(*old(self), mid, *final(self), id, packet@, kept)
            },
    {
        let ghost start = *self;
        let ghost bytes = packet@;
        let compact: bool = match self.definitions.get(id) {
            None => {
                return;
            },
            Some(d) => !d.persistent() && match d.phase {
                Phase::Stopped => true,
                Phase::Blocked => true,
                _ => false,
            },
        };
        if compact {
            let r = self.retain_terminal(id, packet, TerminalRecordKind::Status);
            let ghost mid = *self;
            match r {
                None => {},
                Some(through) => {
                    self.fanout_replay_done(id, through);
                },
            }
            proof {
                assert(self.definitions@.dom() =~= start.definitions@.dom());
                assert(payloads_kept(start, *self)) by {
                    assert forall|k: u64, rec: Record|
                        gives(start, k, rec) && #[trigger] gives(*self, k, rec) implies payload(
                        *self,
                        rec,
                    ) == payload(start, rec) && counts(*self, rec) == counts(start, rec) by {
                        assert(gives(mid, k, rec));
                    }
                }
                assert(emitted_at_rest(start, mid, *self, id, bytes, r));
            }
        } else {
            self.clear_terminal(id);
            let ghost mid = *self;
            let kept = self.retain_record(id, packet, false, false);
            proof {
                let a = start.packets;
                let b = mid.packets;
                let c = self.packets;
                match kept {
                    Retained::Kept(rec) => {
                        lemma_released_more(a, b, c, rec.packet as int);
                        lemma_payloads_kept(start, *self, rec.packet as int, id);
                    },
                    _ => {
                        lemma_released_more(a, b, c, -1);
                        lemma_payloads_kept(start, *self, -1, id);
                    },
                }
                assert(emitted_in_motion(start, mid, *self, id, bytes, kept));
            }
        }
    }

    /// Takes a definition away and lets go of everything that it holds.
    pub fn remove_definition(&mut self, id: u64) -> (r: Option<Definition>)
        requires
            old(self).wf(),
        ensures
            final(self).wf(),
            final(self).definitions@ == old(self).definitions@.remove(id),
            final(self).retention_clock == old(self).retention_clock,
            final(self).packets.spec_max() == old(self).packets.spec_max(),
            final(self).packets.spec_leases() == old(self).packets.spec_leases(),
            final(self).packets.spec_used() <= old(self).packets.spec_used(),
            payloads_kept(*old(self), *final(self)),
            only_released(old(self).packets, final(self).packets),
            r is Some <==> old(self).definitions@.dom().contains(id),
            r matches Some(d) ==> ({
                let o = old(self).definitions@[id];
                &&& d == (Definition {
                    retained: d.retained,
                    retained_bytes: d.retained_bytes,
                    terminal_replay: d.terminal_replay,
                    args: d.args,
                    argument_reservation: d.argument_reservation,
                    ..o
                })
                &&& d.args is None
                &&& d.argument_reservation == 0
                &&& d.retained@.len() == 0
                &&& d.terminal_replay@.len() == 0
            }),
    {
        let ghost start = *self;
        if !self.definitions.contains(id) {
            proof {
                assert(self.definitions@.remove(id) =~= self.definitions@);
            }
            return None;
        }
        self.clear_terminal(id);
        let ghost mid = self.packets;
        self.clear_history(id);
        let ghost cleared = *self;
        let removed = self.definitions.remove(id);
        proof {
            assert(self.definitions@ =~= start.definitions@.remove(id));
            assert forall|k: u64| #[trigger] self.definitions@.dom().contains(k) implies output_ok(
                self.definitions@[k],
                k,
                self.packets.spec_slots(),
                self.retention_clock,
            ) by {
                assert(cleared.definitions@.dom().contains(k));
            }
            assert forall|i: int| 0 <= i < self.packets.spec_slots().len() implies #[trigger] backed_at(
                self.definitions@,
                self.packets.spec_slots(),
                i,
            ) by {
                assert(backed_at(cleared.definitions@, cleared.packets.spec_slots(), i));
            }
            lemma_released_more(start.packets, mid, self.packets, -1);
            lemma_payloads_kept(start, *self, -1, id);
        }
        match removed {
            None => None,
            Some(d) => {
                let mut d = d;
                d.args = None;
                d.argument_reservation = 0;
                Some(d)
            },
        }
    }
}

/// What an event of a last state came to; `r` is its sequence.
pub open spec fn emitted_at_rest(
    before: Registry,
    mid: Registry,
    after: Registry,
    id: u64,
    packet: Seq<u8>,
    r: Option<u64>,
) -> bool {
    let d = mid.definitions@[id];
    let e = after.definitions@[id];
    &&& payloads_kept(before, after)
    &&& if before.definitions@[id].next_output_sequence == u64::MAX {
        r is None && sequence_exhausted(before, mid, id)
    } else {
        exists|inner: Registry, kept: Retained| #[trigger]
            terminal_retained(before, inner, mid, id, packet, TerminalRecordKind::Status, kept) && (r
                is None <==> kept is Dropped) && (r is Some ==> r == Some(
                before.definitions@[id].next_output_sequence,
            ))
    }
    &&& match r {
        None => after == mid,
        Some(through) => {
            &&& after.packets == mid.packets
            &&& after.retention_clock == mid.retention_clock
            &&& after.definitions@ == mid.definitions@.insert(id, e)
            &&& e == (Definition { followers: e.followers, ..d })
            &&& all_owed(d.followers@, e.followers@, through)
        },
    }
}

/// What an event of a definition that is not at rest came to.
pub open spec fn emitted_in_motion(
    before: Registry,
    mid: Registry,
    after: Registry,
    id: u64,
    packet: Seq<u8>,
    kept: Retained,
) -> bool {
    &&& payloads_kept(before, after)
    &&& mid.packets.wf()
    &&& terminal_replaced(before, mid, id, Seq::empty())
    &&& replay_let_go(
        before.packets,
        mid.packets,
        id,
        before.definitions@[id].terminal_replay@,
        Seq::empty(),
    )
    &&& if before.definitions@[id].next_output_sequence == u64::MAX {
        kept is Exhausted && sequence_exhausted(mid, after, id)
    } else {
        &&& kept is Kept || kept is Dropped
        &&& record_numbered(mid, after, id)
        &&& retention(mid, after, id, packet.len(), kept is Kept)
        &&& kept is Dropped ==> only_released(mid.packets, after.packets)
        &&& kept matches Retained::Kept(rec) ==> {
            &&& released_but(mid.packets, after.packets, rec.packet as int)
            &&& in_history(after.packets.spec_slots(), id, rec)
            &&& after.packets.spec_slots()[rec.packet as int].terminal is None
            &&& rec == new_record(mid, id, packet.len(), false, rec.packet)
            &&& payload(after, rec) == packet
            &&& after.definitions@[id].retained@.last() == rec
        }
    }
}

} // verus!
