//! Letting go of definitions that are at rest, and of creations that never got
//! their object.

use vstd::prelude::*;

use crate::extension::definition::{Definition, FollowerCursor, Record};
use crate::extension::lifecycle::{creation_ended, next_generation};
use crate::extension::output::{counts, gives, in_terminal, output_ok, payload, payloads_kept};
use crate::extension::packets::{released_at, PacketStore};
use crate::extension::protocol::{same_hash, ObjectHash, Phase};
use crate::extension::replay::{forced, forced_replay, ForcedReplay};
use crate::extension::run::lemma_held;
use crate::extension::service::{lemma_changed, only_definition, removed, Removed, Service};
use crate::id_map::{ascending, lemma_row_of, row_of};

verus! {

/// What one follower is sent when the replay lease of a last state ends: the
/// records, and then the mark that the replay is done through `through`.
pub struct Flush {
    pub endpoint: u64,
    pub replay: ForcedReplay,
}

/// The packets that the outboxes of a list of flushes hold.
pub open spec fn flushed_slots(list: Seq<Flush>) -> Seq<usize>
    decreases list.len(),
{
    if list.len() == 0 {
        Seq::empty()
    } else {
        flushed_slots(list.drop_last()) + slots_of(list.last().replay.records@)
    }
}

/// The packets of a run of records.
pub open spec fn slots_of(records: Seq<Record>) -> Seq<usize> {
    Seq::new(records.len(), |i: int| records[i].packet)
}

/// Whether an endpoint is owed the compact replay and can still get it.
pub open spec fn owed(s: Service, id: u64, endpoint: u64) -> bool {
    let d = s.spec_definitions()[id];
    &&& d.followers@.dom().contains(endpoint)
    &&& s.endpoints@.dom().contains(endpoint)
    &&& d.followers@[endpoint].replay_through is Some
}

/// Whether a list of flushes is what the followers of a definition are owed.
pub open spec fn flushes(s: Service, id: u64, list: Seq<Flush>) -> bool {
    let d = s.spec_definitions()[id];
    &&& forall|i: int|
        0 <= i < list.len() ==> owed(s, id, (#[trigger] list[i]).endpoint) && forced(
            d,
            d.followers@[list[i].endpoint],
            list[i].replay,
        )
    &&& forall|i: int, j: int|
        0 <= i < j < list.len() ==> (#[trigger] list[i]).endpoint < (#[trigger] list[j]).endpoint
    &&& forall|ep: u64| #[trigger]
        owed(s, id, ep) ==> exists|i: int| 0 <= i < list.len() && (#[trigger] list[i]).endpoint
            == ep
}

/// A definition that was let go: what its followers get first, and what it
/// leaves to be undone.
pub struct Release {
    pub extension_id: u64,
    pub flush: Vec<Flush>,
    pub removed: Removed,
}

/// Whether a transient definition may be let go: it is at rest and has not
/// changed since.
pub open spec fn releasable(s: Service, id: u64, generation: u64) -> bool {
    let d = s.spec_definitions()[id];
    &&& s.has(id)
    &&& !d.spec_persistent()
    &&& d.generation == generation
    &&& d.control is None
    &&& d.phase == Phase::Stopped || d.phase == Phase::Blocked
}

/// Whether the outboxes find in each packet what was in it before.
pub open spec fn leased_kept(before: PacketStore, after: PacketStore) -> bool {
    forall|slot: usize| #[trigger]
        after.spec_leased(slot) ==> after.spec_slots()[slot as int].bytes
            == before.spec_slots()[slot as int].bytes && after.spec_slots()[slot as int].charged
            == before.spec_slots()[slot as int].charged
}

/// A definition was let go, and the outboxes of its followers hold what they
/// were sent: its packets are there to be read until the outboxes let go.
pub open spec fn released(before: Service, after: Service, id: u64, sent: Seq<usize>) -> bool {
    &&& after == (Service {
        registry: after.registry,
        supervisors: after.supervisors,
        arguments: after.arguments,
        ..before
    })
    &&& after.spec_definitions() == before.spec_definitions().remove(id)
    &&& after.registry.packets.spec_used() <= before.registry.packets.spec_used()
    &&& after.registry.packets.spec_max() == before.registry.packets.spec_max()
    &&& after.registry.packets.spec_leases() == before.registry.packets.spec_leases() + sent
    &&& payloads_kept(before.registry, after.registry)
    &&& leased_kept(before.registry.packets, after.registry.packets)
    &&& after.supervisors@ == before.supervisors@.remove(id)
    &&& after.arguments.spec_max() == before.arguments.spec_max()
    &&& after.arguments.spec_used() == before.arguments.spec_used()
        - before.spec_definitions()[id].argument_reservation
}

/// Whether a definition waits for its object beyond its deadline.
pub open spec fn overdue(d: Definition, now: u64) -> bool {
    d.phase == Phase::NeedObject && (d.pending_deadline matches Some(t) && now >= t)
}

/// Whether a definition's replay lease has ended.
pub open spec fn lease_ended(d: Definition, now: u64) -> bool {
    d.control is None && (d.release_deadline matches Some(t) && now >= t)
}

/// Whether a definition waits for this object.
pub open spec fn awaits(d: Definition, hash: ObjectHash) -> bool {
    d.phase == Phase::NeedObject && d.hash == hash
}

/// Whether ids are exactly those of the definitions that `p` picks, in
/// ascending order.
pub open spec fn picks(m: Map<u64, Definition>, ids: Seq<u64>, p: spec_fn(Definition) -> bool) -> bool {
    &&& forall|i: int, j: int| 0 <= i < j < ids.len() ==> ids[i] < ids[j]
    &&& forall|i: int| 0 <= i < ids.len() ==> m.dom().contains(#[trigger] ids[i]) && p(m[ids[i]])
    &&& forall|id: u64| #[trigger] m.dom().contains(id) && p(m[id]) ==> ids.contains(id)
}

impl Service {
    /// The definitions that wait for an object.
    pub fn awaiting(&self, hash: &ObjectHash) -> (ids: Vec<u64>)
        requires
            self.wf(),
        ensures
            picks(self.spec_definitions(), ids@, |d: Definition| awaits(d, *hash)),
    {
        let ghost p = |d: Definition| awaits(d, *hash);
        let mut ids: Vec<u64> = Vec::new();
        let ghost rows = self.registry.definitions.spec_rows();
        proof {
            self.registry.definitions.lemma_rows();
        }
        let mut i: usize = 0;
        while i < self.registry.definitions.len()
            invariant
                i <= rows.len(),
                self.wf(),
                rows == self.registry.definitions.spec_rows(),
                p == (|d: Definition| awaits(d, *hash)),
                picked(rows, i as int, ids@, p),
            decreases rows.len() - i,
        {
            let d = self.registry.definitions.value_at(i);
            let id: u64 = self.registry.definitions.id_at(i);
            let waits: bool = (match d.phase {
                Phase::NeedObject => true,
                _ => false,
            }) && same_hash(&d.hash, hash);
            let ghost before = ids@;
            if waits {
                ids.push(id);
            }
            proof {
                lemma_picked_step(rows, i as int, before, ids@, p);
            }
            i = i + 1;
        }
        proof {
            lemma_picked(rows, ids@, p);
        }
        ids
    }

    /// The definitions whose object did not come in time.
    pub fn overdue_ids(&self, now: u64) -> (ids: Vec<u64>)
        requires
            self.wf(),
        ensures
            picks(self.spec_definitions(), ids@, |d: Definition| overdue(d, now)),
    {
        let ghost p = |d: Definition| overdue(d, now);
        let mut ids: Vec<u64> = Vec::new();
        let ghost rows = self.registry.definitions.spec_rows();
        proof {
            self.registry.definitions.lemma_rows();
        }
        let mut i: usize = 0;
        while i < self.registry.definitions.len()
            invariant
                i <= rows.len(),
                self.wf(),
                rows == self.registry.definitions.spec_rows(),
                p == (|d: Definition| overdue(d, now)),
                picked(rows, i as int, ids@, p),
            decreases rows.len() - i,
        {
            let d = self.registry.definitions.value_at(i);
            let id: u64 = self.registry.definitions.id_at(i);
            let late: bool = (match d.phase {
                Phase::NeedObject => true,
                _ => false,
            }) && (match d.pending_deadline {
                Some(t) => now >= t,
                None => false,
            });
            let ghost before = ids@;
            if late {
                ids.push(id);
            }
            proof {
                lemma_picked_step(rows, i as int, before, ids@, p);
            }
            i = i + 1;
        }
        proof {
            lemma_picked(rows, ids@, p);
        }
        ids
    }

    /// The definitions whose replay lease has ended.
    pub fn expired_ids(&self, now: u64) -> (ids: Vec<u64>)
        requires
            self.wf(),
        ensures
            picks(self.spec_definitions(), ids@, |d: Definition| lease_ended(d, now)),
    {
        let ghost p = |d: Definition| lease_ended(d, now);
        let mut ids: Vec<u64> = Vec::new();
        let ghost rows = self.registry.definitions.spec_rows();
        proof {
            self.registry.definitions.lemma_rows();
        }
        let mut i: usize = 0;
        while i < self.registry.definitions.len()
            invariant
                i <= rows.len(),
                self.wf(),
                rows == self.registry.definitions.spec_rows(),
                p == (|d: Definition| lease_ended(d, now)),
                picked(rows, i as int, ids@, p),
            decreases rows.len() - i,
        {
            let d = self.registry.definitions.value_at(i);
            let id: u64 = self.registry.definitions.id_at(i);
            let over: bool = d.control.is_none() && (match d.release_deadline {
                Some(t) => now >= t,
                None => false,
            });
            let ghost before = ids@;
            if over {
                ids.push(id);
            }
            proof {
                lemma_picked_step(rows, i as int, before, ids@, p);
            }
            i = i + 1;
        }
        proof {
            lemma_picked(rows, ids@, p);
        }
        ids
    }

    /// Ends a creation that never ran; the definition is then to be announced.
    pub fn end_creation(&mut self, id: u64, bump: bool, now: u64, detail: String)
        requires
            old(self).wf(),
        ensures
            final(self).wf(),
            !old(self).has(id) ==> *final(self) == *old(self),
            old(self).has(id) ==> {
                let d = old(self).spec_definitions()[id];
                &&& only_definition(*old(self), *final(self), id)
                &&& creation_ended(
                    d,
                    final(self).spec_definitions()[id],
                    if bump {
                        next_generation(d.generation)
                    } else {
                        d.generation
                    },
                    now,
                    old(self).limits.terminal_retain_ms,
                    detail@,
                )
            },
    {
        let ghost start = *self;
        let retain: u64 = self.limits.terminal_retain_ms;
        let mut released: usize = 0;
        match self.registry.definitions.get_mut(id) {
            None => {
                return;
            },
            Some(d) => {
                proof {
                    lemma_held(start, id);
                }
                released = d.end_creation(bump, now, retain, detail);
            },
        }
        self.arguments.release(released);
        proof {
            lemma_changed(start, *self, id);
        }
    }

    /// Ends a creation whose object did not come in time; the definition is then
    /// to be announced.
    pub fn expire_pending(&mut self, id: u64, now: u64) -> (expired: bool)
        requires
            old(self).wf(),
        ensures
            final(self).wf(),
            expired == (old(self).has(id) && overdue(old(self).spec_definitions()[id], now)),
            !expired ==> *final(self) == *old(self),
            expired ==> {
                let d = old(self).spec_definitions()[id];
                &&& only_definition(*old(self), *final(self), id)
                &&& creation_ended(
                    d,
                    final(self).spec_definitions()[id],
                    next_generation(d.generation),
                    now,
                    old(self).limits.terminal_retain_ms,
                    "pending extension creation expired"@,
                )
            },
    {
        let late: bool = match self.registry.definitions.get(id) {
            None => false,
            Some(d) => (match d.phase {
                Phase::NeedObject => true,
                _ => false,
            }) && (match d.pending_deadline {
                Some(t) => now >= t,
                None => false,
            }),
        };
        if late {
            self.end_creation(id, true, now, "pending extension creation expired".to_owned());
        }
        late
    }

    /// What the followers of a definition are sent when its replay lease ends,
    /// whatever gate their connections have. Their outboxes hold the packets.
    fn flush(&mut self, id: u64) -> (list: Vec<Flush>)
        requires
            old(self).wf(),
            old(self).has(id),
        ensures
            final(self).wf(),
            flushes(*old(self), id, list@),
            *final(self) == (Service { registry: final(self).registry, ..*old(self) }),
            final(self).registry.definitions == old(self).registry.definitions,
            final(self).registry.packets.spec_slots() == old(self).registry.packets.spec_slots(),
            final(self).registry.packets.spec_used() == old(self).registry.packets.spec_used(),
            final(self).registry.packets.spec_max() == old(self).registry.packets.spec_max(),
            final(self).registry.packets.spec_leases() == old(
                self).registry.packets.spec_leases() + flushed_slots(list@),
    {
        let ghost start = *self;
        let list = self.owed_flushes(id);
        let ghost all = list@;
        let mut i: usize = 0;
        proof {
            assert(all.take(0) =~= Seq::empty());
            assert(self.registry.packets.spec_leases()
                =~= start.registry.packets.spec_leases() + flushed_slots(all.take(0)));
        }
        while i < list.len()
            invariant
                i <= all.len(),
                all == list@,
                start.wf(),
                start.has(id),
                flushes(start, id, all),
                self.wf(),
                *self == (Service { registry: self.registry, ..start }),
                self.registry.definitions == start.registry.definitions,
                self.registry.retention_clock == start.registry.retention_clock,
                self.registry.packets.spec_slots() == start.registry.packets.spec_slots(),
                self.registry.packets.spec_used() == start.registry.packets.spec_used(),
                self.registry.packets.spec_max() == start.registry.packets.spec_max(),
                self.registry.packets.spec_leases() == start.registry.packets.spec_leases()
                    + flushed_slots(all.take(i as int)),
            decreases all.len() - i,
        {
            let ghost records = all[i as int].replay.records@;
            let ghost base = self.registry.packets.spec_leases();
            proof {
                assert(slots_of(records.take(0)) =~= Seq::empty());
                assert(base =~= base + slots_of(records.take(0)));
            }
            let mut j: usize = 0;
            while j < list[i].replay.records.len()
                invariant
                    i < all.len(),
                    all == list@,
                    records == all[i as int].replay.records@,
                    j <= records.len(),
                    start.wf(),
                    start.has(id),
                    flushes(start, id, all),
                    self.wf(),
                    *self == (Service { registry: self.registry, ..start }),
                    self.registry.definitions == start.registry.definitions,
                    self.registry.retention_clock == start.registry.retention_clock,
                    self.registry.packets.spec_slots() == start.registry.packets.spec_slots(),
                    self.registry.packets.spec_used() == start.registry.packets.spec_used(),
                    self.registry.packets.spec_max() == start.registry.packets.spec_max(),
                    self.registry.packets.spec_leases() == base + slots_of(
                        records.take(j as int),
                    ),
                decreases records.len() - j,
            {
                let slot: usize = list[i].replay.records[j].packet;
                proof {
                    let d = start.spec_definitions()[id];
                    let rec = records[j as int];
                    assert(owed(start, id, all[i as int].endpoint));
                    assert(records.contains(rec));
                    assert(d.terminal_replay@.contains(rec));
                    let x = choose|x: int|
                        0 <= x < d.terminal_replay@.len() && d.terminal_replay@[x] == rec;
                    assert(output_ok(
                        start.registry.definitions@[id],
                        id,
                        start.registry.packets.spec_slots(),
                        start.registry.retention_clock,
                    ));
                    assert(in_terminal(
                        start.registry.packets.spec_slots(),
                        id,
                        d.terminal_replay@[x],
                    ));
                }
                let ghost mid = *self;
                self.registry.lease(slot);
                proof {
                    assert(slots_of(records.take(j + 1)) =~= slots_of(
                        records.take(j as int),
                    ).push(slot));
                    assert(self.registry.packets.spec_leases() =~= base + slots_of(
                        records.take(j + 1),
                    ));
                }
                j = j + 1;
            }
            proof {
                assert(records.take(records.len() as int) =~= records);
                assert(all.take(i + 1).drop_last() =~= all.take(i as int));
                assert(all.take(i + 1).last() == all[i as int]);
                assert(self.registry.packets.spec_leases()
                    =~= start.registry.packets.spec_leases() + flushed_slots(all.take(i + 1)));
            }
            i = i + 1;
        }
        proof {
            assert(all.take(all.len() as int) =~= all);
        }
        list
    }

    /// What the followers of a definition are owed.
    fn owed_flushes(&self, id: u64) -> (list: Vec<Flush>)
        requires
            self.wf(),
            self.has(id),
        ensures
            flushes(*self, id, list@),
    {
        let mut list: Vec<Flush> = Vec::new();
        proof {
            lemma_held(*self, id);
            assert(output_ok(
                self.registry.definitions@[id],
                id,
                self.registry.packets.spec_slots(),
                self.registry.retention_clock,
            ));
        }
        match self.registry.definitions.get(id) {
            None => {},
            Some(d) => {
                let ghost rows = d.followers.spec_rows();
                proof {
                    d.followers.lemma_rows();
                }
                let mut i: usize = 0;
                while i < d.followers.len()
                    invariant
                        i <= rows.len(),
                        self.wf(),
                        self.has(id),
                        *d == self.spec_definitions()[id],
                        d.followers.wf(),
                        rows == d.followers.spec_rows(),
                        ascending(rows),
                        crate::extension::output::in_order(d.terminal_replay@),
                        forall|k: int|
                            0 <= k < list@.len() ==> owed(*self, id, (#[trigger] list@[k]).endpoint)
                                && forced(
                                *d,
                                d.followers@[list@[k].endpoint],
                                list@[k].replay,
                            ),
                        forall|k: int|
                            0 <= k < list@.len() ==> among_rows(
                                rows,
                                i as int,
                                (#[trigger] list@[k]).endpoint,
                            ),
                        forall|a: int, b: int|
                            0 <= a < b < list@.len() ==> (#[trigger] list@[a]).endpoint < (
                            #[trigger] list@[b]).endpoint,
                        forall|x: int|
                            0 <= x < i && owed(*self, id, (#[trigger] rows[x]).0) ==> has_flush(
                                list@,
                                rows[x].0,
                            ),
                    decreases rows.len() - i,
                {
                    let ep: u64 = d.followers.id_at(i);
                    let f = *d.followers.value_at(i);
                    let ghost before = list@;
                    proof {
                        lemma_row_of(rows, i as int);
                    }
                    if self.endpoints.contains(ep) {
                        match forced_replay(d, f) {
                            None => {},
                            Some(replay) => {
                                list.push(Flush { endpoint: ep, replay });
                                proof {
                                    assert(list@.drop_last() =~= before);
                                    assert(owed(*self, id, ep));
                                }
                            },
                        }
                    }
                    proof {
                        lemma_flush_step(*self, id, rows, i as int, before, list@);
                    }
                    i = i + 1;
                }
                proof {
                    assert forall|ep: u64| #[trigger] owed(*self, id, ep) implies exists|k: int|
                        0 <= k < list@.len() && (#[trigger] list@[k]).endpoint == ep by {
                        let x = row_of(rows, ep);
                        lemma_row_of(rows, x);
                        assert(rows[x].0 == ep);
                        assert(owed(*self, id, rows[x].0));
                        assert(has_flush(list@, rows[x].0));
                    }
                }
            },
        }
        list
    }

    /// Lets go of a transient definition that is at rest. With `force`, the
    /// followers are sent its compact replay first, whatever gate their
    /// connections have.
    pub fn release_transient(&mut self, id: u64, generation: u64, force: bool) -> (out: Option<
        Release,
    >)
        requires
            old(self).wf(),
        ensures
            final(self).wf(),
            out is Some == releasable(*old(self), id, generation),
            out is None ==> *final(self) == *old(self),
            out matches Some(r) ==> {
                &&& r.extension_id == id
                &&& force ==> flushes(*old(self), id, r.flush@)
                &&& !force ==> r.flush@.len() == 0
                &&& released(*old(self), *final(self), id, flushed_slots(r.flush@))
                &&& r.removed.unpin == if old(self).spec_definitions()[id].object_pinned {
                    Some(old(self).spec_definitions()[id].hash)
                } else {
                    None
                }
            },
    {
        let fit: bool = match self.registry.definitions.get(id) {
            None => false,
            Some(d) => !d.persistent() && d.generation == generation && d.control.is_none()
                && match d.phase {
                Phase::Stopped => true,
                Phase::Blocked => true,
                _ => false,
            },
        };
        if !fit {
            return None;
        }
        Some(self.let_go(id, force))
    }

    /// Lets go of a definition whose replay lease has ended, after its followers
    /// were sent its compact replay.
    pub fn release_expired(&mut self, id: u64, now: u64) -> (out: Option<Release>)
        requires
            old(self).wf(),
        ensures
            final(self).wf(),
            out is Some == (old(self).has(id) && lease_ended(
                old(self).spec_definitions()[id],
                now,
            )),
            out is None ==> *final(self) == *old(self),
            out matches Some(r) ==> {
                &&& r.extension_id == id
                &&& flushes(*old(self), id, r.flush@)
                &&& released(*old(self), *final(self), id, flushed_slots(r.flush@))
                &&& r.removed.unpin == if old(self).spec_definitions()[id].object_pinned {
                    Some(old(self).spec_definitions()[id].hash)
                } else {
                    None
                }
            },
    {
        let over: bool = match self.registry.definitions.get(id) {
            None => false,
            Some(d) => d.control.is_none() && match d.release_deadline {
                Some(t) => now >= t,
                None => false,
            },
        };
        if !over {
            return None;
        }
        Some(self.let_go(id, true))
    }

    fn let_go(&mut self, id: u64, force: bool) -> (r: Release)
        requires
            old(self).wf(),
            old(self).has(id),
        ensures
            final(self).wf(),
            r.extension_id == id,
            force ==> flushes(*old(self), id, r.flush@),
            !force ==> r.flush@.len() == 0,
            released(*old(self), *final(self), id, flushed_slots(r.flush@)),
            r.removed.unpin == if old(self).spec_definitions()[id].object_pinned {
                Some(old(self).spec_definitions()[id].hash)
            } else {
                None
            },
    {
        let ghost start = *self;
        let flush = if force {
            self.flush(id)
        } else {
            Vec::new()
        };
        let ghost mid = *self;
        proof {
            if !force {
                assert(mid.registry.packets.spec_leases()
                    =~= start.registry.packets.spec_leases() + flushed_slots(flush@));
            }
        }
        let removed = match self.remove_definition(id) {
            Some(x) => x,
            None => Removed { unpin: None },
        };
        proof {
            let a = mid.registry.packets;
            let b = self.registry.packets;
            assert forall|slot: usize| #[trigger] b.spec_leased(slot) implies b.spec_slots()[slot as int].bytes
                == start.registry.packets.spec_slots()[slot as int].bytes
                && b.spec_slots()[slot as int].charged
                == start.registry.packets.spec_slots()[slot as int].charged by {
                assert(a.spec_leased(slot));
                let k = choose|k: int| 0 <= k < a.spec_leases().len() && a.spec_leases()[k] == slot;
                assert(a.spec_leases()[k] < a.spec_slots().len());
                assert(released_at(a, b, slot as int));
            }
            assert forall|k: u64, rec: Record|
                gives(start.registry, k, rec) && #[trigger] gives(self.registry, k, rec) implies payload(
                self.registry,
                rec,
            ) == payload(start.registry, rec) && counts(self.registry, rec) == counts(
                start.registry,
                rec,
            ) by {
                assert(gives(mid.registry, k, rec));
            }
        }
        Release { extension_id: id, flush, removed }
    }
}

/// Whether an id is that of one of the first rows, and its definition is
/// picked.
spec fn from_row(
    rows: Seq<(u64, Definition)>,
    i: int,
    id: u64,
    p: spec_fn(Definition) -> bool,
) -> bool {
    exists|x: int| 0 <= x < i && (#[trigger] rows[x]).0 == id && p(rows[x].1)
}

spec fn picked(
    rows: Seq<(u64, Definition)>,
    i: int,
    ids: Seq<u64>,
    p: spec_fn(Definition) -> bool,
) -> bool {
    &&& ascending(rows)
    &&& 0 <= i <= rows.len()
    &&& forall|a: int, b: int| 0 <= a < b < ids.len() ==> ids[a] < ids[b]
    &&& forall|k: int| 0 <= k < ids.len() ==> from_row(rows, i, #[trigger] ids[k], p)
    &&& forall|x: int| 0 <= x < i && p((#[trigger] rows[x]).1) ==> ids.contains(rows[x].0)
}

proof fn lemma_picked_step(
    rows: Seq<(u64, Definition)>,
    i: int,
    before: Seq<u64>,
    after: Seq<u64>,
    p: spec_fn(Definition) -> bool,
)
    requires
        picked(rows, i, before, p),
        i < rows.len(),
        after == (if p(rows[i].1) {
            before.push(rows[i].0)
        } else {
            before
        }),
    ensures
        picked(rows, i + 1, after, p),
{
    assert forall|k: int| 0 <= k < after.len() implies from_row(
        rows,
        i + 1,
        #[trigger] after[k],
        p,
    ) by {
        if k < before.len() {
            assert(after[k] == before[k]);
            assert(from_row(rows, i, before[k], p));
            let x = choose|x: int|
                0 <= x < i && (#[trigger] rows[x]).0 == before[k] && p(rows[x].1);
            assert(rows[x].0 == after[k]);
        } else {
            assert(rows[i].0 == after[k]);
        }
    }
    assert forall|a: int, b: int| 0 <= a < b < after.len() implies after[a] < after[b] by {
        if b >= before.len() {
            assert(after[a] == before[a]);
            assert(from_row(rows, i, before[a], p));
            let x = choose|x: int|
                0 <= x < i && (#[trigger] rows[x]).0 == before[a] && p(rows[x].1);
            assert(rows[x].0 < rows[i].0);
        }
    }
    assert forall|x: int| 0 <= x < i + 1 && p((#[trigger] rows[x]).1) implies after.contains(
        rows[x].0,
    ) by {
        if x < i {
            assert(before.contains(rows[x].0));
            let k = choose|k: int| 0 <= k < before.len() && before[k] == rows[x].0;
            assert(after[k] == rows[x].0);
        } else {
            assert(after[after.len() - 1] == rows[x].0);
        }
    }
}

proof fn lemma_picked(rows: Seq<(u64, Definition)>, ids: Seq<u64>, p: spec_fn(Definition) -> bool)
    requires
        picked(rows, rows.len() as int, ids, p),
    ensures
        picks(crate::id_map::rows_map(rows), ids, p),
{
    let m = crate::id_map::rows_map(rows);
    assert forall|i: int| 0 <= i < ids.len() implies m.dom().contains(#[trigger] ids[i]) && p(
        m[ids[i]],
    ) by {
        assert(from_row(rows, rows.len() as int, ids[i], p));
        let x = choose|x: int|
            0 <= x < rows.len() && (#[trigger] rows[x]).0 == ids[i] && p(rows[x].1);
        lemma_row_of(rows, x);
    }
    assert forall|id: u64| #[trigger] m.dom().contains(id) && p(m[id]) implies ids.contains(id) by {
        let x = row_of(rows, id);
        lemma_row_of(rows, x);
        assert(rows[x].0 == id);
    }
}

/// Whether an endpoint is that of one of the first rows.
spec fn among_rows(rows: Seq<(u64, FollowerCursor)>, i: int, endpoint: u64) -> bool {
    exists|x: int| 0 <= x < i && (#[trigger] rows[x]).0 == endpoint
}

/// Whether an endpoint has a flush.
spec fn has_flush(list: Seq<Flush>, endpoint: u64) -> bool {
    exists|k: int| 0 <= k < list.len() && (#[trigger] list[k]).endpoint == endpoint
}

proof fn lemma_flush_step(
    s: Service,
    id: u64,
    rows: Seq<(u64, FollowerCursor)>,
    i: int,
    before: Seq<Flush>,
    after: Seq<Flush>,
)
    requires
        s.has(id),
        ascending(rows),
        0 <= i < rows.len(),
        after == before || (after.len() == before.len() + 1 && after.drop_last() == before
            && after.last().endpoint == rows[i].0 && owed(s, id, rows[i].0)),
        after == before ==> !owed(s, id, rows[i].0),
        forall|k: int|
            0 <= k < before.len() ==> among_rows(rows, i, (#[trigger] before[k]).endpoint),
        forall|a: int, b: int|
            0 <= a < b < before.len() ==> (#[trigger] before[a]).endpoint < (
            #[trigger] before[b]).endpoint,
        forall|x: int|
            0 <= x < i && owed(s, id, (#[trigger] rows[x]).0) ==> has_flush(before, rows[x].0),
    ensures
        forall|k: int|
            0 <= k < after.len() ==> among_rows(rows, i + 1, (#[trigger] after[k]).endpoint),
        forall|a: int, b: int|
            0 <= a < b < after.len() ==> (#[trigger] after[a]).endpoint < (
            #[trigger] after[b]).endpoint,
        forall|x: int|
            0 <= x < i + 1 && owed(s, id, (#[trigger] rows[x]).0) ==> has_flush(after, rows[x].0),
{
    if after != before {
        assert forall|k: int| 0 <= k < before.len() implies after[k] == before[k] by {
            assert(after.drop_last()[k] == after[k]);
        }
    }
    assert forall|k: int| 0 <= k < after.len() implies among_rows(
        rows,
        i + 1,
        (#[trigger] after[k]).endpoint,
    ) by {
        if k < before.len() {
            assert(among_rows(rows, i, before[k].endpoint));
            let x = choose|x: int| 0 <= x < i && (#[trigger] rows[x]).0 == before[k].endpoint;
            assert(rows[x].0 == after[k].endpoint);
        } else {
            assert(rows[i].0 == after[k].endpoint);
        }
    }
    assert forall|a: int, b: int| 0 <= a < b < after.len() implies (#[trigger] after[a]).endpoint
        < (#[trigger] after[b]).endpoint by {
        if b >= before.len() {
            assert(among_rows(rows, i, before[a].endpoint));
            let x = choose|x: int| 0 <= x < i && (#[trigger] rows[x]).0 == before[a].endpoint;
            assert(rows[x].0 < rows[i].0);
        }
    }
    assert forall|x: int| 0 <= x < i + 1 && owed(s, id, (#[trigger] rows[x]).0) implies has_flush(
        after,
        rows[x].0,
    ) by {
        if x < i {
            assert(has_flush(before, rows[x].0));
            let k = choose|k: int| 0 <= k < before.len() && (#[trigger] before[k]).endpoint
                == rows[x].0;
            assert(after[k].endpoint == rows[x].0);
        } else {
            assert(after[after.len() - 1].endpoint == rows[x].0);
        }
    }
}

/// Every record of a list of flushes is among the packets that it holds.
proof fn lemma_flushed(list: Seq<Flush>, i: int, j: int)
    requires
        0 <= i < list.len(),
        0 <= j < list[i].replay.records@.len(),
    ensures
        flushed_slots(list).contains(list[i].replay.records@[j].packet),
    decreases list.len(),
{
    let head = flushed_slots(list.drop_last());
    let tail = slots_of(list.last().replay.records@);
    let slot = list[i].replay.records@[j].packet;
    if i == list.len() - 1 {
        assert((head + tail)[head.len() + j] == slot);
    } else {
        lemma_flushed(list.drop_last(), i, j);
        let k = choose|k: int| 0 <= k < head.len() && head[k] == slot;
        assert((head + tail)[k] == slot);
    }
}

/// A definition that is let go leaves its followers every byte of the compact
/// replay that they were sent.
pub proof fn law_flush_outlives_the_definition(
    before: Service,
    after: Service,
    id: u64,
    list: Seq<Flush>,
    i: int,
    j: int,
)
    requires
        released(before, after, id, flushed_slots(list)),
        0 <= i < list.len(),
        0 <= j < list[i].replay.records@.len(),
    ensures
        !after.has(id),
        payload(after.registry, list[i].replay.records@[j]) == payload(
            before.registry,
            list[i].replay.records@[j],
        ),
{
    lemma_flushed(list, i, j);
    let sent = flushed_slots(list);
    let held = before.registry.packets.spec_leases();
    let slot = list[i].replay.records@[j].packet;
    let k = choose|k: int| 0 <= k < sent.len() && sent[k] == slot;
    assert((held + sent)[held.len() + k] == slot);
    assert(after.registry.packets.spec_leased(slot));
}

} // verus!
