//! Output packets that several holders share.
//!
//! A packet stands in a slot. It is held by the history of its extension, by
//! the compact replay kept for its last state, and by each outbox it was sent
//! to. A charged packet counts against the output budget until its last holder
//! lets go, however long an outbox keeps it.

use vstd::prelude::*;

use crate::extension::budget::Budget;

verus! {

/// Which extension and which sequence of its output a packet is.
pub type Place = Option<(u64, u64)>;

/// One slot. A slot that nobody holds is free.
pub struct Packet {
    pub bytes: Vec<u8>,
    pub charged: bool,
    pub history: Place,
    pub terminal: Place,
}

pub struct PacketStore {
    slots: Vec<Packet>,
    leases: Vec<usize>,
    budget: Budget,
}

/// What a packet counts for.
pub open spec fn charge(p: Packet) -> nat {
    if p.charged {
        p.bytes@.len()
    } else {
        0
    }
}

/// Whether a slot holds nothing any more.
pub open spec fn freed(p: Packet) -> bool {
    p.bytes@.len() == 0 && !p.charged && p.history is None && p.terminal is None
}

/// What all packets count for.
pub open spec fn charges(slots: Seq<Packet>) -> nat
    decreases slots.len(),
{
    if slots.len() == 0 {
        0
    } else {
        charges(slots.drop_last()) + charge(slots.last())
    }
}

pub proof fn lemma_charges_update(slots: Seq<Packet>, i: int, p: Packet)
    requires
        0 <= i < slots.len(),
    ensures
        charges(slots.update(i, p)) == charges(slots) - charge(slots[i]) + charge(p),
        charge(slots[i]) <= charges(slots),
    decreases slots.len(),
{
    if i == slots.len() - 1 {
        assert(slots.update(i, p).drop_last() =~= slots.drop_last());
    } else {
        lemma_charges_update(slots.drop_last(), i, p);
        assert(slots.update(i, p).drop_last() =~= slots.drop_last().update(i, p));
    }
}

proof fn lemma_charges_push(slots: Seq<Packet>, p: Packet)
    ensures
        charges(slots.push(p)) == charges(slots) + charge(p),
{
    assert(slots.push(p).drop_last() =~= slots);
}

impl PacketStore {
    pub closed spec fn spec_slots(self) -> Seq<Packet> {
        self.slots@
    }

    /// The slots that outboxes hold, once for each outbox.
    pub closed spec fn spec_leases(self) -> Seq<usize> {
        self.leases@
    }

    pub closed spec fn spec_used(self) -> usize {
        self.budget.spec_used()
    }

    pub closed spec fn spec_max(self) -> usize {
        self.budget.spec_max()
    }

    pub open spec fn spec_leased(self, slot: usize) -> bool {
        self.spec_leases().contains(slot)
    }

    pub proof fn lemma_slots_fit(self)
        ensures
            self.spec_slots().len() <= usize::MAX,
    {
        assert(self.slots.len() == self.slots@.len());
    }

    /// Whether anyone holds the packet in `slot`.
    pub open spec fn spec_held(self, slot: usize) -> bool {
        self.spec_slots()[slot as int].history is Some || self.spec_slots()[slot as int].terminal
            is Some || self.spec_leased(slot)
    }

    /// The budget counts exactly the charged packets, and a free slot is not
    /// charged.
    pub open spec fn wf(self) -> bool {
        &&& self.spec_used() as nat == charges(self.spec_slots())
        &&& self.spec_used() <= self.spec_max()
        &&& forall|k: int|
            0 <= k < self.spec_leases().len() ==> #[trigger] self.spec_leases()[k]
                < self.spec_slots().len()
        &&& forall|i: usize|
            i < self.spec_slots().len() && !self.spec_held(i) ==> !(
            #[trigger] self.spec_slots()[i as int]).charged
    }

    pub fn new(max: usize) -> (s: PacketStore)
        ensures
            s.wf(),
            s.spec_max() == max,
            s.spec_slots() == Seq::<Packet>::empty(),
            s.spec_leases() == Seq::<usize>::empty(),
    {
        PacketStore { slots: Vec::new(), leases: Vec::new(), budget: Budget::new(max) }
    }

    pub fn used(&self) -> (u: usize)
        ensures
            u == self.spec_used(),
    {
        self.budget.used()
    }

    pub fn max(&self) -> (m: usize)
        ensures
            m == self.spec_max(),
    {
        self.budget.max()
    }

    /// Whether `len` more bytes can be charged.
    pub fn fits(&self, len: usize) -> (r: bool)
        requires
            self.wf(),
        ensures
            r == (self.spec_used() + len <= self.spec_max()),
    {
        len <= self.budget.max() - self.budget.used()
    }

    pub fn bytes(&self, slot: usize) -> (b: &Vec<u8>)
        requires
            slot < self.spec_slots().len(),
        ensures
            *b == self.spec_slots()[slot as int].bytes,
    {
        &self.slots[slot].bytes
    }

    /// Which record's compact replay holds a packet.
    pub fn terminal_place(&self, slot: usize) -> (r: Place)
        requires
            slot < self.spec_slots().len(),
        ensures
            r == self.spec_slots()[slot as int].terminal,
    {
        self.slots[slot].terminal
    }

    fn leased(&self, slot: usize) -> (r: bool)
        ensures
            r == self.spec_leased(slot),
    {
        let mut i: usize = 0;
        while i < self.leases.len()
            invariant
                i <= self.leases@.len(),
                forall|k: int| 0 <= k < i ==> self.leases@[k] != slot,
            decreases self.leases.len() - i,
        {
            if self.leases[i] == slot {
                return true;
            }
            i = i + 1;
        }
        false
    }

    fn held(&self, slot: usize) -> (r: bool)
        requires
            slot < self.spec_slots().len(),
        ensures
            r == self.spec_held(slot),
    {
        self.slots[slot].history.is_some() || self.slots[slot].terminal.is_some() || self.leased(
            slot,
        )
    }

    /// Puts a packet in a free slot, charged or not, under its holders.
    pub fn put(&mut self, bytes: Vec<u8>, charged: bool, history: Place, terminal: Place) -> (slot:
        usize)
        requires
            old(self).wf(),
            charged ==> old(self).spec_used() + bytes@.len() <= old(self).spec_max(),
            history is Some || terminal is Some,
        ensures
            final(self).wf(),
            final(self).spec_max() == old(self).spec_max(),
            final(self).spec_leases() == old(self).spec_leases(),
            slot < final(self).spec_slots().len(),
            slot < old(self).spec_slots().len() ==> !old(self).spec_held(slot),
            final(self).spec_slots()[slot as int] == (Packet { bytes, charged, history, terminal }),
            final(self).spec_slots().len() >= old(self).spec_slots().len(),
            forall|j: int|
                0 <= j < old(self).spec_slots().len() && j != slot ==> #[trigger] final(self).spec_slots()[j] == old(self).spec_slots()[j],
            final(self).spec_slots().len() == old(self).spec_slots().len() || (final(self).spec_slots().len() == old(self).spec_slots().len() + 1 && slot == old(self).spec_slots().len()),
            final(self).spec_used() as nat == old(self).spec_used() + (if charged {
                bytes@.len()
            } else {
                0
            }),
            !old(self).spec_leased(slot),
    {
        let ghost before = self.slots@;
        let ghost len = bytes@.len();
        if charged {
            let _ = self.budget.try_reserve(bytes.len());
        }
        let packet = Packet { bytes, charged, history, terminal };
        let n: usize = self.slots.len();
        let mut i: usize = 0;
        while i < n
            invariant
                i <= n,
                n == self.slots@.len(),
                self.slots@ == before,
                self.leases@ == old(self).leases@,
                old(self).slots@ == before,
            decreases n - i,
        {
            if !self.held(i) {
                break;
            }
            i = i + 1;
        }
        if i < n && !self.held(i) {
            proof {
                assert(!old(self).spec_held(i));
                assert(!before[i as int].charged);
                lemma_charges_update(before, i as int, packet);
            }
            self.slots.set(i, packet);
            proof {
                assert(self.slots@ =~= before.update(i as int, packet));
                assert forall|k: usize|
                    k < self.spec_slots().len() && !self.spec_held(k) implies !(
                #[trigger] self.spec_slots()[k as int]).charged by {
                    if k != i {
                        assert(self.slots@[k as int] == before[k as int]);
                        assert(!old(self).spec_held(k));
                        assert(!old(self).spec_slots()[k as int].charged);
                    }
                }
            }
            i
        } else {
            proof {
                lemma_charges_push(before, packet);
            }
            self.slots.push(packet);
            proof {
                assert forall|k: usize|
                    k < self.spec_slots().len() && !self.spec_held(k) implies !(
                #[trigger] self.spec_slots()[k as int]).charged by {
                    if k < n {
                        assert(self.slots@[k as int] == before[k as int]);
                        assert(!old(self).spec_held(k));
                        assert(!old(self).spec_slots()[k as int].charged);
                    }
                }
                if old(self).spec_leased(n) {
                    let k = choose|k: int| 0 <= k < self.leases@.len() && self.leases@[k] == n;
                    assert(old(self).spec_leases()[k] < old(self).spec_slots().len());
                }
            }
            n
        }
    }

    /// Frees `slot` where nobody holds it any more.
    fn settle(&mut self, slot: usize)
        requires
            slot < old(self).spec_slots().len(),
            old(self).spec_used() as nat == charges(old(self).spec_slots()),
            old(self).spec_used() <= old(self).spec_max(),
            forall|k: int|
                0 <= k < old(self).spec_leases().len() ==> #[trigger] old(self).spec_leases()[k]
                    < old(self).spec_slots().len(),
            forall|i: usize|
                i < old(self).spec_slots().len() && i != slot && !old(self).spec_held(i) ==> !(
                #[trigger] old(self).spec_slots()[i as int]).charged,
        ensures
            final(self).wf(),
            final(self).spec_max() == old(self).spec_max(),
            final(self).spec_leases() == old(self).spec_leases(),
            final(self).spec_slots().len() == old(self).spec_slots().len(),
            forall|j: int|
                0 <= j < old(self).spec_slots().len() && j != slot ==> #[trigger] final(self).spec_slots()[j] == old(self).spec_slots()[j],
            old(self).spec_held(slot) ==> final(self).spec_slots()[slot as int] == old(self).spec_slots()[slot as int],
            final(self).spec_slots()[slot as int].history == old(self).spec_slots()[slot as int].history,
            final(self).spec_slots()[slot as int].terminal == old(self).spec_slots()[slot as int].terminal,
            !old(self).spec_held(slot) ==> freed(final(self).spec_slots()[slot as int]),
            final(self).spec_used() as nat == old(self).spec_used() - (if old(self).spec_held(slot) {
                0
            } else {
                charge(old(self).spec_slots()[slot as int])
            }),
    {
        if !self.held(slot) {
            let ghost before = self.slots@;
            let charged: bool = self.slots[slot].charged;
            let len: usize = self.slots[slot].bytes.len();
            let packet = Packet { bytes: Vec::new(), charged: false, history: None, terminal: None };
            proof {
                lemma_charges_update(before, slot as int, packet);
            }
            if charged {
                self.budget.release(len);
            }
            self.slots.set(slot, packet);
            proof {
                assert(self.slots@ =~= before.update(slot as int, packet));
                assert forall|k: usize|
                    k < self.spec_slots().len() && !self.spec_held(k) implies !(
                #[trigger] self.spec_slots()[k as int]).charged by {
                    if k != slot {
                        assert(self.slots@[k as int] == before[k as int]);
                        assert(!old(self).spec_held(k));
                        assert(!old(self).spec_slots()[k as int].charged);
                    }
                }
            }
        } else {
            proof {
                assert forall|k: usize|
                    k < self.spec_slots().len() && !self.spec_held(k) implies !(
                #[trigger] self.spec_slots()[k as int]).charged by {
                    assert(k != slot);
                }
            }
        }
    }

    /// The history of its extension lets go of a packet.
    pub fn drop_history(&mut self, slot: usize)
        requires
            old(self).wf(),
            slot < old(self).spec_slots().len(),
        ensures
            final(self).wf(),
            final(self).spec_max() == old(self).spec_max(),
            final(self).spec_leases() == old(self).spec_leases(),
            final(self).spec_slots().len() == old(self).spec_slots().len(),
            forall|j: int|
                0 <= j < old(self).spec_slots().len() && j != slot ==> #[trigger] final(self).spec_slots()[j] == old(self).spec_slots()[j],
            only_released(*old(self), *final(self)),
            final(self).spec_slots()[slot as int].history is None,
            final(self).spec_slots()[slot as int].terminal == old(self).spec_slots()[slot as int].terminal,
            old(self).spec_slots()[slot as int].terminal is Some || old(self).spec_leased(slot)
                ==> final(self).spec_slots()[slot as int] == (Packet {
                history: None,
                ..old(self).spec_slots()[slot as int]
            }) && final(self).spec_used() == old(self).spec_used(),
            old(self).spec_slots()[slot as int].terminal is None && !old(self).spec_leased(slot)
                ==> final(self).spec_used() as nat == old(self).spec_used() - charge(
                old(self).spec_slots()[slot as int],
            ),
    {
        let ghost before = self.slots@;
        self.slots[slot].history = None;
        proof {
            let p = self.slots@[slot as int];
            assert(self.slots@ =~= before.update(slot as int, p));
            lemma_charges_update(before, slot as int, p);
            assert(self.spec_leases() == old(self).spec_leases());
            assert forall|k: usize|
                k < self.spec_slots().len() && k != slot && !self.spec_held(k) implies !(
            #[trigger] self.spec_slots()[k as int]).charged by {
                assert(self.slots@[k as int] == before[k as int]);
                assert(!old(self).spec_held(k));
                assert(!old(self).spec_slots()[k as int].charged);
            }
        }
        self.settle(slot);
    }

    /// The compact replay lets go of a packet.
    pub fn drop_terminal(&mut self, slot: usize)
        requires
            old(self).wf(),
            slot < old(self).spec_slots().len(),
        ensures
            final(self).wf(),
            final(self).spec_max() == old(self).spec_max(),
            final(self).spec_leases() == old(self).spec_leases(),
            only_released(*old(self), *final(self)),
            terminal_dropped(*old(self), *final(self), slot),
    {
        let ghost before = self.slots@;
        self.slots[slot].terminal = None;
        proof {
            let p = self.slots@[slot as int];
            assert(self.slots@ =~= before.update(slot as int, p));
            lemma_charges_update(before, slot as int, p);
            assert(self.spec_leases() == old(self).spec_leases());
            assert forall|k: usize|
                k < self.spec_slots().len() && k != slot && !self.spec_held(k) implies !(
            #[trigger] self.spec_slots()[k as int]).charged by {
                assert(self.slots@[k as int] == before[k as int]);
                assert(!old(self).spec_held(k));
                assert(!old(self).spec_slots()[k as int].charged);
            }
        }
        self.settle(slot);
        proof {
            assert(self.spec_slots() =~= before.update(slot as int, self.spec_slots()[slot as int]));
        }
    }

    /// The compact replay takes hold of a packet.
    pub fn hold_terminal(&mut self, slot: usize, place: (u64, u64))
        requires
            old(self).wf(),
            slot < old(self).spec_slots().len(),
            old(self).spec_held(slot),
        ensures
            final(self).wf(),
            final(self).spec_max() == old(self).spec_max(),
            final(self).spec_used() == old(self).spec_used(),
            final(self).spec_leases() == old(self).spec_leases(),
            final(self).spec_slots().len() == old(self).spec_slots().len(),
            forall|j: int|
                0 <= j < old(self).spec_slots().len() && j != slot ==> #[trigger] final(self).spec_slots()[j] == old(self).spec_slots()[j],
            final(self).spec_slots()[slot as int] == (Packet {
                terminal: Some(place),
                ..old(self).spec_slots()[slot as int]
            }),
    {
        let ghost before = self.slots@;
        self.slots[slot].terminal = Some(place);
        proof {
            let p = self.slots@[slot as int];
            assert(self.slots@ =~= before.update(slot as int, p));
            lemma_charges_update(before, slot as int, p);
            assert(self.spec_leases() == old(self).spec_leases());
            assert forall|k: usize|
                k < self.spec_slots().len() && !self.spec_held(k) implies !(
            #[trigger] self.spec_slots()[k as int]).charged by {
                assert(k != slot);
                assert(self.slots@[k as int] == before[k as int]);
                assert(!old(self).spec_held(k));
                assert(!old(self).spec_slots()[k as int].charged);
            }
        }
    }

    /// An outbox takes hold of a packet.
    pub fn lease(&mut self, slot: usize)
        requires
            old(self).wf(),
            slot < old(self).spec_slots().len(),
        ensures
            final(self).wf(),
            final(self).spec_max() == old(self).spec_max(),
            final(self).spec_used() == old(self).spec_used(),
            final(self).spec_slots() == old(self).spec_slots(),
            final(self).spec_leases() == old(self).spec_leases().push(slot),
    {
        self.leases.push(slot);
        proof {
            assert forall|k: usize|
                k < self.spec_slots().len() && !self.spec_held(k) implies !(
            #[trigger] self.spec_slots()[k as int]).charged by {
                if old(self).spec_leased(k) {
                    let i = choose|i: int|
                        0 <= i < old(self).leases@.len() && old(self).leases@[i] == k;
                    assert(self.leases@[i] == k);
                }
                assert(!old(self).spec_held(k));
            }
        }
    }

    /// An outbox has drained a packet; where it held none, nothing changes.
    pub fn unlease(&mut self, slot: usize)
        requires
            old(self).wf(),
        ensures
            final(self).wf(),
            final(self).spec_max() == old(self).spec_max(),
            final(self).spec_slots().len() == old(self).spec_slots().len(),
            forall|j: int|
                0 <= j < old(self).spec_slots().len() && j != slot ==> #[trigger] final(self).spec_slots()[j] == old(self).spec_slots()[j],
            only_released(*old(self), *final(self)),
            final(self).spec_leases().to_multiset() =~= old(self).spec_leases().to_multiset().remove(slot),
            !old(self).spec_leased(slot) ==> *final(self) == *old(self),
            old(self).spec_leased(slot) ==> final(self).spec_slots()[slot as int].history == old(self).spec_slots()[slot as int].history && final(self).spec_slots()[slot as int].terminal
                == old(self).spec_slots()[slot as int].terminal,
            old(self).spec_leased(slot) && final(self).spec_held(slot) ==> final(self).spec_slots()[slot as int] == old(self).spec_slots()[slot as int] && final(self).spec_used() == old(self).spec_used(),
            old(self).spec_leased(slot) && !final(self).spec_held(slot) ==> final(self).spec_used() as nat == old(self).spec_used() - charge(
                old(self).spec_slots()[slot as int],
            ),
    {
        let mut i: usize = 0;
        while i < self.leases.len()
            invariant
                i <= self.leases@.len(),
                self == old(self),
                old(self).wf(),
                forall|k: int| 0 <= k < i ==> self.leases@[k] != slot,
            decreases self.leases.len() - i,
        {
            if self.leases[i] == slot {
                let ghost before = self.leases@;
                let _ = self.leases.remove(i);
                proof {
                    broadcast use vstd::seq_lib::group_to_multiset_ensures;

                    assert(self.leases@ =~= before.remove(i as int));
                    assert(before[i as int] == slot);
                    assert(old(self).spec_leases()[i as int] < old(self).spec_slots().len());
                    assert forall|k: int| 0 <= k < self.spec_leases().len() implies
                        #[trigger] self.spec_leases()[k] < self.spec_slots().len() by {
                        if k < i {
                            assert(old(self).spec_leases()[k] == self.spec_leases()[k]);
                        } else {
                            assert(old(self).spec_leases()[k + 1] == self.spec_leases()[k]);
                        }
                    }
                    assert forall|k: usize|
                        k < self.spec_slots().len() && k != slot && !self.spec_held(k) implies !(
                    #[trigger] self.spec_slots()[k as int]).charged by {
                        if old(self).spec_leased(k) {
                            let j = choose|j: int| 0 <= j < before.len() && before[j] == k;
                            if j < i {
                                assert(self.leases@[j] == k);
                            } else {
                                assert(self.leases@[j - 1] == k);
                            }
                        }
                        assert(!old(self).spec_held(k));
                    }
                }
                self.settle(slot);
                return;
            }
            i = i + 1;
        }
        proof {
            broadcast use vstd::seq_lib::group_to_multiset_ensures;

            assert(!self.leases@.contains(slot));
            assert(self.leases@.to_multiset().count(slot) == 0);
        }
    }
}

/// What is left of the packet `p` in `slot` once the compact replay has let go of
/// it: the packet without that hold, or a free slot where nobody else held it.
pub open spec fn without_terminal(a: PacketStore, slot: usize, q: Packet) -> bool {
    let p = a.spec_slots()[slot as int];
    if p.history is Some || a.spec_leased(slot) {
        q == (Packet { terminal: None, ..p })
    } else {
        freed(q)
    }
}

/// Whether the compact replay let go of the packet in `slot`, and nothing else
/// happened. A packet that nobody else holds is no longer charged.
pub open spec fn terminal_dropped(a: PacketStore, b: PacketStore, slot: usize) -> bool {
    let p = a.spec_slots()[slot as int];
    let q = b.spec_slots()[slot as int];
    &&& b.spec_slots() == a.spec_slots().update(slot as int, q)
    &&& without_terminal(a, slot, q)
    &&& b.spec_used() as nat == a.spec_used() - (if p.history is Some || a.spec_leased(slot) {
        0
    } else {
        charge(p)
    })
}

/// Whether a packet was at most let go of: whoever holds it still finds the same
/// bytes in it, and it counts for what it did.
pub open spec fn released(p: Packet, q: Packet) -> bool {
    &&& q.history is None || q.history == p.history
    &&& q.terminal is None || q.terminal == p.terminal
    &&& q.history is Some || q.terminal is Some ==> q.bytes == p.bytes && q.charged == p.charged
}

/// Whether the packet at `j` was at most let go of: whoever holds it still, an
/// outbox too, finds the same bytes in it, and it counts for what it did.
pub open spec fn released_at(a: PacketStore, b: PacketStore, j: int) -> bool {
    let p = a.spec_slots()[j];
    let q = b.spec_slots()[j];
    &&& released(p, q)
    &&& a.spec_leased(j as usize) && b.spec_leased(j as usize) ==> q.bytes == p.bytes && q.charged
        == p.charged
}

/// Whether packets were at most let go of, but for the one at `slot`, which no
/// outbox held.
pub open spec fn released_but(a: PacketStore, b: PacketStore, slot: int) -> bool {
    &&& b.spec_slots().len() >= a.spec_slots().len()
    &&& forall|j: usize| #[trigger] b.spec_leased(j) ==> a.spec_leased(j)
    &&& forall|j: usize| #[trigger] a.spec_leased(j) ==> j != slot
    &&& forall|j: int|
        0 <= j < a.spec_slots().len() && j != slot ==> #[trigger] released_at(a, b, j)
}

/// Whether packets were at most let go of.
pub open spec fn only_released(a: PacketStore, b: PacketStore) -> bool {
    released_but(a, b, -1)
}

/// Letting go of more leaves what was let go of.
pub proof fn lemma_released_more(a: PacketStore, b: PacketStore, c: PacketStore, slot: int)
    requires
        released_but(a, b, slot) && only_released(b, c) || only_released(a, b) && released_but(
            b,
            c,
            slot,
        ) && b.spec_leases() == a.spec_leases(),
    ensures
        released_but(a, c, slot),
{
    assert forall|j: usize| #[trigger] c.spec_leased(j) implies a.spec_leased(j) by {
        assert(b.spec_leased(j));
    }
    assert forall|j: usize| #[trigger] a.spec_leased(j) implies j != slot by {
        assert(b.spec_leases() == a.spec_leases() ==> b.spec_leased(j));
    }
    assert forall|j: int| 0 <= j < a.spec_slots().len() && j != slot implies #[trigger] released_at(
        a,
        c,
        j,
    ) by {
        assert(released_at(a, b, j));
        assert(released_at(b, c, j));
        assert(c.spec_leased(j as usize) ==> b.spec_leased(j as usize));
    }
}

/// A packet counts against the budget until its last holder lets go: with the
/// history gone and an outbox still holding it, what is used does not change.
pub proof fn law_outbox_keeps_the_charge(before: PacketStore, after: PacketStore, slot: usize)
    requires
        before.wf(),
        after.wf(),
        slot < before.spec_slots().len(),
        after.spec_slots().len() == before.spec_slots().len(),
        before.spec_slots()[slot as int].charged,
        after.spec_slots() == before.spec_slots().update(
            slot as int,
            Packet { history: None, ..before.spec_slots()[slot as int] },
        ),
    ensures
        after.spec_used() == before.spec_used(),
{
    let p = Packet { history: None, ..before.spec_slots()[slot as int] };
    lemma_charges_update(before.spec_slots(), slot as int, p);
}

} // verus!
