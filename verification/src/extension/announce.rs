//! What the service puts out for the followers of a definition.

use vstd::prelude::*;

use crate::extension::definition::{Control, Definition};
use crate::extension::output::{
    in_history, new_record, payload, payloads_kept, record_numbered, retention, same_but_history,
    sequence_exhausted, Registry, Retained,
};
use crate::extension::packets::{only_released, released_but};
use crate::extension::service::{lemma_output_changed, Service};
use crate::extension::terminal::{
    at_rest, describes, emitted_at_rest, emitted_in_motion, lifecycle_event, terminal_retained,
    InfoStatus, TerminalRecordKind,
};

verus! {

/// The extension attempt that a connection belongs to.
#[derive(Clone, Copy, Debug, PartialEq, Eq, Structural)]
pub struct Identity {
    pub extension_id: u64,
    pub definition_revision: u64,
    pub attempt: u64,
    pub task_id: u32,
}

/// Whether a definition is committed to the attempt that a connection belongs
/// to.
pub open spec fn speaks_for(d: Definition, who: Identity) -> bool {
    d.control == Some(
        Control {
            definition_revision: who.definition_revision,
            attempt: who.attempt,
            task_id: who.task_id,
        },
    )
}

/// What output leaves as it was.
pub open spec fn same_identity(a: Definition, b: Definition) -> bool {
    &&& b.argument_reservation == a.argument_reservation
    &&& b.name == a.name
    &&& b.flags == a.flags
    &&& b.args == a.args
    &&& b.catalog_committed == a.catalog_committed
}

/// What output does to all definitions together.
pub open spec fn identities_kept(before: Registry, after: Registry) -> bool {
    &&& after.definitions@.dom() == before.definitions@.dom()
    &&& forall|k: u64| #[trigger]
        before.definitions@.dom().contains(k) ==> same_identity(
            before.definitions@[k],
            after.definitions@[k],
        )
}

proof fn lemma_numbered_keeps(before: Registry, after: Registry, id: u64)
    requires
        record_numbered(before, after, id),
        after.definitions@.dom() == before.definitions@.dom(),
    ensures
        identities_kept(before, after),
{
    assert forall|k: u64| #[trigger] before.definitions@.dom().contains(k) implies same_identity(
        before.definitions@[k],
        after.definitions@[k],
    ) by {
        if k != id {
            assert(same_but_history(before.definitions@[k], after.definitions@[k]));
        }
    }
}

proof fn lemma_terminal_keeps(
    before: Registry,
    mid: Registry,
    after: Registry,
    id: u64,
    packet: Seq<u8>,
    kind: TerminalRecordKind,
    kept: Retained,
)
    requires
        terminal_retained(before, mid, after, id, packet, kind, kept),
        after.definitions@.dom() == before.definitions@.dom(),
    ensures
        identities_kept(before, after),
{
    let h = mid.definitions@;
    assert forall|k: u64| #[trigger] before.definitions@.dom().contains(k) implies same_identity(
        before.definitions@[k],
        after.definitions@[k],
    ) by {
        if k != id {
            assert(same_but_history(before.definitions@[k], mid.definitions@[k]));
        }
    }
}

/// What a lifecycle event, or an exit, that was put out came to.
pub open spec fn announced(before: Registry, after: Registry, id: u64, packet: Seq<u8>) -> bool {
    &&& !before.definitions@.dom().contains(id) ==> after == before
    &&& before.definitions@.dom().contains(id) ==> if at_rest(before.definitions@[id]) {
        exists|mid: Registry, r: Option<u64>| #[trigger]
            emitted_at_rest(before, mid, after, id, packet, r)
    } else {
        exists|mid: Registry, kept: Retained| #[trigger]
            emitted_in_motion(before, mid, after, id, packet, kept)
    }
}

/// What the exit of an attempt that was put out came to.
pub open spec fn exit_announced(before: Registry, after: Registry, id: u64, packet: Seq<u8>) -> bool {
    let d = before.definitions@[id];
    &&& !before.definitions@.dom().contains(id) ==> after == before
    &&& before.definitions@.dom().contains(id) && d.next_output_sequence == u64::MAX
        ==> sequence_exhausted(before, after, id)
    &&& before.definitions@.dom().contains(id) && d.next_output_sequence < u64::MAX ==> if at_rest(
        d,
    ) {
        exists|mid: Registry, kept: Retained| #[trigger]
            terminal_retained(before, mid, after, id, packet, TerminalRecordKind::Exit, kept)
    } else {
        put_out(before, after, id, packet, true)
    }
}

/// What a record that was put out came to: it is numbered, and kept where there
/// is room.
pub open spec fn put_out(
    before: Registry,
    after: Registry,
    id: u64,
    packet: Seq<u8>,
    exit: bool,
) -> bool {
    let last = after.definitions@[id].retained@.last();
    &&& after.definitions@.dom() == before.definitions@.dom()
    &&& record_numbered(before, after, id)
    &&& payloads_kept(before, after)
    &&& exists|kept: bool| #[trigger]
        retention(before, after, id, packet.len(), kept) && if kept {
            &&& last == new_record(before, id, packet.len(), exit, last.packet)
            &&& payload(after, last) == packet
            &&& in_history(after.packets.spec_slots(), id, last)
            &&& released_but(before.packets, after.packets, last.packet as int)
        } else {
            only_released(before.packets, after.packets)
        }
}

impl Service {
    /// The event that announces where a definition stands now.
    pub fn lifecycle_event(&self, id: u64) -> (r: Option<InfoStatus>)
        requires
            self.wf(),
        ensures
            match r {
                None => !self.has(id),
                Some(i) => self.has(id) && describes(
                    i,
                    self.spec_definitions()[id],
                    self.limits.detail_max as nat,
                ),
            },
    {
        match self.registry.definitions.get(id) {
            None => None,
            Some(d) => Some(lifecycle_event(d, self.limits.detail_max)),
        }
    }

    /// Puts out the event of [`Service::lifecycle_event`], as it was encoded.
    pub fn announce(&mut self, id: u64, packet: Vec<u8>)
        requires
            old(self).wf(),
        ensures
            final(self).wf(),
            *final(self) == (Service { registry: final(self).registry, ..*old(self) }),
            announced(old(self).registry, final(self).registry, id, packet@),
    {
        let ghost start = *self;
        let ghost bytes = packet@;
        self.registry.emit(id, packet);
        proof {
            let before = start.registry;
            let after = self.registry;
            if before.definitions@.dom().contains(id) {
                if at_rest(before.definitions@[id]) {
                    let (mid, r) = choose|mid: Registry, r: Option<u64>| #[trigger]
                        emitted_at_rest(before, mid, after, id, bytes, r);
                    lemma_at_rest_keeps(before, mid, after, id, bytes, r);
                } else {
                    let (mid, kept) = choose|mid: Registry, kept: Retained| #[trigger]
                        emitted_in_motion(before, mid, after, id, bytes, kept);
                    lemma_in_motion_keeps(before, mid, after, id, bytes, kept);
                }
            }
            lemma_kept(start, *self);
        }
    }

    /// Puts out the exit of an attempt, as it was encoded: for a definition at
    /// rest it begins the compact replay.
    pub fn announce_exit(&mut self, id: u64, packet: Vec<u8>)
        requires
            old(self).wf(),
        ensures
            final(self).wf(),
            *final(self) == (Service { registry: final(self).registry, ..*old(self) }),
            exit_announced(old(self).registry, final(self).registry, id, packet@),
    {
        let ghost start = *self;
        let ghost bytes = packet@;
        let rest: bool = match self.registry.definitions.get(id) {
            None => {
                return;
            },
            Some(d) => !d.persistent() && match d.phase {
                crate::extension::protocol::Phase::Stopped => true,
                crate::extension::protocol::Phase::Blocked => true,
                _ => false,
            },
        };
        if rest {
            let _ = self.registry.retain_terminal(id, packet, TerminalRecordKind::Exit);
            proof {
                if start.spec_definitions()[id].next_output_sequence < u64::MAX {
                    let (mid, kept) = choose|mid: Registry, kept: Retained| #[trigger]
                        terminal_retained(
                            start.registry,
                            mid,
                            self.registry,
                            id,
                            bytes,
                            TerminalRecordKind::Exit,
                            kept,
                        );
                    lemma_terminal_keeps(
                        start.registry,
                        mid,
                        self.registry,
                        id,
                        bytes,
                        TerminalRecordKind::Exit,
                        kept,
                    );
                }
            }
        } else {
            self.put(id, packet, true);
        }
        proof {
            lemma_kept(start, *self);
        }
    }

    /// Numbers a packet of output and keeps it where there is room.
    fn put(&mut self, id: u64, packet: Vec<u8>, exit: bool)
        requires
            old(self).wf(),
            old(self).has(id),
        ensures
            final(self).wf(),
            *final(self) == (Service { registry: final(self).registry, ..*old(self) }),
            old(self).spec_definitions()[id].next_output_sequence == u64::MAX
                ==> sequence_exhausted(old(self).registry, final(self).registry, id),
            old(self).spec_definitions()[id].next_output_sequence < u64::MAX ==> put_out(
                old(self).registry,
                final(self).registry,
                id,
                packet@,
                exit,
            ),
            identities_kept(old(self).registry, final(self).registry),
    {
        let ghost start = *self;
        let ghost bytes = packet@;
        let kept = self.registry.retain_record(id, packet, exit, false);
        proof {
            if start.spec_definitions()[id].next_output_sequence < u64::MAX {
                assert(retention(start.registry, self.registry, id, bytes.len(), kept is Kept));
                if let Retained::Kept(rec) = kept {
                    assert(self.registry.definitions@[id].retained@.last() == new_record(
                        start.registry,
                        id,
                        bytes.len(),
                        exit,
                        rec.packet,
                    ));
                }
                lemma_numbered_keeps(start.registry, self.registry, id);
            }
            lemma_kept(start, *self);
        }
    }

    /// The sequence that an event from a connection will have, if that
    /// connection speaks for the attempt that its extension is committed to.
    pub fn accept_event(&self, who: Option<Identity>) -> (r: Option<u64>)
        requires
            self.wf(),
        ensures
            r is Some == (who matches Some(w) && self.has(w.extension_id) && speaks_for(
                self.spec_definitions()[w.extension_id],
                w,
            )),
            r matches Some(n) ==> (who matches Some(w) && n == self.spec_definitions()[
                w.extension_id
            ].next_output_sequence),
    {
        let w = match who {
            None => {
                return None;
            },
            Some(w) => w,
        };
        match self.registry.definitions.get(w.extension_id) {
            None => None,
            Some(d) => match d.control {
                None => None,
                Some(c) => if c.definition_revision == w.definition_revision && c.attempt
                    == w.attempt && c.task_id == w.task_id {
                    Some(d.next_output_sequence)
                } else {
                    None
                },
            },
        }
    }

    /// Puts out an event that an extension sent, as it was encoded.
    pub fn put_event(&mut self, id: u64, packet: Vec<u8>)
        requires
            old(self).wf(),
            old(self).has(id),
        ensures
            final(self).wf(),
            *final(self) == (Service { registry: final(self).registry, ..*old(self) }),
            old(self).spec_definitions()[id].next_output_sequence == u64::MAX
                ==> sequence_exhausted(old(self).registry, final(self).registry, id),
            old(self).spec_definitions()[id].next_output_sequence < u64::MAX ==> put_out(
                old(self).registry,
                final(self).registry,
                id,
                packet@,
                false,
            ),
    {
        self.put(id, packet, false);
    }
}

proof fn lemma_kept(before: Service, after: Service)
    requires
        before.wf(),
        after == (Service { registry: after.registry, ..before }),
        after.registry.wf(),
        identities_kept(before.registry, after.registry) || after.registry == before.registry
            || exists|id: u64| #[trigger]
            sequence_exhausted(before.registry, after.registry, id) && before.has(id),
    ensures
        after.wf(),
        identities_kept(before.registry, after.registry),
{
    if !identities_kept(before.registry, after.registry) && after.registry != before.registry {
        let id = choose|id: u64| #[trigger]
            sequence_exhausted(before.registry, after.registry, id) && before.has(id);
        assert(after.spec_definitions().dom() =~= before.spec_definitions().dom());
    }
    assert forall|k: u64| #[trigger] before.has(k) implies {
        &&& after.spec_definitions()[k].argument_reservation
            == before.spec_definitions()[k].argument_reservation
        &&& after.spec_definitions()[k].name == before.spec_definitions()[k].name
        &&& after.spec_definitions()[k].flags == before.spec_definitions()[k].flags
        &&& after.spec_definitions()[k].args == before.spec_definitions()[k].args
        &&& after.spec_definitions()[k].catalog_committed
            == before.spec_definitions()[k].catalog_committed
    } by {
        assert(before.registry.definitions@.dom().contains(k));
        if identities_kept(before.registry, after.registry) {
            assert(same_identity(before.registry.definitions@[k], after.registry.definitions@[k]));
        }
    }
    lemma_output_changed(before, after);
    assert forall|k: u64| #[trigger] before.registry.definitions@.dom().contains(k) implies
        same_identity(before.registry.definitions@[k], after.registry.definitions@[k]) by {
        assert(before.has(k));
    }
}

proof fn lemma_at_rest_keeps(
    before: Registry,
    mid: Registry,
    after: Registry,
    id: u64,
    packet: Seq<u8>,
    r: Option<u64>,
)
    requires
        emitted_at_rest(before, mid, after, id, packet, r),
        before.definitions@.dom().contains(id),
        after.definitions@.dom() == before.definitions@.dom(),
    ensures
        identities_kept(before, after),
{
    if before.definitions@[id].next_output_sequence == u64::MAX {
        assert(sequence_exhausted(before, mid, id));
    } else {
        let (inner, kept) = choose|inner: Registry, kept: Retained| #[trigger]
            terminal_retained(before, inner, mid, id, packet, TerminalRecordKind::Status, kept) && (r
                is None <==> kept is Dropped) && (r is Some ==> r == Some(
                before.definitions@[id].next_output_sequence,
            ));
        assert forall|k: u64| #[trigger] before.definitions@.dom().contains(k) implies
            same_identity(before.definitions@[k], after.definitions@[k]) by {
            if k != id {
                assert(same_but_history(before.definitions@[k], inner.definitions@[k]));
            }
        }
    }
}

proof fn lemma_in_motion_keeps(
    before: Registry,
    mid: Registry,
    after: Registry,
    id: u64,
    packet: Seq<u8>,
    kept: Retained,
)
    requires
        emitted_in_motion(before, mid, after, id, packet, kept),
        before.definitions@.dom().contains(id),
        after.definitions@.dom() == before.definitions@.dom(),
    ensures
        identities_kept(before, after),
{
    assert forall|k: u64| #[trigger] before.definitions@.dom().contains(k) implies same_identity(
        before.definitions@[k],
        after.definitions@[k],
    ) by {
        assert(mid.definitions@.dom().contains(k));
        if k != id && before.definitions@[id].next_output_sequence < u64::MAX {
            assert(same_but_history(mid.definitions@[k], after.definitions@[k]));
        }
    }
}

} // verus!
