//! The extension service: its definitions, who is connected, which
//! definitions are supervised, and what bounds them all.

use vstd::prelude::*;

use crate::extension::budget::Budget;
use crate::extension::definition::Definition;
use crate::extension::output::{
    lemma_definition_replaced, lemma_still_backed, output_ok, payloads_kept, Registry,
};
use crate::extension::packets::only_released;
use crate::extension::protocol::ObjectHash;
use crate::id_map::{
    ascending, lemma_row_of, lemma_weigh_insert, lemma_weigh_member, lemma_weigh_remove, row_of,
    weigh, IdMap,
};
use crate::random::{drew_u32, drew_u64, random_u32, random_u64, Draw, ID_DRAWS};
use crate::text::same_text;

verus! {

/// What a deployment allows. Times are milliseconds.
#[derive(Clone, Copy)]
pub struct Limits {
    pub persist_allowed: bool,
    pub max_transient: usize,
    pub max_persistent: usize,
    pub follow_max_per_endpoint: usize,
    pub follow_max: usize,
    pub pending_timeout_ms: u64,
    pub terminal_retain_ms: u64,
    /// The longest detail that a message carries, in bytes.
    pub detail_max: usize,
}

pub struct Service {
    pub limits: Limits,
    pub registry: Registry,
    /// The endpoints that are connected.
    pub endpoints: IdMap<()>,
    /// The definitions that a supervisor runs.
    pub supervisors: IdMap<()>,
    /// The task ids in use.
    pub tasks: IdMap<()>,
    /// The argument bytes of requests and attempts under way, by ticket.
    pub tickets: IdMap<usize>,
    /// What resident arguments and tickets hold.
    pub arguments: Budget,
    pub shutting_down: bool,
}

/// The bytes that a definition's arguments hold.
pub open spec fn reservation() -> spec_fn(Definition) -> nat {
    |d: Definition| d.argument_reservation as nat
}

/// The bytes that all resident arguments hold.
pub open spec fn reserved(definitions: IdMap<Definition>) -> nat {
    weigh(definitions.spec_rows(), reservation())
}

/// The bytes of one ticket.
pub open spec fn ticket_bytes() -> spec_fn(usize) -> nat {
    |n: usize| n as nat
}

/// The bytes that all tickets hold.
pub open spec fn ticketed(tickets: IdMap<usize>) -> nat {
    weigh(tickets.spec_rows(), ticket_bytes())
}

/// The arguments of a definition that the catalog has taken stay there: they are
/// neither in memory nor charged.
pub open spec fn arguments_stored(d: Definition) -> bool {
    d.spec_persistent() && d.catalog_committed ==> d.args is None && d.argument_reservation == 0
}

/// No two persistent definitions share a name.
pub open spec fn names_unique(m: Map<u64, Definition>) -> bool {
    forall|a: u64, b: u64|
        #![trigger m[a], m[b]]
        m.dom().contains(a) && m.dom().contains(b) && a != b && m[a].spec_persistent()
            && m[b].spec_persistent() ==> m[a].name@ != m[b].name@
}

/// Whether some persistent definition has this name.
pub open spec fn name_taken(m: Map<u64, Definition>, name: Seq<char>) -> bool {
    exists|id: u64| #[trigger]
        m.dom().contains(id) && m[id].spec_persistent() && m[id].name@ == name
}

/// How many definitions are persistent, or are not.
pub open spec fn census(rows: Seq<(u64, Definition)>, persistent: bool) -> nat
    decreases rows.len(),
{
    if rows.len() == 0 {
        0
    } else {
        census(rows.drop_last(), persistent) + if rows.last().1.spec_persistent() == persistent {
            1nat
        } else {
            0nat
        }
    }
}

impl Service {
    pub open spec fn spec_definitions(self) -> Map<u64, Definition> {
        self.registry.definitions@
    }

    pub open spec fn has(self, id: u64) -> bool {
        self.registry.definitions@.dom().contains(id)
    }

    pub open spec fn wf(self) -> bool {
        &&& self.registry.wf()
        &&& self.endpoints.wf()
        &&& self.supervisors.wf()
        &&& self.tasks.wf()
        &&& self.arguments.wf()
        &&& self.tickets.wf()
        &&& self.arguments.spec_used() as nat == reserved(self.registry.definitions) + ticketed(
            self.tickets,
        )
        &&& names_unique(self.registry.definitions@)
        &&& forall|id: u64| #[trigger]
            self.registry.definitions@.dom().contains(id) ==> arguments_stored(
                self.registry.definitions@[id],
            )
    }

    pub fn new(limits: Limits, output_retain_max: usize, argument_max: usize) -> (s: Service)
        ensures
            s.wf(),
            s.limits == limits,
            s.spec_definitions() == Map::<u64, Definition>::empty(),
            s.registry.packets.spec_max() == output_retain_max,
            s.endpoints@ == Map::<u64, ()>::empty(),
            s.supervisors@ == Map::<u64, ()>::empty(),
            s.tasks@ == Map::<u64, ()>::empty(),
            s.tickets@ == Map::<u64, usize>::empty(),
            s.arguments.spec_max() == argument_max,
            s.arguments.spec_used() == 0,
            !s.shutting_down,
    {
        let s = Service {
            limits,
            registry: Registry::new(output_retain_max),
            endpoints: IdMap::new(),
            supervisors: IdMap::new(),
            tasks: IdMap::new(),
            tickets: IdMap::new(),
            arguments: Budget::new(argument_max),
            shutting_down: false,
        };
        proof {
            s.registry.definitions.lemma_empty();
            s.tickets.lemma_empty();
        }
        s
    }

    /// The persistent definition of that name.
    pub fn find_persistent(&self, name: &str) -> (r: Option<u64>)
        requires
            self.wf(),
        ensures
            match r {
                Some(id) => self.has(id) && self.spec_definitions()[id].spec_persistent()
                    && self.spec_definitions()[id].name@ == name@,
                None => !name_taken(self.spec_definitions(), name@),
            },
    {
        let ghost rows = self.registry.definitions.spec_rows();
        let ghost m = self.spec_definitions();
        proof {
            self.registry.definitions.lemma_rows();
        }
        let mut i: usize = 0;
        while i < self.registry.definitions.len()
            invariant
                i <= rows.len(),
                self.wf(),
                rows == self.registry.definitions.spec_rows(),
                m == self.spec_definitions(),
                ascending(rows),
                forall|k: int|
                    0 <= k < i ==> !((#[trigger] rows[k]).1.spec_persistent() && rows[k].1.name@
                        == name@),
            decreases rows.len() - i,
        {
            let d = self.registry.definitions.value_at(i);
            if d.persistent() && same_text(d.name.as_str(), name) {
                proof {
                    lemma_row_of(rows, i as int);
                }
                return Some(self.registry.definitions.id_at(i));
            }
            i = i + 1;
        }
        proof {
            assert forall|id: u64| #[trigger] m.dom().contains(id) implies !(
            m[id].spec_persistent() && m[id].name@ == name@) by {
                let k = row_of(rows, id);
                lemma_row_of(rows, k);
                assert(rows[k].0 == id);
            }
        }
        None
    }

    /// How many definitions are persistent, or are not.
    pub fn count(&self, persistent: bool) -> (n: usize)
        requires
            self.wf(),
        ensures
            n as nat == census(self.registry.definitions.spec_rows(), persistent),
    {
        let ghost rows = self.registry.definitions.spec_rows();
        let mut n: usize = 0;
        let mut i: usize = 0;
        while i < self.registry.definitions.len()
            invariant
                i <= rows.len(),
                n <= i,
                self.wf(),
                rows == self.registry.definitions.spec_rows(),
                n as nat == census(rows.take(i as int), persistent),
            decreases rows.len() - i,
        {
            let d = self.registry.definitions.value_at(i);
            proof {
                assert(rows.take(i + 1).drop_last() =~= rows.take(i as int));
                assert(rows.take(i + 1).last() == rows[i as int]);
            }
            if d.persistent() == persistent {
                n = n + 1;
            }
            i = i + 1;
        }
        proof {
            assert(rows.take(rows.len() as int) =~= rows);
        }
        n
    }

    /// Whether an id can stand for a new definition.
    pub open spec fn extension_id_free(self, id: u64) -> bool {
        id != 0 && !self.has(id)
    }

    /// Whether a drawn id can stand for a new definition.
    pub fn accepts_extension_id(&self, id: u64) -> (r: bool)
        requires
            self.wf(),
        ensures
            r == self.extension_id_free(id),
    {
        id != 0 && !self.registry.definitions.contains(id)
    }

    /// What a draw for the id of a new definition comes to, with `left` more draws to make.
    pub open spec fn extension_id_drawn(self, drawn: Result<u64, String>, left: usize) -> Draw<u64> {
        match drawn {
            Err(_) => Draw::GiveUp,
            Ok(id) => if self.extension_id_free(id) {
                Draw::Found(id)
            } else if left > 0 {
                Draw::Again
            } else {
                Draw::GiveUp
            },
        }
    }

    /// Whether `r` is what draws from the system's random source came to: what the
    /// last one did, where each before it called for another.
    pub open spec fn extension_id_settled(
        self,
        draws: Seq<Result<u64, String>>,
        r: Option<u64>,
    ) -> bool {
        &&& 0 < draws.len() <= ID_DRAWS
        &&& forall|i: int| 0 <= i < draws.len() ==> drew_u64(#[trigger] draws[i])
        &&& forall|i: int|
            0 <= i < draws.len() - 1 ==> self.extension_id_drawn(
                #[trigger] draws[i],
                (ID_DRAWS - 1 - i) as usize,
            ) is Again
        &&& match self.extension_id_drawn(draws.last(), (ID_DRAWS - draws.len()) as usize) {
            Draw::Found(id) => r == Some(id),
            Draw::GiveUp => r is None,
            Draw::Again => false,
        }
    }

    /// Judges a draw for the id of a new definition.
    pub fn judge_extension_id(&self, drawn: &Result<u64, String>, left: usize) -> (r: Draw<u64>)
        requires
            self.wf(),
        ensures
            r == self.extension_id_drawn(*drawn, left),
    {
        match drawn {
            Err(_) => Draw::GiveUp,
            Ok(id) => if self.accepts_extension_id(*id) {
                Draw::Found(*id)
            } else if left > 0 {
                Draw::Again
            } else {
                Draw::GiveUp
            },
        }
    }

    /// Draws an id for a new definition. There is none where the source of
    /// randomness fails or too many draws in a row are taken.
    pub fn allocate_extension_id(&self) -> (r: Option<u64>)
        requires
            self.wf(),
        ensures
            r matches Some(id) ==> self.extension_id_free(id),
            exists|draws: Seq<Result<u64, String>>| #[trigger] self.extension_id_settled(draws, r),
    {
        let mut left: usize = ID_DRAWS;
        let ghost mut draws: Seq<Result<u64, String>> = Seq::empty();
        while left > 0
            invariant
                self.wf(),
                draws.len() + left == ID_DRAWS,
                forall|i: int| 0 <= i < draws.len() ==> drew_u64(#[trigger] draws[i]),
                forall|i: int|
                    0 <= i < draws.len() ==> self.extension_id_drawn(
                        #[trigger] draws[i],
                        (ID_DRAWS - 1 - i) as usize,
                    ) is Again,
            decreases left,
        {
            left = left - 1;
            let drawn = random_u64();
            proof {
                draws = draws.push(drawn);
                assert(draws.last() == drawn);
            }
            match self.judge_extension_id(&drawn, left) {
                Draw::Found(id) => {
                    assert(self.extension_id_settled(draws, Some(id)));
                    return Some(id);
                },
                Draw::Again => {},
                Draw::GiveUp => {
                    assert(self.extension_id_settled(draws, None));
                    return None;
                },
            }
        }
        assert(self.extension_id_drawn(draws[ID_DRAWS - 1], 0) is Again);
        None
    }

    /// Whether no attempt runs under this id.
    pub open spec fn task_id_free(self, id: u32) -> bool {
        id != 0 && !self.tasks@.dom().contains(id as u64)
    }

    /// Whether a drawn task id can be given to an attempt.
    pub fn accepts_task_id(&self, id: u32) -> (r: bool)
        requires
            self.wf(),
        ensures
            r == self.task_id_free(id),
    {
        id != 0 && !self.tasks.contains(id as u64)
    }

    /// What a draw for the task id of an attempt comes to, with `left` more draws to make.
    pub open spec fn task_id_drawn(self, drawn: Result<u32, String>, left: usize) -> Draw<u32> {
        match drawn {
            Err(_) => Draw::GiveUp,
            Ok(id) => if self.task_id_free(id) {
                Draw::Found(id)
            } else if left > 0 {
                Draw::Again
            } else {
                Draw::GiveUp
            },
        }
    }

    /// Whether `r` is what draws from the system's random source came to: what the
    /// last one did, where each before it called for another.
    pub open spec fn task_id_settled(
        self,
        draws: Seq<Result<u32, String>>,
        r: Option<u32>,
    ) -> bool {
        &&& 0 < draws.len() <= ID_DRAWS
        &&& forall|i: int| 0 <= i < draws.len() ==> drew_u32(#[trigger] draws[i])
        &&& forall|i: int|
            0 <= i < draws.len() - 1 ==> self.task_id_drawn(
                #[trigger] draws[i],
                (ID_DRAWS - 1 - i) as usize,
            ) is Again
        &&& match self.task_id_drawn(draws.last(), (ID_DRAWS - draws.len()) as usize) {
            Draw::Found(id) => r == Some(id),
            Draw::GiveUp => r is None,
            Draw::Again => false,
        }
    }

    /// Judges a draw for the task id of an attempt.
    pub fn judge_task_id(&self, drawn: &Result<u32, String>, left: usize) -> (r: Draw<u32>)
        requires
            self.wf(),
        ensures
            r == self.task_id_drawn(*drawn, left),
    {
        match drawn {
            Err(_) => Draw::GiveUp,
            Ok(id) => if self.accepts_task_id(*id) {
                Draw::Found(*id)
            } else if left > 0 {
                Draw::Again
            } else {
                Draw::GiveUp
            },
        }
    }

    /// Draws a task id that no attempt has. There is none where the source of
    /// randomness fails or too many draws in a row are taken.
    pub fn allocate_task_id(&self) -> (r: Option<u32>)
        requires
            self.wf(),
        ensures
            r matches Some(id) ==> self.task_id_free(id),
            exists|draws: Seq<Result<u32, String>>| #[trigger] self.task_id_settled(draws, r),
    {
        let mut left: usize = ID_DRAWS;
        let ghost mut draws: Seq<Result<u32, String>> = Seq::empty();
        while left > 0
            invariant
                self.wf(),
                draws.len() + left == ID_DRAWS,
                forall|i: int| 0 <= i < draws.len() ==> drew_u32(#[trigger] draws[i]),
                forall|i: int|
                    0 <= i < draws.len() ==> self.task_id_drawn(
                        #[trigger] draws[i],
                        (ID_DRAWS - 1 - i) as usize,
                    ) is Again,
            decreases left,
        {
            left = left - 1;
            let drawn = random_u32();
            proof {
                draws = draws.push(drawn);
                assert(draws.last() == drawn);
            }
            match self.judge_task_id(&drawn, left) {
                Draw::Found(id) => {
                    assert(self.task_id_settled(draws, Some(id)));
                    return Some(id);
                },
                Draw::Again => {},
                Draw::GiveUp => {
                    assert(self.task_id_settled(draws, None));
                    return None;
                },
            }
        }
        assert(self.task_id_drawn(draws[ID_DRAWS - 1], 0) is Again);
        None
    }

    /// Reserves argument bytes under a new ticket, where they fit.
    pub fn reserve_arguments(&mut self, bytes: usize) -> (r: Option<u64>)
        requires
            old(self).wf(),
        ensures
            final(self).wf(),
            r is Some <==> old(self).arguments.spec_used() + bytes <= old(self).arguments.spec_max(),
            r is None ==> *final(self) == *old(self),
            r matches Some(ticket) ==> {
                &&& *final(self) == (Service {
                    tickets: final(self).tickets,
                    arguments: final(self).arguments,
                    ..*old(self)
                })
                &&& !old(self).tickets@.dom().contains(ticket)
                &&& final(self).tickets@ == old(self).tickets@.insert(ticket, bytes)
                &&& final(self).arguments.spec_max() == old(self).arguments.spec_max()
                &&& final(self).arguments.spec_used() == old(self).arguments.spec_used() + bytes
            },
    {
        let ghost start = *self;
        if !self.arguments.try_reserve(bytes) {
            return None;
        }
        let ticket = self.tickets.free_id();
        self.tickets.insert(ticket, bytes);
        proof {
            lemma_weigh_insert(start.tickets, self.tickets, ticket, ticket_bytes());
        }
        Some(ticket)
    }

    /// Gives a ticket's bytes back; a ticket that is not held gives nothing.
    pub fn release_ticket(&mut self, ticket: u64)
        requires
            old(self).wf(),
        ensures
            final(self).wf(),
            *final(self) == (Service {
                tickets: final(self).tickets,
                arguments: final(self).arguments,
                ..*old(self)
            }),
            final(self).tickets@ == old(self).tickets@.remove(ticket),
            final(self).arguments.spec_max() == old(self).arguments.spec_max(),
            final(self).arguments.spec_used() == if old(self).tickets@.dom().contains(ticket) {
                old(self).arguments.spec_used() - old(self).tickets@[ticket]
            } else {
                old(self).arguments.spec_used() as int
            },
    {
        let ghost start = *self;
        match self.tickets.remove(ticket) {
            None => {
                proof {
                    assert(start.tickets@.remove(ticket) =~= start.tickets@);
                    self.tickets.lemma_same(start.tickets);
                }
            },
            Some(bytes) => {
                proof {
                    lemma_weigh_remove(start.tickets, self.tickets, ticket, ticket_bytes());
                }
                self.arguments.release(bytes);
            },
        }
    }

    /// Takes a definition away, with its supervisor. Returns the object whose
    /// pin it held, if it held one.
    pub fn remove_definition(&mut self, id: u64) -> (r: Option<Removed>)
        requires
            old(self).wf(),
        ensures
            final(self).wf(),
            removed(*old(self), *final(self), id),
            match r {
                None => !old(self).has(id),
                Some(x) => old(self).has(id) && x.unpin == if old(self).spec_definitions()[id].object_pinned {
                    Some(old(self).spec_definitions()[id].hash)
                } else {
                    None
                },
            },
    {
        let ghost start = *self;
        let mut held: usize = 0;
        let mut out: Option<Removed> = None;
        match self.registry.definitions.get(id) {
            None => {},
            Some(d) => {
                held = d.argument_reservation;
                out = Some(
                    Removed {
                        unpin: if d.object_pinned {
                            Some(d.hash)
                        } else {
                            None
                        },
                    },
                );
            },
        }
        let _ = self.registry.remove_definition(id);
        let _ = self.supervisors.remove(id);
        proof {
            if start.has(id) {
                lemma_weigh_remove(
                    start.registry.definitions,
                    self.registry.definitions,
                    id,
                    reservation(),
                );
            } else {
                assert(start.spec_definitions().remove(id) =~= start.spec_definitions());
                self.registry.definitions.lemma_same(start.registry.definitions);
            }
            let m = start.spec_definitions();
            let n = self.spec_definitions();
            assert forall|a: u64, b: u64|
                #![trigger n[a], n[b]]
                n.dom().contains(a) && n.dom().contains(b) && a != b && n[a].spec_persistent()
                    && n[b].spec_persistent() implies n[a].name@ != n[b].name@ by {
                assert(m[a].name@ != m[b].name@);
            }
        }
        self.arguments.release(held);
        out
    }

    /// Whether an endpoint is connected.
    pub fn connected(&self, endpoint: u64) -> (r: bool)
        requires
            self.wf(),
        ensures
            r == self.endpoints@.dom().contains(endpoint),
    {
        self.endpoints.contains(endpoint)
    }

    /// Takes note of a connection.
    pub fn register_endpoint(&mut self, endpoint: u64)
        requires
            old(self).wf(),
        ensures
            final(self).wf(),
            *final(self) == (Service { endpoints: final(self).endpoints, ..*old(self) }),
            final(self).endpoints@ == old(self).endpoints@.insert(endpoint, ()),
    {
        self.endpoints.insert(endpoint, ());
    }
}

/// What a definition that was taken away leaves to be undone.
pub struct Removed {
    /// The object that it no longer pins.
    pub unpin: Option<ObjectHash>,
}

/// A definition was taken away, and nothing else changed but what it held.
pub open spec fn removed(before: Service, after: Service, id: u64) -> bool {
    &&& after == (Service {
        registry: after.registry,
        supervisors: after.supervisors,
        arguments: after.arguments,
        ..before
    })
    &&& after.spec_definitions() == before.spec_definitions().remove(id)
    &&& after.registry.packets.spec_used() <= before.registry.packets.spec_used()
    &&& after.registry.packets.spec_max() == before.registry.packets.spec_max()
    &&& after.registry.packets.spec_leases() == before.registry.packets.spec_leases()
    &&& payloads_kept(before.registry, after.registry)
    &&& only_released(before.registry.packets, after.registry.packets)
    &&& after.supervisors@ == before.supervisors@.remove(id)
    &&& after.arguments.spec_max() == before.arguments.spec_max()
    &&& after.arguments.spec_used() as nat == before.arguments.spec_used() - (if before.has(id) {
        before.spec_definitions()[id].argument_reservation as int
    } else {
        0
    })
}

/// What is left of a service when only what one definition is, and what its
/// arguments hold, has changed.
pub open spec fn only_definition(before: Service, after: Service, id: u64) -> bool {
    let d = before.spec_definitions()[id];
    let e = after.spec_definitions()[id];
    &&& before.has(id)
    &&& after == (Service { registry: after.registry, arguments: after.arguments, ..before })
    &&& after.registry == (Registry { definitions: after.registry.definitions, ..before.registry })
    &&& after.spec_definitions() == before.spec_definitions().insert(id, e)
    &&& after.arguments.spec_max() == before.arguments.spec_max()
    &&& after.arguments.spec_used() as nat == before.arguments.spec_used() as nat
        - d.argument_reservation as nat + e.argument_reservation as nat
}

/// A change that the service's invariants have nothing to say about.
pub open spec fn harmless(d: Definition, e: Definition) -> bool {
    &&& e.extension_id == d.extension_id
    &&& e.followers.wf()
    &&& e.retained == d.retained
    &&& e.retained_bytes == d.retained_bytes
    &&& e.terminal_replay == d.terminal_replay
    &&& e.next_output_sequence == d.next_output_sequence
    &&& e.name == d.name
    &&& e.flags.persist ==> d.flags.persist
    &&& arguments_stored(d) ==> arguments_stored(e)
}

/// A definition may change in what the invariants do not speak of, as long as
/// the arguments are accounted for.
pub proof fn lemma_changed(before: Service, after: Service, id: u64)
    requires
        before.wf(),
        before.has(id),
        after.registry.definitions.wf(),
        after.registry.packets == before.registry.packets,
        after.registry.retention_clock == before.registry.retention_clock,
        after.spec_definitions() == before.spec_definitions().insert(
            id,
            after.spec_definitions()[id],
        ),
        harmless(before.spec_definitions()[id], after.spec_definitions()[id]),
        after.endpoints.wf(),
        after.supervisors.wf(),
        after.tasks.wf(),
        after.tickets == before.tickets,
        after.arguments.wf(),
        after.arguments.spec_used() as nat + before.spec_definitions()[id].argument_reservation
            == before.arguments.spec_used() as nat
            + after.spec_definitions()[id].argument_reservation,
    ensures
        after.wf(),
        after.spec_definitions().dom() == before.spec_definitions().dom(),
{
    lemma_definition_replaced(before.registry, after.registry, id);
    lemma_weigh_insert(
        before.registry.definitions,
        after.registry.definitions,
        id,
        reservation(),
    );
    let m = before.spec_definitions();
    let n = after.spec_definitions();
    assert forall|a: u64, b: u64|
        #![trigger n[a], n[b]]
        n.dom().contains(a) && n.dom().contains(b) && a != b && n[a].spec_persistent()
            && n[b].spec_persistent() implies n[a].name@ != n[b].name@ by {
        assert(m.dom().contains(a) && m.dom().contains(b));
        assert(m[a].name@ != m[b].name@);
    }
}

/// What one definition's arguments hold is held in the budget.
pub proof fn lemma_reservation_held(s: Service, id: u64)
    requires
        s.wf(),
        s.has(id),
    ensures
        s.spec_definitions()[id].argument_reservation <= s.arguments.spec_used(),
{
    lemma_weigh_member(s.registry.definitions, id, reservation());
}

/// All definitions may change at once in what the invariants do not speak of.
pub proof fn lemma_swept(before: Service, after: Service)
    requires
        before.wf(),
        after.registry.definitions.wf(),
        after.registry.packets == before.registry.packets,
        after.registry.retention_clock == before.registry.retention_clock,
        after.spec_definitions().dom() == before.spec_definitions().dom(),
        forall|k: u64| #[trigger]
            before.has(k) ==> harmless(
                before.spec_definitions()[k],
                after.spec_definitions()[k],
            ) && after.spec_definitions()[k].argument_reservation
                == before.spec_definitions()[k].argument_reservation,
        after.endpoints.wf(),
        after.supervisors.wf(),
        after.tasks.wf(),
        after.tickets == before.tickets,
        after.arguments == before.arguments,
    ensures
        after.wf(),
{
    before.registry.definitions.lemma_rows();
    after.registry.definitions.lemma_rows();
    assert forall|k: u64| #[trigger] before.spec_definitions().dom().contains(k) implies
        before.spec_definitions()[k].argument_reservation
        == after.spec_definitions()[k].argument_reservation by {
        assert(before.has(k));
    }
    lemma_same_weight(
        before.registry.definitions.spec_rows(),
        after.registry.definitions.spec_rows(),
    );
    assert forall|k: u64| #[trigger] after.registry.definitions@.dom().contains(k) implies output_ok(
        after.registry.definitions@[k],
        k,
        after.registry.packets.spec_slots(),
        after.registry.retention_clock,
    ) by {
        assert(before.has(k));
        assert(output_ok(
            before.registry.definitions@[k],
            k,
            before.registry.packets.spec_slots(),
            before.registry.retention_clock,
        ));
    }
    let m = before.spec_definitions();
    let n = after.spec_definitions();
    assert forall|a: u64, b: u64|
        #![trigger n[a], n[b]]
        n.dom().contains(a) && n.dom().contains(b) && a != b && n[a].spec_persistent()
            && n[b].spec_persistent() implies n[a].name@ != n[b].name@ by {
        assert(before.has(a) && before.has(b));
        assert(m[a].name@ != m[b].name@);
    }
    assert forall|k: u64| #[trigger] after.registry.definitions@.dom().contains(k) implies
        arguments_stored(after.registry.definitions@[k]) by {
        assert(before.has(k));
    }
    assert forall|k: u64| #[trigger] before.registry.definitions@.dom().contains(k) implies
        after.registry.definitions@.dom().contains(k) && after.registry.definitions@[k].retained
        == before.registry.definitions@[k].retained
        && after.registry.definitions@[k].terminal_replay
        == before.registry.definitions@[k].terminal_replay by {
        assert(before.has(k));
    }
    lemma_still_backed(before.registry, after.registry);
}

/// Output changes neither arguments nor names.
pub proof fn lemma_output_changed(before: Service, after: Service)
    requires
        before.wf(),
        after == (Service { registry: after.registry, ..before }),
        after.registry.wf(),
        after.spec_definitions().dom() == before.spec_definitions().dom(),
        forall|k: u64| #[trigger]
            before.has(k) ==> {
                &&& after.spec_definitions()[k].argument_reservation
                    == before.spec_definitions()[k].argument_reservation
                &&& after.spec_definitions()[k].name == before.spec_definitions()[k].name
                &&& after.spec_definitions()[k].flags == before.spec_definitions()[k].flags
                &&& after.spec_definitions()[k].args == before.spec_definitions()[k].args
                &&& after.spec_definitions()[k].catalog_committed
                    == before.spec_definitions()[k].catalog_committed
            },
    ensures
        after.wf(),
{
    before.registry.definitions.lemma_rows();
    after.registry.definitions.lemma_rows();
    assert forall|k: u64| #[trigger] before.spec_definitions().dom().contains(k) implies
        before.spec_definitions()[k].argument_reservation
        == after.spec_definitions()[k].argument_reservation by {
        assert(before.has(k));
    }
    lemma_same_weight(
        before.registry.definitions.spec_rows(),
        after.registry.definitions.spec_rows(),
    );
    let m = before.spec_definitions();
    let n = after.spec_definitions();
    assert forall|a: u64, b: u64|
        #![trigger n[a], n[b]]
        n.dom().contains(a) && n.dom().contains(b) && a != b && n[a].spec_persistent()
            && n[b].spec_persistent() implies n[a].name@ != n[b].name@ by {
        assert(before.has(a) && before.has(b));
        assert(m[a].name@ != m[b].name@);
    }
    assert forall|k: u64| #[trigger] after.registry.definitions@.dom().contains(k) implies
        arguments_stored(after.registry.definitions@[k]) by {
        assert(before.has(k));
    }
}

/// Rows of the same ids whose arguments hold the same weigh the same.
proof fn lemma_same_weight(a: Seq<(u64, Definition)>, b: Seq<(u64, Definition)>)
    requires
        ascending(a),
        ascending(b),
        crate::id_map::rows_map(a).dom() == crate::id_map::rows_map(b).dom(),
        forall|k: u64| #[trigger]
            crate::id_map::rows_map(a).dom().contains(k) ==> crate::id_map::rows_map(
                a,
            )[k].argument_reservation == crate::id_map::rows_map(b)[k].argument_reservation,
    ensures
        weigh(a, reservation()) == weigh(b, reservation()),
    decreases a.len(),
{
    let ma = crate::id_map::rows_map(a);
    let mb = crate::id_map::rows_map(b);
    if a.len() == 0 {
        if b.len() > 0 {
            lemma_row_of(b, 0);
            assert(ma.dom().contains(b[0].0));
            assert(crate::id_map::has_row(a, b[0].0));
        }
    } else {
        lemma_row_of(a, a.len() - 1);
        assert(mb.dom().contains(a.last().0));
        if b.len() == 0 {
            assert(crate::id_map::has_row(b, a.last().0));
        }
        lemma_row_of(b, b.len() - 1);
        assert(ma.dom().contains(b.last().0));
        assert(crate::id_map::has_row(a, b.last().0));
        assert(crate::id_map::has_row(b, a.last().0));
        let i = row_of(a, b.last().0);
        let j = row_of(b, a.last().0);
        if a.last().0 != b.last().0 {
            assert(a[i].0 < a[a.len() - 1].0);
            assert(b[j].0 < b[b.len() - 1].0);
        }
        let fa = a.drop_last();
        let fb = b.drop_last();
        assert forall|k: u64| crate::id_map::rows_map(fa).dom().contains(k)
            == crate::id_map::rows_map(fb).dom().contains(k) by {
            crate::id_map::lemma_front_rows(a, k);
            crate::id_map::lemma_front_rows(b, k);
            assert(ma.dom().contains(k) == mb.dom().contains(k));
        }
        assert(crate::id_map::rows_map(fa).dom() =~= crate::id_map::rows_map(fb).dom());
        assert forall|k: u64| #[trigger] crate::id_map::rows_map(fa).dom().contains(k) implies
            crate::id_map::rows_map(fa)[k].argument_reservation == crate::id_map::rows_map(
            fb,
        )[k].argument_reservation by {
            crate::id_map::lemma_front_rows(a, k);
            crate::id_map::lemma_front_rows(b, k);
            let m = row_of(fa, k);
            lemma_row_of(fa, m);
            lemma_row_of(a, m);
            assert(crate::id_map::rows_map(fb).dom().contains(k));
            let n = row_of(fb, k);
            lemma_row_of(fb, n);
            lemma_row_of(b, n);
            assert(ma.dom().contains(k));
        }
        lemma_same_weight(fa, fb);
    }
}

} // verus!
