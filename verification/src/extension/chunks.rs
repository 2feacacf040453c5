//! The bytes of chunks that are under validation, and the order in which a put
//! request is worked through while it holds them.

use vstd::prelude::*;

use crate::extension::budget::Budget;
use crate::extension::service::{ticket_bytes, ticketed};
use crate::id_map::{lemma_weigh_insert, lemma_weigh_remove, IdMap};

verus! {

/// What the put requests in work are charged for, each under a ticket.
pub struct Chunks {
    budget: Budget,
    tickets: IdMap<usize>,
}

impl Chunks {
    /// The bytes under each ticket.
    pub closed spec fn spec_tickets(self) -> Map<u64, usize> {
        self.tickets@
    }

    pub closed spec fn spec_used(self) -> usize {
        self.budget.spec_used()
    }

    pub closed spec fn spec_max(self) -> usize {
        self.budget.spec_max()
    }

    /// What is used is what the tickets hold, and never exceeds the bound.
    pub closed spec fn wf(self) -> bool {
        &&& self.budget.wf()
        &&& self.tickets.wf()
        &&& self.budget.spec_used() as nat == ticketed(self.tickets)
    }

    pub fn new(max: usize) -> (c: Chunks)
        ensures
            c.wf(),
            c.spec_max() == max,
            c.spec_used() == 0,
            c.spec_tickets() == Map::<u64, usize>::empty(),
    {
        let c = Chunks { budget: Budget::new(max), tickets: IdMap::new() };
        proof {
            c.tickets.lemma_empty();
        }
        c
    }

    pub fn used(&self) -> (u: usize)
        ensures
            u == self.spec_used(),
    {
        self.budget.used()
    }

    /// Charges a chunk while it is under validation: the first, which may find
    /// the object, and the last, which completes it, unless the chunk was
    /// admitted before. A chunk that does not fit is refused.
    pub fn charge(&mut self, begin: bool, last: bool, admitted: bool, len: usize) -> (r: Result<
        Option<u64>,
        (),
    >)
        requires
            old(self).wf(),
        ensures
            final(self).wf(),
            final(self).spec_max() == old(self).spec_max(),
            r is Err <==> spec_charged(begin, last, admitted) && old(self).spec_used() + len
                > old(self).spec_max(),
            r is Err ==> *final(self) == *old(self),
            r matches Ok(t) ==> chunk_charged(
                *old(self),
                *final(self),
                t,
                spec_charged(begin, last, admitted),
                len,
            ),
    {
        if !(begin || last) || admitted {
            return Ok(None);
        }
        let ghost start = *self;
        if !self.budget.try_reserve(len) {
            return Err(());
        }
        let ticket = self.tickets.free_id();
        self.tickets.insert(ticket, len);
        proof {
            lemma_weigh_insert(start.tickets, self.tickets, ticket, ticket_bytes());
        }
        Ok(Some(ticket))
    }

    /// Gives back what is charged under a ticket.
    fn give_back(&mut self, ticket: Option<u64>)
        requires
            old(self).wf(),
        ensures
            final(self).wf(),
            chunk_returned(*old(self), *final(self), ticket),
    {
        let ghost start = *self;
        match ticket {
            None => {},
            Some(t) => match self.tickets.remove(t) {
                None => {
                    proof {
                        assert(start.tickets@.remove(t) =~= start.tickets@);
                        self.tickets.lemma_same(start.tickets);
                    }
                },
                Some(bytes) => {
                    proof {
                        lemma_weigh_remove(start.tickets, self.tickets, t, ticket_bytes());
                    }
                    self.budget.release(bytes);
                },
            },
        }
    }
}

/// Whether a chunk is charged.
pub open spec fn spec_charged(begin: bool, last: bool, admitted: bool) -> bool {
    (begin || last) && !admitted
}

/// Whether a chunk of `len` bytes was charged under a new ticket, or needed none.
pub open spec fn chunk_charged(
    before: Chunks,
    after: Chunks,
    ticket: Option<u64>,
    charged: bool,
    len: usize,
) -> bool {
    &&& ticket is Some <==> charged
    &&& match ticket {
        Some(t) => {
            &&& !before.spec_tickets().dom().contains(t)
            &&& after.spec_tickets() == before.spec_tickets().insert(t, len)
            &&& after.spec_used() == before.spec_used() + len
        },
        None => after == before,
    }
}

/// Whether what was charged under a ticket was given back, and nothing else
/// changed.
pub open spec fn chunk_returned(before: Chunks, after: Chunks, ticket: Option<u64>) -> bool {
    &&& after.spec_max() == before.spec_max()
    &&& match ticket {
        Some(t) => {
            &&& after.spec_tickets() == before.spec_tickets().remove(t)
            &&& after.spec_used() == if before.spec_tickets().dom().contains(t) {
                before.spec_used() - before.spec_tickets()[t]
            } else {
                before.spec_used() as int
            }
        },
        None => after == before,
    }
}

/// Where a put request stands.
#[derive(Clone, Copy, Debug, PartialEq, Eq, Structural)]
pub enum PutStage {
    /// Its bytes are to be charged.
    Arrived,
    /// The reply that there is no room is sent.
    Refusing,
    /// It waits for a place among the validations, where it needs one.
    Waiting,
    /// The object is looked up, and the store's other work is waited out.
    Looking,
    /// The store takes the chunk.
    Uploading,
    /// The result is applied to the definitions that wait, and answered.
    Applying,
    Done,
}

/// What came of the last thing that was asked for a put request.
#[derive(Clone, Copy, Debug, PartialEq, Eq, Structural)]
pub enum PutStep {
    Charged,
    Full,
    Placed,
    Looked,
    /// The connection's jobs were cancelled, or the request was dropped.
    Cancelled,
    /// The upload is done, whatever came of it.
    Uploaded,
    /// The reply was sent.
    Sent,
}

/// The stage of a put request that comes next. A step that cannot come changes
/// nothing.
pub open spec fn next_put(s: PutStage, step: PutStep) -> PutStage {
    match (s, step) {
        (_, PutStep::Cancelled) => PutStage::Done,
        (PutStage::Arrived, PutStep::Charged) => PutStage::Waiting,
        (PutStage::Arrived, PutStep::Full) => PutStage::Refusing,
        (PutStage::Refusing, PutStep::Sent) => PutStage::Done,
        (PutStage::Waiting, PutStep::Placed) => PutStage::Looking,
        (PutStage::Looking, PutStep::Looked) => PutStage::Uploading,
        (PutStage::Uploading, PutStep::Uploaded) => PutStage::Applying,
        (PutStage::Applying, PutStep::Sent) => PutStage::Done,
        _ => s,
    }
}

fn put_step(s: PutStage, step: PutStep) -> (r: PutStage)
    ensures
        r == next_put(s, step),
{
    match (s, step) {
        (_, PutStep::Cancelled) => PutStage::Done,
        (PutStage::Arrived, PutStep::Charged) => PutStage::Waiting,
        (PutStage::Arrived, PutStep::Full) => PutStage::Refusing,
        (PutStage::Refusing, PutStep::Sent) => PutStage::Done,
        (PutStage::Waiting, PutStep::Placed) => PutStage::Looking,
        (PutStage::Looking, PutStep::Looked) => PutStage::Uploading,
        (PutStage::Uploading, PutStep::Uploaded) => PutStage::Applying,
        (PutStage::Applying, PutStep::Sent) => PutStage::Done,
        _ => s,
    }
}

/// What a put request may hold.
#[derive(Clone, Copy, Debug, PartialEq, Eq, Structural)]
pub struct PutHeld {
    /// The charge of its bytes.
    pub charge: bool,
    /// A place among the validations.
    pub place: bool,
}

/// What a put request may hold at a stage.
pub open spec fn spec_put_held(s: PutStage) -> PutHeld {
    match s {
        PutStage::Waiting => PutHeld { charge: true, place: false },
        PutStage::Looking => PutHeld { charge: true, place: true },
        PutStage::Uploading => PutHeld { charge: true, place: true },
        PutStage::Applying => PutHeld { charge: true, place: true },
        _ => PutHeld { charge: false, place: false },
    }
}

pub fn put_held(s: PutStage) -> (h: PutHeld)
    ensures
        h == spec_put_held(s),
{
    match s {
        PutStage::Waiting => PutHeld { charge: true, place: false },
        PutStage::Looking => PutHeld { charge: true, place: true },
        PutStage::Uploading => PutHeld { charge: true, place: true },
        PutStage::Applying => PutHeld { charge: true, place: true },
        _ => PutHeld { charge: false, place: false },
    }
}

/// How far a put request has come.
pub open spec fn put_progress(s: PutStage) -> nat {
    match s {
        PutStage::Arrived => 0,
        PutStage::Waiting => 1,
        PutStage::Looking => 2,
        PutStage::Uploading => 3,
        PutStage::Applying => 4,
        PutStage::Refusing => 4,
        PutStage::Done => 5,
    }
}

/// A put request, with the ticket that its bytes are charged under.
pub struct PutRequest {
    stage: PutStage,
    ticket: Option<u64>,
}

impl PutRequest {
    pub closed spec fn spec_stage(self) -> PutStage {
        self.stage
    }

    pub closed spec fn spec_ticket(self) -> Option<u64> {
        self.ticket
    }

    /// A request has a ticket only while it may be charged.
    pub open spec fn wf(self) -> bool {
        self.spec_ticket() is Some ==> spec_put_held(self.spec_stage()).charge
    }

    pub fn stage(&self) -> (s: PutStage)
        ensures
            s == self.spec_stage(),
    {
        self.stage
    }

    /// Takes a request up: its bytes are charged, or there is no room for them.
    pub fn arrive(chunks: &mut Chunks, begin: bool, last: bool, admitted: bool, len: usize) -> (r:
        PutRequest)
        requires
            old(chunks).wf(),
        ensures
            final(chunks).wf(),
            final(chunks).spec_max() == old(chunks).spec_max(),
            r.wf(),
            r.spec_stage() == next_put(
                PutStage::Arrived,
                if spec_charged(begin, last, admitted) && old(chunks).spec_used() + len > old(
                    chunks,
                ).spec_max() {
                    PutStep::Full
                } else {
                    PutStep::Charged
                },
            ),
            r.spec_stage() == PutStage::Refusing ==> *final(chunks) == *old(chunks),
            r.spec_stage() == PutStage::Waiting ==> chunk_charged(
                *old(chunks),
                *final(chunks),
                r.spec_ticket(),
                spec_charged(begin, last, admitted),
                len,
            ),
    {
        match chunks.charge(begin, last, admitted, len) {
            Ok(ticket) => PutRequest { stage: PutStage::Waiting, ticket },
            Err(_) => PutRequest { stage: PutStage::Refusing, ticket: None },
        }
    }

    /// Takes a request on. Where it ends, however it ends, what it was charged
    /// for is given back.
    pub fn advance(&mut self, chunks: &mut Chunks, step: PutStep)
        requires
            old(self).wf(),
            old(chunks).wf(),
        ensures
            final(self).wf(),
            final(chunks).wf(),
            final(self).spec_stage() == next_put(old(self).spec_stage(), step),
            if spec_put_held(final(self).spec_stage()).charge {
                &&& final(self).spec_ticket() == old(self).spec_ticket()
                &&& *final(chunks) == *old(chunks)
            } else {
                &&& final(self).spec_ticket() is None
                &&& chunk_returned(*old(chunks), *final(chunks), old(self).spec_ticket())
            },
    {
        self.stage = put_step(self.stage, step);
        if !put_held(self.stage).charge {
            chunks.give_back(self.ticket);
            self.ticket = None;
        }
    }
}

/// A request that is over holds nothing, and one holds its charge and its place
/// from when it gets them to its end.
pub proof fn law_put_ends_with_nothing_held(s: PutStage, step: PutStep)
    ensures
        spec_put_held(PutStage::Done) == (PutHeld { charge: false, place: false }),
        spec_put_held(s).charge && !spec_put_held(next_put(s, step)).charge ==> next_put(s, step)
            == PutStage::Done,
        spec_put_held(s).place && !spec_put_held(next_put(s, step)).place ==> next_put(s, step)
            == PutStage::Done,
        spec_put_held(s).place ==> spec_put_held(s).charge,
{
}

/// When a request ends, the bytes under validation are back where they were:
/// what it was charged for is gone, whatever others were charged for meanwhile.
pub proof fn law_put_gives_its_charge_back(
    before: Chunks,
    charged: Chunks,
    mid: Chunks,
    after: Chunks,
    ticket: Option<u64>,
    len: usize,
)
    requires
        chunk_charged(before, charged, ticket, ticket is Some, len),
        ticket matches Some(t) ==> mid.spec_tickets().dom().contains(t)
            && mid.spec_tickets()[t] == len,
        chunk_returned(mid, after, ticket),
    ensures
        after.spec_used() == mid.spec_used() - (if ticket is Some {
            len as int
        } else {
            0
        }),
        mid == charged ==> after.spec_used() == before.spec_used() && after.spec_tickets()
            == before.spec_tickets(),
{
    if mid == charged {
        assert(after.spec_tickets() =~= before.spec_tickets());
    }
}

/// Requests do not touch each other's charges.
pub proof fn law_charges_are_kept_apart(
    before: Chunks,
    after: Chunks,
    mine: u64,
    other: Option<u64>,
    charged: bool,
    len: usize,
)
    requires
        before.spec_tickets().dom().contains(mine),
        chunk_charged(before, after, other, charged, len) || (other != Some(mine)
            && chunk_returned(before, after, other)),
    ensures
        other != Some(mine),
        after.spec_tickets().dom().contains(mine),
        after.spec_tickets()[mine] == before.spec_tickets()[mine],
{
}

/// A put request ends, and is answered once, unless it was cancelled. One that found no room is only answered: the store is not touched.
pub proof fn law_put_is_answered_once(s: PutStage, step: PutStep)
    ensures
        next_put(s, step) == s || put_progress(next_put(s, step)) > put_progress(s),
        next_put(PutStage::Done, step) == PutStage::Done,
        s != PutStage::Done && next_put(s, step) == PutStage::Done ==> step == PutStep::Cancelled
            || (step == PutStep::Sent && (s == PutStage::Applying || s == PutStage::Refusing)),
        next_put(s, PutStep::Cancelled) == PutStage::Done,
        s == PutStage::Refusing ==> next_put(s, step) == PutStage::Refusing || next_put(s, step)
            == PutStage::Done,
        next_put(s, step) == PutStage::Uploading && s != PutStage::Uploading ==> s
            == PutStage::Looking && step == PutStep::Looked,
{
}

} // verus!
