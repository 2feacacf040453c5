//! Connections that go away, definitions that come back at startup, and the
//! shutdown of the server.

use vstd::prelude::*;

use crate::extension::attempt::{
    assignable, lemma_same_ids, may_publish, still_current, Publication,
};
use crate::extension::definition::{Control, Definition, Snapshot};
use crate::extension::lifecycle::owner_closed;
use crate::extension::output::Registry;
use crate::extension::protocol::{Interrupt, Phase};
use crate::extension::run::lemma_held;
use crate::extension::service::{harmless, lemma_swept, Service};
use crate::extension::supervise::{may_supervise, still_queued, to_run};
use crate::id_map::{ascending, lemma_row_of, row_of};

verus! {

/// What a definition becomes when an endpoint goes away: it is followed no
/// longer, and an attached definition is closed with its owner.
pub open spec fn departed(d: Definition, e: Definition, endpoint: u64) -> bool {
    &&& e.followers.wf()
    &&& e.followers@ == d.followers@.remove(endpoint)
    &&& if d.owner_endpoint == Some(endpoint) {
        owner_closed(Definition { followers: e.followers, ..d }, e)
    } else {
        e == (Definition { followers: e.followers, ..d })
    }
}

/// A definition that was attached to an endpoint that went away. It is to be
/// announced, and what waits for its supervisor waits for this one.
#[derive(Clone, Copy, Debug, PartialEq, Eq, Structural)]
pub struct Orphan {
    pub extension_id: u64,
    /// The attempt to cancel. Without one the definition is taken away once it
    /// was announced.
    pub cancel: Option<Control>,
}

/// Whether a list holds the definitions that are attached to an endpoint, in
/// ascending order.
pub open spec fn orphans_of(rows: Seq<(u64, Definition)>, endpoint: u64) -> Seq<Orphan>
    decreases rows.len(),
{
    if rows.len() == 0 {
        Seq::empty()
    } else {
        let d = rows.last().1;
        let before = orphans_of(rows.drop_last(), endpoint);
        if d.owner_endpoint == Some(endpoint) {
            before.push(Orphan { extension_id: rows.last().0, cancel: d.control })
        } else {
            before
        }
    }
}

/// The attempts under way, in the order of their definitions.
pub open spec fn controls_of(rows: Seq<(u64, Definition)>) -> Seq<(u64, Control)>
    decreases rows.len(),
{
    if rows.len() == 0 {
        Seq::empty()
    } else {
        match rows.last().1.control {
            Some(c) => controls_of(rows.drop_last()).push((rows.last().0, c)),
            None => controls_of(rows.drop_last()),
        }
    }
}

/// Whether a definition comes back at startup.
pub open spec fn comes_back(d: Definition) -> bool {
    d.spec_persistent() && d.spec_wanted() && d.object_pinned && d.phase != Phase::Blocked
}

/// How long a start that is due at `at` is to be waited for.
pub open spec fn delay_until(at: u64, now: u64) -> u64 {
    if at > now {
        (at - now) as u64
    } else {
        0
    }
}

/// The definitions that come back, each with how long it waits first.
pub open spec fn restored(rows: Seq<(u64, Definition)>, now_unix_ms: u64) -> Seq<(u64, u64)>
    decreases rows.len(),
{
    if rows.len() == 0 {
        Seq::empty()
    } else {
        let d = rows.last().1;
        let before = restored(rows.drop_last(), now_unix_ms);
        if comes_back(d) {
            before.push((rows.last().0, delay_until(d.next_start_unix_ms, now_unix_ms)))
        } else {
            before
        }
    }
}

impl Service {
    /// An endpoint went away. Returns the definitions that were attached to it.
    pub fn unregister_endpoint(&mut self, endpoint: u64) -> (orphans: Vec<Orphan>)
        requires
            old(self).wf(),
        ensures
            final(self).wf(),
            *final(self) == (Service {
                registry: final(self).registry,
                endpoints: final(self).endpoints,
                ..*old(self)
            }),
            final(self).endpoints@ == old(self).endpoints@.remove(endpoint),
            final(self).registry.packets == old(self).registry.packets,
            final(self).spec_definitions().dom() == old(self).spec_definitions().dom(),
            forall|k: u64| #[trigger]
                old(self).has(k) ==> departed(
                    old(self).spec_definitions()[k],
                    final(self).spec_definitions()[k],
                    endpoint,
                ),
            orphans@ == orphans_of(old(self).registry.definitions.spec_rows(), endpoint),
    {
        let ghost start = *self;
        let ghost rows0 = self.registry.definitions.spec_rows();
        let _ = self.endpoints.remove(endpoint);
        proof {
            self.registry.definitions.lemma_rows();
        }
        let mut orphans: Vec<Orphan> = Vec::new();
        let n: usize = self.registry.definitions.len();
        let mut i: usize = 0;
        while i < n
            invariant
                i <= n,
                n == rows0.len(),
                start.wf(),
                rows0 == start.registry.definitions.spec_rows(),
                ascending(rows0),
                self.registry.definitions.wf(),
                self.registry.definitions.spec_rows().len() == n,
                *self == (Service {
                    registry: self.registry,
                    endpoints: self.endpoints,
                    ..start
                }),
                self.endpoints.wf(),
                self.endpoints@ == start.endpoints@.remove(endpoint),
                self.registry == (Registry {
                    definitions: self.registry.definitions,
                    ..start.registry
                }),
                forall|k: int|
                    0 <= k < n ==> (#[trigger] self.registry.definitions.spec_rows()[k]).0
                        == rows0[k].0,
                forall|k: int|
                    i <= k < n ==> #[trigger] self.registry.definitions.spec_rows()[k] == rows0[k],
                forall|k: int|
                    0 <= k < i ==> departed(
                        rows0[k].1,
                        (#[trigger] self.registry.definitions.spec_rows()[k]).1,
                        endpoint,
                    ),
                orphans@ == orphans_of(rows0.take(i as int), endpoint),
            decreases n - i,
        {
            let id: u64 = self.registry.definitions.id_at(i);
            proof {
                lemma_row_of(rows0, i as int);
                assert(start.has(rows0[i as int].0));
                lemma_held(start, rows0[i as int].0);
                assert(rows0.take(i + 1).drop_last() =~= rows0.take(i as int));
                assert(rows0.take(i + 1).last() == rows0[i as int]);
                assert(self.registry.definitions.spec_rows()[i as int] == rows0[i as int]);
            }
            let d = self.registry.definitions.at_mut(i);
            let _ = d.followers.remove(endpoint);
            let mine: bool = match d.owner_endpoint {
                Some(o) => o == endpoint,
                None => false,
            };
            if mine {
                orphans.push(Orphan { extension_id: id, cancel: d.control });
                d.close_owner();
            }
            i = i + 1;
        }
        proof {
            let rows1 = self.registry.definitions.spec_rows();
            self.registry.definitions.lemma_rows();
            lemma_same_ids(rows0, rows1);
            assert(rows0.take(rows0.len() as int) =~= rows0);
            assert forall|k: u64| #[trigger] start.has(k) implies departed(
                start.spec_definitions()[k],
                self.spec_definitions()[k],
                endpoint,
            ) by {
                let x = row_of(rows0, k);
                lemma_row_of(rows0, x);
                lemma_row_of(rows1, x);
                assert(rows1[x].0 == k);
            }
            assert forall|k: u64| #[trigger] start.has(k) implies harmless(
                start.spec_definitions()[k],
                self.spec_definitions()[k],
            ) && self.spec_definitions()[k].argument_reservation
                == start.spec_definitions()[k].argument_reservation by {
                assert(departed(
                    start.spec_definitions()[k],
                    self.spec_definitions()[k],
                    endpoint,
                ));
            }
            lemma_swept(start, *self);
        }
        orphans
    }

    /// The definitions that come back at startup, each with the milliseconds
    /// to wait first. There are none where persistent extensions are not
    /// allowed or the service is not `available`.
    pub fn restore(&self, available: bool, now_unix_ms: u64) -> (list: Vec<(u64, u64)>)
        requires
            self.wf(),
        ensures
            list@ == if self.limits.persist_allowed && available {
                restored(self.registry.definitions.spec_rows(), now_unix_ms)
            } else {
                Seq::empty()
            },
    {
        let mut list: Vec<(u64, u64)> = Vec::new();
        if !self.limits.persist_allowed || !available {
            return list;
        }
        let ghost rows = self.registry.definitions.spec_rows();
        let mut i: usize = 0;
        while i < self.registry.definitions.len()
            invariant
                i <= rows.len(),
                self.wf(),
                rows == self.registry.definitions.spec_rows(),
                list@ == restored(rows.take(i as int), now_unix_ms),
            decreases rows.len() - i,
        {
            let id: u64 = self.registry.definitions.id_at(i);
            let d = self.registry.definitions.value_at(i);
            proof {
                assert(rows.take(i + 1).drop_last() =~= rows.take(i as int));
                assert(rows.take(i + 1).last() == rows[i as int]);
            }
            let blocked: bool = match d.phase {
                Phase::Blocked => true,
                _ => false,
            };
            if d.persistent() && d.wanted() && d.object_pinned && !blocked {
                list.push((id, d.next_start_unix_ms.saturating_sub(now_unix_ms)));
            }
            i = i + 1;
        }
        proof {
            assert(rows.take(rows.len() as int) =~= rows);
        }
        list
    }

    /// Begins the shutdown: nothing starts any more, and every definition is
    /// interrupted. Returns the attempts to cancel.
    pub fn begin_shutdown(&mut self) -> (cancel: Vec<(u64, Control)>)
        requires
            old(self).wf(),
        ensures
            final(self).wf(),
            *final(self) == (Service {
                registry: final(self).registry,
                shutting_down: true,
                ..*old(self)
            }),
            final(self).registry.packets == old(self).registry.packets,
            final(self).spec_definitions().dom() == old(self).spec_definitions().dom(),
            forall|k: u64| #[trigger]
                old(self).has(k) ==> final(self).spec_definitions()[k] == (Definition {
                    interrupt: Some(Interrupt::ServerShutdown),
                    ..old(self).spec_definitions()[k]
                }),
            cancel@ == controls_of(old(self).registry.definitions.spec_rows()),
    {
        let ghost start = *self;
        let ghost rows0 = self.registry.definitions.spec_rows();
        proof {
            self.registry.definitions.lemma_rows();
        }
        self.shutting_down = true;
        let mut cancel: Vec<(u64, Control)> = Vec::new();
        let n: usize = self.registry.definitions.len();
        let mut i: usize = 0;
        while i < n
            invariant
                i <= n,
                n == rows0.len(),
                rows0 == start.registry.definitions.spec_rows(),
                ascending(rows0),
                self.registry.definitions.wf(),
                self.registry.definitions.spec_rows().len() == n,
                *self == (Service { registry: self.registry, shutting_down: true, ..start }),
                self.registry == (Registry {
                    definitions: self.registry.definitions,
                    ..start.registry
                }),
                forall|k: int|
                    0 <= k < n ==> (#[trigger] self.registry.definitions.spec_rows()[k]).0
                        == rows0[k].0,
                forall|k: int|
                    i <= k < n ==> #[trigger] self.registry.definitions.spec_rows()[k] == rows0[k],
                forall|k: int|
                    0 <= k < i ==> (#[trigger] self.registry.definitions.spec_rows()[k]).1 == (
                    Definition { interrupt: Some(Interrupt::ServerShutdown), ..rows0[k].1 }),
                cancel@ == controls_of(rows0.take(i as int)),
            decreases n - i,
        {
            let id: u64 = self.registry.definitions.id_at(i);
            proof {
                assert(rows0.take(i + 1).drop_last() =~= rows0.take(i as int));
                assert(rows0.take(i + 1).last() == rows0[i as int]);
                assert(self.registry.definitions.spec_rows()[i as int] == rows0[i as int]);
            }
            let d = self.registry.definitions.at_mut(i);
            d.interrupt = Some(Interrupt::ServerShutdown);
            match d.control {
                Some(c) => {
                    cancel.push((id, c));
                },
                None => {},
            }
            i = i + 1;
        }
        proof {
            let rows1 = self.registry.definitions.spec_rows();
            self.registry.definitions.lemma_rows();
            lemma_same_ids(rows0, rows1);
            assert(rows0.take(rows0.len() as int) =~= rows0);
            assert forall|k: u64| #[trigger] start.has(k) implies self.spec_definitions()[k] == (
            Definition {
                interrupt: Some(Interrupt::ServerShutdown),
                ..start.spec_definitions()[k]
            }) by {
                let x = row_of(rows0, k);
                lemma_row_of(rows0, x);
                lemma_row_of(rows1, x);
                assert(rows1[x].0 == k);
            }
            assert forall|k: u64| #[trigger] start.has(k) implies harmless(
                start.spec_definitions()[k],
                self.spec_definitions()[k],
            ) && self.spec_definitions()[k].argument_reservation
                == start.spec_definitions()[k].argument_reservation by {
                lemma_held(start, k);
            }
            lemma_swept(start, *self);
        }
        cancel
    }

    /// Whether every supervisor has ended.
    pub fn drained(&self) -> (r: bool)
        requires
            self.wf(),
        ensures
            r == (self.supervisors.spec_rows().len() == 0),
    {
        self.supervisors.len() == 0
    }
}

/// Once the shutdown has begun nothing starts: no supervisor, no attempt, and no
/// attempt is published.
pub proof fn law_shutdown_seals(
    s: Service,
    id: u64,
    generation: u64,
    revision: u64,
    attempt: u64,
    snapshot: Snapshot,
    p: Publication,
)
    requires
        s.shutting_down,
    ensures
        !may_supervise(s, id),
        !to_run(s, id),
        !still_queued(s, id, generation),
        !still_current(s, snapshot),
        !assignable(s, id, generation, revision, attempt),
        !may_publish(s, p),
{
}

/// Only definitions that were attached to an endpoint end with it; all others
/// merely lose a follower.
pub proof fn law_departure_is_local(d: Definition, e: Definition, endpoint: u64)
    requires
        departed(d, e, endpoint),
        d.owner_endpoint != Some(endpoint),
    ensures
        e.phase == d.phase,
        e.flags == d.flags,
        e.control == d.control,
        e.generation == d.generation,
        !e.followers@.dom().contains(endpoint),
        forall|other: u64| #[trigger]
            d.followers@.dom().contains(other) && other != endpoint
                ==> e.followers@.dom().contains(other) && e.followers@[other]
                == d.followers@[other],
{
}

} // verus!
