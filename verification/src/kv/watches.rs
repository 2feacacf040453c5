//! The subscriptions of all connections, and how a change reaches them.

use vstd::prelude::*;

use crate::bytes::byte_seqs;
use crate::id_map::{ascending, lemma_row_of, IdMap};
use crate::kv::sessions::{id_free, KvSubs, SubsView, KV_ID_INVALID};
use crate::kv::subscription::{
    address, addressed, after_ack, delivered, flushed, gone_live, one_sent, sent_views, Outcome,
    Sent, SentView, SubEntry, SubView, UPDATE_HEADER,
};
use crate::text::{begins_with, starts_with};

verus! {

/// One subscription as the store holds it.
pub struct Watch {
    pub connection: u64,
    pub sub: SubEntry,
    /// Whether changes still reach it.
    pub watched: bool,
}

/// What a [`Watch`] is.
pub ghost struct WatchView {
    pub connection: u64,
    pub sub: SubView,
    pub watched: bool,
}

impl View for Watch {
    type V = WatchView;

    open spec fn view(&self) -> WatchView {
        WatchView { connection: self.connection, sub: self.sub@, watched: self.watched }
    }
}

/// A message for one connection.
pub struct Delivery {
    pub connection: u64,
    pub sent: Sent,
}

/// What a [`Delivery`] says.
pub ghost struct DeliveryView {
    pub connection: u64,
    pub sent: SentView,
}

impl View for Delivery {
    type V = DeliveryView;

    open spec fn view(&self) -> DeliveryView {
        DeliveryView { connection: self.connection, sent: self.sent@ }
    }
}

pub open spec fn delivery_views(v: Seq<Delivery>) -> Seq<DeliveryView> {
    Seq::new(v.len(), |i: int| v[i]@)
}

/// A change as it goes out: with the value, and without it.
pub struct Change {
    /// The length of the value; none where the entry is gone.
    pub size: Option<usize>,
    pub inlined: Vec<u8>,
    pub metadata: Vec<u8>,
}

impl Change {
    pub open spec fn wf(self) -> bool {
        self.inlined@.len() >= UPDATE_HEADER && self.metadata@.len() >= UPDATE_HEADER
    }
}

/// The frame that a subscription gets: with the value where it is short enough.
pub open spec fn chosen(s: SubView, change: Change) -> Seq<u8> {
    let limit = if s.inline_max == 0 {
        u64::MAX
    } else {
        s.inline_max as u64
    };
    if change.size is Some && change.size->0 <= limit {
        change.inlined@
    } else {
        change.metadata@
    }
}

/// Whether a change reaches a watch.
pub open spec fn reached(w: WatchView, key: Seq<char>) -> bool {
    w.watched && begins_with(key, w.sub.prefix)
}

/// What a change comes to for the subscription that it reaches.
pub open spec fn notified(w: WatchView, change: Change) -> Outcome {
    delivered(w.sub, addressed(chosen(w.sub, change), w.sub.kv_id))
}

/// A watch after a change. One that cannot go on is watched no more.
pub open spec fn after_change(w: WatchView, key: Seq<char>, change: Change) -> WatchView {
    if reached(w, key) {
        WatchView { sub: notified(w, change).sub, watched: notified(w, change).ok, ..w }
    } else {
        w
    }
}

/// What one watch's connection is sent for a change.
pub open spec fn sent_for(w: WatchView, key: Seq<char>, change: Change) -> Seq<DeliveryView> {
    if reached(w, key) {
        let sent = notified(w, change).sent;
        Seq::new(sent.len(), |i: int| DeliveryView { connection: w.connection, sent: sent[i] })
    } else {
        Seq::empty()
    }
}

/// What all connections are sent for a change, in the order in which the
/// subscriptions were opened.
pub open spec fn fan_out(
    rows: Seq<(u64, Watch)>,
    key: Seq<char>,
    change: Change,
) -> Seq<DeliveryView>
    decreases rows.len(),
{
    if rows.len() == 0 {
        Seq::empty()
    } else {
        fan_out(rows.drop_last(), key, change) + sent_for(rows.last().1@, key, change)
    }
}

/// The subscriptions of all connections, by increasing number.
pub struct Watches {
    pub rows: IdMap<Watch>,
    pub next: u64,
}

impl Watches {
    /// The rows are in order, no number was used twice, and every subscription
    /// is within its bounds.
    pub open spec fn wf(self) -> bool {
        &&& self.rows.wf()
        &&& forall|w: u64|
            #![trigger self.rows@.dom().contains(w)]
            self.rows@.dom().contains(w) ==> w < self.next && self.rows@[w].sub.wf()
    }

    /// Whether a connection's ids name its own watches.
    pub open spec fn linked(self, subs: SubsView) -> bool {
        forall|kv_id: u16| #[trigger]
            subs.map.dom().contains(kv_id) ==> {
                &&& kv_id != KV_ID_INVALID
                &&& self.rows@.dom().contains(subs.map[kv_id])
                &&& self.rows@[subs.map[kv_id]].connection == subs.connection
                &&& self.rows@[subs.map[kv_id]].sub.kv_id == kv_id
            }
    }

    /// Whether a watch belongs to a connection and was given up.
    pub open spec fn given_up(self, subs: SubsView, kv_id: u16) -> bool {
        subs.map.dom().contains(kv_id) && self.rows@[subs.map[kv_id]].sub.closed
    }

    /// Whether the watches of other connections are as before.
    pub open spec fn others_kept(self, before: Self, connection: u64) -> bool {
        forall|w: u64|
            #![trigger self.rows@.dom().contains(w)]
            #![trigger before.rows@.dom().contains(w)]
            (before.rows@.dom().contains(w) && before.rows@[w].connection != connection)
                ==> self.rows@.dom().contains(w) && self.rows@[w] == before.rows@[w]
    }

    pub fn new() -> (w: Watches)
        ensures
            w.wf(),
            w.rows@ == Map::<u64, Watch>::empty(),
            w.next == 0,
    {
        Watches { rows: IdMap::new(), next: 0 }
    }

    /// Tells every subscription whose prefix the key has.
    pub fn broadcast(&mut self, key: &str, change: &Change) -> (out: Vec<Delivery>)
        requires
            old(self).wf(),
            change.wf(),
        ensures
            final(self).wf(),
            final(self).next == old(self).next,
            final(self).rows@.dom() == old(self).rows@.dom(),
            forall|w: u64| #[trigger]
                old(self).rows@.dom().contains(w) ==> final(self).rows@[w]@ == after_change(
                    old(self).rows@[w]@,
                    key@,
                    *change,
                ),
            delivery_views(out@) == fan_out(old(self).rows.spec_rows(), key@, *change),
    {
        let ghost start = self.rows.spec_rows();
        let mut out: Vec<Delivery> = Vec::new();
        let total: usize = self.rows.len();
        let mut i: usize = 0;
        proof {
            self.rows.lemma_rows();
            assert(start.take(0) =~= Seq::empty());
            assert(delivery_views(out@) =~= Seq::empty());
            assert forall|j: int| 0 <= j < total implies (#[trigger] start[j]).1.sub.wf() by {
                lemma_row_of(start, j);
                assert(self.rows@.dom().contains(start[j].0));
            }
        }
        while i < total
            invariant
                i <= total,
                total == start.len(),
                ascending(start),
                old(self).wf(),
                start == old(self).rows.spec_rows(),
                change.wf(),
                self.rows.wf(),
                self.next == old(self).next,
                self.rows.spec_rows().len() == start.len(),
                self.rows@.dom() == old(self).rows@.dom(),
                forall|j: int|
                    0 <= j < total ==> (#[trigger] self.rows.spec_rows()[j]).0 == start[j].0
                        && self.rows.spec_rows()[j].1.sub.wf(),
                forall|j: int|
                    i <= j < total ==> (#[trigger] self.rows.spec_rows()[j]) == start[j],
                forall|j: int|
                    0 <= j < i ==> (#[trigger] self.rows.spec_rows()[j]).1@ == after_change(
                        start[j].1@,
                        key@,
                        *change,
                    ),
                delivery_views(out@) == fan_out(start.take(i as int), key@, *change),
            decreases total - i,
        {
            proof {
                assert(start.take(i + 1).drop_last() =~= start.take(i as int));
                assert(start.take(i + 1).last() == start[i as int]);
                lemma_row_of(start, i as int);
                assert(self.rows.spec_rows()[i as int] == start[i as int]);
            }
            let ghost before = self.rows@;
            let w = self.rows.at_mut(i);
            let ghost was = w@;
            let connection: u64 = w.connection;
            if w.watched && starts_with(key, w.sub.prefix.as_str()) {
                let with_value: bool = match change.size {
                    Some(n) => n as u64 <= w.sub.inline_limit(),
                    None => false,
                };
                let frame = if with_value {
                    address(&change.inlined, w.sub.kv_id)
                } else {
                    address(&change.metadata, w.sub.kv_id)
                };
                let (ok, sent) = w.sub.deliver(frame);
                w.watched = ok;
                let ghost told = delivery_views(out@);
                let ghost s = one_sent(sent);
                match sent {
                    Some(sent) => {
                        out.push(Delivery { connection, sent });
                    },
                    None => {},
                }
                proof {
                    assert(delivery_views(out@) =~= told + sent_for(was, key@, *change));
                }
            } else {
                proof {
                    assert(fan_out(start.take(i as int), key@, *change) + Seq::<
                        DeliveryView,
                    >::empty() =~= fan_out(start.take(i as int), key@, *change));
                }
            }
            proof {
                assert(self.rows@.dom() =~= before.dom());
            }
            i = i + 1;
        }
        proof {
            assert(start.take(total as int) =~= start);
            let rows = self.rows.spec_rows();
            self.rows.lemma_rows();
            assert forall|w: u64| #[trigger] old(self).rows@.dom().contains(w) implies self.rows@[w]@
                == after_change(old(self).rows@[w]@, key@, *change) && w < self.next
                && self.rows@[w].sub.wf() by {
                let j = crate::id_map::row_of(start, w);
                assert(crate::id_map::has_row(start, w));
                lemma_row_of(start, j);
                lemma_row_of(rows, j);
                assert(rows[j].0 == start[j].0);
            }
        }
        out
    }

    /// Takes the subscriptions that were given up away from a connection.
    pub fn sweep(&mut self, subs: &mut KvSubs)
        requires
            old(self).wf(),
            old(self).linked(old(subs)@),
        ensures
            final(self).wf(),
            final(self).linked(final(subs)@),
            final(self).next == old(self).next,
            final(self).others_kept(*old(self), old(subs)@.connection),
            final(subs)@ == (SubsView {
                map: kept_ids(*old(self), old(subs)@),
                ..old(subs)@
            }),
            final(self).rows@ == kept_rows(*old(self), old(subs)@),
    {
        let ghost s0 = subs@;
        let ghost w0 = *self;
        let ids = self.closed_ids(subs);
        let mut n: usize = 0;
        while n < ids.len()
            invariant
                n <= ids@.len(),
                w0.wf(),
                w0.linked(s0),
                self.wf(),
                self.linked(subs@),
                self.next == w0.next,
                self.others_kept(w0, s0.connection),
                subs@ == (SubsView { map: subs@.map, ..s0 }),
                forall|k: u16|
                    #![trigger subs@.map.dom().contains(k)]
                    subs@.map.dom().contains(k) == (s0.map.dom().contains(k) && !ids@.take(
                        n as int,
                    ).contains(k)),
                forall|k: u16|
                    #![trigger subs@.map[k]]
                    subs@.map.dom().contains(k) ==> subs@.map[k] == s0.map[k]
                        && self.rows@[subs@.map[k]] == w0.rows@[s0.map[k]],
                forall|k: u16| #[trigger] ids@.contains(k) ==> w0.given_up(s0, k),
                forall|v: u64|
                    #![trigger self.rows@.dom().contains(v)]
                    self.rows@.dom().contains(v) == (w0.rows@.dom().contains(v) && !stopped(
                        s0.map,
                        ids@.take(n as int),
                        v,
                    )),
                forall|v: u64|
                    #![trigger self.rows@[v]]
                    self.rows@.dom().contains(v) ==> self.rows@[v] == w0.rows@[v],
            decreases ids@.len() - n,
        {
            let kv_id: u16 = ids[n];
            let ghost before = subs@.map;
            let ghost held = self.rows@;
            self.stop(subs, kv_id);
            proof {
                let a = ids@.take(n as int);
                let b = ids@.take(n + 1);
                assert(b =~= a.push(kv_id));
                assert forall|k: u16|
                    #![trigger subs@.map.dom().contains(k)]
                    subs@.map.dom().contains(k) == (s0.map.dom().contains(k) && !b.contains(k)) by {
                    lemma_push_contains(a, kv_id, k);
                }
                assert forall|k: u16|
                    #![trigger subs@.map[k]]
                    subs@.map.dom().contains(k) implies subs@.map[k] == s0.map[k]
                    && self.rows@[subs@.map[k]] == w0.rows@[s0.map[k]] by {
                    assert(before.dom().contains(k));
                    assert(before[k] == s0.map[k]);
                    assert(subs@.map[k] == before[k]);
                    assert(held[before[k]].sub.kv_id == k);
                    if before.dom().contains(kv_id) {
                        assert(held[before[kv_id]].sub.kv_id == kv_id);
                    }
                }
                assert forall|v: u64|
                    #![trigger self.rows@.dom().contains(v)]
                    #![trigger w0.rows@.dom().contains(v)]
                    (w0.rows@.dom().contains(v) && w0.rows@[v].connection
                        != s0.connection) implies self.rows@.dom().contains(v) && self.rows@[v]
                    == w0.rows@[v] by {
                    assert(held.dom().contains(v));
                    assert(held[v] == w0.rows@[v]);
                }
                assert forall|v: u64|
                    #![trigger self.rows@.dom().contains(v)]
                    self.rows@.dom().contains(v) == (w0.rows@.dom().contains(v) && !stopped(
                        s0.map,
                        b,
                        v,
                    )) by {
                    assert(held.dom().contains(v) == (w0.rows@.dom().contains(v) && !stopped(
                        s0.map,
                        a,
                        v,
                    )));
                    if stopped(s0.map, a, v) {
                        let i = choose|i: int| 0 <= i < a.len() && s0.map[#[trigger] a[i]] == v;
                        assert(b[i] == a[i]);
                    }
                    if stopped(s0.map, b, v) {
                        let i = choose|i: int| 0 <= i < b.len() && s0.map[#[trigger] b[i]] == v;
                        if i < n {
                            assert(a[i] == b[i]);
                        } else {
                            assert(b[i] == kv_id);
                        }
                    }
                    assert(ids@.contains(kv_id));
                    assert(s0.map.dom().contains(kv_id));
                    assert(b[n as int] == kv_id);
                    if !before.dom().contains(kv_id) {
                        assert(a.contains(kv_id));
                        let i = choose|i: int| 0 <= i < a.len() && a[i] == kv_id;
                        assert(s0.map[a[i]] == s0.map[kv_id]);
                    }
                }
            }
            n = n + 1;
        }
        proof {
            assert(ids@.take(ids@.len() as int) =~= ids@);
            assert(subs@.map =~= kept_ids(w0, s0));
            assert forall|v: u64| #[trigger]
                self.rows@.dom().contains(v) == kept_rows(w0, s0).dom().contains(v) by {
                if stopped(s0.map, ids@, v) {
                    let i = choose|i: int| 0 <= i < ids@.len() && s0.map[#[trigger] ids@[i]] == v;
                    assert(ids@.contains(ids@[i]));
                    assert(w0.given_up(s0, ids@[i]));
                }
                if gone(w0, s0, v) {
                    let k = choose|k: u16| #[trigger] w0.given_up(s0, k) && s0.map[k] == v;
                    assert(ids@.contains(k));
                    let i = choose|i: int| 0 <= i < ids@.len() && ids@[i] == k;
                    assert(s0.map[ids@[i]] == v);
                }
            }
            assert(self.rows@ =~= kept_rows(w0, s0));
        }
    }

    /// The ids of a connection whose subscriptions were given up.
    fn closed_ids(&self, subs: &KvSubs) -> (ids: Vec<u16>)
        requires
            self.wf(),
            self.linked(subs@),
        ensures
            forall|k: u16| #[trigger] ids@.contains(k) == self.given_up(subs@, k),
    {
        let ghost start = self.rows.spec_rows();
        let ghost map = subs@.map;
        let mut ids: Vec<u16> = Vec::new();
        let total: usize = self.rows.len();
        let mut i: usize = 0;
        while i < total
            invariant
                i <= total,
                total == start.len(),
                self.rows.wf(),
                self.linked(subs@),
                start == self.rows.spec_rows(),
                map == subs@.map,
                forall|k: u16| #[trigger]
                    ids@.contains(k) ==> self.given_up(subs@, k),
                forall|j: int|
                    0 <= j < i && named(map, #[trigger] start[j]) && start[j].1.sub.closed
                        ==> ids@.contains(start[j].1.sub.kv_id),
            decreases total - i,
        {
            let ghost before = ids@;
            let w = self.rows.value_at(i);
            if w.sub.is_closed() {
                let kv_id: u16 = w.sub.kv_id;
                let own: bool = match subs.get(kv_id) {
                    Some(id) => id == self.rows.id_at(i),
                    None => false,
                };
                if own {
                    ids.push(kv_id);
                    proof {
                        assert(self.given_up(subs@, kv_id));
                        assert forall|k: u16| #[trigger]
                            ids@.contains(k) implies self.given_up(subs@, k) by {
                            lemma_push_contains(before, kv_id, k);
                        }
                        assert forall|j: int|
                            0 <= j < i + 1 && named(map, #[trigger] start[j])
                                && start[j].1.sub.closed implies ids@.contains(
                            start[j].1.sub.kv_id,
                        ) by {
                            lemma_push_contains(before, kv_id, start[j].1.sub.kv_id);
                        }
                    }
                }
            }
            i = i + 1;
        }
        proof {
            self.rows.lemma_rows();
            assert forall|k: u16| #[trigger] ids@.contains(k) == self.given_up(subs@, k) by {
                if self.given_up(subs@, k) {
                    let w = map[k];
                    assert(map.dom().contains(k));
                    let j = crate::id_map::row_of(start, w);
                    assert(crate::id_map::has_row(start, w));
                    lemma_row_of(start, j);
                    assert(named(map, start[j]));
                }
            }
        }
        ids
    }

    /// Opens a watch, which is queued for until its snapshot has gone out.
    pub fn register(&mut self, connection: u64, sub: SubEntry) -> (w: u64)
        requires
            old(self).wf(),
            old(self).next < u64::MAX,
            sub.wf(),
        ensures
            final(self).wf(),
            w == old(self).next,
            final(self).next == old(self).next + 1,
            !old(self).rows@.dom().contains(w),
            final(self).rows@ == old(self).rows@.insert(
                w,
                (Watch { connection, sub, watched: true }),
            ),
    {
        let w: u64 = self.next;
        proof {
            if self.rows@.dom().contains(w) {
                assert(w < self.next);
            }
        }
        self.rows.insert(w, Watch { connection, sub, watched: true });
        self.next = self.next + 1;
        proof {
            assert forall|v: u64|
                #![trigger self.rows@.dom().contains(v)]
                self.rows@.dom().contains(v) implies v < self.next && self.rows@[v].sub.wf() by {
                if v != w {
                    assert(old(self).rows@.dom().contains(v));
                }
            }
        }
        w
    }

    /// A subscription's snapshot goes out, then what was queued meanwhile. It
    /// is kept under its id unless it was given up on the way.
    pub fn finish_open(
        &mut self,
        subs: &mut KvSubs,
        w: u64,
        snapshot: Vec<Vec<u8>>,
    ) -> (out: Vec<Sent>)
        requires
            old(self).wf(),
            old(self).linked(old(subs)@),
            old(self).rows@.dom().contains(w),
            old(self).rows@[w].connection == old(subs)@.connection,
            id_free(old(subs)@.map, old(self).rows@[w].sub.kv_id),
            forall|i: int|
                0 <= i < snapshot@.len() ==> (#[trigger] snapshot@[i])@.len() >= UPDATE_HEADER,
        ensures
            final(self).wf(),
            final(self).linked(final(subs)@),
            final(self).next == old(self).next,
            final(self).others_kept(*old(self), old(subs)@.connection),
            ({
                let was = old(self).rows@[w]@;
                let a = flushed(was.sub, byte_seqs(snapshot@));
                let b = gone_live(a.sub);
                &&& sent_views(out@) == a.sent + b.sent
                &&& b.sub.closed ==> final(self).rows@ == old(self).rows@.remove(w) && final(subs)@ == old(subs)@
                &&& !b.sub.closed ==> final(self).rows@.remove(w) == old(self).rows@.remove(w)
                    && final(self).rows@.dom().contains(w) && final(self).rows@[w]@
                    == (WatchView { sub: b.sub, ..was }) && final(subs)@ == (SubsView {
                    map: old(subs)@.map.insert(was.sub.kv_id, w),
                    ..old(subs)@
                })
            }),
    {
        let ghost w0 = *self;
        let ghost s0 = subs@;
        let mut watch: Watch = match self.rows.remove(w) {
            Some(watch) => watch,
            None => {
                return Vec::new();
            },
        };
        let kv_id: u16 = watch.sub.kv_id;
        let ghost was = watch@;
        proof {
            assert forall|k: u16| #[trigger] s0.map.dom().contains(k) implies s0.map[k] != w by {
                assert(w0.rows@[s0.map[k]].sub.kv_id == k);
            }
        }
        let out = watch.sub.open_with(snapshot);
        proof {
            lemma_flush_keeps(was.sub, byte_seqs(snapshot@));
            let a = flushed(was.sub, byte_seqs(snapshot@));
            lemma_live_keeps(a.sub);
        }
        if watch.sub.is_closed() {
            proof {
                assert(self.wf()) by {
                    assert forall|v: u64|
                        #![trigger self.rows@.dom().contains(v)]
                        self.rows@.dom().contains(v) implies v < self.next
                        && self.rows@[v].sub.wf() by {
                        assert(w0.rows@.dom().contains(v));
                    }
                }
            }
            return out;
        }
        self.rows.insert(w, watch);
        subs.set(kv_id, w);
        proof {
            assert(self.rows@.remove(w) =~= w0.rows@.remove(w));
            assert(self.wf()) by {
                assert forall|v: u64|
                    #![trigger self.rows@.dom().contains(v)]
                    self.rows@.dom().contains(v) implies v < self.next
                    && self.rows@[v].sub.wf() by {
                    assert(w0.rows@.dom().contains(v));
                }
            }
        }
        out
    }

    /// Ends a subscription. An id that names none is passed over.
    pub fn stop(&mut self, subs: &mut KvSubs, kv_id: u16)
        requires
            old(self).wf(),
            old(self).linked(old(subs)@),
        ensures
            final(self).wf(),
            final(self).linked(final(subs)@),
            final(self).next == old(self).next,
            final(self).others_kept(*old(self), old(subs)@.connection),
            final(subs)@ == (SubsView { map: old(subs)@.map.remove(kv_id), ..old(subs)@ }),
            final(self).rows@ == (if old(subs)@.map.dom().contains(kv_id) {
                old(self).rows@.remove(old(subs)@.map[kv_id])
            } else {
                old(self).rows@
            }),
    {
        let ghost w0 = *self;
        let ghost s0 = subs@;
        match subs.get(kv_id) {
            Some(w) => {
                proof {
                    assert(s0.map.dom().contains(kv_id));
                    assert forall|k: u16| #[trigger]
                        s0.map.remove(kv_id).dom().contains(k) implies s0.map[k] != w by {
                        assert(s0.map.dom().contains(k));
                        assert(w0.rows@[s0.map[k]].sub.kv_id == k);
                    }
                }
                subs.remove(kv_id);
                let _gone = self.rows.remove(w);
                proof {
                    assert(self.wf()) by {
                        assert forall|v: u64|
                            #![trigger self.rows@.dom().contains(v)]
                            self.rows@.dom().contains(v) implies v < self.next
                            && self.rows@[v].sub.wf() by {
                            assert(w0.rows@.dom().contains(v));
                        }
                    }
                }
            },
            None => {
                proof {
                    assert(s0.map.remove(kv_id) =~= s0.map);
                }
                subs.remove(kv_id);
            },
        }
    }

    /// Everything that a subscription was sent through `update_id` is
    /// acknowledged. An id that names none is passed over.
    pub fn ack(&mut self, subs: &KvSubs, kv_id: u16, update_id: u32)
        requires
            old(self).wf(),
            old(self).linked(subs@),
        ensures
            final(self).wf(),
            final(self).linked(subs@),
            final(self).next == old(self).next,
            final(self).others_kept(*old(self), subs@.connection),
            !subs@.map.dom().contains(kv_id) ==> final(self).rows@ == old(self).rows@,
            subs@.map.dom().contains(kv_id) ==> ({
                let w = subs@.map[kv_id];
                let was = old(self).rows@[w]@;
                &&& final(self).rows@.remove(w) == old(self).rows@.remove(w)
                &&& final(self).rows@.dom().contains(w)
                &&& final(self).rows@[w]@ == (WatchView {
                    sub: (SubView {
                        unacked: after_ack(was.sub.unacked, update_id),
                        ..was.sub
                    }),
                    ..was
                })
            }),
    {
        let ghost w0 = *self;
        match subs.get(kv_id) {
            Some(w) => {
                proof {
                    assert(subs@.map.dom().contains(kv_id));
                }
                match self.rows.get_mut(w) {
                    Some(watch) => {
                        watch.sub.ack(update_id);
                    },
                    None => {},
                }
                proof {
                    let now = self.rows@;
                    assert(now.remove(w) =~= w0.rows@.remove(w));
                    assert(self.wf()) by {
                        assert forall|v: u64|
                            #![trigger self.rows@.dom().contains(v)]
                            self.rows@.dom().contains(v) implies v < self.next
                            && self.rows@[v].sub.wf() by {
                            assert(w0.rows@.dom().contains(v));
                        }
                    }
                    assert forall|k: u16| #[trigger] subs@.map.dom().contains(k) implies {
                        &&& k != KV_ID_INVALID
                        &&& now.dom().contains(subs@.map[k])
                        &&& now[subs@.map[k]].connection == subs@.connection
                        &&& now[subs@.map[k]].sub.kv_id == k
                    } by {
                        assert(now[w]@.sub.kv_id == w0.rows@[w]@.sub.kv_id);
                        assert(now[w]@.connection == w0.rows@[w]@.connection);
                    }
                }
            },
            None => {},
        }
    }

    /// A connection is gone: its watches go with it.
    pub fn disconnect(&mut self, connection: u64)
        requires
            old(self).wf(),
        ensures
            final(self).wf(),
            final(self).next == old(self).next,
            forall|w: u64|
                #![trigger final(self).rows@.dom().contains(w)]
                final(self).rows@.dom().contains(w) == (old(self).rows@.dom().contains(w) && old(self).rows@[w].connection != connection),
            forall|w: u64|
                #![trigger final(self).rows@[w]]
                final(self).rows@.dom().contains(w) ==> final(self).rows@[w] == old(self).rows@[w],
    {
        let ghost w0 = *self;
        let ghost start = self.rows.spec_rows();
        let mut ids: Vec<u64> = Vec::new();
        let total: usize = self.rows.len();
        let mut i: usize = 0;
        while i < total
            invariant
                i <= total,
                total == start.len(),
                self.rows.wf(),
                start == self.rows.spec_rows(),
                *self == w0,
                forall|j: int|
                    0 <= j < i && (#[trigger] start[j]).1.connection == connection ==> ids@.contains(
                        start[j].0,
                    ),
                forall|k: int|
                    0 <= k < ids@.len() ==> w0.rows@.dom().contains(#[trigger] ids@[k])
                        && w0.rows@[ids@[k]].connection == connection,
            decreases total - i,
        {
            let ghost before = ids@;
            if self.rows.value_at(i).connection == connection {
                ids.push(self.rows.id_at(i));
                proof {
                    assert(ids@.last() == start[i as int].0);
                    assert forall|j: int|
                        0 <= j < i + 1 && (#[trigger] start[j]).1.connection
                            == connection implies ids@.contains(start[j].0) by {
                        if j < i {
                            let k = choose|k: int| 0 <= k < before.len() && before[k] == start[j].0;
                            assert(ids@[k] == start[j].0);
                        } else {
                            assert(ids@[before.len() as int] == start[j].0);
                        }
                    }
                }
            }
            i = i + 1;
        }
        let mut k: usize = 0;
        while k < ids.len()
            invariant
                k <= ids@.len(),
                w0.wf(),
                self.rows.wf(),
                self.next == w0.next,
                forall|j: int|
                    0 <= j < ids@.len() ==> w0.rows@.dom().contains(#[trigger] ids@[j])
                        && w0.rows@[ids@[j]].connection == connection,
                forall|w: u64|
                    #![trigger self.rows@.dom().contains(w)]
                    self.rows@.dom().contains(w) == (w0.rows@.dom().contains(w) && !ids@.take(
                        k as int,
                    ).contains(w)),
                forall|w: u64|
                    #![trigger self.rows@[w]]
                    self.rows@.dom().contains(w) ==> self.rows@[w] == w0.rows@[w],
            decreases ids@.len() - k,
        {
            let ghost before = self.rows@;
            let _gone = self.rows.remove(ids[k]);
            proof {
                let a = ids@.take(k as int);
                let b = ids@.take(k + 1);
                assert(b =~= a.push(ids@[k as int]));
                assert forall|w: u64|
                    #![trigger self.rows@.dom().contains(w)]
                    self.rows@.dom().contains(w) == (w0.rows@.dom().contains(w) && !b.contains(
                        w,
                    )) by {
                    if a.contains(w) {
                        let j = choose|j: int| 0 <= j < a.len() && a[j] == w;
                        assert(b[j] == w);
                    }
                    assert(b[k as int] == ids@[k as int]);
                    if b.contains(w) && !a.contains(w) {
                        let j = choose|j: int| 0 <= j < b.len() && b[j] == w;
                        if j < k {
                            assert(a[j] == w);
                        }
                    }
                }
                assert forall|w: u64|
                    #![trigger self.rows@[w]]
                    self.rows@.dom().contains(w) implies self.rows@[w] == w0.rows@[w] by {
                    assert(before.dom().contains(w) && self.rows@[w] == before[w]);
                }
            }
            k = k + 1;
        }
        proof {
            assert(ids@.take(ids@.len() as int) =~= ids@);
            w0.rows.lemma_rows();
            assert forall|w: u64|
                #![trigger self.rows@.dom().contains(w)]
                self.rows@.dom().contains(w) == (w0.rows@.dom().contains(w) && w0.rows@[w].connection
                    != connection) by {
                if w0.rows@.dom().contains(w) {
                    let j = crate::id_map::row_of(start, w);
                    assert(crate::id_map::has_row(start, w));
                    lemma_row_of(start, j);
                    assert(start[j].1 == w0.rows@[w]);
                }
            }
            assert forall|w: u64|
                #![trigger self.rows@.dom().contains(w)]
                self.rows@.dom().contains(w) implies w < self.next && self.rows@[w].sub.wf() by {
                assert(self.rows@[w] == w0.rows@[w]);
                assert(w0.rows@.dom().contains(w));
            }
        }
    }
}

/// Whether a watch is that of a subscription that was given up.
pub open spec fn gone(watches: Watches, subs: SubsView, w: u64) -> bool {
    exists|kv_id: u16| #[trigger] watches.given_up(subs, kv_id) && subs.map[kv_id] == w
}

/// The subscriptions of a connection that were not given up.
pub open spec fn kept_ids(watches: Watches, subs: SubsView) -> Map<u16, u64> {
    Map::new(
        |kv_id: u16| subs.map.dom().contains(kv_id) && !watches.given_up(subs, kv_id),
        |kv_id: u16| subs.map[kv_id],
    )
}

/// The watches without those that a connection has given up.
pub open spec fn kept_rows(watches: Watches, subs: SubsView) -> Map<u64, Watch> {
    Map::new(
        |w: u64| watches.rows@.dom().contains(w) && !gone(watches, subs, w),
        |w: u64| watches.rows@[w],
    )
}

/// Whether a watch is that of one of these subscriptions.
spec fn stopped(map: Map<u16, u64>, ids: Seq<u16>, w: u64) -> bool {
    exists|i: int| 0 <= i < ids.len() && map[#[trigger] ids[i]] == w
}

/// Whether a connection's id names this row.
pub open spec fn named(map: Map<u16, u64>, row: (u64, Watch)) -> bool {
    map.dom().contains(row.1.sub.kv_id) && map[row.1.sub.kv_id] == row.0
}

proof fn lemma_push_contains(s: Seq<u16>, x: u16, k: u16)
    ensures
        s.push(x).contains(k) == (s.contains(k) || k == x),
{
    let t = s.push(x);
    if s.contains(k) {
        let j = choose|j: int| 0 <= j < s.len() && s[j] == k;
        assert(t[j] == k);
    }
    assert(t[s.len() as int] == x);
    if t.contains(k) {
        let j = choose|j: int| 0 <= j < t.len() && t[j] == k;
        if j < s.len() {
            assert(s[j] == k);
        }
    }
}

proof fn lemma_flush_keeps(s: SubView, queue: Seq<Seq<u8>>)
    ensures
        flushed(s, queue).sub.kv_id == s.kv_id,
        flushed(s, queue).sub.prefix == s.prefix,
    decreases queue.len(),
{
    if queue.len() > 0 && !s.closed {
        let one = crate::kv::subscription::charged(s, queue[0]);
        if one.ok {
            lemma_flush_keeps(one.sub, queue.subrange(1, queue.len() as int));
        }
    }
}

proof fn lemma_live_keeps(s: SubView)
    ensures
        gone_live(s).sub.kv_id == s.kv_id,
        gone_live(s).sub.prefix == s.prefix,
{
    let queue = match s.pending {
        Some(q) => q,
        None => Seq::empty(),
    };
    lemma_flush_keeps(SubView { pending: None, ..s }, queue);
}

/// A change reaches exactly the watched subscriptions whose prefix its key has;
/// the others are left as they are and told nothing.
pub proof fn law_only_matching_prefixes_hear(w: WatchView, key: Seq<char>, change: Change)
    requires
        !begins_with(key, w.sub.prefix),
    ensures
        after_change(w, key, change) == w,
        sent_for(w, key, change).len() == 0,
{
}

} // verus!
