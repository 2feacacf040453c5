//! The registry of named listeners and connected pairs that every endpoint
//! shares.

use vstd::prelude::*;

use crate::bytes::{clone_bytes, le64, push_u64, same_bytes};
use crate::channel::keys::{keyed, lemma_owned, lemma_place, owned, place};
use crate::channel::keys::{ChannelKey, KeyMap};
use crate::channel::model::{
    accept_candidate, accepted_id, ack_sent, boundaries_after, bumped, closed_at, closed_pair,
    closing, connected, data_sent, delivery_views, departed_end, departed_ends, held, id_live,
    ill_formed, lemma_accepted_id, lemma_ack_sound, lemma_closed_sound, lemma_connected_sound,
    lemma_data_sound, lemma_departed_end_sound, lemma_listening_sound, lemma_open_failed_sound,
    lemma_released_sound, lemma_without_listeners_sound, listening, name_of, network_name,
    open_failed, paired, queued_for, refused, released, settled, sound, token, without_listeners,
};
use crate::channel::model::{
    ChannelStatus, CloseReason, Delivery, Effect, FabricView, Handle, HandleView, Hold, Limits,
    Listener, ListenerView, Packet, Pair, Side,
};
use crate::id_map::{weigh, IdMap};
use crate::text::{hex, push_digit, same_text};

verus! {

/// Named listeners and connected pairs.
pub struct ChannelFabric {
    pub enabled: bool,
    pub shutting_down: bool,
    pub boot_generation: u64,
    pub next_listener_generation: u64,
    pub next_server_id: IdMap<u32>,
    pub peer_names: IdMap<String>,
    pub listeners: KeyMap<Listener>,
    pub handles: KeyMap<Handle>,
    pub draining: KeyMap<()>,
    pub pairs: IdMap<Pair>,
    pub limits: Limits,
}

pub open spec fn listener_views(m: Map<ChannelKey, Listener>) -> Map<ChannelKey, ListenerView> {
    Map::new(|k: ChannelKey| m.dom().contains(k), |k: ChannelKey| m[k]@)
}

pub open spec fn handle_views(m: Map<ChannelKey, Handle>) -> Map<ChannelKey, HandleView> {
    Map::new(|k: ChannelKey| m.dom().contains(k), |k: ChannelKey| m[k]@)
}

pub open spec fn name_views(m: Map<u64, String>) -> Map<u64, Seq<char>> {
    Map::new(|k: u64| m.dom().contains(k), |k: u64| m[k]@)
}

/// How many of the two places of a pair an endpoint has taken.
pub open spec fn places_in(p: Pair, endpoint: u64) -> nat {
    (if p.left.endpoint == endpoint && held(p.left) {
        1nat
    } else {
        0nat
    }) + (if p.right.endpoint == endpoint && held(p.right) {
        1nat
    } else {
        0nat
    })
}

pub open spec fn place_weight(endpoint: u64) -> spec_fn(Pair) -> nat {
    |p: Pair| places_in(p, endpoint)
}

/// The window that a pair may fill, both ways.
pub open spec fn pair_window(window: u64) -> nat {
    if 2 * window > u64::MAX {
        u64::MAX as nat
    } else {
        (2 * window) as nat
    }
}

/// The listener with a name.
pub open spec fn listener_named(v: FabricView, name: Seq<char>) -> Option<ChannelKey> {
    if exists|k: ChannelKey| #[trigger]
        v.listeners.dom().contains(k) && v.listeners[k].name == name {
        Some(
            choose|k: ChannelKey| #[trigger]
                v.listeners.dom().contains(k) && v.listeners[k].name == name,
        )
    } else {
        None
    }
}

/// A fault: how the attempt ended, and why in words.
pub type Fault = (ChannelStatus, &'static str);

/// What became of the room for the first packets of a pair.
#[derive(Clone, Copy, Debug, PartialEq, Eq)]
pub enum Room {
    /// There is room for both.
    Both,
    /// The endpoint that connects has none.
    NoConnector,
    /// The listener's endpoint has none; `reply` tells whether the one that
    /// connects can be told.
    NoListener { reply: bool },
}

/// What is asked of the fabric.
pub enum ChannelRequest {
    Listen { channel_id: u32, name: String, metadata: Vec<u8> },
    Connect { channel_id: u32, name: String, metadata: Vec<u8>, token: Option<Vec<u8>> },
    Data { channel_id: u32, payload: Vec<u8> },
    Ack { channel_id: u32, bytes: u64 },
    Close { channel_id: u32, reason: u8 },
}

/// A packet as it was read.
pub enum Decoded {
    Request(ChannelRequest),
    /// It asks for nothing.
    Other,
    /// It is not well-formed; the detail says why.
    Malformed(String),
}

/// What identifies a listener.
pub struct ListenerSnapshot {
    pub endpoint: u64,
    pub channel_id: u32,
    pub generation: u64,
    pub name: String,
    pub token: Vec<u8>,
}

fn closed_packet(
    key: ChannelKey,
    reason: CloseReason,
    detail: &str,
    slot: Option<(u64, bool)>,
) -> (d: Delivery)
    ensures
        d@ == closing(key, reason, detail@, slot),
{
    Delivery {
        endpoint: key.endpoint,
        packet: Packet::Closed { channel_id: key.channel_id, reason, detail: detail.to_owned() },
        hold: Hold { slot, drain: Some(key) },
    }
}

fn one_more(n: u64, by: bool) -> (r: u64)
    ensures
        r == bumped(n, by),
{
    if by && n < u64::MAX {
        n + 1
    } else {
        n
    }
}

fn is_held(s: &Side) -> (r: bool)
    ensures
        r == held(*s),
{
    s.live || s.queued > 0
}

/// What an endpoint without a name of its own is called.
pub fn network_peer_name(endpoint: u64) -> (t: String)
    ensures
        t@ == network_name(endpoint),
{
    let mut t: String = "client:".to_owned();
    let mut bytes: Vec<u8> = Vec::new();
    push_u64(&mut bytes, endpoint);
    let ghost all = le64(endpoint).reverse();
    proof {
        crate::bytes::lemma_le_bytes_len(endpoint as nat, 8);
        assert(bytes@ =~= le64(endpoint));
        assert(all.take(0) =~= Seq::empty());
        assert("client:"@ + hex(all.take(0)) =~= t@);
    }
    let mut i: usize = 0;
    while i < 8
        invariant
            i <= 8,
            bytes@ == le64(endpoint),
            bytes@.len() == 8,
            all == le64(endpoint).reverse(),
            all.len() == 8,
            t@ == "client:"@ + hex(all.take(i as int)),
        decreases 8 - i,
    {
        let b: u8 = bytes[7 - i];
        proof {
            assert(all.take(i + 1).drop_last() =~= all.take(i as int));
            assert(all.take(i + 1).last() == b);
        }
        let ghost before = t@;
        push_digit(&mut t, b / 16);
        push_digit(&mut t, b % 16);
        proof {
            assert(t@ =~= "client:"@ + hex(all.take(i + 1)));
        }
        i = i + 1;
    }
    proof {
        assert(all.take(8) =~= all);
    }
    t
}

impl ChannelFabric {
    pub open spec fn view(self) -> FabricView {
        FabricView {
            enabled: self.enabled,
            shutting_down: self.shutting_down,
            boot_generation: self.boot_generation,
            next_listener_generation: self.next_listener_generation,
            next_server_id: self.next_server_id@,
            peer_names: name_views(self.peer_names@),
            listeners: listener_views(self.listeners@),
            handles: handle_views(self.handles@),
            draining: self.draining@.dom(),
            pairs: self.pairs@,
            limits: self.limits,
        }
    }

    pub open spec fn wf(self) -> bool {
        &&& self.next_server_id.wf()
        &&& self.peer_names.wf()
        &&& self.listeners.wf()
        &&& self.handles.wf()
        &&& self.draining.wf()
        &&& self.pairs.wf()
        &&& sound(self@)
    }

    /// How many places among the connected ends an endpoint has taken.
    pub open spec fn places(self, endpoint: u64) -> nat {
        weigh(self.pairs.spec_rows(), place_weight(endpoint))
    }

    /// How many listeners an endpoint has.
    pub open spec fn own_listeners(self, endpoint: u64) -> nat {
        owned(self.listeners.spec_rows(), endpoint).len()
    }

    /// Why a listener is refused.
    pub open spec fn listen_fault(
        self,
        key: ChannelKey,
        name: Seq<char>,
    ) -> Option<(ChannelStatus, Seq<char>)> {
        if id_live(self@, key) {
            Some((ChannelStatus::Conflict, "channel id is already live"@))
        } else if listener_named(self@, name) is Some {
            Some((ChannelStatus::Conflict, "channel name already has a listener"@))
        } else if self.listeners.spec_rows().len() >= self.limits.listeners || self.own_listeners(
            key.endpoint,
        ) >= self.limits.listen_per_client {
            Some((ChannelStatus::Budget, "channel listener budget exhausted"@))
        } else if self.next_listener_generation == u64::MAX {
            Some((ChannelStatus::Budget, "channel listener generation exhausted"@))
        } else {
            None
        }
    }

    /// Why there is no room for another pair.
    pub open spec fn pair_fault(self, connector: u64, listener: u64) -> Option<Seq<char>> {
        let needed = if connector == listener {
            2nat
        } else {
            1nat
        };
        if self.places(connector) + needed > self.limits.handles_per_client {
            Some("connected channel budget exhausted"@)
        } else if connector != listener && self.places(listener) + 1
            > self.limits.handles_per_client {
            Some("connected channel budget exhausted"@)
        } else if self.pairs.spec_rows().len() >= self.limits.connected_pairs {
            Some("connected channel budget exhausted"@)
        } else if (self.pairs.spec_rows().len() + 1) * pair_window(self.limits.window)
            > self.limits.buffer_bytes {
            Some("channel window budget exhausted"@)
        } else {
            None
        }
    }

    /// Why a connection is refused.
    pub open spec fn connect_fault(
        self,
        key: ChannelKey,
        name: Seq<char>,
        wanted: Option<Seq<u8>>,
    ) -> Option<(ChannelStatus, Seq<char>)> {
        if id_live(self@, key) {
            Some((ChannelStatus::Conflict, "channel id is already live"@))
        } else {
            match listener_named(self@, name) {
                None => Some((ChannelStatus::NotFound, "channel listener was not found"@)),
                Some(listener) => if wanted is Some && wanted->0 != token(
                    self.boot_generation,
                    self@.listeners[listener].generation,
                ) {
                    Some((ChannelStatus::Conflict, "channel listener generation changed"@))
                } else if accept_candidate(self@, listener.endpoint) is None {
                    Some((ChannelStatus::Budget, "accepted channel id space exhausted"@))
                } else {
                    match self.pair_fault(key.endpoint, listener.endpoint) {
                        Some(detail) => Some((ChannelStatus::Budget, detail)),
                        None => None,
                    }
                },
            }
        }
    }

    /// The number under which another pair is kept: the least that is free.
    pub open spec fn fresh_pair(self, p: u64) -> bool {
        !self.pairs@.dom().contains(p) && forall|k: u64|
            k < p ==> #[trigger] self.pairs@.dom().contains(k)
    }

    pub fn new(boot_generation: u64, enabled: bool, limits: Limits) -> (f: ChannelFabric)
        ensures
            f.wf(),
            f@ == (FabricView {
                enabled,
                shutting_down: false,
                boot_generation,
                next_listener_generation: 1,
                next_server_id: Map::empty(),
                peer_names: Map::empty(),
                listeners: Map::empty(),
                handles: Map::empty(),
                draining: Set::empty(),
                pairs: Map::empty(),
                limits,
            }),
    {
        let f = ChannelFabric {
            enabled,
            shutting_down: false,
            boot_generation,
            next_listener_generation: 1,
            next_server_id: IdMap::new(),
            peer_names: IdMap::new(),
            listeners: KeyMap::new(),
            handles: KeyMap::new(),
            draining: KeyMap::new(),
            pairs: IdMap::new(),
            limits,
        };
        proof {
            assert(f@.peer_names =~= Map::<u64, Seq<char>>::empty());
            assert(f@.listeners =~= Map::<ChannelKey, ListenerView>::empty());
            assert(f@.handles =~= Map::<ChannelKey, HandleView>::empty());
            assert(f@.draining =~= Set::<ChannelKey>::empty());
        }
        f
    }

    /// Whether channels are on offer.
    pub fn advertised(&self) -> (r: bool)
        ensures
            r == (self.enabled && !self.shutting_down),
    {
        self.enabled && !self.shutting_down
    }

    /// No more listeners or pairs from now on.
    pub fn begin_shutdown(&mut self)
        requires
            old(self).wf(),
        ensures
            final(self).wf(),
            final(self)@ == (FabricView { shutting_down: true, ..old(self)@ }),
    {
        self.shutting_down = true;
        proof {
            self.lemma_same_links(*old(self));
        }
    }

    /// Soundness does not look at what is switched on, nor at names.
    proof fn lemma_same_links(self, other: ChannelFabric)
        requires
            sound(other@),
            self@ == (FabricView {
                enabled: self@.enabled,
                shutting_down: self@.shutting_down,
                peer_names: self@.peer_names,
                ..other@
            }),
        ensures
            sound(self@),
    {
        assert forall|k: ChannelKey| #[trigger] self@.handles.dom().contains(k) implies paired(
            self@,
            k,
        ) by {
            assert(paired(other@, k));
        }
    }

    /// Gives an endpoint a name.
    pub fn register_endpoint(&mut self, endpoint: u64, peer_name: String)
        requires
            old(self).wf(),
        ensures
            final(self).wf(),
            final(self)@ == (FabricView {
                peer_names: old(self)@.peer_names.insert(endpoint, peer_name@),
                ..old(self)@
            }),
    {
        self.peer_names.insert(endpoint, peer_name);
        proof {
            assert(self@.peer_names =~= old(self)@.peer_names.insert(endpoint, peer_name@));
            self.lemma_same_links(*old(self));
        }
    }

    pub fn peer_name(&self, endpoint: u64) -> (t: String)
        requires
            self.wf(),
        ensures
            t@ == name_of(self@, endpoint),
    {
        match self.peer_names.get(endpoint) {
            Some(name) => name.as_str().to_owned(),
            None => network_peer_name(endpoint),
        }
    }

    /// Whether an id is in use.
    pub fn key_is_live(&self, key: ChannelKey) -> (r: bool)
        requires
            self.wf(),
        ensures
            r == id_live(self@, key),
    {
        self.listeners.contains(key) || self.handles.contains(key) || self.draining.contains(key)
    }

    fn token_of(&self, generation: u64) -> (t: Vec<u8>)
        ensures
            t@ == token(self.boot_generation, generation),
    {
        let mut t: Vec<u8> = Vec::new();
        push_u64(&mut t, self.boot_generation);
        push_u64(&mut t, generation);
        proof {
            assert(t@ =~= token(self.boot_generation, generation));
        }
        t
    }

    /// What identifies a listener.
    pub fn listener_snapshot(&self, endpoint: u64, channel_id: u32) -> (r: Option<
        ListenerSnapshot,
    >)
        requires
            self.wf(),
        ensures
            match r {
                Some(s) => {
                    let key = ChannelKey { endpoint, channel_id };
                    &&& self@.listeners.dom().contains(key)
                    &&& s.endpoint == endpoint
                    &&& s.channel_id == channel_id
                    &&& s.generation == self@.listeners[key].generation
                    &&& s.name@ == self@.listeners[key].name
                    &&& s.token@ == token(self.boot_generation, s.generation)
                },
                None => !self@.listeners.dom().contains(ChannelKey { endpoint, channel_id }),
            },
    {
        match self.listeners.get(ChannelKey { endpoint, channel_id }) {
            Some(l) => Some(
                ListenerSnapshot {
                    endpoint,
                    channel_id,
                    generation: l.generation,
                    name: l.name.as_str().to_owned(),
                    token: self.token_of(l.generation),
                },
            ),
            None => None,
        }
    }

    /// An id cannot be used again until its last packet was written.
    fn begin_drain(&mut self, key: ChannelKey)
        requires
            old(self).draining.wf(),
        ensures
            final(self).draining.wf(),
            final(self).draining@.dom() == old(self).draining@.dom().insert(key),
            *final(self) == (ChannelFabric { draining: final(self).draining, ..*old(self) }),
    {
        if !self.draining.contains(key) {
            self.draining.insert(key, ());
        }
        proof {
            assert(self.draining@.dom() =~= old(self).draining@.dom().insert(key));
        }
    }

    fn failed_open(&mut self, key: ChannelKey, status: ChannelStatus, detail: &str) -> (out: Vec<
        Delivery,
    >)
        requires
            old(self).wf(),
        ensures
            final(self).wf(),
            final(self)@ == open_failed(old(self)@, key, status, detail@).after,
            delivery_views(out@) == open_failed(old(self)@, key, status, detail@).sent,
    {
        proof {
            lemma_open_failed_sound(self@, key, status, detail@);
        }
        let fresh: bool = !self.key_is_live(key);
        if fresh {
            self.begin_drain(key);
        }
        let drain = if fresh {
            Some(key)
        } else {
            None
        };
        let d = Delivery {
            endpoint: key.endpoint,
            packet: Packet::Opened {
                channel_id: key.channel_id,
                status,
                window: 0,
                peer: "".to_owned(),
                metadata: Vec::new(),
                detail: detail.to_owned(),
            },
            hold: Hold { slot: None, drain },
        };
        let mut out: Vec<Delivery> = Vec::new();
        out.push(d);
        proof {
            reveal_strlit("");
            assert(""@ =~= Seq::<char>::empty());
            assert(delivery_views(out@) =~= open_failed(old(self)@, key, status, detail@).sent);
        }
        out
    }

    /// Refuses a request while channels are off or the server shuts down. Only
    /// attempts to open a channel are answered.
    pub fn refuse(&mut self, endpoint: u64, opens: bool, channel_id: u32) -> (out: Vec<Delivery>)
        requires
            old(self).wf(),
        ensures
            final(self).wf(),
            ({
                let e = refused(old(self)@, ChannelKey { endpoint, channel_id }, opens);
                final(self)@ == e.after && delivery_views(out@) == e.sent
            }),
    {
        if opens {
            let detail: &str = if self.shutting_down {
                "server is shutting down"
            } else {
                "native channels are disabled"
            };
            self.failed_open(
                ChannelKey { endpoint, channel_id },
                ChannelStatus::Permission,
                detail,
            )
        } else {
            let out: Vec<Delivery> = Vec::new();
            proof {
                assert(delivery_views(out@) =~= Seq::empty());
            }
            out
        }
    }

    /// Answers a packet that is not well-formed: an attempt to open a channel
    /// fails, and a channel that is open is closed.
    pub fn malformed(&mut self, endpoint: u64, opens: bool, channel_id: u32, detail: &str) -> (out:
        Vec<Delivery>)
        requires
            old(self).wf(),
        ensures
            final(self).wf(),
            ({
                let e = ill_formed(old(self)@, ChannelKey { endpoint, channel_id }, opens, detail@);
                final(self)@ == e.after && delivery_views(out@) == e.sent
            }),
    {
        let key = ChannelKey { endpoint, channel_id };
        if opens {
            self.failed_open(key, ChannelStatus::Invalid, detail)
        } else {
            self.close_at(key, CloseReason::ProtocolViolation, detail)
        }
    }

    /// Closes a listener or a pair.
    fn close_at(&mut self, key: ChannelKey, reason: CloseReason, detail: &str) -> (out: Vec<
        Delivery,
    >)
        requires
            old(self).wf(),
        ensures
            final(self).wf(),
            final(self)@ == closed_at(old(self)@, key, reason, detail@).after,
            delivery_views(out@) == closed_at(old(self)@, key, reason, detail@).sent,
    {
        let ghost v = self@;
        proof {
            lemma_closed_sound(v, key, reason, detail@);
        }
        let mut out: Vec<Delivery> = Vec::new();
        if self.listeners.contains(key) {
            let _gone = self.listeners.remove(key);
            self.begin_drain(key);
            out.push(closed_packet(key, reason, detail, None));
            proof {
                assert(self@.listeners =~= v.listeners.remove(key));
                assert(delivery_views(out@) =~= closed_at(v, key, reason, detail@).sent);
            }
            return out;
        }
        let (peer, pair, left): (ChannelKey, u64, bool) = match self.handles.get(key) {
            Some(h) => (h.peer, h.pair, h.left),
            None => {
                proof {
                    assert(delivery_views(out@) =~= Seq::empty());
                }
                return out;
            },
        };
        proof {
            assert(v.handles.dom().contains(key));
            assert(paired(v, key));
        }
        self.remove_pair(key, peer, pair, true, true);
        self.begin_drain(key);
        self.begin_drain(peer);
        out.push(closed_packet(key, reason, detail, Some((pair, left))));
        out.push(closed_packet(peer, reason, detail, Some((pair, !left))));
        proof {
            assert(delivery_views(out@) =~= closed_at(v, key, reason, detail@).sent);
        }
        out
    }

    /// Both ends of a pair are open no more; their places stay taken while
    /// something is queued for them.
    fn remove_pair(
        &mut self,
        key: ChannelKey,
        peer: ChannelKey,
        pair: u64,
        tell_left: bool,
        tell_right: bool,
    )
        requires
            old(self).handles.wf(),
            old(self).pairs.wf(),
            old(self).pairs@.dom().contains(pair),
        ensures
            final(self).handles.wf(),
            final(self).pairs.wf(),
            *final(self) == (ChannelFabric {
                handles: final(self).handles,
                pairs: final(self).pairs,
                ..*old(self)
            }),
            handle_views(final(self).handles@) == handle_views(old(self).handles@).remove(
                key,
            ).remove(peer),
            final(self).pairs@ == settled(
                old(self).pairs@,
                pair,
                closed_pair(old(self).pairs@[pair], tell_left, tell_right),
            ),
    {
        let ghost before = handle_views(self.handles@);
        let _a = self.handles.remove(key);
        let _b = self.handles.remove(peer);
        proof {
            assert(handle_views(self.handles@) =~= before.remove(key).remove(peer));
        }
        match self.pairs.get(pair) {
            Some(p) => {
                let now = Pair {
                    left: Side {
                        endpoint: p.left.endpoint,
                        live: false,
                        queued: one_more(p.left.queued, tell_left),
                    },
                    right: Side {
                        endpoint: p.right.endpoint,
                        live: false,
                        queued: one_more(p.right.queued, tell_right),
                    },
                };
                self.settle(pair, now);
            },
            None => {},
        }
    }

    /// Keeps a pair while anything holds it.
    fn settle(&mut self, pair: u64, now: Pair)
        requires
            old(self).pairs.wf(),
        ensures
            final(self).pairs.wf(),
            *final(self) == (ChannelFabric { pairs: final(self).pairs, ..*old(self) }),
            final(self).pairs@ == settled(old(self).pairs@, pair, now),
    {
        if is_held(&now.left) || is_held(&now.right) {
            self.pairs.insert(pair, now);
        } else {
            let _gone = self.pairs.remove(pair);
        }
    }

    /// A packet was written or dropped.
    pub fn release(&mut self, hold: &Hold)
        requires
            old(self).wf(),
        ensures
            final(self).wf(),
            final(self)@ == released(old(self)@, *hold),
    {
        let ghost v = self@;
        proof {
            lemma_released_sound(v, *hold);
        }
        match hold.slot {
            Some((p, left)) => {
                let found = match self.pairs.get(p) {
                    Some(pair) => Some(*pair),
                    None => None,
                };
                match found {
                    Some(pair) => {
                        let now = Pair {
                            left: Side {
                                endpoint: pair.left.endpoint,
                                live: pair.left.live,
                                queued: if left && pair.left.queued > 0 {
                                    pair.left.queued - 1
                                } else {
                                    pair.left.queued
                                },
                            },
                            right: Side {
                                endpoint: pair.right.endpoint,
                                live: pair.right.live,
                                queued: if !left && pair.right.queued > 0 {
                                    pair.right.queued - 1
                                } else {
                                    pair.right.queued
                                },
                            },
                        };
                        self.settle(p, now);
                    },
                    None => {},
                }
            },
            None => {},
        }
        match hold.drain {
            Some(key) => {
                let _gone = self.draining.remove(key);
                proof {
                    assert(self.draining@.dom() =~= v.draining.remove(key));
                }
            },
            None => {},
        }
    }

    /// A packet is queued for one end.
    fn queue_for(&mut self, pair: u64, left: bool)
        requires
            old(self).pairs.wf(),
            old(self).pairs@.dom().contains(pair),
        ensures
            final(self).pairs.wf(),
            *final(self) == (ChannelFabric { pairs: final(self).pairs, ..*old(self) }),
            final(self).pairs@ == old(self).pairs@.insert(
                pair,
                queued_for(old(self).pairs@[pair], left),
            ),
    {
        match self.pairs.get_mut(pair) {
            Some(p) => {
                p.left.queued = one_more(p.left.queued, left);
                p.right.queued = one_more(p.right.queued, !left);
            },
            None => {},
        }
    }

    /// Takes data from an end.
    pub fn data(&mut self, endpoint: u64, channel_id: u32, payload: Vec<u8>) -> (out: Vec<
        Delivery,
    >)
        requires
            old(self).wf(),
        ensures
            final(self).wf(),
            ({
                let e = data_sent(old(self)@, ChannelKey { endpoint, channel_id }, payload@);
                final(self)@ == e.after && delivery_views(out@) == e.sent
            }),
    {
        let key = ChannelKey { endpoint, channel_id };
        let ghost v = self@;
        let ghost bytes = payload@;
        proof {
            lemma_data_sound(v, key, bytes);
        }
        if self.listeners.contains(key) {
            return self.close_at(
                key,
                CloseReason::ProtocolViolation,
                "listener received channel data",
            );
        }
        let len: u64 = payload.len() as u64;
        let max: usize = self.limits.max_unconsumed;
        let window: u64 = self.limits.window;
        let mut out: Vec<Delivery> = Vec::new();
        let h: &Handle = match self.handles.get(key) {
            Some(h) => h,
            None => {
                proof {
                    assert(delivery_views(out@) =~= Seq::empty());
                }
                return out;
            },
        };
        proof {
            assert(paired(v, key));
        }
        let peer: ChannelKey = h.peer;
        let pair: u64 = h.pair;
        let left: bool = h.left;
        let sent: u64 = match h.sent.checked_add(len) {
            Some(n) => n,
            None => {
                return self.close_at(
                    key,
                    CloseReason::ProtocolViolation,
                    "channel byte counter overflow",
                );
            },
        };
        let over: bool = match h.acked.checked_add(window) {
            Some(end) => sent > end,
            None => true,
        };
        if over || h.boundaries.len() >= max {
            return self.close_at(
                key,
                CloseReason::ProtocolViolation,
                "channel send window exceeded",
            );
        }
        match self.handles.get_mut(key) {
            Some(h) => {
                h.sent = sent;
                h.boundaries.push(sent);
            },
            None => {},
        }
        self.queue_for(pair, !left);
        out.push(
            Delivery {
                endpoint: peer.endpoint,
                packet: Packet::Data { channel_id: peer.channel_id, payload },
                hold: Hold { slot: Some((pair, !left)), drain: None },
            },
        );
        proof {
            assert(self@.handles =~= data_sent(v, key, bytes).after.handles);
            assert(delivery_views(out@) =~= data_sent(v, key, bytes).sent);
        }
        out
    }

    /// Takes an acknowledgement from an end.
    pub fn ack(&mut self, endpoint: u64, channel_id: u32, bytes: u64) -> (out: Vec<Delivery>)
        requires
            old(self).wf(),
        ensures
            final(self).wf(),
            ({
                let e = ack_sent(old(self)@, ChannelKey { endpoint, channel_id }, bytes);
                final(self)@ == e.after && delivery_views(out@) == e.sent
            }),
    {
        let key = ChannelKey { endpoint, channel_id };
        let ghost v = self@;
        proof {
            lemma_ack_sound(v, key, bytes);
        }
        if self.listeners.contains(key) {
            return self.close_at(
                key,
                CloseReason::ProtocolViolation,
                "listener received channel ACK",
            );
        }
        let mut out: Vec<Delivery> = Vec::new();
        let (peer_key, pair, left): (ChannelKey, u64, bool) = match self.handles.get(key) {
            Some(h) => (h.peer, h.pair, h.left),
            None => {
                proof {
                    assert(delivery_views(out@) =~= Seq::empty());
                }
                return out;
            },
        };
        proof {
            assert(paired(v, key));
            assert(v.handles.dom().contains(peer_key));
        }
        let valid: bool = match self.handles.get(peer_key) {
            Some(p) => bytes >= p.acked && bytes <= p.sent && (bytes == p.acked || has_boundary(
                &p.boundaries,
                bytes,
            )),
            None => false,
        };
        if !valid {
            return self.close_at(key, CloseReason::ProtocolViolation, "channel ACK is invalid");
        }
        match self.handles.get_mut(peer_key) {
            Some(p) => {
                p.acked = bytes;
                drop_boundaries(&mut p.boundaries, bytes);
            },
            None => {},
        }
        self.queue_for(pair, !left);
        out.push(
            Delivery {
                endpoint: peer_key.endpoint,
                packet: Packet::Ack { channel_id: peer_key.channel_id, bytes },
                hold: Hold { slot: Some((pair, !left)), drain: None },
            },
        );
        proof {
            assert(self@.handles =~= ack_sent(v, key, bytes).after.handles);
            assert(delivery_views(out@) =~= ack_sent(v, key, bytes).sent);
        }
        out
    }

    /// Closes a channel because an end asks for it.
    pub fn close(&mut self, endpoint: u64, channel_id: u32, reason: u8) -> (out: Vec<Delivery>)
        requires
            old(self).wf(),
        ensures
            final(self).wf(),
            ({
                let e = closed_at(
                    old(self)@,
                    ChannelKey { endpoint, channel_id },
                    CloseReason::Requested(reason),
                    Seq::empty(),
                );
                final(self)@ == e.after && delivery_views(out@) == e.sent
            }),
    {
        proof {
            reveal_strlit("");
            assert(""@ =~= Seq::<char>::empty());
        }
        self.close_at(ChannelKey { endpoint, channel_id }, CloseReason::Requested(reason), "")
    }
}

fn has_boundary(boundaries: &Vec<u64>, bytes: u64) -> (r: bool)
    ensures
        r == boundaries@.contains(bytes),
{
    let mut i: usize = 0;
    while i < boundaries.len()
        invariant
            i <= boundaries@.len(),
            forall|j: int| 0 <= j < i ==> (#[trigger] boundaries@[j]) != bytes,
        decreases boundaries@.len() - i,
    {
        if boundaries[i] == bytes {
            proof {
                assert(boundaries@[i as int] == bytes);
            }
            return true;
        }
        i = i + 1;
    }
    false
}

fn drop_boundaries(boundaries: &mut Vec<u64>, bytes: u64)
    ensures
        final(boundaries)@ == boundaries_after(old(boundaries)@, bytes),
{
    let ghost all = boundaries@;
    while boundaries.len() > 0 && boundaries[0] <= bytes
        invariant
            boundaries_after(boundaries@, bytes) == boundaries_after(all, bytes),
        decreases boundaries@.len(),
    {
        let ghost before = boundaries@;
        let _gone = boundaries.remove(0);
        proof {
            assert(boundaries@ =~= before.subrange(1, before.len() as int));
        }
    }
}

/// What a connection that is admitted leads to.
pub struct ConnectPlan {
    pub listener: ChannelKey,
    /// The id that the listener's endpoint gets, and the next one.
    pub accepted: (u32, u32),
    /// Whether room for the packets is asked for at the endpoint that connects
    /// first; the endpoint with the lower number comes first.
    pub connector_first: bool,
}

/// What is asked next about the room for the first packets of a pair.
#[derive(Clone, Copy, Debug, PartialEq, Eq)]
pub enum RoomAsk {
    /// Room for the packet of the endpoint that connects.
    Connector,
    /// Room for the packet of the listener's endpoint.
    Listener,
    /// Room to tell the endpoint that connects that the listener's has none.
    Reply,
    /// Nothing more.
    Settled(Room),
}

/// What is asked first.
pub open spec fn spec_first_ask(connector_first: bool) -> RoomAsk {
    if connector_first {
        RoomAsk::Connector
    } else {
        RoomAsk::Listener
    }
}

/// What is asked after an answer. An endpoint that connects and has no room is
/// told nothing. Where the listener's has none, the other is told in the room
/// that it has already, or in what is asked for now.
pub open spec fn spec_next_ask(connector_first: bool, ask: RoomAsk, granted: bool) -> RoomAsk {
    match ask {
        RoomAsk::Connector => if !granted {
            RoomAsk::Settled(Room::NoConnector)
        } else if connector_first {
            RoomAsk::Listener
        } else {
            RoomAsk::Settled(Room::Both)
        },
        RoomAsk::Listener => if granted {
            if connector_first {
                RoomAsk::Settled(Room::Both)
            } else {
                RoomAsk::Connector
            }
        } else if connector_first {
            RoomAsk::Settled(Room::NoListener { reply: true })
        } else {
            RoomAsk::Reply
        },
        RoomAsk::Reply => RoomAsk::Settled(Room::NoListener { reply: granted }),
        RoomAsk::Settled(_) => ask,
    }
}

/// What becomes of the room, given where there is some: the end that is asked
/// first and has none decides.
pub open spec fn spec_room_of(
    connector_first: bool,
    connector_room: bool,
    listener_room: bool,
    reply_room: bool,
) -> Room {
    if connector_room && listener_room {
        Room::Both
    } else if connector_first {
        if !connector_room {
            Room::NoConnector
        } else {
            Room::NoListener { reply: true }
        }
    } else {
        if !listener_room {
            Room::NoListener { reply: reply_room }
        } else {
            Room::NoConnector
        }
    }
}

/// What is asked first about the room for the first packets of a pair.
pub fn first_ask(plan: &ConnectPlan) -> (ask: RoomAsk)
    ensures
        ask == spec_first_ask(plan.connector_first),
{
    if plan.connector_first {
        RoomAsk::Connector
    } else {
        RoomAsk::Listener
    }
}

/// What is asked after an answer.
pub fn next_ask(plan: &ConnectPlan, ask: RoomAsk, granted: bool) -> (next: RoomAsk)
    ensures
        next == spec_next_ask(plan.connector_first, ask, granted),
{
    match ask {
        RoomAsk::Connector => if !granted {
            RoomAsk::Settled(Room::NoConnector)
        } else if plan.connector_first {
            RoomAsk::Listener
        } else {
            RoomAsk::Settled(Room::Both)
        },
        RoomAsk::Listener => if granted {
            if plan.connector_first {
                RoomAsk::Settled(Room::Both)
            } else {
                RoomAsk::Connector
            }
        } else if plan.connector_first {
            RoomAsk::Settled(Room::NoListener { reply: true })
        } else {
            RoomAsk::Reply
        },
        RoomAsk::Reply => RoomAsk::Settled(Room::NoListener { reply: granted }),
        RoomAsk::Settled(room) => RoomAsk::Settled(room),
    }
}

/// What becomes of the room for the first packets of a pair.
pub fn room_of(
    plan: &ConnectPlan,
    connector_room: bool,
    listener_room: bool,
    reply_room: bool,
) -> (room: Room)
    ensures
        room == spec_room_of(plan.connector_first, connector_room, listener_room, reply_room),
{
    if plan.connector_first {
        if !connector_room {
            Room::NoConnector
        } else if !listener_room {
            Room::NoListener { reply: true }
        } else {
            Room::Both
        }
    } else if !listener_room {
        Room::NoListener { reply: reply_room }
    } else if !connector_room {
        Room::NoConnector
    } else {
        Room::Both
    }
}

/// A listener comes to this.
pub open spec fn listen_effect(
    f: ChannelFabric,
    key: ChannelKey,
    name: Seq<char>,
    metadata: Seq<u8>,
    room: bool,
) -> Effect {
    match f.listen_fault(key, name) {
        Some((status, detail)) => open_failed(f@, key, status, detail),
        None => if room {
            listening(f@, key, name, metadata)
        } else {
            Effect { after: f@, sent: Seq::empty() }
        },
    }
}

/// A connection comes to this: it is refused, or it finds no room for its first
/// packets and changes nothing but that the one that connects may be told, or
/// both ends are connected.
pub open spec fn connect_effect(
    f: ChannelFabric,
    key: ChannelKey,
    name: Seq<char>,
    metadata: Seq<u8>,
    wanted: Option<Seq<u8>>,
    room: Room,
    pair: u64,
) -> Effect {
    match f.connect_fault(key, name, wanted) {
        Some((status, detail)) => open_failed(f@, key, status, detail),
        None => match room {
            Room::NoConnector => Effect { after: f@, sent: Seq::empty() },
            Room::NoListener { reply } => if reply {
                open_failed(f@, key, ChannelStatus::Cancelled, Seq::empty())
            } else {
                Effect { after: f@, sent: Seq::empty() }
            },
            Room::Both => {
                let listener = listener_named(f@, name)->0;
                connected(
                    f@,
                    key,
                    listener,
                    metadata,
                    accept_candidate(f@, listener.endpoint)->0,
                    pair,
                )
            },
        },
    }
}

pub open spec fn token_view(t: Option<Vec<u8>>) -> Option<Seq<u8>> {
    match t {
        Some(b) => Some(b@),
        None => None,
    }
}

/// What became of the room for the first packets of a request.
#[derive(Clone, Copy, Debug, PartialEq, Eq)]
pub struct RoomFound {
    pub listen: bool,
    pub connect: Room,
}

/// A request comes to this.
pub open spec fn request_effect(
    f: ChannelFabric,
    endpoint: u64,
    request: ChannelRequest,
    room: RoomFound,
    pair: u64,
) -> Effect {
    match request {
        ChannelRequest::Listen { channel_id, name, metadata } => listen_effect(
            f,
            ChannelKey { endpoint, channel_id },
            name@,
            metadata@,
            room.listen,
        ),
        ChannelRequest::Connect { channel_id, name, metadata, token } => connect_effect(
            f,
            ChannelKey { endpoint, channel_id },
            name@,
            metadata@,
            token_view(token),
            room.connect,
            pair,
        ),
        ChannelRequest::Data { channel_id, payload } => data_sent(
            f@,
            ChannelKey { endpoint, channel_id },
            payload@,
        ),
        ChannelRequest::Ack { channel_id, bytes } => ack_sent(
            f@,
            ChannelKey { endpoint, channel_id },
            bytes,
        ),
        ChannelRequest::Close { channel_id, reason } => closed_at(
            f@,
            ChannelKey { endpoint, channel_id },
            CloseReason::Requested(reason),
            Seq::empty(),
        ),
    }
}

/// Whether a request opens a channel with an id that clients may choose; those
/// are even.
pub open spec fn client_id_ok(request: ChannelRequest) -> bool {
    request matches ChannelRequest::Connect { channel_id, .. } ==> channel_id % 2 == 0
}

/// A packet comes to this. Malformed packets are passed over while channels are
/// off.
pub open spec fn packet_effect(
    f: ChannelFabric,
    endpoint: u64,
    opens: bool,
    channel_id: u32,
    decoded: Decoded,
    room: RoomFound,
    pair: u64,
) -> Effect {
    let key = ChannelKey { endpoint, channel_id };
    match decoded {
        Decoded::Request(request) => if f.enabled && !f.shutting_down {
            request_effect(f, endpoint, request, room, pair)
        } else {
            refused(f@, key, opens)
        },
        Decoded::Other => Effect { after: f@, sent: Seq::empty() },
        Decoded::Malformed(detail) => if !f.enabled {
            Effect { after: f@, sent: Seq::empty() }
        } else {
            ill_formed(f@, key, opens, detail@)
        },
    }
}

/// A departing endpoint comes to this.
pub open spec fn departure(f: ChannelFabric, endpoint: u64) -> Effect {
    departed_ends(without_listeners(f@, endpoint), owned(f.handles.spec_rows(), endpoint))
}

impl ChannelFabric {
    /// The listener with a name.
    fn find_listener(&self, name: &str) -> (r: Option<ChannelKey>)
        requires
            self.wf(),
        ensures
            r == listener_named(self@, name@),
    {
        let ghost rows = self.listeners.spec_rows();
        let total: usize = self.listeners.len();
        let mut i: usize = 0;
        while i < total
            invariant
                i <= total,
                self.wf(),
                rows == self.listeners.spec_rows(),
                total == rows.len(),
                forall|j: int| 0 <= j < i ==> (#[trigger] rows[j]).1.name@ != name@,
            decreases total - i,
        {
            if same_text(self.listeners.value_at(i).name.as_str(), name) {
                let key: ChannelKey = self.listeners.key_at(i);
                proof {
                    assert(self@.listeners.dom().contains(key) && self@.listeners[key].name
                        == name@);
                    let k = listener_named(self@, name@)->0;
                    assert(self@.listeners.dom().contains(k));
                }
                return Some(key);
            }
            i = i + 1;
        }
        proof {
            self.listeners.lemma_rows();
            assert forall|k: ChannelKey| #[trigger]
                self@.listeners.dom().contains(k) implies self@.listeners[k].name != name@ by {
                let j = place(rows, k);
                assert(keyed(rows, k));
                lemma_place(rows, j);
            }
        }
        None
    }

    /// How many places among the connected ends an endpoint has taken.
    pub fn endpoint_slots(&self, endpoint: u64) -> (n: u128)
        requires
            self.wf(),
        ensures
            n as nat == self.places(endpoint),
    {
        let ghost rows = self.pairs.spec_rows();
        let total: usize = self.pairs.len();
        let mut n: u128 = 0;
        let mut i: usize = 0;
        proof {
            assert(rows.take(0) =~= Seq::empty());
        }
        while i < total
            invariant
                i <= total,
                self.pairs.wf(),
                rows == self.pairs.spec_rows(),
                total == rows.len(),
                n as nat == weigh(rows.take(i as int), place_weight(endpoint)),
                n <= 2 * i,
            decreases total - i,
        {
            proof {
                assert(rows.take(i + 1).drop_last() =~= rows.take(i as int));
                assert(rows.take(i + 1).last() == rows[i as int]);
            }
            let p = self.pairs.value_at(i);
            if p.left.endpoint == endpoint && is_held(&p.left) {
                n = n + 1;
            }
            if p.right.endpoint == endpoint && is_held(&p.right) {
                n = n + 1;
            }
            i = i + 1;
        }
        proof {
            assert(rows.take(total as int) =~= rows);
        }
        n
    }

    /// How many pairs are accounted for.
    pub fn active_pairs(&self) -> (n: usize)
        ensures
            n == self.pairs.spec_rows().len(),
    {
        self.pairs.len()
    }

    fn one_pair_window(&self) -> (n: u64)
        ensures
            n as nat == pair_window(self.limits.window),
    {
        match self.limits.window.checked_mul(2) {
            Some(n) => n,
            None => u64::MAX,
        }
    }

    /// The bytes that the windows of all pairs may fill.
    pub fn reserved_window_bytes(&self) -> (n: u128)
        ensures
            n as int == self.pairs.spec_rows().len() * pair_window(self.limits.window),
    {
        let pairs: u64 = self.pairs.len() as u64;
        let each: u64 = self.one_pair_window();
        proof {
            lemma_product_fits(pairs, each);
        }
        pairs as u128 * each as u128
    }

    /// Why there is no room for another pair.
    fn check_pair(&self, connector: u64, listener: u64) -> (r: Option<&'static str>)
        requires
            self.wf(),
        ensures
            match r {
                Some(detail) => self.pair_fault(connector, listener) == Some(detail@),
                None => self.pair_fault(connector, listener) is None,
            },
    {
        let limit: u128 = self.limits.handles_per_client as u128;
        let needed: u128 = if connector == listener {
            2
        } else {
            1
        };
        let taken: u128 = self.endpoint_slots(connector);
        if taken >= limit || limit - taken < needed {
            return Some("connected channel budget exhausted");
        }
        if connector != listener && self.endpoint_slots(listener) >= limit {
            return Some("connected channel budget exhausted");
        }
        let pairs: u64 = self.pairs.len() as u64;
        if self.pairs.len() >= self.limits.connected_pairs {
            return Some("connected channel budget exhausted");
        }
        let each: u64 = self.one_pair_window();
        proof {
            lemma_product_fits((pairs + 1) as u64, each);
        }
        if (pairs + 1) as u128 * each as u128 > self.limits.buffer_bytes as u128 {
            return Some("channel window budget exhausted");
        }
        None
    }

    /// Why a listener is refused, if it is.
    pub fn check_listen(&self, key: ChannelKey, name: &str) -> (r: Option<Fault>)
        requires
            self.wf(),
        ensures
            match r {
                Some((status, detail)) => self.listen_fault(key, name@) == Some(
                    (status, detail@),
                ),
                None => self.listen_fault(key, name@) is None,
            },
    {
        if self.key_is_live(key) {
            return Some((ChannelStatus::Conflict, "channel id is already live"));
        }
        if self.find_listener(name).is_some() {
            return Some((ChannelStatus::Conflict, "channel name already has a listener"));
        }
        if self.listeners.len() >= self.limits.listeners || self.listeners.keys_of(
            key.endpoint,
        ).len() >= self.limits.listen_per_client {
            return Some((ChannelStatus::Budget, "channel listener budget exhausted"));
        }
        if self.next_listener_generation == u64::MAX {
            return Some((ChannelStatus::Budget, "channel listener generation exhausted"));
        }
        None
    }

    /// Publishes a listener, if it is admitted and there is room for its reply.
    pub fn listen(
        &mut self,
        endpoint: u64,
        channel_id: u32,
        name: String,
        metadata: Vec<u8>,
        room: bool,
    ) -> (out: Vec<Delivery>)
        requires
            old(self).wf(),
        ensures
            final(self).wf(),
            ({
                let e = listen_effect(
                    *old(self),
                    ChannelKey { endpoint, channel_id },
                    name@,
                    metadata@,
                    room,
                );
                final(self)@ == e.after && delivery_views(out@) == e.sent
            }),
    {
        let key = ChannelKey { endpoint, channel_id };
        let ghost v = self@;
        let ghost n = name@;
        let ghost m = metadata@;
        match self.check_listen(key, name.as_str()) {
            Some((status, detail)) => {
                return self.failed_open(key, status, detail);
            },
            None => {},
        }
        let mut out: Vec<Delivery> = Vec::new();
        if !room {
            proof {
                assert(delivery_views(out@) =~= Seq::empty());
            }
            return out;
        }
        proof {
            lemma_listening_sound(v, key, n, m);
        }
        let generation: u64 = self.next_listener_generation;
        self.next_listener_generation = generation + 1;
        self.listeners.insert(key, Listener { name, metadata, generation });
        out.push(
            Delivery {
                endpoint,
                packet: Packet::Opened {
                    channel_id,
                    status: ChannelStatus::Success,
                    window: 0,
                    peer: "".to_owned(),
                    metadata: Vec::new(),
                    detail: "".to_owned(),
                },
                hold: Hold { slot: None, drain: None },
            },
        );
        proof {
            reveal_strlit("");
            assert(""@ =~= Seq::<char>::empty());
            assert(self@.listeners =~= listening(v, key, n, m).after.listeners);
            assert(delivery_views(out@) =~= listening(v, key, n, m).sent);
        }
        out
    }

    /// The next id that the server gives a channel that an endpoint accepts.
    fn server_id_candidate(&self, endpoint: u64) -> (r: Option<(u32, u32)>)
        requires
            self.wf(),
        ensures
            r == accept_candidate(self@, endpoint),
            r matches Some((id, next)) ==> id % 2 == 1 && next % 2 == 1 && !id_live(
                self@,
                ChannelKey { endpoint, channel_id: id },
            ),
    {
        let mut candidate: u32 = match self.next_server_id.get(endpoint) {
            Some(id) => *id,
            None => 1,
        };
        let ghost first = candidate;
        proof {
            lemma_accepted_id(self@, endpoint, first);
        }
        loop
            invariant
                self.wf(),
                accepted_id(self@, endpoint, candidate) == accepted_id(self@, endpoint, first),
                accept_candidate(self@, endpoint) == accepted_id(self@, endpoint, first),
                accepted_id(self@, endpoint, first) matches Some((id, next)) ==> id % 2 == 1
                    && next % 2 == 1 && !id_live(self@, ChannelKey { endpoint, channel_id: id }),
            decreases u32::MAX - candidate,
        {
            let next: u32 = match candidate.checked_add(2) {
                Some(n) => n,
                None => {
                    return None;
                },
            };
            if !self.key_is_live(ChannelKey { endpoint, channel_id: candidate }) {
                return Some((candidate, next));
            }
            candidate = next;
        }
    }

    /// Why a connection is refused, or what it leads to.
    pub fn check_connect(&self, key: ChannelKey, name: &str, wanted: &Option<Vec<u8>>) -> (r:
        Result<ConnectPlan, Fault>)
        requires
            self.wf(),
        ensures
            match r {
                Ok(plan) => {
                    &&& self.connect_fault(key, name@, token_view(*wanted)) is None
                    &&& listener_named(self@, name@) == Some(plan.listener)
                    &&& accept_candidate(self@, plan.listener.endpoint) == Some(plan.accepted)
                    &&& plan.accepted.0 % 2 == 1 && plan.accepted.1 % 2 == 1
                    &&& !id_live(
                        self@,
                        (ChannelKey {
                            endpoint: plan.listener.endpoint,
                            channel_id: plan.accepted.0,
                        }),
                    )
                    &&& plan.connector_first == (key.endpoint <= plan.listener.endpoint)
                },
                Err((status, detail)) => self.connect_fault(key, name@, token_view(*wanted))
                    == Some((status, detail@)),
            },
    {
        if self.key_is_live(key) {
            return Err((ChannelStatus::Conflict, "channel id is already live"));
        }
        let listener: ChannelKey = match self.find_listener(name) {
            Some(k) => k,
            None => {
                return Err((ChannelStatus::NotFound, "channel listener was not found"));
            },
        };
        proof {
            assert(self@.listeners.dom().contains(listener));
        }
        let generation: u64 = match self.listeners.get(listener) {
            Some(l) => l.generation,
            None => 0,
        };
        match wanted {
            Some(t) => {
                let held = self.token_of(generation);
                if !same_bytes(t.as_slice(), held.as_slice()) {
                    return Err((ChannelStatus::Conflict, "channel listener generation changed"));
                }
            },
            None => {},
        }
        let accepted: (u32, u32) = match self.server_id_candidate(listener.endpoint) {
            Some(ids) => ids,
            None => {
                return Err((ChannelStatus::Budget, "accepted channel id space exhausted"));
            },
        };
        match self.check_pair(key.endpoint, listener.endpoint) {
            Some(detail) => {
                return Err((ChannelStatus::Budget, detail));
            },
            None => {},
        }
        Ok(
            ConnectPlan {
                listener,
                accepted,
                connector_first: key.endpoint <= listener.endpoint,
            },
        )
    }

    /// Connects to a listener, if that is admitted and there is room for the
    /// first packets.
    pub fn connect(
        &mut self,
        endpoint: u64,
        channel_id: u32,
        name: &str,
        metadata: Vec<u8>,
        wanted: &Option<Vec<u8>>,
        room: Room,
    ) -> (out: Vec<Delivery>)
        requires
            old(self).wf(),
            channel_id % 2 == 0,
        ensures
            final(self).wf(),
            exists|pair: u64|
                old(self).fresh_pair(pair) && ({
                    let e = #[trigger] connect_effect(
                        *old(self),
                        ChannelKey { endpoint, channel_id },
                        name@,
                        metadata@,
                        token_view(*wanted),
                        room,
                        pair,
                    );
                    final(self)@ == e.after && delivery_views(out@) == e.sent
                }),
    {
        let key = ChannelKey { endpoint, channel_id };
        let ghost v = self@;
        let ghost m = metadata@;
        let ghost w = token_view(*wanted);
        let ghost start = *self;
        let pair: u64 = self.pairs.free_id();
        let ghost e = connect_effect(start, key, name@, m, w, room, pair);
        proof {
            assert(start.fresh_pair(pair));
        }
        let plan: ConnectPlan = match self.check_connect(key, name, wanted) {
            Ok(plan) => plan,
            Err((status, detail)) => {
                let out = self.failed_open(key, status, detail);
                proof {
                    assert(self@ == e.after && delivery_views(out@) == e.sent);
                }
                return out;
            },
        };
        let mut out: Vec<Delivery> = Vec::new();
        match room {
            Room::NoConnector => {
                proof {
                    assert(delivery_views(out@) =~= e.sent);
                }
                return out;
            },
            Room::NoListener { reply } => {
                if !reply {
                    proof {
                        assert(delivery_views(out@) =~= e.sent);
                    }
                    return out;
                }
                proof {
                    reveal_strlit("");
                    assert(""@ =~= Seq::<char>::empty());
                }
                let out = self.failed_open(key, ChannelStatus::Cancelled, "");
                proof {
                    assert(self@ == e.after && delivery_views(out@) == e.sent);
                }
                return out;
            },
            Room::Both => {},
        }
        let listener: ChannelKey = plan.listener;
        let accepted = ChannelKey { endpoint: listener.endpoint, channel_id: plan.accepted.0 };
        proof {
            assert(v.listeners.dom().contains(listener));
            lemma_connected_sound(v, key, listener, m, plan.accepted, pair);
        }
        let listener_metadata: Vec<u8> = match self.listeners.get(listener) {
            Some(l) => clone_bytes(&l.metadata),
            None => Vec::new(),
        };
        let listener_peer = self.peer_name(listener.endpoint);
        let connector_peer = self.peer_name(endpoint);
        let window: u64 = self.limits.window;
        self.next_server_id.insert(listener.endpoint, plan.accepted.1);
        self.handles.insert(
            key,
            Handle { peer: accepted, pair, left: true, sent: 0, acked: 0, boundaries: Vec::new() },
        );
        self.handles.insert(
            accepted,
            Handle { peer: key, pair, left: false, sent: 0, acked: 0, boundaries: Vec::new() },
        );
        self.pairs.insert(
            pair,
            Pair {
                left: Side { endpoint, live: true, queued: 1 },
                right: Side { endpoint: listener.endpoint, live: true, queued: 1 },
            },
        );
        out.push(
            Delivery {
                endpoint,
                packet: Packet::Opened {
                    channel_id,
                    status: ChannelStatus::Success,
                    window,
                    peer: listener_peer,
                    metadata: listener_metadata,
                    detail: "".to_owned(),
                },
                hold: Hold { slot: Some((pair, true)), drain: None },
            },
        );
        out.push(
            Delivery {
                endpoint: listener.endpoint,
                packet: Packet::Accepted {
                    channel_id: plan.accepted.0,
                    listener_id: listener.channel_id,
                    window,
                    peer: connector_peer,
                    metadata,
                },
                hold: Hold { slot: Some((pair, false)), drain: None },
            },
        );
        proof {
            reveal_strlit("");
            assert(""@ =~= Seq::<char>::empty());
            assert(Seq::<u64>::empty() =~= self.handles@[key].boundaries@);
            assert(Seq::<u64>::empty() =~= self.handles@[accepted].boundaries@);
            assert(self@.handles =~= e.after.handles);
            assert(delivery_views(out@) =~= e.sent);
            assert(self@ == e.after);
        }
        out
    }

    /// Does what a request asks for.
    pub fn handle_reserved(
        &mut self,
        endpoint: u64,
        request: ChannelRequest,
        room: &RoomFound,
    ) -> (out: Vec<Delivery>)
        requires
            old(self).wf(),
            client_id_ok(request),
        ensures
            final(self).wf(),
            exists|pair: u64|
                old(self).fresh_pair(pair) && ({
                    let e = #[trigger] request_effect(*old(self), endpoint, request, *room, pair);
                    final(self)@ == e.after && delivery_views(out@) == e.sent
                }),
    {
        let ghost start = *self;
        let ghost asked = request;
        let pair: u64 = self.pairs.free_id();
        proof {
            assert(start.fresh_pair(pair));
        }
        match request {
            ChannelRequest::Listen { channel_id, name, metadata } => {
                let out = self.listen(endpoint, channel_id, name, metadata, room.listen);
                proof {
                    let e = request_effect(start, endpoint, asked, *room, pair);
                    assert(self@ == e.after && delivery_views(out@) == e.sent);
                }
                out
            },
            ChannelRequest::Connect { channel_id, name, metadata, token } => {
                let ghost key = ChannelKey { endpoint, channel_id };
                let ghost m = metadata@;
                let out = self.connect(
                    endpoint,
                    channel_id,
                    name.as_str(),
                    metadata,
                    &token,
                    room.connect,
                );
                proof {
                    let p = choose|p: u64|
                        start.fresh_pair(p) && ({
                            let e = #[trigger] connect_effect(
                                start,
                                key,
                                name@,
                                m,
                                token_view(token),
                                room.connect,
                                p,
                            );
                            self@ == e.after && delivery_views(out@) == e.sent
                        });
                    let e = request_effect(start, endpoint, asked, *room, p);
                    assert(e == connect_effect(
                        start,
                        key,
                        name@,
                        m,
                        token_view(token),
                        room.connect,
                        p,
                    ));
                }
                out
            },
            ChannelRequest::Data { channel_id, payload } => {
                let out = self.data(endpoint, channel_id, payload);
                proof {
                    let e = request_effect(start, endpoint, asked, *room, pair);
                    assert(self@ == e.after && delivery_views(out@) == e.sent);
                }
                out
            },
            ChannelRequest::Ack { channel_id, bytes } => {
                let out = self.ack(endpoint, channel_id, bytes);
                proof {
                    let e = request_effect(start, endpoint, asked, *room, pair);
                    assert(self@ == e.after && delivery_views(out@) == e.sent);
                }
                out
            },
            ChannelRequest::Close { channel_id, reason } => {
                let out = self.close(endpoint, channel_id, reason);
                proof {
                    let e = request_effect(start, endpoint, asked, *room, pair);
                    assert(self@ == e.after && delivery_views(out@) == e.sent);
                }
                out
            },
        }
    }

    /// Does what a packet asks for. `opens` tells whether its kind is one that
    /// opens a channel.
    pub fn handle_packet_reserved(
        &mut self,
        endpoint: u64,
        opens: bool,
        channel_id: u32,
        decoded: Decoded,
        room: &RoomFound,
    ) -> (out: Vec<Delivery>)
        requires
            old(self).wf(),
            decoded matches Decoded::Request(request) ==> client_id_ok(request),
        ensures
            final(self).wf(),
            exists|pair: u64|
                old(self).fresh_pair(pair) && ({
                    let e = #[trigger] packet_effect(
                        *old(self),
                        endpoint,
                        opens,
                        channel_id,
                        decoded,
                        *room,
                        pair,
                    );
                    final(self)@ == e.after && delivery_views(out@) == e.sent
                }),
    {
        let ghost start = *self;
        let ghost seen = decoded;
        let pair: u64 = self.pairs.free_id();
        proof {
            assert(start.fresh_pair(pair));
        }
        match decoded {
            Decoded::Request(request) => {
                if self.enabled && !self.shutting_down {
                    let ghost asked = request;
                    let out = self.handle_reserved(endpoint, request, room);
                    proof {
                        let p = choose|p: u64|
                            start.fresh_pair(p) && ({
                                let e = #[trigger] request_effect(
                                    start,
                                    endpoint,
                                    asked,
                                    *room,
                                    p,
                                );
                                self@ == e.after && delivery_views(out@) == e.sent
                            });
                        assert(packet_effect(start, endpoint, opens, channel_id, seen, *room, p)
                            == request_effect(start, endpoint, asked, *room, p));
                    }
                    out
                } else {
                    let out = self.refuse(endpoint, opens, channel_id);
                    proof {
                        let e = packet_effect(
                            start,
                            endpoint,
                            opens,
                            channel_id,
                            seen,
                            *room,
                            pair,
                        );
                        assert(self@ == e.after && delivery_views(out@) == e.sent);
                    }
                    out
                }
            },
            Decoded::Other => {
                let out: Vec<Delivery> = Vec::new();
                proof {
                    let e = packet_effect(start, endpoint, opens, channel_id, seen, *room, pair);
                    assert(delivery_views(out@) =~= e.sent);
                }
                out
            },
            Decoded::Malformed(detail) => {
                if !self.enabled {
                    let out: Vec<Delivery> = Vec::new();
                    proof {
                        let e = packet_effect(
                            start,
                            endpoint,
                            opens,
                            channel_id,
                            seen,
                            *room,
                            pair,
                        );
                        assert(delivery_views(out@) =~= e.sent);
                    }
                    out
                } else {
                    let out = self.malformed(endpoint, opens, channel_id, detail.as_str());
                    proof {
                        let e = packet_effect(
                            start,
                            endpoint,
                            opens,
                            channel_id,
                            seen,
                            *room,
                            pair,
                        );
                        assert(self@ == e.after && delivery_views(out@) == e.sent);
                    }
                    out
                }
            },
        }
    }

    /// An endpoint is gone: its listeners and its ends go with it, and the
    /// other ends are told.
    pub fn close_endpoint(&mut self, endpoint: u64) -> (out: Vec<Delivery>)
        requires
            old(self).wf(),
        ensures
            final(self).wf(),
            final(self)@ == departure(*old(self), endpoint).after,
            delivery_views(out@) == departure(*old(self), endpoint).sent,
    {
        self.drop_listeners(endpoint);
        let ghost v = self@;
        let keys = self.handles.keys_of(endpoint);
        let mut out: Vec<Delivery> = Vec::new();
        let mut i: usize = 0;
        proof {
            assert(keys@.take(0) =~= Seq::empty());
            assert(delivery_views(out@) =~= Seq::empty());
        }
        while i < keys.len()
            invariant
                i <= keys@.len(),
                self.wf(),
                self@ == departed_ends(v, keys@.take(i as int)).after,
                delivery_views(out@) == departed_ends(v, keys@.take(i as int)).sent,
            decreases keys@.len() - i,
        {
            proof {
                assert(keys@.take(i + 1).drop_last() =~= keys@.take(i as int));
                assert(keys@.take(i + 1).last() == keys@[i as int]);
            }
            let ghost before = delivery_views(out@);
            let told = self.depart(keys[i]);
            match told {
                Some(d) => {
                    out.push(d);
                },
                None => {},
            }
            proof {
                assert(delivery_views(out@) =~= departed_ends(v, keys@.take(i + 1)).sent);
            }
            i = i + 1;
        }
        proof {
            assert(keys@.take(keys@.len() as int) =~= keys@);
        }
        out
    }

    /// Closes one end of a departing endpoint.
    fn depart(&mut self, key: ChannelKey) -> (r: Option<Delivery>)
        requires
            old(self).wf(),
        ensures
            final(self).wf(),
            final(self)@ == departed_end(old(self)@, key).after,
            match r {
                Some(d) => departed_end(old(self)@, key).sent == seq![d@],
                None => departed_end(old(self)@, key).sent == Seq::<
                    crate::channel::model::DeliveryView,
                >::empty(),
            },
    {
        let ghost v = self@;
        proof {
            lemma_departed_end_sound(v, key);
        }
        let (peer, pair, left): (ChannelKey, u64, bool) = match self.handles.get(key) {
            Some(h) => (h.peer, h.pair, h.left),
            None => {
                return None;
            },
        };
        proof {
            assert(v.handles.dom().contains(key));
            assert(paired(v, key));
        }
        let tell: bool = peer.endpoint != key.endpoint;
        self.remove_pair(key, peer, pair, tell && !left, tell && left);
        if !tell {
            return None;
        }
        self.begin_drain(peer);
        Some(
            closed_packet(
                peer,
                CloseReason::PeerGone,
                "channel peer disconnected",
                Some((pair, !left)),
            ),
        )
    }

    /// Takes the listeners of an endpoint away, and its name.
    fn drop_listeners(&mut self, endpoint: u64)
        requires
            old(self).wf(),
        ensures
            final(self).wf(),
            final(self)@ == without_listeners(old(self)@, endpoint),
            final(self).handles == old(self).handles,
    {
        let ghost v = self@;
        let ghost start = *self;
        proof {
            lemma_without_listeners_sound(v, endpoint);
        }
        let _name = self.peer_names.remove(endpoint);
        let keys = self.listeners.keys_of(endpoint);
        proof {
            assert(name_views(self.peer_names@) =~= v.peer_names.remove(endpoint));
            self.listeners.lemma_rows();
            lemma_owned(self.listeners.spec_rows(), endpoint);
        }
        let ghost all = self.listeners@;
        let mut i: usize = 0;
        while i < keys.len()
            invariant
                i <= keys@.len(),
                self.listeners.wf(),
                *self == (ChannelFabric {
                    listeners: self.listeners,
                    peer_names: self.peer_names,
                    ..start
                }),
                self.peer_names.wf(),
                name_views(self.peer_names@) == v.peer_names.remove(endpoint),
                forall|k: ChannelKey|
                    #![trigger self.listeners@.dom().contains(k)]
                    self.listeners@.dom().contains(k) == (all.dom().contains(k) && !keys@.take(
                        i as int,
                    ).contains(k)),
                forall|k: ChannelKey|
                    #![trigger self.listeners@[k]]
                    self.listeners@.dom().contains(k) ==> self.listeners@[k] == all[k],
            decreases keys@.len() - i,
        {
            let ghost before = self.listeners@;
            let _gone = self.listeners.remove(keys[i]);
            proof {
                let a = keys@.take(i as int);
                let b = keys@.take(i + 1);
                assert(b =~= a.push(keys@[i as int]));
                assert forall|k: ChannelKey|
                    #![trigger self.listeners@.dom().contains(k)]
                    self.listeners@.dom().contains(k) == (all.dom().contains(k) && !b.contains(
                        k,
                    )) by {
                    assert(b[i as int] == keys@[i as int]);
                    if a.contains(k) {
                        let j = choose|j: int| 0 <= j < a.len() && a[j] == k;
                        assert(b[j] == k);
                    }
                    if b.contains(k) && k != keys@[i as int] {
                        let j = choose|j: int| 0 <= j < b.len() && b[j] == k;
                        assert(a[j] == k);
                    }
                }
                assert forall|k: ChannelKey|
                    #![trigger self.listeners@[k]]
                    self.listeners@.dom().contains(k) implies self.listeners@[k] == all[k] by {
                    assert(before.dom().contains(k) && before[k] == self.listeners@[k]);
                }
            }
            i = i + 1;
        }
        proof {
            assert(keys@.take(keys@.len() as int) =~= keys@);
            let want = without_listeners(v, endpoint);
            assert forall|k: ChannelKey|
                self@.listeners.dom().contains(k) == want.listeners.dom().contains(k) by {
                assert(keys@.contains(k) == (all.dom().contains(k) && k.endpoint == endpoint));
            }
            assert forall|k: ChannelKey| #[trigger]
                self@.listeners.dom().contains(k) implies self@.listeners[k]
                == want.listeners[k] by {
                assert(self.listeners@[k] == all[k]);
            }
            assert(self@.listeners =~= want.listeners);
            assert(self@ == want);
        }
    }
}

proof fn lemma_product_fits(a: u64, b: u64)
    ensures
        0 <= a * b <= u128::MAX,
{
    assert(0 <= a * b <= 0xffff_ffff_ffff_ffff * 0xffff_ffff_ffff_ffff) by (nonlinear_arith)
        requires
            a <= 0xffff_ffff_ffff_ffff,
            b <= 0xffff_ffff_ffff_ffff,
    ;
}

} // verus!
