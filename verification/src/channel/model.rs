//! What the channel fabric is, and how each step changes it.

use vstd::prelude::*;

use crate::bytes::{law_le_round_trip, le64, lemma_byte_range_values, lemma_le_bytes_len};
use crate::channel::keys::ChannelKey;
use crate::text::hex;

verus! {

pub const DEFAULT_MAX_LISTEN_PER_CLIENT: usize = 64;

pub const DEFAULT_MAX_LISTENERS: usize = 1024;

pub const DEFAULT_MAX_PER_CLIENT: usize = 64;

pub const DEFAULT_MAX_CONNECTED: usize = 128;

pub const DEFAULT_BUFFER_MAX: u64 = 0x1000_0000;

/// How much the fabric takes on.
#[derive(Clone, Copy)]
pub struct Limits {
    pub listen_per_client: usize,
    pub listeners: usize,
    pub handles_per_client: usize,
    pub connected_pairs: usize,
    pub buffer_bytes: u64,
    /// How many bytes one end may send and not have acknowledged.
    pub window: u64,
    /// How many messages one end may send and not have acknowledged.
    pub max_unconsumed: usize,
}

impl Limits {
    /// The limits where a deployment sets none, for the window of the protocol.
    pub fn defaults(window: u64, max_unconsumed: usize) -> (l: Limits)
        ensures
            l == (Limits {
                listen_per_client: DEFAULT_MAX_LISTEN_PER_CLIENT,
                listeners: DEFAULT_MAX_LISTENERS,
                handles_per_client: DEFAULT_MAX_PER_CLIENT,
                connected_pairs: DEFAULT_MAX_CONNECTED,
                buffer_bytes: DEFAULT_BUFFER_MAX,
                window,
                max_unconsumed,
            }),
    {
        Limits {
            listen_per_client: DEFAULT_MAX_LISTEN_PER_CLIENT,
            listeners: DEFAULT_MAX_LISTENERS,
            handles_per_client: DEFAULT_MAX_PER_CLIENT,
            connected_pairs: DEFAULT_MAX_CONNECTED,
            buffer_bytes: DEFAULT_BUFFER_MAX,
            window,
            max_unconsumed,
        }
    }
}

/// How an attempt to open a channel ended.
#[derive(Clone, Copy, Debug, PartialEq, Eq, Structural)]
pub enum ChannelStatus {
    Success,
    Conflict,
    NotFound,
    Budget,
    Invalid,
    Permission,
    Cancelled,
}

/// Why a channel was closed.
#[derive(Clone, Copy, Debug, PartialEq, Eq, Structural)]
pub enum CloseReason {
    /// An end asked for it and gave its reason.
    Requested(u8),
    ProtocolViolation,
    PeerGone,
}

/// One end's place among those of its endpoint. It is taken while the end is
/// open and while anything for it is queued.
#[derive(Clone, Copy)]
pub struct Side {
    pub endpoint: u64,
    pub live: bool,
    pub queued: u64,
}

/// The two ends of a pair: the one that connected and the one that was
/// accepted.
#[derive(Clone, Copy)]
pub struct Pair {
    pub left: Side,
    pub right: Side,
}

/// A named listener.
pub struct Listener {
    pub name: String,
    pub metadata: Vec<u8>,
    pub generation: u64,
}

/// What a [`Listener`] is.
pub ghost struct ListenerView {
    pub name: Seq<char>,
    pub metadata: Seq<u8>,
    pub generation: u64,
}

impl View for Listener {
    type V = ListenerView;

    open spec fn view(&self) -> ListenerView {
        ListenerView {
            name: self.name@,
            metadata: self.metadata@,
            generation: self.generation,
        }
    }
}

/// One open end of a pair.
pub struct Handle {
    pub peer: ChannelKey,
    pub pair: u64,
    /// Whether this end connected.
    pub left: bool,
    pub sent: u64,
    pub acked: u64,
    /// How much was sent when each message that is not acknowledged ended.
    pub boundaries: Vec<u64>,
}

/// What a [`Handle`] is.
pub ghost struct HandleView {
    pub peer: ChannelKey,
    pub pair: u64,
    pub left: bool,
    pub sent: u64,
    pub acked: u64,
    pub boundaries: Seq<u64>,
}

impl View for Handle {
    type V = HandleView;

    open spec fn view(&self) -> HandleView {
        HandleView {
            peer: self.peer,
            pair: self.pair,
            left: self.left,
            sent: self.sent,
            acked: self.acked,
            boundaries: self.boundaries@,
        }
    }
}

/// What an endpoint is told.
#[derive(Clone, Debug, PartialEq, Eq)]
pub enum Packet {
    Opened {
        channel_id: u32,
        status: ChannelStatus,
        window: u64,
        peer: String,
        metadata: Vec<u8>,
        detail: String,
    },
    Accepted { channel_id: u32, listener_id: u32, window: u64, peer: String, metadata: Vec<u8> },
    Data { channel_id: u32, payload: Vec<u8> },
    Ack { channel_id: u32, bytes: u64 },
    Closed { channel_id: u32, reason: CloseReason, detail: String },
}

/// What a [`Packet`] says.
pub ghost enum PacketView {
    Opened {
        channel_id: u32,
        status: ChannelStatus,
        window: u64,
        peer: Seq<char>,
        metadata: Seq<u8>,
        detail: Seq<char>,
    },
    Accepted {
        channel_id: u32,
        listener_id: u32,
        window: u64,
        peer: Seq<char>,
        metadata: Seq<u8>,
    },
    Data { channel_id: u32, payload: Seq<u8> },
    Ack { channel_id: u32, bytes: u64 },
    Closed { channel_id: u32, reason: CloseReason, detail: Seq<char> },
}

impl View for Packet {
    type V = PacketView;

    open spec fn view(&self) -> PacketView {
        match self {
            Packet::Opened { channel_id, status, window, peer, metadata, detail } =>
                PacketView::Opened {
                    channel_id: *channel_id,
                    status: *status,
                    window: *window,
                    peer: peer@,
                    metadata: metadata@,
                    detail: detail@,
                },
            Packet::Accepted { channel_id, listener_id, window, peer, metadata } =>
                PacketView::Accepted {
                    channel_id: *channel_id,
                    listener_id: *listener_id,
                    window: *window,
                    peer: peer@,
                    metadata: metadata@,
                },
            Packet::Data { channel_id, payload } => PacketView::Data {
                channel_id: *channel_id,
                payload: payload@,
            },
            Packet::Ack { channel_id, bytes } => PacketView::Ack {
                channel_id: *channel_id,
                bytes: *bytes,
            },
            Packet::Closed { channel_id, reason, detail } => PacketView::Closed {
                channel_id: *channel_id,
                reason: *reason,
                detail: detail@,
            },
        }
    }
}

/// What a queued packet keeps taken until it is written or dropped.
#[derive(Clone, Copy, Debug, PartialEq, Eq)]
pub struct Hold {
    /// The end that it is for: its pair, and whether it is the one that
    /// connected.
    pub slot: Option<(u64, bool)>,
    /// The channel whose id cannot be used again before that.
    pub drain: Option<ChannelKey>,
}

/// One packet for an endpoint.
#[derive(Clone, Debug, PartialEq, Eq)]
pub struct Delivery {
    pub endpoint: u64,
    pub packet: Packet,
    pub hold: Hold,
}

/// What a [`Delivery`] is.
pub ghost struct DeliveryView {
    pub endpoint: u64,
    pub packet: PacketView,
    pub hold: Hold,
}

impl View for Delivery {
    type V = DeliveryView;

    open spec fn view(&self) -> DeliveryView {
        DeliveryView { endpoint: self.endpoint, packet: self.packet@, hold: self.hold }
    }
}

pub open spec fn delivery_views(v: Seq<Delivery>) -> Seq<DeliveryView> {
    Seq::new(v.len(), |i: int| v[i]@)
}

/// The state of the fabric.
pub ghost struct FabricView {
    pub enabled: bool,
    pub shutting_down: bool,
    pub boot_generation: u64,
    pub next_listener_generation: u64,
    pub next_server_id: Map<u64, u32>,
    pub peer_names: Map<u64, Seq<char>>,
    pub listeners: Map<ChannelKey, ListenerView>,
    pub handles: Map<ChannelKey, HandleView>,
    pub draining: Set<ChannelKey>,
    pub pairs: Map<u64, Pair>,
    pub limits: Limits,
}

pub open spec fn held(s: Side) -> bool {
    s.live || s.queued > 0
}

pub open spec fn side(p: Pair, left: bool) -> Side {
    if left {
        p.left
    } else {
        p.right
    }
}

/// Whether two open ends are each other's.
pub open spec fn paired(v: FabricView, key: ChannelKey) -> bool {
    let h = v.handles[key];
    &&& h.peer != key
    &&& v.handles.dom().contains(h.peer)
    &&& v.handles[h.peer].peer == key
    &&& v.handles[h.peer].pair == h.pair
    &&& v.handles[h.peer].left == !h.left
    &&& v.pairs.dom().contains(h.pair)
    &&& side(v.pairs[h.pair], h.left).live
    &&& side(v.pairs[h.pair], h.left).endpoint == key.endpoint
}

/// Whether an end keeps to the window: no more is sent than may be, what is
/// acknowledged was sent, and the boundaries ascend between the two.
pub open spec fn flows(h: HandleView, limits: Limits) -> bool {
    &&& h.acked <= h.sent
    &&& h.sent <= h.acked + limits.window
    &&& h.boundaries.len() <= limits.max_unconsumed
    &&& forall|i: int|
        0 <= i < h.boundaries.len() ==> h.acked <= #[trigger] h.boundaries[i] <= h.sent
    &&& forall|i: int, j: int|
        0 <= i <= j < h.boundaries.len() ==> (#[trigger] h.boundaries[i]) <= (
        #[trigger] h.boundaries[j])
}

/// What always holds of the fabric.
pub open spec fn sound(v: FabricView) -> bool {
    // Names and generations are given out once.
    &&& forall|a: ChannelKey, b: ChannelKey|
        #![trigger v.listeners.dom().contains(a), v.listeners.dom().contains(b)]
        v.listeners.dom().contains(a) && v.listeners.dom().contains(b) && (v.listeners[a].name
            == v.listeners[b].name || v.listeners[a].generation == v.listeners[b].generation)
            ==> a == b
    &&& forall|a: ChannelKey| #[trigger]
        v.listeners.dom().contains(a) ==> v.listeners[a].generation
            < v.next_listener_generation
    // Open ends come in pairs.
    &&& forall|k: ChannelKey| #[trigger] v.handles.dom().contains(k) ==> paired(v, k)
    &&& forall|a: ChannelKey, b: ChannelKey|
        #![trigger v.handles.dom().contains(a), v.handles.dom().contains(b)]
        v.handles.dom().contains(a) && v.handles.dom().contains(b) && v.handles[a].pair
            == v.handles[b].pair && v.handles[a].left == v.handles[b].left ==> a == b
    &&& forall|k: ChannelKey| #[trigger]
        v.handles.dom().contains(k) ==> flows(v.handles[k], v.limits)
    // A pair is accounted for while anything holds it.
    &&& forall|p: u64| #[trigger]
        v.pairs.dom().contains(p) ==> held(v.pairs[p].left) || held(v.pairs[p].right)
    // The ids that the server gives are odd.
    &&& forall|e: u64| #[trigger]
        v.next_server_id.dom().contains(e) ==> v.next_server_id[e] % 2 == 1
    // An id is in use once.
    &&& forall|k: ChannelKey| #[trigger]
        v.listeners.dom().contains(k) ==> !v.handles.dom().contains(k) && !v.draining.contains(k)
    &&& forall|k: ChannelKey| #[trigger]
        v.handles.dom().contains(k) ==> !v.draining.contains(k)
}

/// Whether a channel's id is in use: it is open, or its last packet is queued.
pub open spec fn id_live(v: FabricView, key: ChannelKey) -> bool {
    v.listeners.dom().contains(key) || v.handles.dom().contains(key) || v.draining.contains(key)
}

/// One more, up to the greatest number.
pub open spec fn bumped(n: u64, by: bool) -> u64 {
    if by && n < u64::MAX {
        (n + 1) as u64
    } else {
        n
    }
}

/// A pair while anything holds it.
pub open spec fn settled(pairs: Map<u64, Pair>, p: u64, pair: Pair) -> Map<u64, Pair> {
    if held(pair.left) || held(pair.right) {
        pairs.insert(p, pair)
    } else {
        pairs.remove(p)
    }
}

/// Both ends are closed; a packet is queued for those that are told.
pub open spec fn closed_pair(pair: Pair, tell_left: bool, tell_right: bool) -> Pair {
    Pair {
        left: Side {
            live: false,
            queued: bumped(pair.left.queued, tell_left),
            ..pair.left
        },
        right: Side {
            live: false,
            queued: bumped(pair.right.queued, tell_right),
            ..pair.right
        },
    }
}

/// A packet is queued for one end.
pub open spec fn queued_for(pair: Pair, left: bool) -> Pair {
    Pair {
        left: Side { queued: bumped(pair.left.queued, left), ..pair.left },
        right: Side { queued: bumped(pair.right.queued, !left), ..pair.right },
    }
}

/// A packet for one end was written or dropped.
pub open spec fn released_from(pair: Pair, left: bool) -> Pair {
    Pair {
        left: Side {
            queued: if left && pair.left.queued > 0 {
                (pair.left.queued - 1) as u64
            } else {
                pair.left.queued
            },
            ..pair.left
        },
        right: Side {
            queued: if !left && pair.right.queued > 0 {
                (pair.right.queued - 1) as u64
            } else {
                pair.right.queued
            },
            ..pair.right
        },
    }
}

pub open spec fn no_hold() -> Hold {
    Hold { slot: None, drain: None }
}

/// What a step comes to: the fabric then, and what goes out.
pub ghost struct Effect {
    pub after: FabricView,
    pub sent: Seq<DeliveryView>,
}

pub open spec fn nothing(v: FabricView) -> Effect {
    Effect { after: v, sent: Seq::empty() }
}

/// An attempt to open a channel failed. Its id stays in use until the reply was
/// written, unless it was in use before.
pub open spec fn open_failed(
    v: FabricView,
    key: ChannelKey,
    status: ChannelStatus,
    detail: Seq<char>,
) -> Effect {
    let fresh = !id_live(v, key);
    Effect {
        after: if fresh {
            FabricView { draining: v.draining.insert(key), ..v }
        } else {
            v
        },
        sent: seq![
            DeliveryView {
                endpoint: key.endpoint,
                packet: PacketView::Opened {
                    channel_id: key.channel_id,
                    status,
                    window: 0,
                    peer: Seq::empty(),
                    metadata: Seq::empty(),
                    detail,
                },
                hold: Hold {
                    slot: None,
                    drain: if fresh {
                        Some(key)
                    } else {
                        None
                    },
                },
            },
        ],
    }
}

/// A request while channels are off or the server shuts down.
pub open spec fn refused(v: FabricView, key: ChannelKey, opens: bool) -> Effect {
    if opens {
        open_failed(
            v,
            key,
            ChannelStatus::Permission,
            if v.shutting_down {
                "server is shutting down"@
            } else {
                "native channels are disabled"@
            },
        )
    } else {
        nothing(v)
    }
}

/// A packet that is not well-formed.
pub open spec fn ill_formed(
    v: FabricView,
    key: ChannelKey,
    opens: bool,
    detail: Seq<char>,
) -> Effect {
    if opens {
        open_failed(v, key, ChannelStatus::Invalid, detail)
    } else {
        closed_at(v, key, CloseReason::ProtocolViolation, detail)
    }
}

pub open spec fn closing(
    key: ChannelKey,
    reason: CloseReason,
    detail: Seq<char>,
    slot: Option<(u64, bool)>,
) -> DeliveryView {
    DeliveryView {
        endpoint: key.endpoint,
        packet: PacketView::Closed { channel_id: key.channel_id, reason, detail },
        hold: Hold { slot, drain: Some(key) },
    }
}

/// A listener or a pair is closed. Both ends of a pair are told; their ids and
/// places stay taken until that was written. What is not open is passed over.
pub open spec fn closed_at(
    v: FabricView,
    key: ChannelKey,
    reason: CloseReason,
    detail: Seq<char>,
) -> Effect {
    if v.listeners.dom().contains(key) {
        Effect {
            after: FabricView {
                listeners: v.listeners.remove(key),
                draining: v.draining.insert(key),
                ..v
            },
            sent: seq![closing(key, reason, detail, None)],
        }
    } else if v.handles.dom().contains(key) {
        let h = v.handles[key];
        Effect {
            after: FabricView {
                handles: v.handles.remove(key).remove(h.peer),
                draining: v.draining.insert(key).insert(h.peer),
                pairs: settled(v.pairs, h.pair, closed_pair(v.pairs[h.pair], true, true)),
                ..v
            },
            sent: seq![
                closing(key, reason, detail, Some((h.pair, h.left))),
                closing(h.peer, reason, detail, Some((h.pair, !h.left))),
            ],
        }
    } else {
        nothing(v)
    }
}

/// The end `key` of a departing endpoint is closed; the other end is told, if
/// it belongs to another.
pub open spec fn departed_end(v: FabricView, key: ChannelKey) -> Effect {
    if !v.handles.dom().contains(key) {
        nothing(v)
    } else {
        let h = v.handles[key];
        let tell = h.peer.endpoint != key.endpoint;
        Effect {
            after: FabricView {
                handles: v.handles.remove(key).remove(h.peer),
                draining: if tell {
                    v.draining.insert(h.peer)
                } else {
                    v.draining
                },
                pairs: settled(
                    v.pairs,
                    h.pair,
                    closed_pair(v.pairs[h.pair], tell && !h.left, tell && h.left),
                ),
                ..v
            },
            sent: if tell {
                seq![
                    closing(
                        h.peer,
                        CloseReason::PeerGone,
                        "channel peer disconnected"@,
                        Some((h.pair, !h.left)),
                    ),
                ]
            } else {
                Seq::empty()
            },
        }
    }
}

/// The ends of a departing endpoint are closed one by one.
pub open spec fn departed_ends(v: FabricView, keys: Seq<ChannelKey>) -> Effect
    decreases keys.len(),
{
    if keys.len() == 0 {
        nothing(v)
    } else {
        let first = departed_ends(v, keys.drop_last());
        let last = departed_end(first.after, keys.last());
        Effect { after: last.after, sent: first.sent + last.sent }
    }
}

/// The listeners of a departing endpoint are gone.
pub open spec fn without_listeners(v: FabricView, endpoint: u64) -> FabricView {
    FabricView {
        peer_names: v.peer_names.remove(endpoint),
        listeners: v.listeners.restrict(
            v.listeners.dom().filter(|k: ChannelKey| k.endpoint != endpoint),
        ),
        ..v
    }
}

/// A listener is published, once its reply can be queued.
pub open spec fn listening(
    v: FabricView,
    key: ChannelKey,
    name: Seq<char>,
    metadata: Seq<u8>,
) -> Effect {
    Effect {
        after: FabricView {
            next_listener_generation: (v.next_listener_generation + 1) as u64,
            listeners: v.listeners.insert(
                key,
                ListenerView { name, metadata, generation: v.next_listener_generation },
            ),
            ..v
        },
        sent: seq![
            DeliveryView {
                endpoint: key.endpoint,
                packet: PacketView::Opened {
                    channel_id: key.channel_id,
                    status: ChannelStatus::Success,
                    window: 0,
                    peer: Seq::empty(),
                    metadata: Seq::empty(),
                    detail: Seq::empty(),
                },
                hold: no_hold(),
            },
        ],
    }
}

/// The first id from `from` on, in steps of two, that the server can give a
/// channel that it accepts, and the one after it.
pub open spec fn accepted_id(v: FabricView, endpoint: u64, from: u32) -> Option<(u32, u32)>
    decreases u32::MAX - from,
{
    if from + 2 > u32::MAX {
        None
    } else if !id_live(v, ChannelKey { endpoint, channel_id: from }) {
        Some((from, (from + 2) as u32))
    } else {
        accepted_id(v, endpoint, (from + 2) as u32)
    }
}

/// An id that is found is free and odd, and so is the next to try.
pub proof fn lemma_accepted_id(v: FabricView, endpoint: u64, from: u32)
    requires
        from % 2 == 1,
    ensures
        accepted_id(v, endpoint, from) matches Some((id, next)) ==> id % 2 == 1 && next % 2 == 1
            && next == id + 2 && !id_live(v, ChannelKey { endpoint, channel_id: id }),
    decreases u32::MAX - from,
{
    if from + 2 <= u32::MAX && id_live(v, ChannelKey { endpoint, channel_id: from }) {
        lemma_accepted_id(v, endpoint, (from + 2) as u32);
    }
}

/// The next id that the server gives a channel that an endpoint accepts.
pub open spec fn accept_candidate(v: FabricView, endpoint: u64) -> Option<(u32, u32)> {
    accepted_id(
        v,
        endpoint,
        if v.next_server_id.dom().contains(endpoint) {
            v.next_server_id[endpoint]
        } else {
            1
        },
    )
}

/// What an endpoint without a name of its own is called.
pub open spec fn network_name(endpoint: u64) -> Seq<char> {
    "client:"@ + hex(le64(endpoint).reverse())
}

/// What an endpoint is called.
pub open spec fn name_of(v: FabricView, endpoint: u64) -> Seq<char> {
    if v.peer_names.dom().contains(endpoint) {
        v.peer_names[endpoint]
    } else {
        network_name(endpoint)
    }
}

pub open spec fn fresh_handle(peer: ChannelKey, pair: u64, left: bool) -> HandleView {
    HandleView { peer, pair, left, sent: 0, acked: 0, boundaries: Seq::empty() }
}

/// Two ends are connected, and both are told.
pub open spec fn connected(
    v: FabricView,
    key: ChannelKey,
    listener: ChannelKey,
    metadata: Seq<u8>,
    id: (u32, u32),
    pair: u64,
) -> Effect {
    let accepted = ChannelKey { endpoint: listener.endpoint, channel_id: id.0 };
    Effect {
        after: FabricView {
            next_server_id: v.next_server_id.insert(listener.endpoint, id.1),
            handles: v.handles.insert(key, fresh_handle(accepted, pair, true)).insert(
                accepted,
                fresh_handle(key, pair, false),
            ),
            pairs: v.pairs.insert(
                pair,
                Pair {
                    left: Side { endpoint: key.endpoint, live: true, queued: 1 },
                    right: Side { endpoint: listener.endpoint, live: true, queued: 1 },
                },
            ),
            ..v
        },
        sent: seq![
            DeliveryView {
                endpoint: key.endpoint,
                packet: PacketView::Opened {
                    channel_id: key.channel_id,
                    status: ChannelStatus::Success,
                    window: v.limits.window,
                    peer: name_of(v, listener.endpoint),
                    metadata: v.listeners[listener].metadata,
                    detail: Seq::empty(),
                },
                hold: Hold { slot: Some((pair, true)), drain: None },
            },
            DeliveryView {
                endpoint: listener.endpoint,
                packet: PacketView::Accepted {
                    channel_id: id.0,
                    listener_id: listener.channel_id,
                    window: v.limits.window,
                    peer: name_of(v, key.endpoint),
                    metadata,
                },
                hold: Hold { slot: Some((pair, false)), drain: None },
            },
        ],
    }
}

/// Why data from an end cannot be taken.
pub open spec fn data_fault(v: FabricView, key: ChannelKey, len: nat) -> Option<Seq<char>> {
    let h = v.handles[key];
    if h.sent + len > u64::MAX {
        Some("channel byte counter overflow"@)
    } else if h.acked + v.limits.window > u64::MAX || h.sent + len > h.acked + v.limits.window
        || h.boundaries.len() >= v.limits.max_unconsumed {
        Some("channel send window exceeded"@)
    } else {
        None
    }
}

/// An end sends data: the other end gets it, if the window has room for it.
pub open spec fn data_sent(v: FabricView, key: ChannelKey, payload: Seq<u8>) -> Effect {
    if v.listeners.dom().contains(key) {
        closed_at(v, key, CloseReason::ProtocolViolation, "listener received channel data"@)
    } else if !v.handles.dom().contains(key) {
        nothing(v)
    } else {
        match data_fault(v, key, payload.len()) {
            Some(detail) => closed_at(v, key, CloseReason::ProtocolViolation, detail),
            None => {
                let h = v.handles[key];
                let sent = (h.sent + payload.len()) as u64;
                Effect {
                    after: FabricView {
                        handles: v.handles.insert(
                            key,
                            HandleView { sent, boundaries: h.boundaries.push(sent), ..h },
                        ),
                        pairs: v.pairs.insert(h.pair, queued_for(v.pairs[h.pair], !h.left)),
                        ..v
                    },
                    sent: seq![
                        DeliveryView {
                            endpoint: h.peer.endpoint,
                            packet: PacketView::Data { channel_id: h.peer.channel_id, payload },
                            hold: Hold { slot: Some((h.pair, !h.left)), drain: None },
                        },
                    ],
                }
            },
        }
    }
}

/// Whether an acknowledgement names what was sent at the end of a message, or
/// nothing new.
pub open spec fn ack_valid(peer: HandleView, bytes: u64) -> bool {
    peer.acked <= bytes <= peer.sent && (bytes == peer.acked || peer.boundaries.contains(bytes))
}

/// The boundaries that are not acknowledged.
pub open spec fn boundaries_after(boundaries: Seq<u64>, bytes: u64) -> Seq<u64>
    decreases boundaries.len(),
{
    if boundaries.len() == 0 || boundaries[0] > bytes {
        boundaries
    } else {
        boundaries_after(boundaries.subrange(1, boundaries.len() as int), bytes)
    }
}

/// An end acknowledges what the other sent, which is told so.
pub open spec fn ack_sent(v: FabricView, key: ChannelKey, bytes: u64) -> Effect {
    if v.listeners.dom().contains(key) {
        closed_at(v, key, CloseReason::ProtocolViolation, "listener received channel ACK"@)
    } else if !v.handles.dom().contains(key) {
        nothing(v)
    } else {
        let h = v.handles[key];
        let peer = v.handles[h.peer];
        if !ack_valid(peer, bytes) {
            closed_at(v, key, CloseReason::ProtocolViolation, "channel ACK is invalid"@)
        } else {
            Effect {
                after: FabricView {
                    handles: v.handles.insert(
                        h.peer,
                        HandleView {
                            acked: bytes,
                            boundaries: boundaries_after(peer.boundaries, bytes),
                            ..peer
                        },
                    ),
                    pairs: v.pairs.insert(h.pair, queued_for(v.pairs[h.pair], !h.left)),
                    ..v
                },
                sent: seq![
                    DeliveryView {
                        endpoint: h.peer.endpoint,
                        packet: PacketView::Ack { channel_id: h.peer.channel_id, bytes },
                        hold: Hold { slot: Some((h.pair, !h.left)), drain: None },
                    },
                ],
            }
        }
    }
}

/// A packet was written or dropped, and what it kept taken is free, unless
/// something else keeps it.
pub open spec fn released(v: FabricView, hold: Hold) -> FabricView {
    let pairs = match hold.slot {
        Some((p, left)) => if v.pairs.dom().contains(p) {
            settled(v.pairs, p, released_from(v.pairs[p], left))
        } else {
            v.pairs
        },
        None => v.pairs,
    };
    FabricView {
        pairs,
        draining: match hold.drain {
            Some(key) => v.draining.remove(key),
            None => v.draining,
        },
        ..v
    }
}

/// What identifies a listener among all that ever were.
pub open spec fn token(boot_generation: u64, generation: u64) -> Seq<u8> {
    le64(boot_generation) + le64(generation)
}

pub proof fn lemma_open_failed_sound(
    v: FabricView,
    key: ChannelKey,
    status: ChannelStatus,
    detail: Seq<char>,
)
    requires
        sound(v),
    ensures
        sound(open_failed(v, key, status, detail).after),
{
    let w = open_failed(v, key, status, detail).after;
    assert forall|k: ChannelKey| #[trigger] w.handles.dom().contains(k) implies paired(w, k) by {
        assert(paired(v, k));
    }
}

pub proof fn lemma_listening_sound(
    v: FabricView,
    key: ChannelKey,
    name: Seq<char>,
    metadata: Seq<u8>,
)
    requires
        sound(v),
        !id_live(v, key),
        v.next_listener_generation < u64::MAX,
        forall|k: ChannelKey| #[trigger]
            v.listeners.dom().contains(k) ==> v.listeners[k].name != name,
    ensures
        sound(listening(v, key, name, metadata).after),
{
    let w = listening(v, key, name, metadata).after;
    assert forall|k: ChannelKey| #[trigger] w.handles.dom().contains(k) implies paired(w, k) by {
        assert(paired(v, k));
    }
    assert forall|a: ChannelKey, b: ChannelKey|
        #![trigger w.listeners.dom().contains(a), w.listeners.dom().contains(b)]
        w.listeners.dom().contains(a) && w.listeners.dom().contains(b) && (w.listeners[a].name
            == w.listeners[b].name || w.listeners[a].generation
            == w.listeners[b].generation) implies a == b by {
        if a != key {
            assert(v.listeners.dom().contains(a));
        }
        if b != key {
            assert(v.listeners.dom().contains(b));
        }
    }
    assert forall|a: ChannelKey| #[trigger] w.listeners.dom().contains(a) implies w.listeners[a].generation
        < w.next_listener_generation by {
        if a != key {
            assert(v.listeners.dom().contains(a));
        }
    }
    assert forall|k: ChannelKey| #[trigger]
        w.listeners.dom().contains(k) implies !w.handles.dom().contains(k)
        && !w.draining.contains(k) by {
        if k != key {
            assert(v.listeners.dom().contains(k));
        }
    }
}

pub proof fn lemma_connected_sound(
    v: FabricView,
    key: ChannelKey,
    listener: ChannelKey,
    metadata: Seq<u8>,
    id: (u32, u32),
    pair: u64,
)
    requires
        sound(v),
        !id_live(v, key),
        !id_live(v, ChannelKey { endpoint: listener.endpoint, channel_id: id.0 }),
        key.channel_id % 2 == 0,
        id.0 % 2 == 1,
        id.1 % 2 == 1,
        !v.pairs.dom().contains(pair),
    ensures
        sound(connected(v, key, listener, metadata, id, pair).after),
{
    let w = connected(v, key, listener, metadata, id, pair).after;
    let accepted = ChannelKey { endpoint: listener.endpoint, channel_id: id.0 };
    assert forall|k: ChannelKey| #[trigger] v.handles.dom().contains(k) implies v.handles[k].pair
        != pair && v.handles[k].peer != key && v.handles[k].peer != accepted by {
        assert(paired(v, k));
    }
    assert forall|k: ChannelKey| #[trigger] w.handles.dom().contains(k) implies paired(w, k) by {
        if k != key && k != accepted {
            assert(v.handles.dom().contains(k));
            assert(paired(v, k));
        }
    }
    assert forall|a: ChannelKey, b: ChannelKey|
        #![trigger w.handles.dom().contains(a), w.handles.dom().contains(b)]
        w.handles.dom().contains(a) && w.handles.dom().contains(b) && w.handles[a].pair
            == w.handles[b].pair && w.handles[a].left == w.handles[b].left implies a == b by {
        if a != key && a != accepted {
            assert(v.handles.dom().contains(a));
        }
        if b != key && b != accepted {
            assert(v.handles.dom().contains(b));
        }
    }
    assert forall|k: ChannelKey| #[trigger] w.handles.dom().contains(k) implies flows(
        w.handles[k],
        w.limits,
    ) by {
        if k != key && k != accepted {
            assert(v.handles.dom().contains(k));
        }
    }
}

/// What closing one pair keeps.
proof fn lemma_pair_closed(
    v: FabricView,
    key: ChannelKey,
    draining: Set<ChannelKey>,
    tell_left: bool,
    tell_right: bool,
)
    requires
        sound(v),
        v.handles.dom().contains(key),
        forall|k: ChannelKey| #[trigger]
            draining.contains(k) ==> v.draining.contains(k) || k == key || k
                == v.handles[key].peer,
    ensures
        ({
            let h = v.handles[key];
            sound(
                FabricView {
                    handles: v.handles.remove(key).remove(h.peer),
                    draining,
                    pairs: settled(
                        v.pairs,
                        h.pair,
                        closed_pair(v.pairs[h.pair], tell_left, tell_right),
                    ),
                    ..v
                },
            )
        }),
{
    let h = v.handles[key];
    assert(paired(v, key));
    let w = FabricView {
        handles: v.handles.remove(key).remove(h.peer),
        draining,
        pairs: settled(v.pairs, h.pair, closed_pair(v.pairs[h.pair], tell_left, tell_right)),
        ..v
    };
    assert forall|k: ChannelKey| #[trigger] w.handles.dom().contains(k) implies paired(w, k) by {
        assert(v.handles.dom().contains(k));
        assert(paired(v, k));
        let x = v.handles[k];
        if x.pair == h.pair {
            if x.left == h.left {
                assert(k == key);
            } else {
                assert(v.handles.dom().contains(h.peer));
                assert(k == h.peer);
            }
        }
        if x.peer == key {
            assert(v.handles[key].peer == k);
        }
        if x.peer == h.peer {
            assert(v.handles[h.peer].peer == key);
        }
    }
    assert forall|k: ChannelKey| #[trigger] w.listeners.dom().contains(k) implies !w.handles.dom().contains(
        k,
    ) && !w.draining.contains(k) by {
        assert(v.listeners.dom().contains(k));
        assert(v.handles.dom().contains(h.peer));
    }
    assert forall|a: ChannelKey, b: ChannelKey|
        #![trigger w.handles.dom().contains(a), w.handles.dom().contains(b)]
        w.handles.dom().contains(a) && w.handles.dom().contains(b) && w.handles[a].pair
            == w.handles[b].pair && w.handles[a].left == w.handles[b].left implies a == b by {
        assert(v.handles.dom().contains(a) && v.handles.dom().contains(b));
    }
}

pub proof fn lemma_closed_sound(
    v: FabricView,
    key: ChannelKey,
    reason: CloseReason,
    detail: Seq<char>,
)
    requires
        sound(v),
    ensures
        sound(closed_at(v, key, reason, detail).after),
{
    let w = closed_at(v, key, reason, detail).after;
    if v.listeners.dom().contains(key) {
        assert forall|k: ChannelKey| #[trigger] w.handles.dom().contains(k) implies paired(w, k) by {
            assert(paired(v, k));
        }
        assert forall|a: ChannelKey, b: ChannelKey|
            #![trigger w.listeners.dom().contains(a), w.listeners.dom().contains(b)]
            w.listeners.dom().contains(a) && w.listeners.dom().contains(b)
                && (w.listeners[a].name == w.listeners[b].name || w.listeners[a].generation
                == w.listeners[b].generation) implies a == b by {
            assert(v.listeners.dom().contains(a) && v.listeners.dom().contains(b));
        }
    } else if v.handles.dom().contains(key) {
        let h = v.handles[key];
        lemma_pair_closed(v, key, v.draining.insert(key).insert(h.peer), true, true);
    }
}

pub proof fn lemma_departed_end_sound(v: FabricView, key: ChannelKey)
    requires
        sound(v),
    ensures
        sound(departed_end(v, key).after),
{
    if v.handles.dom().contains(key) {
        let h = v.handles[key];
        let tell = h.peer.endpoint != key.endpoint;
        let draining = if tell {
            v.draining.insert(h.peer)
        } else {
            v.draining
        };
        lemma_pair_closed(v, key, draining, tell && !h.left, tell && h.left);
    }
}

pub proof fn lemma_departed_ends_sound(v: FabricView, keys: Seq<ChannelKey>)
    requires
        sound(v),
    ensures
        sound(departed_ends(v, keys).after),
    decreases keys.len(),
{
    if keys.len() > 0 {
        lemma_departed_ends_sound(v, keys.drop_last());
        lemma_departed_end_sound(departed_ends(v, keys.drop_last()).after, keys.last());
    }
}

pub proof fn lemma_without_listeners_sound(v: FabricView, endpoint: u64)
    requires
        sound(v),
    ensures
        sound(without_listeners(v, endpoint)),
{
    let w = without_listeners(v, endpoint);
    assert forall|k: ChannelKey| #[trigger] w.handles.dom().contains(k) implies paired(w, k) by {
        assert(paired(v, k));
    }
    assert forall|a: ChannelKey, b: ChannelKey|
        #![trigger w.listeners.dom().contains(a), w.listeners.dom().contains(b)]
        w.listeners.dom().contains(a) && w.listeners.dom().contains(b) && (w.listeners[a].name
            == w.listeners[b].name || w.listeners[a].generation
            == w.listeners[b].generation) implies a == b by {
        assert(v.listeners.dom().contains(a) && v.listeners.dom().contains(b));
    }
    assert forall|k: ChannelKey| #[trigger]
        w.listeners.dom().contains(k) implies !w.handles.dom().contains(k)
        && !w.draining.contains(k) && w.listeners[k].generation < w.next_listener_generation by {
        assert(v.listeners.dom().contains(k));
    }
}

/// Changing one end's counters, within bounds, and queueing packets keeps the
/// rest.
proof fn lemma_moved_sound(v: FabricView, key: ChannelKey, h: HandleView, p: u64, left: bool)
    requires
        sound(v),
        v.handles.dom().contains(key),
        h.peer == v.handles[key].peer,
        h.pair == v.handles[key].pair,
        h.left == v.handles[key].left,
        flows(h, v.limits),
        v.pairs.dom().contains(p),
    ensures
        sound(
            FabricView {
                handles: v.handles.insert(key, h),
                pairs: v.pairs.insert(p, queued_for(v.pairs[p], left)),
                ..v
            },
        ),
{
    let w = FabricView {
        handles: v.handles.insert(key, h),
        pairs: v.pairs.insert(p, queued_for(v.pairs[p], left)),
        ..v
    };
    assert(w.handles.dom() =~= v.handles.dom());
    assert forall|k: ChannelKey| #[trigger] w.handles.dom().contains(k) implies paired(w, k) by {
        assert(v.handles.dom().contains(k));
        assert(paired(v, k));
    }
    assert forall|a: ChannelKey, b: ChannelKey|
        #![trigger w.handles.dom().contains(a), w.handles.dom().contains(b)]
        w.handles.dom().contains(a) && w.handles.dom().contains(b) && w.handles[a].pair
            == w.handles[b].pair && w.handles[a].left == w.handles[b].left implies a == b by {
        assert(v.handles.dom().contains(a) && v.handles.dom().contains(b));
    }
    assert forall|k: ChannelKey| #[trigger] w.handles.dom().contains(k) implies flows(
        w.handles[k],
        w.limits,
    ) by {
        assert(v.handles.dom().contains(k));
    }
    assert forall|k: ChannelKey| #[trigger]
        w.listeners.dom().contains(k) implies !w.handles.dom().contains(k)
        && !w.draining.contains(k) by {
        assert(v.listeners.dom().contains(k));
    }
}

pub proof fn lemma_data_sound(v: FabricView, key: ChannelKey, payload: Seq<u8>)
    requires
        sound(v),
    ensures
        sound(data_sent(v, key, payload).after),
{
    if v.listeners.dom().contains(key) {
        lemma_closed_sound(
            v,
            key,
            CloseReason::ProtocolViolation,
            "listener received channel data"@,
        );
    } else if v.handles.dom().contains(key) {
        match data_fault(v, key, payload.len()) {
            Some(detail) => lemma_closed_sound(v, key, CloseReason::ProtocolViolation, detail),
            None => {
                let h = v.handles[key];
                assert(paired(v, key));
                assert(flows(h, v.limits));
                let sent = (h.sent + payload.len()) as u64;
                let moved = HandleView { sent, boundaries: h.boundaries.push(sent), ..h };
                assert(flows(moved, v.limits)) by {
                    assert forall|i: int, j: int|
                        0 <= i <= j < moved.boundaries.len() implies (
                    #[trigger] moved.boundaries[i]) <= (#[trigger] moved.boundaries[j]) by {
                        if j < h.boundaries.len() {
                            assert(h.boundaries[i] <= h.boundaries[j]);
                        } else if i < h.boundaries.len() {
                            assert(h.boundaries[i] <= h.sent);
                        }
                    }
                    assert forall|i: int| 0 <= i < moved.boundaries.len() implies moved.acked
                        <= #[trigger] moved.boundaries[i] <= moved.sent by {
                        if i < h.boundaries.len() {
                            assert(h.acked <= h.boundaries[i] <= h.sent);
                        }
                    }
                }
                lemma_moved_sound(v, key, moved, h.pair, !h.left);
            },
        }
    }
}

/// What stays of the boundaries is what lies beyond.
pub proof fn lemma_boundaries_after(boundaries: Seq<u64>, bytes: u64)
    requires
        forall|i: int, j: int|
            0 <= i <= j < boundaries.len() ==> (#[trigger] boundaries[i]) <= (
            #[trigger] boundaries[j]),
    ensures
        ({
            let rest = boundaries_after(boundaries, bytes);
            &&& rest.len() <= boundaries.len()
            &&& rest == boundaries.subrange(
                boundaries.len() - rest.len(),
                boundaries.len() as int,
            )
            &&& forall|i: int| 0 <= i < rest.len() ==> #[trigger] rest[i] > bytes
        }),
    decreases boundaries.len(),
{
    let rest = boundaries_after(boundaries, bytes);
    if boundaries.len() == 0 || boundaries[0] > bytes {
        assert(rest =~= boundaries.subrange(0, boundaries.len() as int));
        assert forall|i: int| 0 <= i < rest.len() implies #[trigger] rest[i] > bytes by {
            assert(boundaries[0] <= boundaries[i]);
        }
    } else {
        let tail = boundaries.subrange(1, boundaries.len() as int);
        assert forall|i: int, j: int| 0 <= i <= j < tail.len() implies (#[trigger] tail[i]) <= (
        #[trigger] tail[j]) by {
            assert(boundaries[i + 1] <= boundaries[j + 1]);
        }
        lemma_boundaries_after(tail, bytes);
        assert(rest =~= boundaries.subrange(
            boundaries.len() - rest.len(),
            boundaries.len() as int,
        ));
    }
}

pub proof fn lemma_ack_sound(v: FabricView, key: ChannelKey, bytes: u64)
    requires
        sound(v),
    ensures
        sound(ack_sent(v, key, bytes).after),
{
    if v.listeners.dom().contains(key) {
        lemma_closed_sound(
            v,
            key,
            CloseReason::ProtocolViolation,
            "listener received channel ACK"@,
        );
    } else if v.handles.dom().contains(key) {
        let h = v.handles[key];
        assert(paired(v, key));
        let peer = v.handles[h.peer];
        if !ack_valid(peer, bytes) {
            lemma_closed_sound(v, key, CloseReason::ProtocolViolation, "channel ACK is invalid"@);
        } else {
            assert(v.handles.dom().contains(h.peer));
            assert(flows(peer, v.limits));
            lemma_boundaries_after(peer.boundaries, bytes);
            let moved = HandleView {
                acked: bytes,
                boundaries: boundaries_after(peer.boundaries, bytes),
                ..peer
            };
            let gone = peer.boundaries.len() - moved.boundaries.len();
            assert forall|i: int, j: int|
                0 <= i <= j < moved.boundaries.len() implies (#[trigger] moved.boundaries[i]) <= (
            #[trigger] moved.boundaries[j]) by {
                assert(peer.boundaries[i + gone] <= peer.boundaries[j + gone]);
            }
            assert forall|i: int| 0 <= i < moved.boundaries.len() implies moved.acked
                <= #[trigger] moved.boundaries[i] <= moved.sent by {
                assert(peer.boundaries[i + gone] <= peer.sent);
            }
            lemma_moved_sound(v, h.peer, moved, h.pair, !h.left);
        }
    }
}

pub proof fn lemma_released_sound(v: FabricView, hold: Hold)
    requires
        sound(v),
    ensures
        sound(released(v, hold)),
{
    let w = released(v, hold);
    assert forall|k: ChannelKey| #[trigger] w.handles.dom().contains(k) implies paired(w, k) by {
        assert(paired(v, k));
    }
}

/// Tokens of different generations differ, so that one of a listener that is
/// gone never names the one that took its name.
pub proof fn law_tokens_are_unique(boot: u64, a: u64, b: u64)
    requires
        a != b,
    ensures
        token(boot, a) != token(boot, b),
{
    lemma_le_bytes_len(boot as nat, 8);
    lemma_le_bytes_len(a as nat, 8);
    lemma_le_bytes_len(b as nat, 8);
    lemma_byte_range_values();
    law_le_round_trip(a as nat, 8);
    law_le_round_trip(b as nat, 8);
    assert(token(boot, a).subrange(8, 16) =~= le64(a));
    assert(token(boot, b).subrange(8, 16) =~= le64(b));
}

} // verus!
