//! What holds of the data and the acknowledgements that a connection carries.

use vstd::prelude::*;

use crate::channel::fabric::{
    connect_effect, departure, listen_effect, listener_named, packet_effect, ChannelFabric,
    ChannelRequest, Decoded, Room, RoomFound,
};
use crate::channel::keys::{keyed, lemma_owned, owned, ChannelKey};
use crate::channel::model::{
    accept_candidate, ack_sent, boundaries_after, closed_at, data_sent, departed_end,
    departed_ends, lemma_accepted_id, lemma_departed_ends_sound, lemma_without_listeners_sound, paired,
    sound, token, without_listeners,
};
use crate::channel::model::{
    ChannelStatus, CloseReason, DeliveryView, FabricView, PacketView,
};

verus! {

/// Whichever end sends, a message that keeps its unacknowledged bytes within the
/// window, and its unacknowledged messages within their maximum, is delivered: one
/// packet with that payload goes to the other end, under the other end's id, and
/// both ends stay open.
pub proof fn law_message_within_the_window_is_delivered(
    v: FabricView,
    key: ChannelKey,
    payload: Seq<u8>,
)
    requires
        sound(v),
        v.handles.dom().contains(key),
        v.handles[key].sent - v.handles[key].acked + payload.len() <= v.limits.window,
        v.handles[key].boundaries.len() < v.limits.max_unconsumed,
        v.handles[key].acked + v.limits.window <= u64::MAX,
    ensures
        ({
            let e = data_sent(v, key, payload);
            let peer = v.handles[key].peer;
            &&& e.sent.len() == 1
            &&& e.sent[0].endpoint == peer.endpoint
            &&& e.sent[0].packet == (PacketView::Data { channel_id: peer.channel_id, payload })
            &&& e.after.handles.dom() == v.handles.dom()
            &&& e.after.handles[key].sent == v.handles[key].sent + payload.len()
            &&& e.after.handles[key].acked == v.handles[key].acked
            &&& e.after.handles[key].boundaries == v.handles[key].boundaries.push(
                e.after.handles[key].sent,
            )
            &&& forall|k: ChannelKey|
                k != key && #[trigger] v.handles.dom().contains(k) ==> e.after.handles[k]
                    == v.handles[k]
            &&& e.after.listeners == v.listeners
            &&& e.after.draining == v.draining
        }),
{
    assert(paired(v, key));
    if v.listeners.dom().contains(key) {
        assert(!v.handles.dom().contains(key));
    }
    assert(data_sent(v, key, payload).after.handles.dom() =~= v.handles.dom());
}

/// A message that would go over the window, or be one too many, ends the connection:
/// both ends are told that the protocol was violated, and neither is open any more.
pub proof fn law_message_over_the_window_ends_the_connection(
    v: FabricView,
    key: ChannelKey,
    payload: Seq<u8>,
)
    requires
        sound(v),
        v.handles.dom().contains(key),
        v.handles[key].sent - v.handles[key].acked + payload.len() > v.limits.window
            || v.handles[key].boundaries.len() >= v.limits.max_unconsumed,
    ensures
        ended_by_violation(v, data_sent(v, key, payload).after, data_sent(v, key, payload).sent, key),
{
    assert(paired(v, key));
    if v.listeners.dom().contains(key) {
        assert(!v.handles.dom().contains(key));
    }
}

/// Whether both ends of a connection are gone, and each was told that the protocol was
/// violated.
pub open spec fn ended_by_violation(
    before: FabricView,
    after: FabricView,
    sent: Seq<DeliveryView>,
    key: ChannelKey,
) -> bool {
    let peer = before.handles[key].peer;
    &&& !after.handles.dom().contains(key)
    &&& !after.handles.dom().contains(peer)
    &&& sent.len() == 2
    &&& sent[0].endpoint == key.endpoint
    &&& sent[1].endpoint == peer.endpoint
    &&& sent[0].packet matches PacketView::Closed { channel_id, reason, .. } && channel_id
        == key.channel_id && reason == CloseReason::ProtocolViolation
    &&& sent[1].packet matches PacketView::Closed { channel_id, reason, .. } && channel_id
        == peer.channel_id && reason == CloseReason::ProtocolViolation
}

/// Data and acknowledgements for a channel that is not open are passed over.
pub proof fn law_packets_for_nothing_are_passed_over(
    v: FabricView,
    key: ChannelKey,
    payload: Seq<u8>,
    bytes: u64,
    reason: CloseReason,
    detail: Seq<char>,
)
    requires
        !v.handles.dom().contains(key),
        !v.listeners.dom().contains(key),
    ensures
        data_sent(v, key, payload).after == v && data_sent(v, key, payload).sent.len() == 0,
        ack_sent(v, key, bytes).after == v && ack_sent(v, key, bytes).sent.len() == 0,
        closed_at(v, key, reason, detail).after == v && closed_at(v, key, reason, detail).sent.len()
            == 0,
{
}

/// Neither data nor an acknowledgement belongs to a listener: it is closed for that.
pub proof fn law_listener_takes_no_data(v: FabricView, key: ChannelKey, payload: Seq<u8>, bytes: u64)
    requires
        v.listeners.dom().contains(key),
    ensures
        ({
            let d = data_sent(v, key, payload);
            let a = ack_sent(v, key, bytes);
            &&& !d.after.listeners.dom().contains(key) && !a.after.listeners.dom().contains(key)
            &&& d.sent.len() == 1 && a.sent.len() == 1
            &&& d.sent[0].endpoint == key.endpoint && a.sent[0].endpoint == key.endpoint
            &&& d.sent[0].packet matches PacketView::Closed { channel_id, reason, .. } && channel_id
                == key.channel_id && reason == CloseReason::ProtocolViolation
            &&& a.sent[0].packet matches PacketView::Closed { channel_id, reason, .. } && channel_id
                == key.channel_id && reason == CloseReason::ProtocolViolation
        }),
{
}

/// Whichever end acknowledges, an acknowledgement up to the end of a message that the
/// other sent is told to the other under the other's id, both ends stay open, and
/// what lies beyond it stays unacknowledged.
pub proof fn law_acknowledgement_is_delivered(v: FabricView, key: ChannelKey, bytes: u64)
    requires
        sound(v),
        v.handles.dom().contains(key),
        v.handles[v.handles[key].peer].boundaries.contains(bytes) || bytes
            == v.handles[v.handles[key].peer].acked,
    ensures
        ({
            let e = ack_sent(v, key, bytes);
            let peer = v.handles[key].peer;
            let was = v.handles[peer];
            let is = e.after.handles[peer];
            &&& e.sent.len() == 1
            &&& e.sent[0].endpoint == peer.endpoint
            &&& e.sent[0].packet == (PacketView::Ack { channel_id: peer.channel_id, bytes })
            &&& e.after.handles.dom() == v.handles.dom()
            &&& is.acked == bytes
            &&& is.sent == was.sent
            &&& is.peer == was.peer
            &&& forall|b: u64| #[trigger]
                is.boundaries.contains(b) <==> was.boundaries.contains(b) && b > bytes
            &&& forall|k: ChannelKey|
                k != peer && #[trigger] v.handles.dom().contains(k) ==> e.after.handles[k]
                    == v.handles[k]
            &&& e.after.listeners == v.listeners
        }),
{
    let peer = v.handles[key].peer;
    assert(paired(v, key));
    assert(v.handles.dom().contains(peer));
    let b = v.handles[peer].boundaries;
    if v.listeners.dom().contains(key) {
        assert(!v.handles.dom().contains(key));
    }
    if b.contains(bytes) {
        let i = choose|i: int| 0 <= i < b.len() && b[i] == bytes;
        assert(v.handles[peer].acked <= b[i] <= v.handles[peer].sent);
    }
    lemma_kept_boundaries(b, bytes);
    assert(ack_sent(v, key, bytes).after.handles.dom() =~= v.handles.dom());
}

proof fn lemma_kept_boundaries(b: Seq<u64>, bytes: u64)
    requires
        forall|i: int, j: int| 0 <= i <= j < b.len() ==> (#[trigger] b[i]) <= (#[trigger] b[j]),
    ensures
        forall|x: u64| #[trigger]
            boundaries_after(b, bytes).contains(x) <==> b.contains(x) && x > bytes,
    decreases b.len(),
{
    let rest = boundaries_after(b, bytes);
    if b.len() > 0 && b[0] <= bytes {
        let tail = b.subrange(1, b.len() as int);
        assert forall|i: int, j: int| 0 <= i <= j < tail.len() implies (#[trigger] tail[i]) <= (
        #[trigger] tail[j]) by {
            assert(tail[i] == b[i + 1] && tail[j] == b[j + 1]);
        }
        lemma_kept_boundaries(tail, bytes);
        assert(rest == boundaries_after(tail, bytes));
        assert forall|x: u64| #[trigger] rest.contains(x) <==> b.contains(x) && x > bytes by {
            assert(rest.contains(x) <==> tail.contains(x) && x > bytes);
            if tail.contains(x) {
                let i = choose|i: int| 0 <= i < tail.len() && tail[i] == x;
                assert(b[i + 1] == x);
            }
            if b.contains(x) && x > bytes {
                let i = choose|i: int| 0 <= i < b.len() && b[i] == x;
                assert(tail[i - 1] == x);
            }
        }
    } else {
        assert forall|x: u64| #[trigger] rest.contains(x) <==> b.contains(x) && x > bytes by {
            if b.contains(x) {
                let i = choose|i: int| 0 <= i < b.len() && b[i] == x;
                assert(b[0] <= b[i]);
            }
        }
    }
}

/// An acknowledgement of what was not sent, or of what lies inside a message, ends the
/// connection.
pub proof fn law_false_acknowledgement_ends_the_connection(
    v: FabricView,
    key: ChannelKey,
    bytes: u64,
)
    requires
        sound(v),
        v.handles.dom().contains(key),
        !v.handles[v.handles[key].peer].boundaries.contains(bytes),
        bytes != v.handles[v.handles[key].peer].acked,
    ensures
        ended_by_violation(v, ack_sent(v, key, bytes).after, ack_sent(v, key, bytes).sent, key),
{
    assert(paired(v, key));
    if v.listeners.dom().contains(key) {
        assert(!v.handles.dom().contains(key));
    }
}

/// When an end closes a connection both ends are told, each under its own id and with
/// the reason that was given.
pub proof fn law_close_gives_its_reason(
    v: FabricView,
    key: ChannelKey,
    reason: CloseReason,
    detail: Seq<char>,
)
    requires
        sound(v),
        v.handles.dom().contains(key),
    ensures
        ({
            let e = closed_at(v, key, reason, detail);
            let peer = v.handles[key].peer;
            &&& e.sent.len() == 2
            &&& e.sent[0].endpoint == key.endpoint
            &&& e.sent[0].packet == (PacketView::Closed {
                channel_id: key.channel_id,
                reason,
                detail,
            })
            &&& e.sent[1].endpoint == peer.endpoint
            &&& e.sent[1].packet == (PacketView::Closed {
                channel_id: peer.channel_id,
                reason,
                detail,
            })
            &&& forall|k: ChannelKey| #[trigger]
                e.after.handles.dom().contains(k) <==> v.handles.dom().contains(k) && k != key && k
                    != peer
            &&& forall|k: ChannelKey| #[trigger]
                e.after.handles.dom().contains(k) ==> e.after.handles[k] == v.handles[k]
            &&& e.after.listeners == v.listeners
        }),
{
    assert(paired(v, key));
    if v.listeners.dom().contains(key) {
        assert(!v.handles.dom().contains(key));
    }
}

/// Whether a reply says how an attempt to open this channel ended.
pub open spec fn tells(d: DeliveryView, key: ChannelKey, status: ChannelStatus) -> bool {
    &&& d.endpoint == key.endpoint
    &&& d.packet matches PacketView::Opened { channel_id, status: told, .. } && channel_id
        == key.channel_id && told == status
}

/// A name that nobody listens under can be listened under, with an id that is not in
/// use and within the budgets: the listener is there with its name and what was said
/// of it, and the one that asked is told so.
pub proof fn law_free_name_can_be_listened_under(
    f: ChannelFabric,
    key: ChannelKey,
    name: Seq<char>,
    metadata: Seq<u8>,
)
    requires
        f.wf(),
        !f@.listeners.dom().contains(key),
        !f@.handles.dom().contains(key),
        !f@.draining.contains(key),
        forall|k: ChannelKey| #[trigger]
            f@.listeners.dom().contains(k) ==> f@.listeners[k].name != name,
        f.listeners.spec_rows().len() < f.limits.listeners,
        f.own_listeners(key.endpoint) < f.limits.listen_per_client,
        f.next_listener_generation < u64::MAX,
    ensures
        ({
            let e = listen_effect(f, key, name, metadata, true);
            &&& e.sent.len() == 1
            &&& tells(e.sent[0], key, ChannelStatus::Success)
            &&& e.after.listeners.dom() == f@.listeners.dom().insert(key)
            &&& e.after.listeners[key].name == name
            &&& e.after.listeners[key].metadata == metadata
            &&& forall|k: ChannelKey|
                k != key && #[trigger] f@.listeners.dom().contains(k) ==> e.after.listeners[k]
                    == f@.listeners[k]
            &&& e.after.handles == f@.handles
            &&& e.after.pairs == f@.pairs
        }),
{
    let e = listen_effect(f, key, name, metadata, true);
    assert(e.after.listeners.dom() =~= f@.listeners.dom().insert(key));
}

/// A listener is refused for an id that is in use and for a name that another has, as a
/// conflict, and over a budget as such. Nothing is listened under then.
pub proof fn law_listener_is_refused(
    f: ChannelFabric,
    key: ChannelKey,
    name: Seq<char>,
    metadata: Seq<u8>,
    room: bool,
)
    requires
        f.wf(),
    ensures
        ({
            let e = listen_effect(f, key, name, metadata, room);
            let used = f@.listeners.dom().contains(key) || f@.handles.dom().contains(key)
                || f@.draining.contains(key);
            let named = exists|k: ChannelKey| #[trigger]
                f@.listeners.dom().contains(k) && f@.listeners[k].name == name;
            let full = f.listeners.spec_rows().len() >= f.limits.listeners || f.own_listeners(
                key.endpoint,
            ) >= f.limits.listen_per_client;
            &&& used || named || full ==> e.after.listeners == f@.listeners && e.sent.len() == 1
            &&& used || named ==> tells(e.sent[0], key, ChannelStatus::Conflict)
            &&& !used && !named && full ==> tells(e.sent[0], key, ChannelStatus::Budget)
            &&& !room && !used && !named && !full && f.next_listener_generation < u64::MAX
                ==> e.sent.len() == 0 && e.after == f@
        }),
{
}

/// A connection to a name that is listened under, with an id that is not in use, with
/// the listener's token or none, and within the budgets, is made: the one that
/// connects is told of the window and of what the listener said, the listener's
/// endpoint is told of what the other said, under an odd id that was free, and the two
/// ends are each other's with nothing sent yet.
pub proof fn law_connection_is_made(
    f: ChannelFabric,
    key: ChannelKey,
    listener: ChannelKey,
    name: Seq<char>,
    metadata: Seq<u8>,
    wanted: Option<Seq<u8>>,
    pair: u64,
)
    requires
        f.wf(),
        !f@.listeners.dom().contains(key),
        !f@.handles.dom().contains(key),
        !f@.draining.contains(key),
        key.channel_id % 2 == 0,
        f@.listeners.dom().contains(listener),
        f@.listeners[listener].name == name,
        wanted is None || wanted == Some(
            token(f.boot_generation, f@.listeners[listener].generation),
        ),
        accept_candidate(f@, listener.endpoint) is Some,
        key.endpoint != listener.endpoint ==> f.places(key.endpoint) < f.limits.handles_per_client
            && f.places(listener.endpoint) < f.limits.handles_per_client,
        key.endpoint == listener.endpoint ==> f.places(key.endpoint) + 2
            <= f.limits.handles_per_client,
        f.pairs.spec_rows().len() < f.limits.connected_pairs,
        2 * f.limits.window <= u64::MAX,
        (f.pairs.spec_rows().len() + 1) * (2 * f.limits.window) <= f.limits.buffer_bytes,
    ensures
        ({
            let e = connect_effect(f, key, name, metadata, wanted, Room::Both, pair);
            let other = e.after.handles[key].peer;
            &&& other.endpoint == listener.endpoint
            &&& other.channel_id % 2 == 1
            &&& !f@.listeners.dom().contains(other)
            &&& !f@.handles.dom().contains(other)
            &&& !f@.draining.contains(other)
            &&& e.after.handles.dom() == f@.handles.dom().insert(key).insert(other)
            &&& e.after.handles[other].peer == key
            &&& e.after.handles[key].sent == 0 && e.after.handles[key].acked == 0
            &&& e.after.handles[key].boundaries.len() == 0
            &&& e.after.handles[other].sent == 0 && e.after.handles[other].acked == 0
            &&& e.after.handles[other].boundaries.len() == 0
            &&& e.after.listeners == f@.listeners
            &&& e.sent.len() == 2
            &&& tells(e.sent[0], key, ChannelStatus::Success)
            &&& e.sent[0].packet matches PacketView::Opened { window, peer, metadata: said, .. }
                && window == f.limits.window && said == f@.listeners[listener].metadata && (
            f@.peer_names.dom().contains(listener.endpoint) ==> peer
                == f@.peer_names[listener.endpoint])
            &&& e.sent[1].endpoint == listener.endpoint
            &&& e.sent[1].packet matches PacketView::Accepted {
                channel_id,
                listener_id,
                window,
                peer,
                metadata: said,
            } && channel_id == other.channel_id && listener_id == listener.channel_id && window
                == f.limits.window && said == metadata && (f@.peer_names.dom().contains(
                key.endpoint,
            ) ==> peer == f@.peer_names[key.endpoint])
            &&& e.after.handles[key].pair == pair
            &&& e.after.pairs.dom().contains(pair)
        }),
{
    let named = listener_named(f@, name)->0;
    assert(f@.listeners.dom().contains(named));
    assert(named == listener);
    let from = if f@.next_server_id.dom().contains(listener.endpoint) {
        f@.next_server_id[listener.endpoint]
    } else {
        1
    };
    lemma_accepted_id(f@, listener.endpoint, from);
    let e = connect_effect(f, key, name, metadata, wanted, Room::Both, pair);
    let n = f.pairs.spec_rows().len();
    assert(f.pair_fault(key.endpoint, listener.endpoint) is None);
    let (id, following) = accept_candidate(f@, listener.endpoint)->0;
    let other = ChannelKey { endpoint: listener.endpoint, channel_id: id };
    assert(key != other);
    assert(e.after.handles[key].peer == other);
    assert(e.after.handles.dom() =~= f@.handles.dom().insert(key).insert(other));
}

/// A connection is refused, and no end is opened: for an id that is in use as a
/// conflict, for a name that nobody listens under as not found, with the token of
/// another listener as a conflict, and over a budget as such.
pub proof fn law_connection_is_refused(
    f: ChannelFabric,
    key: ChannelKey,
    name: Seq<char>,
    metadata: Seq<u8>,
    wanted: Option<Seq<u8>>,
    room: Room,
    pair: u64,
)
    requires
        f.wf(),
    ensures
        ({
            let e = connect_effect(f, key, name, metadata, wanted, room, pair);
            let used = f@.listeners.dom().contains(key) || f@.handles.dom().contains(key)
                || f@.draining.contains(key);
            let named = exists|k: ChannelKey| #[trigger]
                f@.listeners.dom().contains(k) && f@.listeners[k].name == name;
            &&& used ==> e.sent.len() == 1 && tells(e.sent[0], key, ChannelStatus::Conflict)
                && e.after.handles == f@.handles
            &&& !used && !named ==> e.sent.len() == 1 && tells(
                e.sent[0],
                key,
                ChannelStatus::NotFound,
            ) && e.after.handles == f@.handles
            &&& forall|l: ChannelKey|
                !used && #[trigger] f@.listeners.dom().contains(l) && f@.listeners[l].name == name
                    && wanted is Some && wanted->0 != token(
                    f.boot_generation,
                    f@.listeners[l].generation,
                ) ==> e.sent.len() == 1 && tells(e.sent[0], key, ChannelStatus::Conflict)
                    && e.after.handles == f@.handles
            &&& forall|l: ChannelKey|
                !used && #[trigger] f@.listeners.dom().contains(l) && f@.listeners[l].name == name
                    && wanted is None && (f.places(key.endpoint) >= f.limits.handles_per_client
                    || f.places(l.endpoint) >= f.limits.handles_per_client
                    || f.pairs.spec_rows().len() >= f.limits.connected_pairs) ==> e.sent.len() == 1
                    && tells(e.sent[0], key, ChannelStatus::Budget) && e.after.handles
                    == f@.handles
        }),
{
    let e = connect_effect(f, key, name, metadata, wanted, room, pair);
    assert forall|l: ChannelKey| #[trigger]
        f@.listeners.dom().contains(l) && f@.listeners[l].name == name implies listener_named(
        f@,
        name,
    ) == Some(l) by {
        let named = listener_named(f@, name)->0;
        assert(f@.listeners.dom().contains(named));
    }
}

/// A connection that finds no room leaves both sides as they were. Only where the
/// listener's side has none, and the other can be told, is it told that the connection
/// was cancelled.
pub proof fn law_connection_without_room(
    f: ChannelFabric,
    key: ChannelKey,
    name: Seq<char>,
    metadata: Seq<u8>,
    wanted: Option<Seq<u8>>,
    reply: bool,
    pair: u64,
)
    requires
        f.connect_fault(key, name, wanted) is None,
    ensures
        ({
            let a = connect_effect(f, key, name, metadata, wanted, Room::NoConnector, pair);
            let b = connect_effect(f, key, name, metadata, wanted, Room::NoListener { reply }, pair);
            &&& a.sent.len() == 0 && a.after == f@
            &&& b.after.handles == f@.handles && b.after.pairs == f@.pairs
            &&& reply ==> b.sent.len() == 1 && tells(b.sent[0], key, ChannelStatus::Cancelled)
            &&& !reply ==> b.sent.len() == 0
        }),
{
}

/// While channels are off or the server shuts down, a packet that would open one is
/// answered that this is not permitted, and any other is passed over.
pub proof fn law_refusal_is_answered(
    f: ChannelFabric,
    endpoint: u64,
    opens: bool,
    channel_id: u32,
    request: ChannelRequest,
    room: RoomFound,
    pair: u64,
)
    requires
        !f.enabled || f.shutting_down,
    ensures
        ({
            let key = ChannelKey { endpoint, channel_id };
            let e = packet_effect(
                f,
                endpoint,
                opens,
                channel_id,
                Decoded::Request(request),
                room,
                pair,
            );
            &&& opens ==> e.sent.len() == 1 && tells(e.sent[0], key, ChannelStatus::Permission)
            &&& !opens ==> e.sent.len() == 0 && e.after == f@
            &&& e.after.handles == f@.handles
            &&& e.after.listeners == f@.listeners
        }),
{
}

/// A packet that is not well-formed opens nothing: one that would open a channel is
/// answered as invalid, and one for a connection ends it.
pub proof fn law_malformed_packet(
    f: ChannelFabric,
    endpoint: u64,
    opens: bool,
    channel_id: u32,
    detail: String,
    room: RoomFound,
    pair: u64,
)
    requires
        f.wf(),
    ensures
        ({
            let key = ChannelKey { endpoint, channel_id };
            let e = packet_effect(
                f,
                endpoint,
                opens,
                channel_id,
                Decoded::Malformed(detail),
                room,
                pair,
            );
            &&& !f.enabled ==> e.sent.len() == 0 && e.after == f@
            &&& f.enabled && opens ==> e.sent.len() == 1 && tells(
                e.sent[0],
                key,
                ChannelStatus::Invalid,
            ) && e.after.handles == f@.handles && e.after.listeners == f@.listeners
            &&& f.enabled && !opens && f@.handles.dom().contains(key) ==> ended_by_violation(
                f@,
                e.after,
                e.sent,
                key,
            )
        }),
{
    let key = ChannelKey { endpoint, channel_id };
    if f@.handles.dom().contains(key) {
        assert(paired(f@, key));
    }
    if f@.listeners.dom().contains(key) {
        assert(!f@.handles.dom().contains(key));
    }
}

/// While channels are on, a packet carries out what it asks for: data goes to the other
/// end, an acknowledgement too, a close ends the connection, and a name is listened
/// under or connected to as it would be without the packet around the request.
pub proof fn law_packets_carry_requests(
    f: ChannelFabric,
    endpoint: u64,
    opens: bool,
    channel_id: u32,
    payload: Vec<u8>,
    bytes: u64,
    reason: u8,
    room: RoomFound,
    pair: u64,
)
    requires
        f.wf(),
        f.enabled,
        !f.shutting_down,
        f@.handles.dom().contains(ChannelKey { endpoint, channel_id }),
    ensures
        ({
            let key = ChannelKey { endpoint, channel_id };
            let h = f@.handles[key];
            let of = |request: ChannelRequest|
                packet_effect(
                    f,
                    endpoint,
                    opens,
                    channel_id,
                    Decoded::Request(request),
                    room,
                    pair,
                );
            let data = of(ChannelRequest::Data { channel_id, payload });
            let ack = of(ChannelRequest::Ack { channel_id, bytes });
            let close = of(ChannelRequest::Close { channel_id, reason });
            &&& h.sent - h.acked + payload@.len() <= f.limits.window && h.boundaries.len()
                < f.limits.max_unconsumed && h.acked + f.limits.window <= u64::MAX
                ==> data.sent.len() == 1 && data.sent[0].endpoint == h.peer.endpoint
                && data.sent[0].packet == (PacketView::Data {
                channel_id: h.peer.channel_id,
                payload: payload@,
            })
            &&& f@.handles[h.peer].boundaries.contains(bytes) ==> ack.sent.len() == 1
                && ack.sent[0].endpoint == h.peer.endpoint && ack.sent[0].packet == (
            PacketView::Ack { channel_id: h.peer.channel_id, bytes })
            &&& close.sent.len() == 2 && !close.after.handles.dom().contains(key)
                && !close.after.handles.dom().contains(h.peer)
            &&& close.sent[0].packet matches PacketView::Closed { reason: told, .. } && told
                == CloseReason::Requested(reason)
            &&& close.sent[1].packet matches PacketView::Closed { reason: told, .. } && told
                == CloseReason::Requested(reason)
        }),
{
    let key = ChannelKey { endpoint, channel_id };
    let h = f@.handles[key];
    if h.sent - h.acked + payload@.len() <= f.limits.window && h.boundaries.len()
        < f.limits.max_unconsumed && h.acked + f.limits.window <= u64::MAX {
        law_message_within_the_window_is_delivered(f@, key, payload@);
    }
    if f@.handles[h.peer].boundaries.contains(bytes) {
        law_acknowledgement_is_delivered(f@, key, bytes);
    }
    law_close_gives_its_reason(f@, key, CloseReason::Requested(reason), Seq::empty());
}

/// A packet that asks to listen or to connect does what the request does.
pub proof fn law_packets_open_channels(
    f: ChannelFabric,
    endpoint: u64,
    opens: bool,
    channel_id: u32,
    name: String,
    metadata: Vec<u8>,
    room: RoomFound,
    pair: u64,
)
    requires
        f.enabled,
        !f.shutting_down,
    ensures
        ({
            let key = ChannelKey { endpoint, channel_id };
            let listen = packet_effect(
                f,
                endpoint,
                opens,
                channel_id,
                Decoded::Request(ChannelRequest::Listen { channel_id, name, metadata }),
                room,
                pair,
            );
            let connect = packet_effect(
                f,
                endpoint,
                opens,
                channel_id,
                Decoded::Request(
                    ChannelRequest::Connect { channel_id, name, metadata, token: None },
                ),
                room,
                pair,
            );
            &&& listen == listen_effect(f, key, name@, metadata@, room.listen)
            &&& connect == connect_effect(f, key, name@, metadata@, None, room.connect, pair)
        }),
{
}

/// The other end of every connection that a departing endpoint had is gone too, and
/// told that its peer is, where it belongs to another.
pub proof fn law_departure_ends_its_connections(f: ChannelFabric, endpoint: u64, key: ChannelKey)
    requires
        f.wf(),
        f@.handles.dom().contains(key),
        key.endpoint == endpoint,
    ensures
        ({
            let e = departure(f, endpoint);
            let peer = f@.handles[key].peer;
            &&& !e.after.handles.dom().contains(key)
            &&& !e.after.handles.dom().contains(peer)
            &&& peer.endpoint != endpoint ==> exists|i: int|
                0 <= i < e.sent.len() && (#[trigger] e.sent[i]).endpoint == peer.endpoint && (
                e.sent[i].packet matches PacketView::Closed { channel_id, reason, .. } && channel_id
                    == peer.channel_id && reason == CloseReason::PeerGone)
        }),
{
    let rows = f.handles.spec_rows();
    let keys = owned(rows, endpoint);
    f.handles.lemma_rows();
    lemma_owned(rows, endpoint);
    lemma_without_listeners_sound(f@, endpoint);
    let v = without_listeners(f@, endpoint);
    assert forall|i: int| 0 <= i < keys.len() implies (#[trigger] keys[i]).endpoint == endpoint by {
        assert(keys.contains(keys[i]));
    }
    assert(v.handles.dom().contains(key));
    assert(keyed(rows, key));
    assert(keys.contains(key));
    lemma_departing(v, keys, endpoint, key);
}

proof fn lemma_departing(v: FabricView, keys: Seq<ChannelKey>, endpoint: u64, key: ChannelKey)
    requires
        sound(v),
        v.handles.dom().contains(key),
        forall|i: int| 0 <= i < keys.len() ==> (#[trigger] keys[i]).endpoint == endpoint,
        key.endpoint == endpoint,
    ensures
        ({
            let e = departed_ends(v, keys);
            let peer = v.handles[key].peer;
            let done = keys.contains(key) || keys.contains(peer);
            &&& done ==> !e.after.handles.dom().contains(key) && !e.after.handles.dom().contains(
                peer,
            )
            &&& !done ==> e.after.handles.dom().contains(key) && e.after.handles[key]
                == v.handles[key]
            &&& done && peer.endpoint != endpoint ==> exists|i: int|
                0 <= i < e.sent.len() && (#[trigger] e.sent[i]).endpoint == peer.endpoint && (
                e.sent[i].packet matches PacketView::Closed { channel_id, reason, .. } && channel_id
                    == peer.channel_id && reason == CloseReason::PeerGone)
        }),
    decreases keys.len(),
{
    let peer = v.handles[key].peer;
    assert(paired(v, key));
    if keys.len() > 0 {
        let front = keys.drop_last();
        let last = keys.last();
        assert(last == keys[keys.len() - 1]);
        lemma_departing(v, front, endpoint, key);
        lemma_departed_ends_sound(v, front);
        let first = departed_ends(v, front);
        let step = departed_end(first.after, last);
        let e = departed_ends(v, keys);
        assert(keys.contains(key) == (front.contains(key) || last == key)) by {
            lemma_drop_last_contains(keys, key);
        }
        assert(keys.contains(peer) == (front.contains(peer) || last == peer)) by {
            lemma_drop_last_contains(keys, peer);
        }
        let was = front.contains(key) || front.contains(peer);
        if was {
            if peer.endpoint != endpoint {
                let i = choose|i: int|
                    0 <= i < first.sent.len() && (#[trigger] first.sent[i]).endpoint
                        == peer.endpoint && (first.sent[i].packet matches PacketView::Closed {
                        channel_id,
                        reason,
                        ..
                    } && channel_id == peer.channel_id && reason == CloseReason::PeerGone);
                assert(e.sent[i] == first.sent[i]);
            }
        } else {
            let mid = first.after;
            assert(mid.handles.dom().contains(key));
            assert(paired(mid, key));
            assert(mid.handles.dom().contains(peer));
            if last == key {
                if peer.endpoint != endpoint {
                    assert(e.sent[first.sent.len() as int] == step.sent[0]);
                }
            } else if last == peer {
            } else if mid.handles.dom().contains(last) {
                assert(paired(mid, last));
            }
        }
    }
}

proof fn lemma_drop_last_contains(keys: Seq<ChannelKey>, k: ChannelKey)
    requires
        keys.len() > 0,
    ensures
        keys.contains(k) == (keys.drop_last().contains(k) || keys.last() == k),
{
    let front = keys.drop_last();
    if keys.contains(k) {
        let i = choose|i: int| 0 <= i < keys.len() && keys[i] == k;
        if i < front.len() {
            assert(front[i] == k);
        }
    }
    if front.contains(k) {
        let i = choose|i: int| 0 <= i < front.len() && front[i] == k;
        assert(keys[i] == k);
    }
    assert(keys[keys.len() - 1] == keys.last());
}

} // verus!
