//! What holds of the channel fabric as a whole.

use vstd::prelude::*;

use crate::channel::fabric::{
    connect_effect, departure, listener_named, packet_effect, place_weight, spec_first_ask,
    spec_next_ask, spec_room_of, ChannelFabric, Decoded, Room, RoomAsk, RoomFound,
};
use crate::channel::keys::{keyed, lemma_owned, lemma_place, owned, ChannelKey};
use crate::channel::model::{
    ack_sent, ack_valid, boundaries_after, closed_at, departed_end, departed_ends, flows, held,
    id_live, law_tokens_are_unique, lemma_boundaries_after, lemma_departed_end_sound,
    lemma_without_listeners_sound, paired, released, sound, token, without_listeners,
};
use crate::channel::model::{ChannelStatus, CloseReason, FabricView, Hold, Pair};
use crate::id_map::{lemma_weigh_insert, row_of, weigh, IdMap};

verus! {

/// A connection that is refused, or that finds no room for its first packets,
/// publishes nothing: no end, no place and no id of the server's is taken.
pub proof fn law_failed_connection_publishes_nothing(
    f: ChannelFabric,
    key: ChannelKey,
    name: Seq<char>,
    metadata: Seq<u8>,
    wanted: Option<Seq<u8>>,
    room: Room,
    pair: u64,
)
    requires
        f.connect_fault(key, name, wanted) is Some || !(room is Both),
    ensures
        ({
            let after = connect_effect(f, key, name, metadata, wanted, room, pair).after;
            after == (FabricView { draining: after.draining, ..f@ })
        }),
{
}

/// While the server shuts down nothing is opened: no packet adds a listener, an
/// end or a pair.
pub proof fn law_shutdown_seals(
    f: ChannelFabric,
    endpoint: u64,
    opens: bool,
    channel_id: u32,
    decoded: Decoded,
    room: RoomFound,
    pair: u64,
)
    requires
        f.wf(),
        f.shutting_down,
    ensures
        ({
            let after = packet_effect(f, endpoint, opens, channel_id, decoded, room, pair).after;
            &&& after.listeners.dom().subset_of(f@.listeners.dom())
            &&& after.handles.dom().subset_of(f@.handles.dom())
            &&& after.pairs.dom().subset_of(f@.pairs.dom())
        }),
{
    let key = ChannelKey { endpoint, channel_id };
    if f@.handles.dom().contains(key) {
        assert(paired(f@, key));
    }
}

/// When a pair is closed both ends are told, and neither id can be used again
/// before that was written.
pub proof fn law_both_ends_are_told(
    v: FabricView,
    key: ChannelKey,
    reason: CloseReason,
    detail: Seq<char>,
)
    requires
        sound(v),
        v.handles.dom().contains(key),
    ensures
        ({
            let e = closed_at(v, key, reason, detail);
            let peer = v.handles[key].peer;
            &&& e.sent.len() == 2
            &&& e.sent[0].endpoint == key.endpoint && e.sent[0].hold.drain == Some(key)
            &&& e.sent[1].endpoint == peer.endpoint && e.sent[1].hold.drain == Some(peer)
            &&& id_live(e.after, key) && id_live(e.after, peer)
            &&& !e.after.handles.dom().contains(key) && !e.after.handles.dom().contains(peer)
        }),
{
    assert(paired(v, key));
    if v.listeners.dom().contains(key) {
        assert(!v.handles.dom().contains(key));
    }
}

/// An id is free again once its last packet was written.
pub proof fn law_drained_id_is_free(v: FabricView, key: ChannelKey, slot: Option<(u64, bool)>)
    requires
        sound(v),
        v.draining.contains(key),
    ensures
        !id_live(released(v, Hold { slot, drain: Some(key) }), key),
{
    if v.listeners.dom().contains(key) {
        assert(!v.draining.contains(key));
    }
    if v.handles.dom().contains(key) {
        assert(!v.draining.contains(key));
    }
}

/// The place of an end stays taken while the end is open or a packet for it is
/// queued, and is free once it was closed and the last of them was written. The
/// pair counts until then for both.
pub proof fn law_place_is_kept_until_drained(v: FabricView, p: u64, left: bool)
    requires
        sound(v),
        v.pairs.dom().contains(p),
    ensures
        ({
            let s = if left {
                v.pairs[p].left
            } else {
                v.pairs[p].right
            };
            let other = if left {
                v.pairs[p].right
            } else {
                v.pairs[p].left
            };
            let after = released(v, Hold { slot: Some((p, left)), drain: None });
            &&& s.live || s.queued > 1 ==> after.pairs.dom().contains(p) && held(
                if left {
                    after.pairs[p].left
                } else {
                    after.pairs[p].right
                },
            )
            &&& !s.live && s.queued == 1 && held(other) ==> after.pairs.dom().contains(p) && !held(
                if left {
                    after.pairs[p].left
                } else {
                    after.pairs[p].right
                },
            )
            &&& !s.live && s.queued == 1 && !held(other) ==> !after.pairs.dom().contains(p)
        }),
{
}

/// No more is unacknowledged at either end than the window allows, in bytes and
/// in messages.
pub proof fn law_window_is_kept(v: FabricView, key: ChannelKey)
    requires
        sound(v),
        v.handles.dom().contains(key),
    ensures
        v.handles[key].sent - v.handles[key].acked <= v.limits.window,
        v.handles[key].boundaries.len() <= v.limits.max_unconsumed,
{
    assert(flows(v.handles[key], v.limits));
}

/// Acknowledging everything that was sent opens the whole window again.
pub proof fn law_full_ack_reopens_the_window(v: FabricView, key: ChannelKey)
    requires
        sound(v),
        v.handles.dom().contains(key),
        ack_valid(v.handles[v.handles[key].peer], v.handles[v.handles[key].peer].sent),
    ensures
        ({
            let peer = v.handles[key].peer;
            let after = ack_sent(v, key, v.handles[peer].sent).after;
            &&& after.handles[peer].acked == v.handles[peer].sent
            &&& after.handles[peer].sent == v.handles[peer].sent
            &&& after.handles[peer].boundaries.len() == 0
        }),
{
    let peer = v.handles[key].peer;
    assert(paired(v, key));
    assert(v.handles.dom().contains(peer));
    assert(flows(v.handles[peer], v.limits));
    let sent = v.handles[peer].sent;
    let b = v.handles[peer].boundaries;
    lemma_boundaries_after(b, sent);
    let rest = boundaries_after(b, sent);
    if rest.len() > 0 {
        assert(rest[0] > sent);
        assert(rest[0] == b[b.len() - rest.len()]);
    }
    if v.listeners.dom().contains(key) {
        assert(!v.handles.dom().contains(key));
    }
}

/// A token of a listener that is gone connects to no other that took its name.
pub proof fn law_stale_token_is_refused(
    f: ChannelFabric,
    key: ChannelKey,
    name: Seq<char>,
    stale: u64,
)
    requires
        f.wf(),
        listener_named(f@, name) is Some,
        f@.listeners[listener_named(f@, name)->0].generation != stale,
    ensures
        f.connect_fault(key, name, Some(token(f.boot_generation, stale))) is Some,
        (f.connect_fault(key, name, Some(token(f.boot_generation, stale)))->0).0
            == ChannelStatus::Conflict,
{
    law_tokens_are_unique(
        f.boot_generation,
        f@.listeners[listener_named(f@, name)->0].generation,
        stale,
    );
}

/// The ends that are left over after a departing endpoint's were closed.
proof fn lemma_departed(v: FabricView, keys: Seq<ChannelKey>, endpoint: u64)
    requires
        sound(v),
        forall|i: int| 0 <= i < keys.len() ==> (#[trigger] keys[i]).endpoint == endpoint,
    ensures
        ({
            let e = departed_ends(v, keys);
            &&& sound(e.after)
            &&& e.after.listeners == v.listeners
            &&& e.after.handles.dom().subset_of(v.handles.dom())
            &&& forall|i: int|
                0 <= i < keys.len() ==> !e.after.handles.dom().contains(#[trigger] keys[i])
            &&& forall|i: int| 0 <= i < e.sent.len() ==> (#[trigger] e.sent[i]).endpoint != endpoint
        }),
    decreases keys.len(),
{
    if keys.len() > 0 {
        let front = keys.drop_last();
        lemma_departed(v, front, endpoint);
        let first = departed_ends(v, front);
        let last = departed_end(first.after, keys.last());
        lemma_departed_end_sound(first.after, keys.last());
        let e = departed_ends(v, keys);
        assert forall|i: int| 0 <= i < keys.len() implies !e.after.handles.dom().contains(
            #[trigger] keys[i],
        ) by {
            if i < front.len() {
                assert(!first.after.handles.dom().contains(front[i]));
            }
        }
        assert(keys.last() == keys[keys.len() - 1]);
        assert forall|i: int| 0 <= i < e.sent.len() implies (#[trigger] e.sent[i]).endpoint
            != endpoint by {
            if i < first.sent.len() {
                assert(e.sent[i] == first.sent[i]);
            } else {
                assert(e.sent[i] == last.sent[i - first.sent.len()]);
            }
        }
    }
}

/// Connections that a listener accepted stay open when it is closed.
pub proof fn law_pairs_outlive_their_listener(
    v: FabricView,
    key: ChannelKey,
    reason: CloseReason,
    detail: Seq<char>,
)
    requires
        v.listeners.dom().contains(key),
    ensures
        ({
            let e = closed_at(v, key, reason, detail);
            &&& !e.after.listeners.dom().contains(key)
            &&& e.after.handles == v.handles
            &&& e.after.pairs == v.pairs
        }),
{
}

/// A departing endpoint leaves neither a listener nor an end behind, and only
/// others are told.
pub proof fn law_departure_tells_only_the_others(f: ChannelFabric, endpoint: u64)
    requires
        f.wf(),
    ensures
        ({
            let e = departure(f, endpoint);
            &&& forall|k: ChannelKey| #[trigger]
                e.after.handles.dom().contains(k) ==> k.endpoint != endpoint
            &&& forall|k: ChannelKey| #[trigger]
                e.after.listeners.dom().contains(k) ==> k.endpoint != endpoint
            &&& forall|i: int| 0 <= i < e.sent.len() ==> (#[trigger] e.sent[i]).endpoint != endpoint
        }),
{
    let rows = f.handles.spec_rows();
    let keys = owned(rows, endpoint);
    f.handles.lemma_rows();
    lemma_owned(rows, endpoint);
    lemma_without_listeners_sound(f@, endpoint);
    let v = without_listeners(f@, endpoint);
    assert forall|i: int| 0 <= i < keys.len() implies (#[trigger] keys[i]).endpoint == endpoint by {
        assert(keys.contains(keys[i]));
    }
    lemma_departed(v, keys, endpoint);
    let e = departure(f, endpoint);
    assert forall|k: ChannelKey| #[trigger] e.after.handles.dom().contains(k) implies k.endpoint
        != endpoint by {
        if k.endpoint == endpoint {
            assert(v.handles.dom().contains(k));
            assert(keyed(rows, k));
            assert(keys.contains(k));
            let i = choose|i: int| 0 <= i < keys.len() && keys[i] == k;
            assert(!e.after.handles.dom().contains(keys[i]));
        }
    }
}

/// A connection between two others is not touched by the ends that are closed.
proof fn lemma_others_untouched(
    v: FabricView,
    keys: Seq<ChannelKey>,
    endpoint: u64,
    k: ChannelKey,
)
    requires
        sound(v),
        forall|i: int| 0 <= i < keys.len() ==> (#[trigger] keys[i]).endpoint == endpoint,
        v.handles.dom().contains(k),
        k.endpoint != endpoint,
        v.handles[k].peer.endpoint != endpoint,
    ensures
        ({
            let after = departed_ends(v, keys).after;
            &&& after.handles.dom().contains(k)
            &&& after.handles[k] == v.handles[k]
            &&& after.pairs.dom().contains(v.handles[k].pair)
            &&& after.pairs[v.handles[k].pair] == v.pairs[v.handles[k].pair]
        }),
    decreases keys.len(),
{
    assert(paired(v, k));
    if keys.len() > 0 {
        let front = keys.drop_last();
        lemma_others_untouched(v, front, endpoint, k);
        lemma_departed(v, front, endpoint);
        let mid = departed_ends(v, front).after;
        let key = keys.last();
        assert(key == keys[keys.len() - 1]);
        if mid.handles.dom().contains(key) {
            let h = mid.handles[key];
            assert(paired(mid, key));
            assert(paired(mid, k));
            assert(mid.handles.dom().contains(h.peer));
        }
    }
}

/// A departing endpoint takes its own connections with it and no others: one
/// between two other endpoints goes on as it was.
pub proof fn law_departure_leaves_others_alone(f: ChannelFabric, endpoint: u64, k: ChannelKey)
    requires
        f.wf(),
        f@.handles.dom().contains(k),
        k.endpoint != endpoint,
        f@.handles[k].peer.endpoint != endpoint,
    ensures
        ({
            let after = departure(f, endpoint).after;
            &&& after.handles.dom().contains(k)
            &&& after.handles[k] == f@.handles[k]
            &&& after.pairs.dom().contains(f@.handles[k].pair)
            &&& after.pairs[f@.handles[k].pair] == f@.pairs[f@.handles[k].pair]
        }),
{
    let rows = f.handles.spec_rows();
    let keys = owned(rows, endpoint);
    f.handles.lemma_rows();
    lemma_owned(rows, endpoint);
    lemma_without_listeners_sound(f@, endpoint);
    assert forall|i: int| 0 <= i < keys.len() implies (#[trigger] keys[i]).endpoint == endpoint by {
        assert(keys.contains(keys[i]));
    }
    lemma_others_untouched(without_listeners(f@, endpoint), keys, endpoint, k);
}

/// What is asked after `n` answers, given where there is room.
pub open spec fn after_asks(
    connector_first: bool,
    connector_room: bool,
    listener_room: bool,
    reply_room: bool,
    n: nat,
) -> RoomAsk
    decreases n,
{
    if n == 0 {
        spec_first_ask(connector_first)
    } else {
        let ask = after_asks(
            connector_first,
            connector_room,
            listener_room,
            reply_room,
            (n - 1) as nat,
        );
        spec_next_ask(
            connector_first,
            ask,
            match ask {
                RoomAsk::Connector => connector_room,
                RoomAsk::Listener => listener_room,
                _ => reply_room,
            },
        )
    }
}

/// Asking one thing after another settles the room after at most three answers,
/// for what it is given where there is some.
pub proof fn law_room_is_settled(
    connector_first: bool,
    connector_room: bool,
    listener_room: bool,
    reply_room: bool,
)
    ensures
        after_asks(connector_first, connector_room, listener_room, reply_room, 3)
            == RoomAsk::Settled(
            spec_room_of(connector_first, connector_room, listener_room, reply_room),
        ),
{
    reveal_with_fuel(after_asks, 4);
}

/// There are at most two open ends for each pair that is accounted for.
pub proof fn law_two_ends_for_each_pair(f: ChannelFabric)
    requires
        f.wf(),
    ensures
        f.handles.spec_rows().len() <= 2 * f.pairs.spec_rows().len(),
{
    let rows = f.handles.spec_rows();
    let pairs = f.pairs.spec_rows();
    let v = f@;
    f.handles.lemma_rows();
    f.pairs.lemma_rows();
    let places = Seq::new(
        rows.len(),
        |i: int|
            2 * row_of(pairs, rows[i].1.pair) + if rows[i].1.left {
                1int
            } else {
                0int
            },
    );
    assert forall|i: int| 0 <= i < rows.len() implies {
        let r = row_of(pairs, rows[i].1.pair);
        &&& v.handles.dom().contains((#[trigger] rows[i]).0)
        &&& v.handles[rows[i].0] == rows[i].1@
        &&& 0 <= r < pairs.len()
        &&& pairs[r].0 == rows[i].1.pair
    } by {
        lemma_place(rows, i);
        assert(v.handles.dom().contains(rows[i].0));
        assert(paired(v, rows[i].0));
        assert(f.pairs@.dom().contains(rows[i].1.pair));
    }
    assert(places.no_duplicates()) by {
        assert forall|i: int, j: int|
            0 <= i < places.len() && 0 <= j < places.len() && i != j implies places[i]
            != places[j] by {
            let a = rows[i];
            let b = rows[j];
            if places[i] == places[j] {
                assert(a.1.left == b.1.left);
                assert(v.handles[a.0].pair == v.handles[b.0].pair);
                assert(a.0 == b.0);
            }
        }
    }
    places.unique_seq_to_set();
    let range = vstd::set_lib::set_int_range(0, 2 * pairs.len() as int);
    vstd::set_lib::lemma_int_range(0, 2 * pairs.len() as int);
    assert(places.to_set().subset_of(range)) by {
        assert forall|x: int| places.to_set().contains(x) implies range.contains(x) by {
            let i = choose|i: int| 0 <= i < places.len() && places[i] == x;
            assert(0 <= row_of(pairs, rows[i].1.pair) < pairs.len());
        }
    }
    vstd::set_lib::lemma_len_subset(places.to_set(), range);
}

/// Connecting never takes an endpoint over the number of ends that it may have.
pub proof fn law_places_stay_within_the_limit(
    f: ChannelFabric,
    after: IdMap<Pair>,
    key: ChannelKey,
    name: Seq<char>,
    metadata: Seq<u8>,
    wanted: Option<Seq<u8>>,
    pair: u64,
)
    requires
        f.wf(),
        after.wf(),
        !f.pairs@.dom().contains(pair),
        f.connect_fault(key, name, wanted) is None,
        after@ == connect_effect(f, key, name, metadata, wanted, Room::Both, pair).after.pairs,
    ensures
        weigh(after.spec_rows(), place_weight(key.endpoint)) <= f.limits.handles_per_client,
        weigh(after.spec_rows(), place_weight((listener_named(f@, name)->0).endpoint))
            <= f.limits.handles_per_client,
{
    let other = (listener_named(f@, name)->0).endpoint;
    assert(after@ =~= f.pairs@.insert(pair, after@[pair]));
    lemma_weigh_insert(f.pairs, after, pair, place_weight(key.endpoint));
    lemma_weigh_insert(f.pairs, after, pair, place_weight(other));
}

} // verus!
