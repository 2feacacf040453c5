use blit_server::channel::fabric::{
    first_ask, network_peer_name, next_ask, room_of, ChannelFabric, ChannelRequest, ConnectPlan,
    Decoded, Room, RoomAsk, RoomFound,
};
use blit_server::channel::keys::ChannelKey;
use blit_server::channel::model::{
    ChannelStatus, CloseReason, Delivery, Limits, Packet,
};

const WINDOW: u64 = 1 << 20;
const CANCELLED: u8 = 3;
const NORMAL: u8 = 0;

const ROOM: RoomFound = RoomFound { listen: true, connect: Room::Both };

fn fabric() -> ChannelFabric {
    ChannelFabric::new(0x1234, true, Limits::defaults(WINDOW, 64))
}

fn key(endpoint: u64, channel_id: u32) -> ChannelKey {
    ChannelKey { endpoint, channel_id }
}

fn listen_request(channel_id: u32, name: &str, metadata: &[u8]) -> ChannelRequest {
    ChannelRequest::Listen { channel_id, name: name.to_string(), metadata: metadata.to_vec() }
}

fn connect_request(channel_id: u32, name: &str, metadata: &[u8]) -> ChannelRequest {
    ChannelRequest::Connect {
        channel_id,
        name: name.to_string(),
        metadata: metadata.to_vec(),
        token: None,
    }
}

fn handle(fabric: &mut ChannelFabric, endpoint: u64, request: ChannelRequest) -> Vec<Delivery> {
    fabric.handle_reserved(endpoint, request, &ROOM)
}

fn drain(fabric: &mut ChannelFabric, output: Vec<Delivery>) {
    for delivery in output {
        fabric.release(&delivery.hold);
    }
}

fn status(delivery: &Delivery) -> ChannelStatus {
    match &delivery.packet {
        Packet::Opened { status, .. } => *status,
        other => panic!("not an answer to an open: {other:?}"),
    }
}

fn listen(fabric: &mut ChannelFabric, endpoint: u64, id: u32, name: &str) {
    let output = handle(fabric, endpoint, listen_request(id, name, b"listener-meta"));
    assert!(matches!(
        output[0].packet,
        Packet::Opened { status: ChannelStatus::Success, window: 0, .. }
    ));
    drain(fabric, output);
}

fn connect(fabric: &mut ChannelFabric, endpoint: u64, id: u32, name: &str) -> u32 {
    let output = handle(fabric, endpoint, connect_request(id, name, b"connector-meta"));
    assert_eq!(output.len(), 2);
    let expected = fabric.limits.window;
    assert!(matches!(
        output[0].packet,
        Packet::Opened { status: ChannelStatus::Success, window, .. } if window == expected
    ));
    let channel_id = match output[1].packet {
        Packet::Accepted { channel_id, .. } => channel_id,
        _ => panic!("listener did not receive ACCEPTED"),
    };
    assert_eq!(channel_id & 1, 1);
    drain(fabric, output);
    channel_id
}

#[test]
fn two_clients_exchange_messages_and_ack_at_boundaries() {
    let mut fabric = fabric();
    let output = fabric.handle_packet_reserved(
        1,
        true,
        2,
        Decoded::Request(listen_request(2, "com.example.test", b"listener-meta")),
        &ROOM,
    );
    assert!(matches!(
        output[0].packet,
        Packet::Opened { status: ChannelStatus::Success, window: 0, .. }
    ));
    drain(&mut fabric, output);
    let output = fabric.handle_packet_reserved(
        2,
        true,
        4,
        Decoded::Request(connect_request(4, "com.example.test", b"connector-meta")),
        &ROOM,
    );
    assert_eq!(output.len(), 2);
    let accepted_id = match output[1].packet {
        Packet::Accepted { channel_id, .. } => channel_id,
        _ => panic!("listener did not receive ACCEPTED"),
    };
    drain(&mut fabric, output);

    let output = fabric.handle_packet_reserved(
        2,
        false,
        4,
        Decoded::Request(ChannelRequest::Data { channel_id: 4, payload: b"hello".to_vec() }),
        &ROOM,
    );
    assert_eq!(output[0].endpoint, 1);
    assert_eq!(
        output[0].packet,
        Packet::Data { channel_id: accepted_id, payload: b"hello".to_vec() }
    );
    drain(&mut fabric, output);

    let output = fabric.handle_packet_reserved(
        1,
        false,
        accepted_id,
        Decoded::Request(ChannelRequest::Ack { channel_id: accepted_id, bytes: 5 }),
        &ROOM,
    );
    assert_eq!(output[0].endpoint, 2);
    assert_eq!(output[0].packet, Packet::Ack { channel_id: 4, bytes: 5 });
    drain(&mut fabric, output);

    let output = fabric.handle_packet_reserved(
        2,
        false,
        4,
        Decoded::Request(ChannelRequest::Close { channel_id: 4, reason: CANCELLED }),
        &ROOM,
    );
    assert_eq!(output.len(), 2);
    assert!(output.iter().all(|delivery| matches!(
        delivery.packet,
        Packet::Closed { reason: CloseReason::Requested(CANCELLED), .. }
    )));
    assert_eq!(fabric.handles.len(), 0);
    assert_eq!(fabric.active_pairs(), 1);
    assert_eq!(fabric.reserved_window_bytes(), (WINDOW * 2) as u128);
    drain(&mut fabric, output);
    assert_eq!(fabric.active_pairs(), 0);
    assert_eq!(fabric.reserved_window_bytes(), 0);
}

#[test]
fn duplicate_listener_names_conflict_without_replacing_owner() {
    let mut fabric = fabric();
    listen(&mut fabric, 1, 2, "same");
    let output = handle(&mut fabric, 2, listen_request(4, "same", b""));
    assert_eq!(status(&output[0]), ChannelStatus::Conflict);
    let owner = fabric.listener_snapshot(1, 2).unwrap();
    assert_eq!(owner.name, "same");
    assert!(fabric.listener_snapshot(2, 4).is_none());
}

#[test]
fn registered_extension_peer_identity_is_forwarded_verbatim() {
    let mut fabric = fabric();
    fabric.register_endpoint(1, "ext:0000000000000042:3".to_string());
    listen(&mut fabric, 1, 2, "service");
    let output = handle(&mut fabric, 2, connect_request(4, "service", b""));
    match &output[0].packet {
        Packet::Opened { peer, .. } => assert_eq!(peer, "ext:0000000000000042:3"),
        other => panic!("{other:?}"),
    }
    match &output[1].packet {
        Packet::Accepted { peer, listener_id, .. } => {
            assert_eq!(peer, "client:0000000000000002");
            assert_eq!(*listener_id, 2);
        }
        other => panic!("{other:?}"),
    }
}

#[test]
fn stale_listener_token_cannot_connect_to_replacement() {
    let mut fabric = fabric();
    listen(&mut fabric, 1, 2, "service");
    let old = fabric.listener_snapshot(1, 2).unwrap().token;
    fabric.close(1, 2, NORMAL);
    listen(&mut fabric, 2, 4, "service");
    let output = handle(
        &mut fabric,
        3,
        ChannelRequest::Connect {
            channel_id: 6,
            name: "service".to_string(),
            metadata: Vec::new(),
            token: Some(old),
        },
    );
    assert_eq!(status(&output[0]), ChannelStatus::Conflict);
    assert_eq!(fabric.handles.len(), 0);

    let current = fabric.listener_snapshot(2, 4).unwrap().token;
    let output = handle(
        &mut fabric,
        3,
        ChannelRequest::Connect {
            channel_id: 8,
            name: "service".to_string(),
            metadata: Vec::new(),
            token: Some(current),
        },
    );
    assert_eq!(output.len(), 2);
}

#[test]
fn ack_must_land_on_a_sent_message_boundary() {
    let mut fabric = fabric();
    listen(&mut fabric, 1, 2, "service");
    let accepted_id = connect(&mut fabric, 2, 4, "service");
    fabric.data(2, 4, b"abc".to_vec());
    fabric.data(2, 4, b"de".to_vec());
    let output = fabric.ack(1, accepted_id, 4);
    assert_eq!(output.len(), 2);
    assert!(output.iter().all(|delivery| matches!(
        delivery.packet,
        Packet::Closed { reason: CloseReason::ProtocolViolation, .. }
    )));
    assert_eq!(fabric.handles.len(), 0);
}

#[test]
fn disconnect_notifies_only_the_surviving_peer() {
    let mut fabric = fabric();
    listen(&mut fabric, 1, 2, "service");
    connect(&mut fabric, 2, 4, "service");
    let output = fabric.close_endpoint(1);
    assert_eq!(output.len(), 1);
    assert_eq!(output[0].endpoint, 2);
    assert_eq!(
        output[0].packet,
        Packet::Closed {
            channel_id: 4,
            reason: CloseReason::PeerGone,
            detail: "channel peer disconnected".to_string(),
        }
    );
    assert_eq!(fabric.listeners.len(), 0);
    assert_eq!(fabric.handles.len(), 0);
    assert_eq!(fabric.active_pairs(), 1);
    drain(&mut fabric, output);
    assert_eq!(fabric.active_pairs(), 0);
    assert_eq!(fabric.reserved_window_bytes(), 0);
}

#[test]
fn accepted_connections_do_not_need_their_listener() {
    let mut fabric = fabric();
    listen(&mut fabric, 1, 2, "service");
    let accepted_id = connect(&mut fabric, 2, 4, "service");
    let other_id = connect(&mut fabric, 3, 6, "service");
    let request = ChannelRequest::Close { channel_id: 2, reason: CANCELLED };
    let output = handle(&mut fabric, 1, request);
    assert_eq!(output.len(), 1);
    drain(&mut fabric, output);
    assert_eq!(fabric.listeners.len(), 0);
    assert_eq!(fabric.handles.len(), 4);

    // One connection ends with its endpoint, and the other still carries.
    let output = fabric.close_endpoint(2);
    assert_eq!(output.len(), 1);
    drain(&mut fabric, output);
    assert!(fabric.handles.get(key(1, accepted_id)).is_none());
    assert!(fabric.handles.get(key(1, other_id)).is_some());
    let output = fabric.data(3, 6, b"hello".to_vec());
    assert_eq!(output.len(), 1);
    assert_eq!(output[0].endpoint, 1);
}

#[test]
fn pair_admission_is_atomic_at_capacity() {
    let mut fabric = fabric();
    fabric.limits.connected_pairs = 0;
    listen(&mut fabric, 1, 2, "service");
    let output = handle(&mut fabric, 2, connect_request(4, "service", b""));
    assert_eq!(status(&output[0]), ChannelStatus::Budget);
    assert_eq!(fabric.handles.len(), 0);
    assert_eq!(fabric.active_pairs(), 0);
    assert_eq!(fabric.reserved_window_bytes(), 0);
}

#[test]
fn listener_success_is_reserved_before_publication() {
    let mut fabric = fabric();
    let generation = fabric.next_listener_generation;
    assert!(fabric.check_listen(key(7, 2), "service").is_none());
    let output = fabric.handle_reserved(
        7,
        listen_request(2, "service", b""),
        &RoomFound { listen: false, connect: Room::Both },
    );
    assert!(output.is_empty());
    assert_eq!(fabric.listeners.len(), 0);
    assert_eq!(fabric.next_listener_generation, generation);
    assert!(!fabric.key_is_live(key(7, 2)));

    let output = handle(&mut fabric, 7, listen_request(2, "service", b""));
    assert_eq!(output.len(), 1);
    let snapshot = fabric.listener_snapshot(7, 2).unwrap();
    assert_eq!(
        u64::from_le_bytes(snapshot.token[8..].try_into().unwrap()),
        generation
    );
    assert_eq!(snapshot.generation, generation);
}

#[test]
fn the_end_that_is_asked_first_decides() {
    let plan = |connector_first| ConnectPlan {
        listener: key(5, 2),
        accepted: (1, 3),
        connector_first,
    };
    for first in [true, false] {
        assert_eq!(first_ask(&plan(first)) == RoomAsk::Connector, first);
        for bits in 0..8 {
            let (c, l, r) = (bits & 1 != 0, bits & 2 != 0, bits & 4 != 0);
            let mut ask = first_ask(&plan(first));
            for _ in 0..3 {
                let granted = match ask {
                    RoomAsk::Connector => c,
                    RoomAsk::Listener => l,
                    _ => r,
                };
                ask = next_ask(&plan(first), ask, granted);
            }
            assert_eq!(ask, RoomAsk::Settled(room_of(&plan(first), c, l, r)));
        }
    }
    assert_eq!(room_of(&plan(true), true, true, false), Room::Both);
    assert_eq!(room_of(&plan(true), false, false, true), Room::NoConnector);
    assert_eq!(room_of(&plan(true), true, false, false), Room::NoListener { reply: true });
    assert_eq!(room_of(&plan(false), false, false, false), Room::NoListener { reply: false });
    assert_eq!(room_of(&plan(false), false, true, true), Room::NoConnector);
}

/// Asks for room in the order that the plan gives, as a server does.
fn connect_with(
    fabric: &mut ChannelFabric,
    endpoint: u64,
    id: u32,
    name: &str,
    mut room_at: impl FnMut(u64) -> bool,
) -> Vec<Delivery> {
    let room = match fabric.check_connect(key(endpoint, id), name, &None) {
        Err(_) => Room::Both,
        Ok(plan) => {
            let mut ask = first_ask(&plan);
            loop {
                let granted = match ask {
                    RoomAsk::Connector | RoomAsk::Reply => room_at(endpoint),
                    RoomAsk::Listener => room_at(plan.listener.endpoint),
                    RoomAsk::Settled(room) => break room,
                };
                ask = next_ask(&plan, ask, granted);
            }
        }
    };
    fabric.handle_reserved(
        endpoint,
        connect_request(id, name, b""),
        &RoomFound { listen: true, connect: room },
    )
}

#[test]
fn connector_notification_failure_publishes_nothing_and_reuses_accepted_id() {
    let mut fabric = fabric();
    listen(&mut fabric, 1, 2, "service");
    let mut attempts = Vec::new();
    let output = connect_with(&mut fabric, 2, 4, "service", |endpoint| {
        attempts.push(endpoint);
        endpoint != 2
    });
    assert_eq!(attempts, vec![1, 2]);
    assert!(output.is_empty());
    assert_eq!(fabric.handles.len(), 0);
    assert_eq!(fabric.endpoint_slots(1), 0);
    assert_eq!(fabric.endpoint_slots(2), 0);
    assert_eq!(fabric.active_pairs(), 0);
    assert_eq!(fabric.reserved_window_bytes(), 0);
    assert!(!fabric.next_server_id.contains(1));

    assert_eq!(connect(&mut fabric, 2, 4, "service"), 1);
}

#[test]
fn listener_notification_failure_cancels_connector_without_publishing_pair() {
    let mut fabric = fabric();
    listen(&mut fabric, 2, 2, "service");
    let mut attempts = Vec::new();
    let output = connect_with(&mut fabric, 1, 4, "service", |endpoint| {
        attempts.push(endpoint);
        endpoint != 2
    });
    assert_eq!(attempts, vec![1, 2]);
    assert_eq!(output.len(), 1);
    assert_eq!(output[0].endpoint, 1);
    assert!(matches!(
        output[0].packet,
        Packet::Opened { status: ChannelStatus::Cancelled, window: 0, .. }
    ));
    assert_eq!(fabric.handles.len(), 0);
    assert_eq!(fabric.endpoint_slots(1), 0);
    assert_eq!(fabric.endpoint_slots(2), 0);
    assert_eq!(fabric.active_pairs(), 0);
    assert_eq!(fabric.reserved_window_bytes(), 0);
    assert!(!fabric.next_server_id.contains(2));
    drain(&mut fabric, output);

    assert_eq!(connect(&mut fabric, 1, 4, "service"), 1);
}

#[test]
fn earlier_queued_frame_retains_endpoint_slot_after_close() {
    let mut fabric = fabric();
    fabric.limits.handles_per_client = 1;
    listen(&mut fabric, 1, 2, "service");
    let mut initial = handle(&mut fabric, 2, connect_request(4, "service", b""));
    let connector_opened = initial.remove(0);
    drain(&mut fabric, initial);
    assert_eq!(fabric.endpoint_slots(1), 1);
    assert_eq!(fabric.endpoint_slots(2), 1);

    let closed = fabric.close(2, 4, CANCELLED);
    drain(&mut fabric, closed);
    assert_eq!(fabric.endpoint_slots(1), 0);
    assert_eq!(fabric.endpoint_slots(2), 1);

    let refused = handle(&mut fabric, 2, connect_request(6, "service", b""));
    assert_eq!(status(&refused[0]), ChannelStatus::Budget);
    drain(&mut fabric, refused);

    drain(&mut fabric, vec![connector_opened]);
    assert_eq!(fabric.endpoint_slots(2), 0);
    assert_eq!(connect(&mut fabric, 2, 6, "service"), 3);
}

#[test]
fn final_closed_retains_endpoint_slot_until_it_drains() {
    let mut fabric = fabric();
    fabric.limits.handles_per_client = 1;
    listen(&mut fabric, 1, 2, "service");
    let initial = handle(&mut fabric, 2, connect_request(4, "service", b""));
    drain(&mut fabric, initial);
    let mut closed = fabric.close(2, 4, CANCELLED);
    let at = closed.iter().position(|delivery| delivery.endpoint == 1).unwrap();
    let listener_closed = closed.remove(at);
    drain(&mut fabric, closed);
    assert_eq!(fabric.endpoint_slots(1), 1);
    assert_eq!(fabric.endpoint_slots(2), 0);

    let refused = handle(&mut fabric, 3, connect_request(6, "service", b""));
    assert_eq!(status(&refused[0]), ChannelStatus::Budget);
    drain(&mut fabric, refused);

    drain(&mut fabric, vec![listener_closed]);
    assert_eq!(fabric.endpoint_slots(1), 0);
    assert_eq!(connect(&mut fabric, 3, 6, "service"), 3);
}

#[test]
fn failed_open_id_is_reserved_until_its_reply_drains() {
    let mut fabric = fabric();
    let first = handle(&mut fabric, 1, connect_request(2, "missing", b""));
    assert_eq!(status(&first[0]), ChannelStatus::NotFound);

    let duplicate = handle(&mut fabric, 1, connect_request(2, "missing", b""));
    assert_eq!(status(&duplicate[0]), ChannelStatus::Conflict);
    drain(&mut fabric, duplicate);
    assert!(fabric.key_is_live(key(1, 2)));

    drain(&mut fabric, first);
    assert!(!fabric.key_is_live(key(1, 2)));
}

#[test]
fn closed_ids_cannot_be_reused_until_both_final_frames_drain() {
    let mut fabric = fabric();
    listen(&mut fabric, 1, 2, "service");
    let accepted_id = connect(&mut fabric, 2, 4, "service");
    let closed = fabric.close(2, 4, CANCELLED);
    assert!(fabric.key_is_live(key(2, 4)));
    assert!(fabric.key_is_live(key(1, accepted_id)));

    let duplicate = handle(&mut fabric, 2, connect_request(4, "service", b""));
    assert_eq!(status(&duplicate[0]), ChannelStatus::Conflict);
    drain(&mut fabric, duplicate);
    drain(&mut fabric, closed);
    assert!(!fabric.key_is_live(key(2, 4)));
    assert!(!fabric.key_is_live(key(1, accepted_id)));
}

#[test]
fn disabled_family_refuses_only_decodable_opens() {
    let mut fabric = fabric();
    fabric.enabled = false;
    assert!(!fabric.advertised());

    let output = fabric.handle_packet_reserved(
        1,
        true,
        2,
        Decoded::Request(listen_request(2, "service", b"")),
        &ROOM,
    );
    assert!(matches!(
        &output[0].packet,
        Packet::Opened { status: ChannelStatus::Permission, window: 0, detail, .. }
            if detail == "native channels are disabled"
    ));

    assert!(fabric
        .handle_packet_reserved(
            1,
            true,
            2,
            Decoded::Malformed("listen packet is too short".to_string()),
            &ROOM,
        )
        .is_empty());
    assert_eq!(fabric.listeners.len(), 0);
}

#[test]
fn shutdown_seals_new_opens_and_preserves_normal_endpoint_cleanup() {
    let mut fabric = fabric();
    listen(&mut fabric, 1, 2, "existing");

    fabric.begin_shutdown();
    assert!(!fabric.advertised());
    let output = fabric.handle_packet_reserved(
        2,
        true,
        4,
        Decoded::Request(listen_request(4, "late", b"")),
        &ROOM,
    );
    assert!(matches!(
        &output[0].packet,
        Packet::Opened { status: ChannelStatus::Permission, window: 0, detail, .. }
            if detail == "server is shutting down"
    ));
    assert_eq!(fabric.listeners.len(), 1);

    assert!(fabric.close_endpoint(1).is_empty());
    assert_eq!(fabric.listeners.len(), 0);
}

#[test]
fn window_in_bytes_and_messages_is_enforced() {
    let mut fabric = ChannelFabric::new(1, true, Limits::defaults(4, 2));
    listen(&mut fabric, 1, 2, "service");
    let accepted = connect(&mut fabric, 2, 4, "service");
    assert_eq!(fabric.data(2, 4, vec![1, 2, 3, 4]).len(), 1);
    let closed = fabric.data(2, 4, vec![5]);
    assert_eq!(closed.len(), 2);
    assert_eq!(
        closed[0].packet,
        Packet::Closed {
            channel_id: 4,
            reason: CloseReason::ProtocolViolation,
            detail: "channel send window exceeded".to_string(),
        }
    );
    assert_eq!(closed[1].endpoint, 1);
    drain(&mut fabric, closed);
    assert!(fabric.ack(1, accepted, 4).is_empty());

    let accepted = connect(&mut fabric, 2, 6, "service");
    fabric.data(2, 6, vec![1]);
    fabric.data(2, 6, vec![2]);
    assert_eq!(fabric.ack(1, accepted, 1)[0].packet, Packet::Ack { channel_id: 6, bytes: 1 });
    assert_eq!(fabric.data(2, 6, vec![3]).len(), 1);
    assert_eq!(fabric.data(2, 6, Vec::new()).len(), 2);
}

#[test]
fn full_acknowledgement_opens_the_window_again() {
    let mut fabric = ChannelFabric::new(1, true, Limits::defaults(3, 8));
    listen(&mut fabric, 1, 2, "service");
    let accepted = connect(&mut fabric, 2, 4, "service");
    for round in 1..=5u64 {
        assert_eq!(fabric.data(2, 4, vec![0; 3]).len(), 1);
        let output = fabric.ack(1, accepted, round * 3);
        assert_eq!(output[0].packet, Packet::Ack { channel_id: 4, bytes: round * 3 });
    }
}

#[test]
fn listeners_take_neither_data_nor_acknowledgements() {
    let mut fabric = fabric();
    listen(&mut fabric, 1, 2, "one");
    let output = fabric.data(1, 2, vec![1]);
    assert_eq!(
        output[0].packet,
        Packet::Closed {
            channel_id: 2,
            reason: CloseReason::ProtocolViolation,
            detail: "listener received channel data".to_string(),
        }
    );
    drain(&mut fabric, output);
    listen(&mut fabric, 1, 2, "one");
    let output = fabric.ack(1, 2, 0);
    assert_eq!(
        output[0].packet,
        Packet::Closed {
            channel_id: 2,
            reason: CloseReason::ProtocolViolation,
            detail: "listener received channel ACK".to_string(),
        }
    );
    assert_eq!(fabric.listeners.len(), 0);
}

#[test]
fn listener_limits_hold_for_each_endpoint_and_for_all() {
    let mut fabric = fabric();
    fabric.limits.listen_per_client = 1;
    fabric.limits.listeners = 2;
    listen(&mut fabric, 1, 2, "a");
    let refused = handle(&mut fabric, 1, listen_request(4, "b", b""));
    assert_eq!(status(&refused[0]), ChannelStatus::Budget);
    listen(&mut fabric, 2, 2, "b");
    let refused = handle(&mut fabric, 3, listen_request(2, "c", b""));
    assert_eq!(status(&refused[0]), ChannelStatus::Budget);
}

#[test]
fn window_budget_bounds_the_pairs() {
    let mut fabric = fabric();
    fabric.limits.buffer_bytes = 4 * WINDOW;
    listen(&mut fabric, 1, 2, "service");
    connect(&mut fabric, 2, 4, "service");
    connect(&mut fabric, 2, 6, "service");
    let refused = handle(&mut fabric, 2, connect_request(8, "service", b""));
    match &refused[0].packet {
        Packet::Opened { status, detail, .. } => {
            assert_eq!(*status, ChannelStatus::Budget);
            assert_eq!(detail, "channel window budget exhausted");
        }
        other => panic!("{other:?}"),
    }
}

#[test]
fn an_endpoint_may_connect_to_itself_and_needs_two_places() {
    let mut fabric = fabric();
    fabric.limits.handles_per_client = 1;
    listen(&mut fabric, 1, 2, "self");
    let refused = handle(&mut fabric, 1, connect_request(4, "self", b""));
    assert_eq!(status(&refused[0]), ChannelStatus::Budget);
    drain(&mut fabric, refused);
    fabric.limits.handles_per_client = 2;
    assert_eq!(connect(&mut fabric, 1, 4, "self"), 1);
    assert_eq!(fabric.endpoint_slots(1), 2);
    assert!(fabric.close_endpoint(1).is_empty());
    assert_eq!(fabric.active_pairs(), 0);
}

#[test]
fn malformed_packets_fail_opens_and_close_open_channels() {
    let mut fabric = fabric();
    let output = fabric.handle_packet_reserved(
        1,
        true,
        2,
        Decoded::Malformed("bad name".to_string()),
        &ROOM,
    );
    match &output[0].packet {
        Packet::Opened { status, detail, .. } => {
            assert_eq!(*status, ChannelStatus::Invalid);
            assert_eq!(detail, "bad name");
        }
        other => panic!("{other:?}"),
    }
    drain(&mut fabric, output);
    listen(&mut fabric, 1, 2, "service");
    let output = fabric.handle_packet_reserved(
        1,
        false,
        2,
        Decoded::Malformed("bad ack".to_string()),
        &ROOM,
    );
    assert!(matches!(
        &output[0].packet,
        Packet::Closed { reason: CloseReason::ProtocolViolation, detail, .. } if detail == "bad ack"
    ));
    assert!(fabric
        .handle_packet_reserved(1, false, 40, Decoded::Other, &ROOM)
        .is_empty());
}

#[test]
fn network_endpoints_are_named_after_their_number() {
    assert_eq!(network_peer_name(0), "client:0000000000000000");
    assert_eq!(network_peer_name(0x1234_5678_9abc_def0), "client:123456789abcdef0");
}
