use ionic_wire::broadcast::{BroadcastMessage, BroadcastQueue};
use ionic_wire::commands::{say_command, Sender};
use ionic_wire::codec::encode_varint;
use ionic_wire::dispatch::{dispatch, Frame, HandlerEvent};
use ionic_wire::frame::{decode_compressed_data, decode_frame_plain, encode_frame_compressed, encode_frame_plain};
use ionic_wire::incoming::SwingArmPacket;
use ionic_wire::net_types::{PlayerIdentity, VarInt};
use ionic_wire::schema::{
    standard_registry, Direction, PacketDescriptor, PacketKind, PacketRegistry, ProtocolState,
    RegistryError, ID_KEY, ID_SWING,
};
use ionic_wire::scheduler::{
    dispatch_all, register_background_systems, register_mob_systems, register_physics_systems,
    tick, tick_physics, EntityState, FrameBatch, Schedule, ScheduleError, SystemDecl, World,
    STAGE_COLLISIONS, STAGE_DRAG, STAGE_GRAVITY, STAGE_UNGROUND, STAGE_VELOCITY,
};
use ionic_wire::state::{Connection, HandshakeIntent};
use ionic_wire::WireError;

fn play_connection(id: u32) -> Connection {
    let mut c = Connection::accept(id);
    c.handshake(HandshakeIntent::Login);
    c.login_success();
    c
}

#[test]
fn registry_rejects_duplicate_keys() {
    let mut reg = PacketRegistry::new();
    let d = PacketDescriptor {
        state: ProtocolState::Play,
        direction: Direction::Serverbound,
        packet_id: ID_SWING,
        kind: PacketKind::SwingArm,
    };
    assert_eq!(reg.register(d), Ok(()));
    assert_eq!(reg.register(d), Err(RegistryError::DuplicateKey));
    assert_eq!(reg.entries.len(), 1);
}

#[test]
fn standard_registry_lookups() {
    let reg = standard_registry().unwrap();
    assert_eq!(
        reg.lookup(ProtocolState::Play, Direction::Serverbound, ID_SWING),
        Some(PacketKind::SwingArm)
    );
    assert_eq!(
        reg.lookup(ProtocolState::Login, Direction::Serverbound, ID_KEY),
        Some(PacketKind::EncryptionResponse)
    );
    assert_eq!(reg.lookup(ProtocolState::Login, Direction::Serverbound, ID_SWING), None);
    assert_eq!(reg.lookup(ProtocolState::Status, Direction::Serverbound, ID_SWING), None);
}

#[test]
fn play_only_packet_in_login_closes_connection_without_handler() {
    let reg = standard_registry().unwrap();
    let mut conn = Connection::accept(1);
    conn.handshake(HandshakeIntent::Login);
    let frame = Frame {
        packet_id: ID_SWING,
        payload: SwingArmPacket { hand: VarInt::new(0) }.encode(),
    };
    let mut events: Vec<HandlerEvent> = Vec::new();
    let r = dispatch(&mut conn, &reg, &frame, &mut events);
    assert_eq!(r, Err(WireError::UnknownPacket));
    assert_eq!(conn.state, ProtocolState::Closed);
    assert!(events.is_empty());
}

#[test]
fn swing_dispatch_runs_exactly_one_handler_once() {
    let reg = standard_registry().unwrap();
    let mut conn = play_connection(42);
    let frame = Frame {
        packet_id: ID_SWING,
        payload: SwingArmPacket { hand: VarInt::new(0) }.encode(),
    };
    let mut events: Vec<HandlerEvent> = Vec::new();
    let r = dispatch(&mut conn, &reg, &frame, &mut events);
    assert_eq!(r, Ok(()));
    assert_eq!(events, vec![HandlerEvent::ArmSwung { conn_id: 42, hand: 0 }]);
    // No residual per-packet state: the connection is exactly as before.
    assert_eq!(conn.state, ProtocolState::Play);
    assert!(conn.pending_verify_token.is_none());
    assert!(conn.keep_alive_pending.is_none());
}

#[test]
fn malformed_payload_is_connection_fatal() {
    let reg = standard_registry().unwrap();
    let mut conn = play_connection(1);
    let frame = Frame { packet_id: ID_SWING, payload: vec![0x80, 0x80, 0x80, 0x80, 0x80] };
    let mut events: Vec<HandlerEvent> = Vec::new();
    let r = dispatch(&mut conn, &reg, &frame, &mut events);
    assert_eq!(r, Err(WireError::MalformedVarInt));
    assert_eq!(conn.state, ProtocolState::Closed);
    assert!(events.is_empty());
}

#[test]
fn login_encryption_token_match_enables_cipher() {
    let mut conn = Connection::accept(5);
    conn.handshake(HandshakeIntent::Login);
    conn.begin_encryption(vec![9, 8, 7, 6]);
    let r = conn.complete_encryption(&vec![9, 8, 7, 6], vec![0xAA; 16]);
    assert_eq!(r, Ok(()));
    assert_eq!(conn.encryption_secret.as_deref(), Some(&[0xAA; 16][..]));
    conn.enable_compression(256);
    assert_eq!(conn.compression_threshold, Some(256));
    conn.login_success();
    assert_eq!(conn.state, ProtocolState::Play);
}

#[test]
fn login_encryption_token_mismatch_is_crypto_fatal() {
    let mut conn = Connection::accept(5);
    conn.handshake(HandshakeIntent::Login);
    conn.begin_encryption(vec![9, 8, 7, 6]);
    let r = conn.complete_encryption(&vec![9, 8, 7, 0], vec![0xAA; 16]);
    assert_eq!(r, Err(WireError::CryptoError));
    assert_eq!(conn.state, ProtocolState::Closed);
}

#[test]
fn close_is_terminal_and_idempotent() {
    let mut conn = play_connection(3);
    conn.close();
    assert_eq!(conn.state, ProtocolState::Closed);
    conn.close();
    assert_eq!(conn.state, ProtocolState::Closed);
}

#[test]
fn keep_alive_timeout_closes_on_sweep() {
    let mut conn = play_connection(3);
    conn.issue_keep_alive(77, 10);
    conn.sweep_keep_alive(10);
    assert_eq!(conn.state, ProtocolState::Play);
    conn.sweep_keep_alive(11);
    assert_eq!(conn.state, ProtocolState::Closed);
}

#[test]
fn keep_alive_answer_clears_challenge() {
    let mut conn = play_connection(3);
    conn.issue_keep_alive(77, 10);
    assert_eq!(conn.answer_keep_alive(77), Ok(()));
    assert!(conn.keep_alive_pending.is_none());
    assert_eq!(conn.state, ProtocolState::Play);
}

#[test]
fn broadcast_fifo_same_bytes_to_every_recipient() {
    let mut queue = BroadcastQueue::new();
    let a = BroadcastMessage { payload: b"first".to_vec(), overlay: false, target_all: true, targets: vec![] };
    let b = BroadcastMessage { payload: b"second".to_vec(), overlay: true, target_all: true, targets: vec![] };
    queue.enqueue(a);
    queue.enqueue(b);
    let ids = vec![1u32, 2u32];
    let open = vec![true, true];
    let mut outs: Vec<Vec<u8>> = vec![Vec::new(), Vec::new()];
    queue.process(&ids, &open, &mut outs);
    assert!(queue.queue.is_empty());
    // lp("first") + flag 0, then lp("second") + flag 1.
    let mut expected: Vec<u8> = Vec::new();
    expected.push(5);
    expected.extend_from_slice(b"first");
    expected.push(0);
    expected.push(6);
    expected.extend_from_slice(b"second");
    expected.push(1);
    assert_eq!(outs[0], expected);
    assert_eq!(outs[1], expected);
    // A's bytes sit strictly before B's in every buffer.
    assert_eq!(&outs[0][..7], &expected[..7]);
}

#[test]
fn broadcast_respects_target_subset() {
    let mut queue = BroadcastQueue::new();
    let m = BroadcastMessage { payload: b"x".to_vec(), overlay: false, target_all: false, targets: vec![2] };
    queue.enqueue(m);
    let ids = vec![1u32, 2u32];
    let open = vec![true, true];
    let mut outs: Vec<Vec<u8>> = vec![Vec::new(), Vec::new()];
    queue.process(&ids, &open, &mut outs);
    assert!(outs[0].is_empty());
    assert_eq!(outs[1], vec![1, b'x', 0]);
}

#[test]
fn say_from_server_formats_and_broadcasts() {
    let mut queue = BroadcastQueue::new();
    let players: Vec<PlayerIdentity> = vec![];
    let r = say_command(Sender::Server, &b"hi".to_vec(), &players, &mut queue);
    assert_eq!(r, Ok(()));
    assert_eq!(queue.queue.len(), 1);
    assert_eq!(queue.queue[0].payload, b"<Server> hi".to_vec());
    assert!(queue.queue[0].target_all);
    assert!(!queue.queue[0].overlay);
}

#[test]
fn say_from_player_uses_username() {
    let mut queue = BroadcastQueue::new();
    let players = vec![PlayerIdentity { short_uuid: 1, username: b"alice".to_vec() }];
    let r = say_command(Sender::Player(0), &b"hi".to_vec(), &players, &mut queue);
    assert_eq!(r, Ok(()));
    assert_eq!(queue.queue[0].payload, b"<alice> hi".to_vec());
}

#[test]
fn say_from_missing_player_is_isolated_handler_failure() {
    let mut queue = BroadcastQueue::new();
    let players = vec![PlayerIdentity { short_uuid: 1, username: b"alice".to_vec() }];
    let r = say_command(Sender::Player(3), &b"hi".to_vec(), &players, &mut queue);
    assert_eq!(r, Err(WireError::HandlerError));
    assert!(queue.queue.is_empty());
}

#[test]
fn frame_plain_round_trip() {
    let payload = vec![1u8, 2, 3, 4];
    let bytes = encode_frame_plain(ID_SWING, &payload);
    let (f, used) = decode_frame_plain(&bytes, 0).unwrap();
    assert_eq!(used, bytes.len());
    assert_eq!(f.packet_id, ID_SWING);
    assert_eq!(f.payload, payload);
}

#[test]
fn compression_above_threshold_emits_compressed() {
    let payload = vec![0x41u8; 300];
    let frame = encode_frame_compressed(7, &payload, 256).unwrap();
    // Strip the outer length varint by parsing it.
    let (outer, used) = ionic_wire::codec::decode_varint(&frame, 0).unwrap();
    assert_eq!(outer as usize, frame.len() - used);
    let data: Vec<u8> = frame[used..].to_vec();
    // The data section declares the uncompressed body length (id byte + 300).
    let (ulen, _) = ionic_wire::codec::decode_varint(&data, 0).unwrap();
    assert_eq!(ulen, 301);
    // The wire bytes are not the raw body: the payload went out compressed.
    assert!(data.len() < 301);
    // And they inflate back to exactly the body.
    let body = decode_compressed_data(&data).unwrap();
    let mut expected_body = encode_varint(7);
    expected_body.extend_from_slice(&payload);
    assert_eq!(body, expected_body);
}

#[test]
fn compression_below_threshold_passes_through() {
    let payload = vec![0x42u8; 100];
    let frame = encode_frame_compressed(7, &payload, 256).unwrap();
    let (_, used) = ionic_wire::codec::decode_varint(&frame, 0).unwrap();
    let data: Vec<u8> = frame[used..].to_vec();
    // Zero marker: uncompressed pass-through.
    assert_eq!(data[0], 0);
    let mut expected_body = encode_varint(7);
    expected_body.extend_from_slice(&payload);
    assert_eq!(&data[1..], &expected_body[..]);
    assert_eq!(decode_compressed_data(&data).unwrap(), expected_body);
}

#[test]
fn corrupt_compressed_data_fails() {
    // Declares 5 uncompressed bytes but carries bytes that are not a
    // valid compressed stream.
    let data = vec![5u8, 0x01, 0x02, 0x03];
    assert_eq!(decode_compressed_data(&data), Err(WireError::CompressionError));
}

#[test]
fn physics_chain_drag_reads_gravity_output() {
    // One entity, one tick: gravity commits vel = -8; drag reads that
    // committed value (not the pre-tick 0) and leaves it -8; velocity
    // then moves the position by -8.
    let mut entities = vec![EntityState { pos: 100, vel: 0, grounded: false }];
    tick_physics(&mut entities);
    assert_eq!(entities[0], EntityState { pos: 92, vel: -8, grounded: false });
}

#[test]
fn physics_floor_grounds_entity() {
    let mut entities = vec![EntityState { pos: 3, vel: -10, grounded: false }];
    tick_physics(&mut entities);
    assert_eq!(entities[0], EntityState { pos: 0, vel: 0, grounded: true });
}

#[test]
fn physics_drag_shaves_fraction() {
    let mut entities = vec![EntityState { pos: 0, vel: 100, grounded: false }];
    tick_physics(&mut entities);
    // unground, then gravity: 92; drag: 92 - 92/50 = 91; velocity: pos 91.
    assert_eq!(entities[0].vel, 91);
    assert_eq!(entities[0].pos, 91);
}

#[test]
fn background_registration_accepts_disjoint_systems() {
    let mut schedule = Schedule::new();
    assert!(register_background_systems(&mut schedule).is_ok());
    assert_eq!(schedule.background.systems.len(), 6);
}

#[test]
fn conflicting_system_is_rejected_at_registration() {
    let mut schedule = Schedule::new();
    register_background_systems(&mut schedule).unwrap();
    let w = schedule.background.systems[1].writes.clone();
    let clash = SystemDecl { sys_id: 99, reads: vec![], writes: w };
    assert_eq!(
        schedule.background.add_system(clash),
        Err(ScheduleError::ConflictingAccess)
    );
    assert_eq!(schedule.background.systems.len(), 6);
}

#[test]
fn physics_registration_orders_chain() {
    let mut schedule = Schedule::new();
    register_physics_systems(&mut schedule);
    assert_eq!(
        schedule.physics_chain.stages,
        vec![STAGE_UNGROUND, STAGE_GRAVITY, STAGE_DRAG, STAGE_VELOCITY, STAGE_COLLISIONS]
    );
    register_mob_systems(&mut schedule);
    assert_eq!(schedule.mob_systems.len(), 1);
}

#[test]
fn tick_runs_phases_in_order() {
    let reg = standard_registry().unwrap();
    let mut world = World {
        entities: vec![EntityState { pos: 100, vel: 0, grounded: false }],
        day_time: 23999,
        tick_count: 5,
    };
    let mut conns = vec![play_connection(1)];
    let inbound = vec![FrameBatch {
        frames: vec![Frame {
            packet_id: ID_SWING,
            payload: SwingArmPacket { hand: VarInt::new(1) }.encode(),
        }],
    }];
    let mut events: Vec<HandlerEvent> = Vec::new();
    let mut queue = BroadcastQueue::new();
    queue.enqueue(BroadcastMessage {
        payload: b"tick".to_vec(),
        overlay: false,
        target_all: true,
        targets: vec![],
    });
    let ids = vec![1u32];
    let mut outs: Vec<Vec<u8>> = vec![Vec::new()];
    tick(&mut world, &mut conns, &inbound, &reg, &mut events, &mut queue, &ids, &mut outs);
    assert_eq!(world.tick_count, 6);
    assert_eq!(world.day_time, 0);
    assert_eq!(events, vec![HandlerEvent::ArmSwung { conn_id: 1, hand: 1 }]);
    assert_eq!(world.entities[0], EntityState { pos: 92, vel: -8, grounded: false });
    assert_eq!(outs[0], vec![4, b't', b'i', b'c', b'k', 0]);
    assert!(queue.queue.is_empty());
}

#[test]
fn dispatch_all_isolates_failing_connection() {
    let reg = standard_registry().unwrap();
    let mut conns = vec![play_connection(1), play_connection(2)];
    let good = Frame {
        packet_id: ID_SWING,
        payload: SwingArmPacket { hand: VarInt::new(0) }.encode(),
    };
    let bad = Frame { packet_id: 0xFFFF, payload: vec![] };
    let inbound = vec![
        FrameBatch { frames: vec![bad] },
        FrameBatch { frames: vec![good] },
    ];
    let mut events: Vec<HandlerEvent> = Vec::new();
    dispatch_all(&mut conns, &inbound, &reg, &mut events);
    assert_eq!(conns[0].state, ProtocolState::Closed);
    assert_eq!(conns[1].state, ProtocolState::Play);
    assert_eq!(events, vec![HandlerEvent::ArmSwung { conn_id: 2, hand: 0 }]);
}

#[test]
fn negotiated_threshold_drives_full_inbound_pipeline() {
    // Negotiate compression during login, then run one packet out and
    // back through the whole pipeline: encode -> compress -> frame,
    // unframe -> decompress -> parse.
    let mut conn = Connection::accept(9);
    conn.handshake(HandshakeIntent::Login);
    conn.enable_compression(256);
    conn.login_success();
    let threshold = conn.compression_threshold.unwrap();

    let payload: Vec<u8> = (0..=255u8).cycle().take(300).collect();
    let wire = encode_frame_compressed(ID_SWING, &payload, threshold).unwrap();

    // The outer frame is a length-prefixed byte unit.
    let (data, used) = ionic_wire::codec::decode_lp_bytes(&wire, 0, u32::MAX).unwrap();
    assert_eq!(used, wire.len());
    let body = decode_compressed_data(&data).unwrap();
    let (id, id_len) = ionic_wire::codec::decode_varint(&body, 0).unwrap();
    assert_eq!(id, ID_SWING);
    assert_eq!(&body[id_len..], &payload[..]);
}

#[test]
fn closed_connection_receives_no_broadcast() {
    let mut queue = BroadcastQueue::new();
    queue.enqueue(BroadcastMessage {
        payload: b"late".to_vec(),
        overlay: false,
        target_all: true,
        targets: vec![],
    });
    let ids = vec![1u32, 2u32];
    // Connection 1 is closed: closure stops outbound delivery.
    let open = vec![false, true];
    let mut outs: Vec<Vec<u8>> = vec![Vec::new(), Vec::new()];
    queue.process(&ids, &open, &mut outs);
    assert!(outs[0].is_empty());
    assert_eq!(outs[1], vec![4, b'l', b'a', b't', b'e', 0]);
}

#[test]
fn close_drops_queued_outbound() {
    let mut conn = play_connection(4);
    conn.outbound.extend_from_slice(b"pending");
    conn.close();
    assert!(conn.outbound.is_empty());
    assert_eq!(conn.state, ProtocolState::Closed);
}

#[test]
fn tick_skips_connection_closed_by_its_own_dispatch() {
    // The connection sends an id its phase does not allow; dispatch
    // closes it, and the same tick's broadcast drain writes it nothing.
    let reg = standard_registry().unwrap();
    let mut world = World { entities: vec![], day_time: 0, tick_count: 0 };
    let mut conns = vec![play_connection(1)];
    let inbound = vec![FrameBatch {
        frames: vec![Frame { packet_id: 0xFFFF, payload: vec![] }],
    }];
    let mut events: Vec<HandlerEvent> = Vec::new();
    let mut queue = BroadcastQueue::new();
    queue.enqueue(BroadcastMessage {
        payload: b"gone".to_vec(),
        overlay: false,
        target_all: true,
        targets: vec![],
    });
    let ids = vec![1u32];
    let mut outs: Vec<Vec<u8>> = vec![Vec::new()];
    tick(&mut world, &mut conns, &inbound, &reg, &mut events, &mut queue, &ids, &mut outs);
    assert_eq!(conns[0].state, ProtocolState::Closed);
    assert!(outs[0].is_empty());
    assert!(queue.queue.is_empty());
    assert!(events.is_empty());
}
