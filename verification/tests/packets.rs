use ionic_wire::codec::NetworkPosition;
use ionic_wire::incoming::{
    CloseContainer, CommandSuggestionRequest, ConfirmPlayerTeleport, EncryptionResponse,
    PlayerAction, SwingArmPacket,
};
use ionic_wire::net_types::{InventorySlot, PlayerIdentity, VarInt};
use ionic_wire::outgoing::{
    BlockUpdate, ChunkBatchFinish, CommandSuggestionsPacket, Match, OpenScreen,
    RemoveEntitiesPacket, SetCompressionPacket, SetContainerContent, SystemMessagePacket,
};
use ionic_wire::WireError;

#[test]
fn close_container_round_trip() {
    let p = CloseContainer { window_id: VarInt::new(7) };
    assert_eq!(CloseContainer::decode(&p.encode()).unwrap(), p);
}

#[test]
fn confirm_player_teleport_round_trip() {
    let p = ConfirmPlayerTeleport { teleport_id: VarInt::new(-3) };
    assert_eq!(ConfirmPlayerTeleport::decode(&p.encode()).unwrap(), p);
}

#[test]
fn swing_arm_round_trip() {
    let p = SwingArmPacket { hand: VarInt::new(0) };
    assert_eq!(SwingArmPacket::decode(&p.encode()).unwrap(), p);
    let q = SwingArmPacket { hand: VarInt::new(1) };
    assert_eq!(SwingArmPacket::decode(&q.encode()).unwrap(), q);
}

#[test]
fn command_suggestion_request_round_trip() {
    let p = CommandSuggestionRequest {
        transaction_id: VarInt::new(12),
        input: b"/sa".to_vec(),
    };
    assert_eq!(CommandSuggestionRequest::decode(&p.encode()).unwrap(), p);
}

#[test]
fn encryption_response_round_trip() {
    let p = EncryptionResponse {
        shared_secret: vec![1, 2, 3, 4, 5, 6, 7, 8],
        verify_token: vec![9, 9, 9, 9],
    };
    assert_eq!(EncryptionResponse::decode(&p.encode()).unwrap(), p);
}

#[test]
fn player_action_round_trip() {
    let p = PlayerAction {
        status: VarInt::new(2),
        location: NetworkPosition { x: -100, y: 64, z: 2048 },
        face: 5,
        sequence: VarInt::new(1234),
    };
    assert_eq!(PlayerAction::decode(&p.encode()).unwrap(), p);
}

#[test]
fn block_update_round_trip() {
    let p = BlockUpdate {
        location: NetworkPosition { x: 10, y: -60, z: -10 },
        block_state_id: VarInt::new(900),
    };
    assert_eq!(BlockUpdate::decode(&p.encode()).unwrap(), p);
}

#[test]
fn chunk_batch_finish_round_trip() {
    let p = ChunkBatchFinish { batch_size: VarInt::new(16) };
    assert_eq!(ChunkBatchFinish::decode(&p.encode()).unwrap(), p);
}

#[test]
fn set_compression_round_trip() {
    let p = SetCompressionPacket { threshold: VarInt::new(256) };
    assert_eq!(SetCompressionPacket::decode(&p.encode()).unwrap(), p);
}

#[test]
fn open_screen_round_trip() {
    let p = OpenScreen {
        window_id: VarInt::new(3),
        window_type: VarInt::new(2),
        title: b"{\"text\":\"Chest\"}".to_vec(),
    };
    assert_eq!(OpenScreen::decode(&p.encode()).unwrap(), p);
}

#[test]
fn system_message_round_trip() {
    let p = SystemMessagePacket { message: b"{\"text\":\"hello\"}".to_vec(), overlay: true };
    assert_eq!(SystemMessagePacket::decode(&p.encode()).unwrap(), p);
    let q = SystemMessagePacket { message: vec![], overlay: false };
    assert_eq!(SystemMessagePacket::decode(&q.encode()).unwrap(), q);
}

#[test]
fn remove_entities_round_trip() {
    let p = RemoveEntitiesPacket {
        entity_ids: vec![VarInt::new(1), VarInt::new(-2), VarInt::new(300)],
    };
    assert_eq!(RemoveEntitiesPacket::decode(&p.encode()).unwrap(), p);
    let empty = RemoveEntitiesPacket { entity_ids: vec![] };
    assert_eq!(RemoveEntitiesPacket::decode(&empty.encode()).unwrap(), empty);
}

#[test]
fn remove_entities_from_identities() {
    let players = vec![
        PlayerIdentity { short_uuid: 11, username: b"alice".to_vec() },
        PlayerIdentity { short_uuid: -7, username: b"bob".to_vec() },
    ];
    let p = RemoveEntitiesPacket::from_entities(&players);
    assert_eq!(p.entity_ids.len(), 2);
    assert_eq!(p.entity_ids[0].val, 11);
    assert_eq!(p.entity_ids[1].val, -7);
}

#[test]
fn set_container_content_round_trip() {
    let p = SetContainerContent {
        window_id: VarInt::new(1),
        state_id: VarInt::new(5),
        slots: vec![
            InventorySlot { data: vec![1, 0, 0] },
            InventorySlot { data: vec![] },
            InventorySlot { data: vec![42; 10] },
        ],
        carried_item: InventorySlot { data: vec![7, 7] },
    };
    assert_eq!(SetContainerContent::decode(&p.encode()).unwrap(), p);
}

#[test]
fn command_suggestions_round_trip() {
    let p = CommandSuggestionsPacket {
        transaction_id: VarInt::new(12),
        start: VarInt::new(1),
        length: VarInt::new(2),
        matches: vec![
            Match { content: b"say".to_vec(), tooltip: None },
            Match { content: b"save".to_vec(), tooltip: Some(b"{\"text\":\"tip\"}".to_vec()) },
        ],
    };
    assert_eq!(CommandSuggestionsPacket::decode(&p.encode()).unwrap(), p);
}

#[test]
fn trailing_bytes_are_a_field_error() {
    let mut bytes = SwingArmPacket { hand: VarInt::new(0) }.encode();
    bytes.push(9);
    assert_eq!(SwingArmPacket::decode(&bytes), Err(WireError::DecodeFieldError));
}

#[test]
fn bad_overlay_flag_is_a_field_error() {
    let p = SystemMessagePacket { message: b"x".to_vec(), overlay: false };
    let mut bytes = p.encode();
    let last = bytes.len() - 1;
    bytes[last] = 2;
    assert_eq!(SystemMessagePacket::decode(&bytes), Err(WireError::DecodeFieldError));
}

#[test]
fn truncated_secret_is_malformed() {
    let p = EncryptionResponse { shared_secret: vec![1, 2, 3], verify_token: vec![4] };
    let mut bytes = p.encode();
    bytes.truncate(2);
    assert!(EncryptionResponse::decode(&bytes).is_err());
}

#[test]
fn list_count_over_remaining_buffer_fails_up_front() {
    // A declared count of five entity ids with an empty rest: rejected
    // before any element decode is attempted.
    let payload = vec![5u8];
    assert_eq!(RemoveEntitiesPacket::decode(&payload), Err(WireError::MalformedFrame));
}
