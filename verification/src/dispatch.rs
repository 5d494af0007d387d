//! Inbound dispatch: look the frame's id up for the connection's current
//! phase, decode the payload, and invoke the handler for that packet type.
//!
//! An id the registry does not allow in the current phase, or a payload
//! that does not decode, is fatal to the connection and no handler runs.
//! A successful dispatch invokes exactly one handler exactly once and
//! leaves no residual per-packet state on the connection.

use vstd::prelude::*;

use crate::incoming::{
    CloseContainer, CommandSuggestionRequest, ConfirmPlayerTeleport, EncryptionResponse,
    PlayerAction, SwingArmPacket,
};
use crate::schema::{find_descriptor, lemma_find_none, Direction, PacketKind, PacketRegistry, ProtocolState};
use crate::state::Connection;
use crate::WireError;

verus! {

/// One length-delimited unit from the wire, already unframed: the packet
/// id and the body bytes.
#[derive(Clone, PartialEq, Eq, Debug)]
pub struct Frame {
    pub packet_id: u32,
    pub payload: Vec<u8>,
}

/// What a handler did, recorded for the simulation: one entry per
/// invocation.
#[derive(Clone, PartialEq, Eq, Debug)]
pub enum HandlerEvent {
    ContainerClosed { conn_id: u32, window_id: i32 },
    SuggestionRequested { conn_id: u32, transaction_id: i32, input: Vec<u8> },
    TeleportConfirmed { conn_id: u32, teleport_id: i32 },
    EncryptionResponded { conn_id: u32, shared_secret: Vec<u8>, verify_token: Vec<u8> },
    ActionPerformed { conn_id: u32, status: i32, face: u8, sequence: i32 },
    ArmSwung { conn_id: u32, hand: i32 },
}

/// The packet kinds a client may send; everything else in the registry is
/// clientbound and can never be dispatched inbound.
pub open spec fn inbound_kind(k: PacketKind) -> bool {
    ||| k == PacketKind::CloseContainer
    ||| k == PacketKind::CommandSuggestionRequest
    ||| k == PacketKind::ConfirmPlayerTeleport
    ||| k == PacketKind::EncryptionResponse
    ||| k == PacketKind::PlayerAction
    ||| k == PacketKind::SwingArm
}

/// Whether the payload is the wire image of some packet of this kind —
/// the exact success condition of inbound decoding.
pub open spec fn payload_decodes(kind: PacketKind, payload: Seq<u8>) -> bool {
    match kind {
        PacketKind::CloseContainer => exists|w: CloseContainer|
            w.wf() && payload == #[trigger] w.payload_bytes(),
        PacketKind::CommandSuggestionRequest => exists|w: CommandSuggestionRequest|
            w.wf() && payload == #[trigger] w.payload_bytes(),
        PacketKind::ConfirmPlayerTeleport => exists|w: ConfirmPlayerTeleport|
            w.wf() && payload == #[trigger] w.payload_bytes(),
        PacketKind::EncryptionResponse => exists|w: EncryptionResponse|
            w.wf() && payload == #[trigger] w.payload_bytes(),
        PacketKind::PlayerAction => exists|w: PlayerAction|
            w.wf() && payload == #[trigger] w.payload_bytes(),
        PacketKind::SwingArm => exists|w: SwingArmPacket|
            w.wf() && payload == #[trigger] w.payload_bytes(),
        _ => false,
    }
}

/// The one event dispatching this frame appends: the handler invocation
/// for the packet value whose wire image the payload is.
pub open spec fn event_for(
    entries: Seq<crate::schema::PacketDescriptor>,
    state: ProtocolState,
    conn_id: u32,
    f: Frame,
    e: HandlerEvent,
) -> bool {
    let k = find_descriptor(entries, state, Direction::Serverbound, f.packet_id);
    &&& k is Some
    &&& match k->0 {
        PacketKind::CloseContainer => exists|w: CloseContainer|
            w.wf() && f.payload@ == #[trigger] w.payload_bytes() && e
                == (HandlerEvent::ContainerClosed { conn_id, window_id: w.window_id.val }),
        PacketKind::CommandSuggestionRequest => exists|w: CommandSuggestionRequest|
            w.wf() && f.payload@ == #[trigger] w.payload_bytes() && (e
                matches HandlerEvent::SuggestionRequested { conn_id: c, transaction_id, input }
                && c == conn_id && transaction_id == w.transaction_id.val && input@ == w.input@),
        PacketKind::ConfirmPlayerTeleport => exists|w: ConfirmPlayerTeleport|
            w.wf() && f.payload@ == #[trigger] w.payload_bytes() && e
                == (HandlerEvent::TeleportConfirmed { conn_id, teleport_id: w.teleport_id.val }),
        PacketKind::EncryptionResponse => exists|w: EncryptionResponse|
            w.wf() && f.payload@ == #[trigger] w.payload_bytes() && (e
                matches HandlerEvent::EncryptionResponded { conn_id: c, shared_secret, verify_token }
                && c == conn_id && shared_secret@ == w.shared_secret@ && verify_token@
                == w.verify_token@),
        PacketKind::PlayerAction => exists|w: PlayerAction|
            w.wf() && f.payload@ == #[trigger] w.payload_bytes() && e
                == (HandlerEvent::ActionPerformed {
                conn_id,
                status: w.status.val,
                face: w.face,
                sequence: w.sequence.val,
            }),
        PacketKind::SwingArm => exists|w: SwingArmPacket|
            w.wf() && f.payload@ == #[trigger] w.payload_bytes() && e
                == (HandlerEvent::ArmSwung { conn_id, hand: w.hand.val }),
        _ => false,
    }
}

/// Every frame of the batch is registered for this phase, inbound, and
/// carries the wire image of a packet of its kind — the exact condition
/// under which dispatching the whole batch succeeds.
pub open spec fn batch_valid(
    entries: Seq<crate::schema::PacketDescriptor>,
    state: ProtocolState,
    frames: Seq<Frame>,
) -> bool {
    forall|i: int|
        0 <= i < frames.len() ==> {
            let k = find_descriptor(
                entries,
                state,
                Direction::Serverbound,
                (#[trigger] frames[i]).packet_id,
            );
            &&& k is Some
            &&& inbound_kind(k->0)
            &&& payload_decodes(k->0, frames[i].payload@)
        }
}

/// An id every row registers only for `Play` is absent from the `Login`
/// table: delivering it during login can only miss the registry, and the
/// dispatcher then closes the connection with no handler run.
pub proof fn lemma_play_only_gated(entries: Seq<crate::schema::PacketDescriptor>, packet_id: u32)
    requires
        forall|i: int|
            0 <= i < entries.len() && (#[trigger] entries[i]).direction == Direction::Serverbound
                && entries[i].packet_id == packet_id ==> entries[i].state == ProtocolState::Play,
    ensures
        find_descriptor(entries, ProtocolState::Login, Direction::Serverbound, packet_id) is None,
{
    lemma_find_none(entries, ProtocolState::Login, Direction::Serverbound, packet_id);
}

/// Decode the frame for the connection's current phase and run the
/// handler for its packet type.
///
/// The contract pins the three outcomes apart: an id missing from the
/// registry for this phase is `UnknownPacket` and closes the connection
/// with no event; a registered id whose payload does not decode closes it
/// too, with the codec's error; and a payload that is exactly the wire
/// image of a packet value produces `Ok`, exactly one event holding that
/// value's fields, and an otherwise untouched connection.
pub fn dispatch(
    conn: &mut Connection,
    registry: &PacketRegistry,
    frame: &Frame,
    events: &mut Vec<HandlerEvent>,
) -> (r: Result<(), WireError>)
    ensures
        ({
            let k = find_descriptor(
                registry.entries@,
                old(conn).state,
                Direction::Serverbound,
                frame.packet_id,
            );
            &&& (k is None ==> r == Err::<(), WireError>(WireError::UnknownPacket))
            &&& (k matches Some(kind) && !inbound_kind(kind) ==> r == Err::<(), WireError>(
                WireError::UnknownPacket,
            ))
            &&& (final(conn).conn_id == old(conn).conn_id)
            &&& old(events)@.is_prefix_of(final(events)@)
            &&& (r matches Err(e) ==> {
                &&& e != WireError::HandlerError
                &&& final(conn).state == ProtocolState::Closed
                &&& final(events)@ == old(events)@
            })
            &&& (r is Ok ==> {
                &&& k is Some
                &&& *final(conn) == *old(conn)
                &&& final(events)@.len() == old(events)@.len() + 1
                &&& event_for(
                    registry.entries@,
                    old(conn).state,
                    old(conn).conn_id,
                    *frame,
                    final(events)@.last(),
                )
            })
            &&& (k is Some && inbound_kind(k->0) ==> (r is Ok <==> payload_decodes(
                k->0,
                frame.payload@,
            )))
            &&& (k == Some(PacketKind::SwingArm) ==> forall|w: SwingArmPacket|
                (w.wf() && frame.payload@ == w.payload_bytes()) ==> (r is Ok && final(events)@
                    == old(events)@.push(
                    HandlerEvent::ArmSwung { conn_id: old(conn).conn_id, hand: w.hand.val },
                )))
            &&& (k == Some(PacketKind::CloseContainer) ==> forall|w: CloseContainer|
                (w.wf() && frame.payload@ == w.payload_bytes()) ==> (r is Ok && final(events)@
                    == old(events)@.push(
                    HandlerEvent::ContainerClosed {
                        conn_id: old(conn).conn_id,
                        window_id: w.window_id.val,
                    },
                )))
            &&& (k == Some(PacketKind::ConfirmPlayerTeleport) ==> forall|w: ConfirmPlayerTeleport|
                (w.wf() && frame.payload@ == w.payload_bytes()) ==> (r is Ok && final(events)@
                    == old(events)@.push(
                    HandlerEvent::TeleportConfirmed {
                        conn_id: old(conn).conn_id,
                        teleport_id: w.teleport_id.val,
                    },
                )))
            &&& (k == Some(PacketKind::CommandSuggestionRequest) ==> forall|
                w: CommandSuggestionRequest,
            |
                (w.wf() && frame.payload@ == w.payload_bytes()) ==> (r is Ok && final(events)@.len() == old(events)@.len() + 1 && (final(events)@.last()
                    matches HandlerEvent::SuggestionRequested { conn_id, transaction_id, input }
                    && conn_id == old(conn).conn_id && transaction_id == w.transaction_id.val
                    && input@ == w.input@)))
            &&& (k == Some(PacketKind::EncryptionResponse) ==> forall|w: EncryptionResponse|
                (w.wf() && frame.payload@ == w.payload_bytes()) ==> (r is Ok && final(events)@.len() == old(events)@.len() + 1 && (final(events)@.last()
                    matches HandlerEvent::EncryptionResponded { conn_id, shared_secret, verify_token }
                    && conn_id == old(conn).conn_id && shared_secret@ == w.shared_secret@
                    && verify_token@ == w.verify_token@)))
            &&& (k == Some(PacketKind::PlayerAction) ==> forall|w: PlayerAction|
                (w.wf() && frame.payload@ == w.payload_bytes()) ==> (r is Ok && final(events)@
                    == old(events)@.push(
                    HandlerEvent::ActionPerformed {
                        conn_id: old(conn).conn_id,
                        status: w.status.val,
                        face: w.face,
                        sequence: w.sequence.val,
                    },
                )))
        }),
{
    let looked = registry.lookup(conn.state, Direction::Serverbound, frame.packet_id);
    let kind = match looked {
        Some(k) => k,
        None => {
            conn.close();
            return Err(WireError::UnknownPacket);
        },
    };
    match kind {
        PacketKind::CloseContainer => {
            match CloseContainer::decode(frame.payload.as_slice()) {
                Ok(p) => {
                    events.push(
                        HandlerEvent::ContainerClosed {
                            conn_id: conn.conn_id,
                            window_id: p.window_id.val,
                        },
                    );
                    Ok(())
                },
                Err(e) => {
                    conn.close();
                    Err(e)
                },
            }
        },
        PacketKind::CommandSuggestionRequest => {
            match CommandSuggestionRequest::decode(frame.payload.as_slice()) {
                Ok(p) => {
                    events.push(
                        HandlerEvent::SuggestionRequested {
                            conn_id: conn.conn_id,
                            transaction_id: p.transaction_id.val,
                            input: p.input,
                        },
                    );
                    Ok(())
                },
                Err(e) => {
                    conn.close();
                    Err(e)
                },
            }
        },
        PacketKind::ConfirmPlayerTeleport => {
            match ConfirmPlayerTeleport::decode(frame.payload.as_slice()) {
                Ok(p) => {
                    events.push(
                        HandlerEvent::TeleportConfirmed {
                            conn_id: conn.conn_id,
                            teleport_id: p.teleport_id.val,
                        },
                    );
                    Ok(())
                },
                Err(e) => {
                    conn.close();
                    Err(e)
                },
            }
        },
        PacketKind::EncryptionResponse => {
            match EncryptionResponse::decode(frame.payload.as_slice()) {
                Ok(p) => {
                    events.push(
                        HandlerEvent::EncryptionResponded {
                            conn_id: conn.conn_id,
                            shared_secret: p.shared_secret,
                            verify_token: p.verify_token,
                        },
                    );
                    Ok(())
                },
                Err(e) => {
                    conn.close();
                    Err(e)
                },
            }
        },
        PacketKind::PlayerAction => {
            match PlayerAction::decode(frame.payload.as_slice()) {
                Ok(p) => {
                    events.push(
                        HandlerEvent::ActionPerformed {
                            conn_id: conn.conn_id,
                            status: p.status.val,
                            face: p.face,
                            sequence: p.sequence.val,
                        },
                    );
                    Ok(())
                },
                Err(e) => {
                    conn.close();
                    Err(e)
                },
            }
        },
        PacketKind::SwingArm => {
            match SwingArmPacket::decode(frame.payload.as_slice()) {
                Ok(p) => {
                    events.push(
                        HandlerEvent::ArmSwung { conn_id: conn.conn_id, hand: p.hand.val },
                    );
                    Ok(())
                },
                Err(e) => {
                    conn.close();
                    Err(e)
                },
            }
        },
        _ => {
            conn.close();
            Err(WireError::UnknownPacket)
        },
    }
}

} // verus!
