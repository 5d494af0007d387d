//! The packet registry: one startup-built table mapping (protocol state,
//! direction, packet id) to a typed packet kind. Keys are unique by
//! construction; an id absent from the table for a connection's current
//! state is a protocol violation, never tolerated.

use vstd::prelude::*;

verus! {

/// A connection's lifecycle phase; gates which packet ids are valid.
#[derive(Clone, Copy, PartialEq, Eq, Structural, Debug)]
pub enum ProtocolState {
    Handshake,
    Status,
    Login,
    Play,
    Closed,
}

/// Which way a packet travels.
#[derive(Clone, Copy, PartialEq, Eq, Structural, Debug)]
pub enum Direction {
    Serverbound,
    Clientbound,
}

/// Every packet type the runtime knows.
#[derive(Clone, Copy, PartialEq, Eq, Structural, Debug)]
pub enum PacketKind {
    CloseContainer,
    CommandSuggestionRequest,
    ConfirmPlayerTeleport,
    EncryptionResponse,
    PlayerAction,
    SwingArm,
    BlockUpdate,
    ChunkBatchFinish,
    CommandSuggestions,
    OpenScreen,
    RemoveEntities,
    SetCompression,
    SetContainerContent,
    SystemMessage,
}

/// One registry row.
#[derive(Clone, Copy, PartialEq, Eq, Structural, Debug)]
pub struct PacketDescriptor {
    pub state: ProtocolState,
    pub direction: Direction,
    pub packet_id: u32,
    pub kind: PacketKind,
}

/// First row matching the key, if any.
pub open spec fn find_descriptor(
    entries: Seq<PacketDescriptor>,
    state: ProtocolState,
    direction: Direction,
    packet_id: u32,
) -> Option<PacketKind>
    decreases entries.len(),
{
    if entries.len() == 0 {
        Option::None
    } else if entries[0].state == state && entries[0].direction == direction && entries[0].packet_id
        == packet_id {
        Option::Some(entries[0].kind)
    } else {
        find_descriptor(entries.drop_first(), state, direction, packet_id)
    }
}

/// No two rows share a key.
pub open spec fn registry_wf(entries: Seq<PacketDescriptor>) -> bool {
    forall|i: int, j: int|
        0 <= i < j < entries.len() ==> !(#[trigger] entries[i].state == #[trigger] entries[j].state
            && entries[i].direction == entries[j].direction && entries[i].packet_id
            == entries[j].packet_id)
}

/// A lookup misses exactly when no row matches.
pub proof fn lemma_find_none(
    entries: Seq<PacketDescriptor>,
    state: ProtocolState,
    direction: Direction,
    packet_id: u32,
)
    ensures
        (find_descriptor(entries, state, direction, packet_id) is None) <==> (forall|i: int|
            0 <= i < entries.len() ==> !((#[trigger] entries[i]).state == state
                && entries[i].direction == direction && entries[i].packet_id == packet_id)),
    decreases entries.len(),
{
    if entries.len() > 0 {
        lemma_find_none(entries.drop_first(), state, direction, packet_id);
        assert forall|i: int|
            1 <= i < entries.len() implies entries[i] == entries.drop_first()[i - 1] by {}
    }
}

/// Trying to register a key twice is a construction-time fault, not a
/// runtime error.
#[derive(Clone, Copy, PartialEq, Eq, Structural, Debug)]
pub enum RegistryError {
    DuplicateKey,
}

/// The startup-built registry.
#[derive(Clone, PartialEq, Eq, Debug)]
pub struct PacketRegistry {
    pub entries: Vec<PacketDescriptor>,
}

impl PacketRegistry {
    pub open spec fn wf(&self) -> bool {
        registry_wf(self.entries@)
    }

    pub fn new() -> (r: Self)
        ensures
            r.entries@.len() == 0,
            r.wf(),
    {
        PacketRegistry { entries: Vec::new() }
    }

    /// Look a key up; the result is exactly the first (and, on a
    /// well-formed registry, only) matching row.
    pub fn lookup(&self, state: ProtocolState, direction: Direction, packet_id: u32) -> (r: Option<
        PacketKind,
    >)
        ensures
            r == find_descriptor(self.entries@, state, direction, packet_id),
    {
        let n = self.entries.len();
        let mut i: usize = 0;
        proof {
            assert(self.entries@.subrange(0, n as int) =~= self.entries@);
        }
        while i < n
            invariant
                i <= n,
                n == self.entries@.len(),
                find_descriptor(self.entries@, state, direction, packet_id) == find_descriptor(
                    self.entries@.subrange(i as int, n as int),
                    state,
                    direction,
                    packet_id,
                ),
            decreases n - i,
        {
            let d = self.entries[i];
            proof {
                assert(self.entries@.subrange(i as int, n as int)[0] == d);
                assert(self.entries@.subrange(i as int, n as int).drop_first()
                    =~= self.entries@.subrange(i + 1, n as int));
            }
            if d.state == state && d.direction == direction && d.packet_id == packet_id {
                return Some(d.kind);
            }
            i = i + 1;
        }
        proof {
            assert(self.entries@.subrange(n as int, n as int) =~= Seq::<PacketDescriptor>::empty());
        }
        None
    }

    /// Add a row. Succeeds exactly when the key is still free; a duplicate
    /// key is rejected and the registry is left unchanged.
    pub fn register(&mut self, d: PacketDescriptor) -> (r: Result<(), RegistryError>)
        requires
            old(self).wf(),
        ensures
            final(self).wf(),
            match r {
                Ok(()) => {
                    &&& find_descriptor(old(self).entries@, d.state, d.direction, d.packet_id)
                        is None
                    &&& final(self).entries@ == old(self).entries@.push(d)
                },
                Err(e) => {
                    &&& e == RegistryError::DuplicateKey
                    &&& !(find_descriptor(old(self).entries@, d.state, d.direction, d.packet_id)
                        is None)
                    &&& final(self).entries@ == old(self).entries@
                },
            },
    {
        let existing = self.lookup(d.state, d.direction, d.packet_id);
        if existing.is_some() {
            return Err(RegistryError::DuplicateKey);
        }
        proof {
            lemma_find_none(self.entries@, d.state, d.direction, d.packet_id);
        }
        self.entries.push(d);
        proof {
            let es = final(self).entries@;
            assert forall|i: int, j: int|
                0 <= i < j < es.len() implies !(#[trigger] es[i].state == #[trigger] es[j].state
                && es[i].direction == es[j].direction && es[i].packet_id == es[j].packet_id) by {
                if j == es.len() - 1 {
                    assert(es[i] == old(self).entries@[i]);
                }
            }
        }
        Ok(())
    }
}

// Numeric packet ids are protocol-version-specific; this table pins one
// version. Symbolic names keep the rest of the crate id-agnostic.
pub const ID_ACCEPT_TELEPORTATION: u32 = 0x00;
pub const ID_COMMAND_SUGGESTION: u32 = 0x0D;
pub const ID_CONTAINER_CLOSE: u32 = 0x0F;
pub const ID_PLAYER_ACTION: u32 = 0x27;
pub const ID_SWING: u32 = 0x36;
pub const ID_KEY: u32 = 0x01;
pub const ID_LOGIN_COMPRESSION: u32 = 0x03;
pub const ID_BLOCK_UPDATE: u32 = 0x09;
pub const ID_CHUNK_BATCH_FINISHED: u32 = 0x0C;
pub const ID_COMMAND_SUGGESTIONS: u32 = 0x10;
pub const ID_CONTAINER_SET_CONTENT: u32 = 0x13;
pub const ID_OPEN_SCREEN: u32 = 0x35;
pub const ID_REMOVE_ENTITIES: u32 = 0x47;
pub const ID_SYSTEM_CHAT: u32 = 0x73;

/// The table the server is built with, as a mathematical sequence.
pub open spec fn standard_rows_spec() -> Seq<PacketDescriptor> {
    seq![
        PacketDescriptor { state: ProtocolState::Login, direction: Direction::Serverbound, packet_id: ID_KEY, kind: PacketKind::EncryptionResponse },
        PacketDescriptor { state: ProtocolState::Play, direction: Direction::Serverbound, packet_id: ID_CONTAINER_CLOSE, kind: PacketKind::CloseContainer },
        PacketDescriptor { state: ProtocolState::Play, direction: Direction::Serverbound, packet_id: ID_COMMAND_SUGGESTION, kind: PacketKind::CommandSuggestionRequest },
        PacketDescriptor { state: ProtocolState::Play, direction: Direction::Serverbound, packet_id: ID_ACCEPT_TELEPORTATION, kind: PacketKind::ConfirmPlayerTeleport },
        PacketDescriptor { state: ProtocolState::Play, direction: Direction::Serverbound, packet_id: ID_PLAYER_ACTION, kind: PacketKind::PlayerAction },
        PacketDescriptor { state: ProtocolState::Play, direction: Direction::Serverbound, packet_id: ID_SWING, kind: PacketKind::SwingArm },
        PacketDescriptor { state: ProtocolState::Login, direction: Direction::Clientbound, packet_id: ID_LOGIN_COMPRESSION, kind: PacketKind::SetCompression },
        PacketDescriptor { state: ProtocolState::Play, direction: Direction::Clientbound, packet_id: ID_BLOCK_UPDATE, kind: PacketKind::BlockUpdate },
        PacketDescriptor { state: ProtocolState::Play, direction: Direction::Clientbound, packet_id: ID_CHUNK_BATCH_FINISHED, kind: PacketKind::ChunkBatchFinish },
        PacketDescriptor { state: ProtocolState::Play, direction: Direction::Clientbound, packet_id: ID_COMMAND_SUGGESTIONS, kind: PacketKind::CommandSuggestions },
        PacketDescriptor { state: ProtocolState::Play, direction: Direction::Clientbound, packet_id: ID_OPEN_SCREEN, kind: PacketKind::OpenScreen },
        PacketDescriptor { state: ProtocolState::Play, direction: Direction::Clientbound, packet_id: ID_REMOVE_ENTITIES, kind: PacketKind::RemoveEntities },
        PacketDescriptor { state: ProtocolState::Play, direction: Direction::Clientbound, packet_id: ID_CONTAINER_SET_CONTENT, kind: PacketKind::SetContainerContent },
        PacketDescriptor { state: ProtocolState::Play, direction: Direction::Clientbound, packet_id: ID_SYSTEM_CHAT, kind: PacketKind::SystemMessage },
    ]
}

/// The registry the server is built with: every packet the runtime
/// speaks, keyed by phase, direction and id. Built once at startup
/// through `register`, so key uniqueness is checked as each row is
/// added; the fourteen keys are distinct, so construction succeeds.
pub fn standard_registry() -> (r: Result<PacketRegistry, RegistryError>)
    ensures
        r is Ok,
        r matches Ok(reg) ==> reg.wf() && reg.entries@ == standard_rows_spec(),
{
    let mut reg = PacketRegistry::new();
    let d1 = PacketDescriptor { state: ProtocolState::Login, direction: Direction::Serverbound, packet_id: ID_KEY, kind: PacketKind::EncryptionResponse };
    proof {
        lemma_find_none(reg.entries@, d1.state, d1.direction, d1.packet_id);
    }
    let r1 = reg.register(d1);
    if r1.is_err() {
        proof {
            assert(false);
        }
        return Err(RegistryError::DuplicateKey);
    }
    let d2 = PacketDescriptor { state: ProtocolState::Play, direction: Direction::Serverbound, packet_id: ID_CONTAINER_CLOSE, kind: PacketKind::CloseContainer };
    proof {
        lemma_find_none(reg.entries@, d2.state, d2.direction, d2.packet_id);
    }
    let r2 = reg.register(d2);
    if r2.is_err() {
        proof {
            assert(false);
        }
        return Err(RegistryError::DuplicateKey);
    }
    let d3 = PacketDescriptor { state: ProtocolState::Play, direction: Direction::Serverbound, packet_id: ID_COMMAND_SUGGESTION, kind: PacketKind::CommandSuggestionRequest };
    proof {
        lemma_find_none(reg.entries@, d3.state, d3.direction, d3.packet_id);
    }
    let r3 = reg.register(d3);
    if r3.is_err() {
        proof {
            assert(false);
        }
        return Err(RegistryError::DuplicateKey);
    }
    let d4 = PacketDescriptor { state: ProtocolState::Play, direction: Direction::Serverbound, packet_id: ID_ACCEPT_TELEPORTATION, kind: PacketKind::ConfirmPlayerTeleport };
    proof {
        lemma_find_none(reg.entries@, d4.state, d4.direction, d4.packet_id);
    }
    let r4 = reg.register(d4);
    if r4.is_err() {
        proof {
            assert(false);
        }
        return Err(RegistryError::DuplicateKey);
    }
    let d5 = PacketDescriptor { state: ProtocolState::Play, direction: Direction::Serverbound, packet_id: ID_PLAYER_ACTION, kind: PacketKind::PlayerAction };
    proof {
        lemma_find_none(reg.entries@, d5.state, d5.direction, d5.packet_id);
    }
    let r5 = reg.register(d5);
    if r5.is_err() {
        proof {
            assert(false);
        }
        return Err(RegistryError::DuplicateKey);
    }
    let d6 = PacketDescriptor { state: ProtocolState::Play, direction: Direction::Serverbound, packet_id: ID_SWING, kind: PacketKind::SwingArm };
    proof {
        lemma_find_none(reg.entries@, d6.state, d6.direction, d6.packet_id);
    }
    let r6 = reg.register(d6);
    if r6.is_err() {
        proof {
            assert(false);
        }
        return Err(RegistryError::DuplicateKey);
    }
    let d7 = PacketDescriptor { state: ProtocolState::Login, direction: Direction::Clientbound, packet_id: ID_LOGIN_COMPRESSION, kind: PacketKind::SetCompression };
    proof {
        lemma_find_none(reg.entries@, d7.state, d7.direction, d7.packet_id);
    }
    let r7 = reg.register(d7);
    if r7.is_err() {
        proof {
            assert(false);
        }
        return Err(RegistryError::DuplicateKey);
    }
    let d8 = PacketDescriptor { state: ProtocolState::Play, direction: Direction::Clientbound, packet_id: ID_BLOCK_UPDATE, kind: PacketKind::BlockUpdate };
    proof {
        lemma_find_none(reg.entries@, d8.state, d8.direction, d8.packet_id);
    }
    let r8 = reg.register(d8);
    if r8.is_err() {
        proof {
            assert(false);
        }
        return Err(RegistryError::DuplicateKey);
    }
    let d9 = PacketDescriptor { state: ProtocolState::Play, direction: Direction::Clientbound, packet_id: ID_CHUNK_BATCH_FINISHED, kind: PacketKind::ChunkBatchFinish };
    proof {
        lemma_find_none(reg.entries@, d9.state, d9.direction, d9.packet_id);
    }
    let r9 = reg.register(d9);
    if r9.is_err() {
        proof {
            assert(false);
        }
        return Err(RegistryError::DuplicateKey);
    }
    let d10 = PacketDescriptor { state: ProtocolState::Play, direction: Direction::Clientbound, packet_id: ID_COMMAND_SUGGESTIONS, kind: PacketKind::CommandSuggestions };
    proof {
        lemma_find_none(reg.entries@, d10.state, d10.direction, d10.packet_id);
    }
    let r10 = reg.register(d10);
    if r10.is_err() {
        proof {
            assert(false);
        }
        return Err(RegistryError::DuplicateKey);
    }
    let d11 = PacketDescriptor { state: ProtocolState::Play, direction: Direction::Clientbound, packet_id: ID_OPEN_SCREEN, kind: PacketKind::OpenScreen };
    proof {
        lemma_find_none(reg.entries@, d11.state, d11.direction, d11.packet_id);
    }
    let r11 = reg.register(d11);
    if r11.is_err() {
        proof {
            assert(false);
        }
        return Err(RegistryError::DuplicateKey);
    }
    let d12 = PacketDescriptor { state: ProtocolState::Play, direction: Direction::Clientbound, packet_id: ID_REMOVE_ENTITIES, kind: PacketKind::RemoveEntities };
    proof {
        lemma_find_none(reg.entries@, d12.state, d12.direction, d12.packet_id);
    }
    let r12 = reg.register(d12);
    if r12.is_err() {
        proof {
            assert(false);
        }
        return Err(RegistryError::DuplicateKey);
    }
    let d13 = PacketDescriptor { state: ProtocolState::Play, direction: Direction::Clientbound, packet_id: ID_CONTAINER_SET_CONTENT, kind: PacketKind::SetContainerContent };
    proof {
        lemma_find_none(reg.entries@, d13.state, d13.direction, d13.packet_id);
    }
    let r13 = reg.register(d13);
    if r13.is_err() {
        proof {
            assert(false);
        }
        return Err(RegistryError::DuplicateKey);
    }
    let d14 = PacketDescriptor { state: ProtocolState::Play, direction: Direction::Clientbound, packet_id: ID_SYSTEM_CHAT, kind: PacketKind::SystemMessage };
    proof {
        lemma_find_none(reg.entries@, d14.state, d14.direction, d14.packet_id);
    }
    let r14 = reg.register(d14);
    if r14.is_err() {
        proof {
            assert(false);
        }
        return Err(RegistryError::DuplicateKey);
    }
    proof {
        assert(reg.entries@ =~= standard_rows_spec());
    }
    Ok(reg)
}

} // verus!
