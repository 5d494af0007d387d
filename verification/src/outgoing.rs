//! Clientbound packets: the typed bodies the server emits, each with its
//! exact payload image, an encoder, and a complete decoder over the whole
//! payload of a frame.

use vstd::prelude::*;

use crate::codec::{
    bool_bytes, decode_bool, decode_lp_bytes, decode_opt_bytes, decode_position, encodes_lp_at,
    encodes_opt_at, lemma_opt_unambiguous, lp_bytes, opt_bytes, opt_view, pos_bytes, pos_wf,
    write_bool, write_lp_bytes, write_opt_bytes, write_position, NetworkPosition,
};
use crate::net_types::{
    decode_single_varint_payload, encode_single_varint_payload, lemma_lp_unambiguous, VarInt,
    InventorySlot, PlayerIdentity,
};
use crate::wire::{
    decode_lp_list, encodes_lp_list_at, lp_list_bytes, wire_seq_eq, wire_seq_wf, write_lp_list,
    Wire,
};
use crate::{codec_fatal, WireError};

verus! {

/// The state of one block changed.
#[derive(Clone, Copy, PartialEq, Eq, Structural, Debug)]
pub struct BlockUpdate {
    pub location: NetworkPosition,
    pub block_state_id: VarInt,
}

impl BlockUpdate {
    pub open spec fn wf(&self) -> bool {
        pos_wf(self.location)
    }

    pub open spec fn payload_bytes(&self) -> Seq<u8> {
        pos_bytes(self.location) + self.block_state_id.enc()
    }

    pub open spec fn val_eq(&self, o: &Self) -> bool {
        self.location == o.location && self.block_state_id.val == o.block_state_id.val
    }

    pub fn encode(&self) -> (r: Vec<u8>)
        requires
            self.wf(),
        ensures
            r@ == self.payload_bytes(),
    {
        let mut out: Vec<u8> = Vec::new();
        write_position(&mut out, self.location);
        self.block_state_id.write_wire(&mut out);
        out
    }

    pub fn decode(payload: &[u8]) -> (r: Result<Self, WireError>)
        ensures
            r matches Ok(v) ==> v.wf() && payload@ == v.payload_bytes(),
            forall|w: Self|
                (w.wf() && payload@ == w.payload_bytes()) ==> (r matches Ok(v) && v.val_eq(&w)),
            r matches Err(e) ==> codec_fatal(e),
    {
        proof {
            assert forall|w: Self| (w.wf() && payload@ == w.payload_bytes()) implies {
                &&& payload@.len() >= 8
                &&& payload@.subrange(0, 8) == pos_bytes(w.location)
                &&& payload@.subrange(8, payload@.len() as int) == w.block_state_id.enc()
            } by {
                assert(pos_bytes(w.location).len() == 8);
                assert(payload@.subrange(0, 8) =~= pos_bytes(w.location));
                assert(payload@.subrange(8, payload@.len() as int) =~= w.block_state_id.enc());
            }
        }
        let _payload_len = payload.len();
        let r1 = decode_position(payload, 0);
        let (location, _u1) = match r1 {
            Ok(x) => x,
            Err(e) => { return Err(e); },
        };
        let r2 = VarInt::decode_wire(payload, 8);
        let (block_state_id, used2) = match r2 {
            Ok(x) => x,
            Err(e) => { return Err(e); },
        };
        if 8 + used2 != payload.len() {
            return Err(WireError::DecodeFieldError);
        }
        let v = BlockUpdate { location, block_state_id };
        proof {
            assert(payload@ =~= payload@.subrange(0, 8) + payload@.subrange(
                8,
                (8 + used2) as int,
            ));
        }
        Ok(v)
    }
}

/// The server finished a batch of chunk packets.
#[derive(Clone, Copy, PartialEq, Eq, Structural, Debug)]
pub struct ChunkBatchFinish {
    pub batch_size: VarInt,
}

impl ChunkBatchFinish {
    pub open spec fn wf(&self) -> bool {
        true
    }

    pub open spec fn payload_bytes(&self) -> Seq<u8> {
        self.batch_size.enc()
    }

    pub open spec fn val_eq(&self, o: &Self) -> bool {
        self.batch_size.val == o.batch_size.val
    }

    pub fn encode(&self) -> (r: Vec<u8>)
        ensures
            r@ == self.payload_bytes(),
    {
        encode_single_varint_payload(self.batch_size)
    }

    pub fn decode(payload: &[u8]) -> (r: Result<Self, WireError>)
        ensures
            r matches Ok(v) ==> v.wf() && payload@ == v.payload_bytes(),
            forall|w: Self|
                (w.wf() && payload@ == w.payload_bytes()) ==> (r matches Ok(v) && v.val_eq(&w)),
            r matches Err(e) ==> codec_fatal(e),
    {
        match decode_single_varint_payload(payload) {
            Ok(v) => Ok(ChunkBatchFinish { batch_size: v }),
            Err(e) => Err(e),
        }
    }
}

/// During login, announces the compression threshold every later frame
/// must respect.
#[derive(Clone, Copy, PartialEq, Eq, Structural, Debug)]
pub struct SetCompressionPacket {
    pub threshold: VarInt,
}

impl SetCompressionPacket {
    pub open spec fn wf(&self) -> bool {
        true
    }

    pub open spec fn payload_bytes(&self) -> Seq<u8> {
        self.threshold.enc()
    }

    pub open spec fn val_eq(&self, o: &Self) -> bool {
        self.threshold.val == o.threshold.val
    }

    pub fn encode(&self) -> (r: Vec<u8>)
        ensures
            r@ == self.payload_bytes(),
    {
        encode_single_varint_payload(self.threshold)
    }

    pub fn decode(payload: &[u8]) -> (r: Result<Self, WireError>)
        ensures
            r matches Ok(v) ==> v.wf() && payload@ == v.payload_bytes(),
            forall|w: Self|
                (w.wf() && payload@ == w.payload_bytes()) ==> (r matches Ok(v) && v.val_eq(&w)),
            r matches Err(e) ==> codec_fatal(e),
    {
        match decode_single_varint_payload(payload) {
            Ok(v) => Ok(SetCompressionPacket { threshold: v }),
            Err(e) => Err(e),
        }
    }
}

/// Opens a container screen; the title is an opaque serialized rich-text
/// payload from the text collaborator.
#[derive(Clone, PartialEq, Eq, Debug)]
pub struct OpenScreen {
    pub window_id: VarInt,
    pub window_type: VarInt,
    pub title: Vec<u8>,
}

impl OpenScreen {
    pub open spec fn wf(&self) -> bool {
        self.title@.len() < 0x1_0000_0000
    }

    pub open spec fn payload_bytes(&self) -> Seq<u8> {
        self.window_id.enc() + self.window_type.enc() + lp_bytes(self.title@)
    }

    pub open spec fn val_eq(&self, o: &Self) -> bool {
        &&& self.window_id.val == o.window_id.val
        &&& self.window_type.val == o.window_type.val
        &&& self.title@ == o.title@
    }

    pub fn encode(&self) -> (r: Vec<u8>)
        requires
            self.wf(),
        ensures
            r@ == self.payload_bytes(),
    {
        let mut out: Vec<u8> = Vec::new();
        self.window_id.write_wire(&mut out);
        self.window_type.write_wire(&mut out);
        write_lp_bytes(&mut out, &self.title);
        proof {
            assert(out@ =~= self.payload_bytes());
        }
        out
    }

    pub fn decode(payload: &[u8]) -> (r: Result<Self, WireError>)
        ensures
            r matches Ok(v) ==> v.wf() && payload@ == v.payload_bytes(),
            forall|w: Self|
                (w.wf() && payload@ == w.payload_bytes()) ==> (r matches Ok(v) && v.val_eq(&w)),
            r matches Err(e) ==> codec_fatal(e),
    {
        proof {
            assert forall|w: Self| (w.wf() && payload@ == w.payload_bytes()) implies {
                let l1 = w.window_id.enc().len() as int;
                let l2 = l1 + w.window_type.enc().len() as int;
                &&& payload@.subrange(0, l1) == w.window_id.enc()
                &&& payload@.subrange(l1, l2) == w.window_type.enc()
                &&& encodes_lp_at(payload@, l2, w.title@)
            } by {
                let l1 = w.window_id.enc().len() as int;
                let l2 = l1 + w.window_type.enc().len() as int;
                assert(payload@.subrange(0, l1) =~= w.window_id.enc());
                assert(payload@.subrange(l1, l2) =~= w.window_type.enc());
                assert(payload@.subrange(l2, payload@.len() as int) =~= lp_bytes(w.title@));
            }
        }
        let _payload_len = payload.len();
        let r1 = VarInt::decode_wire(payload, 0);
        let (window_id, p1) = match r1 {
            Ok(x) => x,
            Err(e) => { return Err(e); },
        };
        let r2 = VarInt::decode_wire(payload, p1);
        let (window_type, used2) = match r2 {
            Ok(x) => x,
            Err(e) => {
                proof {
                    assert forall|w: Self|
                        !(w.wf() && payload@ == w.payload_bytes()) by {
                        if w.wf() && payload@ == w.payload_bytes() {
                            let l1 = w.window_id.enc().len() as int;
                            assert(payload@.subrange(
                                l1,
                                l1 + w.window_type.enc().len() as int,
                            ) == payload@.subrange(0, l1 + w.window_type.enc().len() as int
                            ).subrange(l1, l1 + w.window_type.enc().len() as int));
                        }
                    }
                }
                return Err(e);
            },
        };
        let p2 = p1 + used2;
        let r3 = decode_lp_bytes(payload, p2, 0xFFFF_FFFF);
        let (title, used3) = match r3 {
            Ok(x) => x,
            Err(e) => { return Err(e); },
        };
        if p2 + used3 != payload.len() {
            return Err(WireError::DecodeFieldError);
        }
        let v = OpenScreen { window_id, window_type, title };
        proof {
            assert(payload@ =~= payload@.subrange(0, p1 as int) + payload@.subrange(
                p1 as int,
                p2 as int,
            ) + payload@.subrange(p2 as int, (p2 + used3) as int));
        }
        Ok(v)
    }
}

/// A chat message shown in the client's chat or above the hotbar; the
/// message is an opaque serialized rich-text payload.
#[derive(Clone, PartialEq, Eq, Debug)]
pub struct SystemMessagePacket {
    pub message: Vec<u8>,
    pub overlay: bool,
}

impl SystemMessagePacket {
    pub open spec fn wf(&self) -> bool {
        self.message@.len() < 0x1_0000_0000
    }

    pub open spec fn payload_bytes(&self) -> Seq<u8> {
        lp_bytes(self.message@) + bool_bytes(self.overlay)
    }

    pub open spec fn val_eq(&self, o: &Self) -> bool {
        self.message@ == o.message@ && self.overlay == o.overlay
    }

    pub fn encode(&self) -> (r: Vec<u8>)
        requires
            self.wf(),
        ensures
            r@ == self.payload_bytes(),
    {
        let mut out: Vec<u8> = Vec::new();
        write_lp_bytes(&mut out, &self.message);
        write_bool(&mut out, self.overlay);
        out
    }

    pub fn decode(payload: &[u8]) -> (r: Result<Self, WireError>)
        ensures
            r matches Ok(v) ==> v.wf() && payload@ == v.payload_bytes(),
            forall|w: Self|
                (w.wf() && payload@ == w.payload_bytes()) ==> (r matches Ok(v) && v.val_eq(&w)),
            r matches Err(e) ==> codec_fatal(e),
    {
        proof {
            assert forall|w: Self| (w.wf() && payload@ == w.payload_bytes()) implies {
                let l1 = lp_bytes(w.message@).len() as int;
                &&& encodes_lp_at(payload@, 0, w.message@)
                &&& payload@.subrange(l1, l1 + 1) == bool_bytes(w.overlay)
                &&& payload@.len() == l1 + 1
            } by {
                let l1 = lp_bytes(w.message@).len() as int;
                assert(payload@.subrange(0, l1) =~= lp_bytes(w.message@));
                assert(payload@.subrange(l1, l1 + 1) =~= bool_bytes(w.overlay));
            }
        }
        let _payload_len = payload.len();
        let r1 = decode_lp_bytes(payload, 0, 0xFFFF_FFFF);
        let (message, p1) = match r1 {
            Ok(x) => x,
            Err(e) => { return Err(e); },
        };
        let r2 = decode_bool(payload, p1);
        let (overlay, _u2) = match r2 {
            Ok(x) => x,
            Err(e) => { return Err(e); },
        };
        if p1 + 1 != payload.len() {
            return Err(WireError::DecodeFieldError);
        }
        let v = SystemMessagePacket { message, overlay };
        proof {
            assert(payload@ =~= payload@.subrange(0, p1 as int) + payload@.subrange(
                p1 as int,
                (p1 + 1) as int,
            ));
        }
        Ok(v)
    }
}

/// Tells the client to forget a set of entities, named by their ids.
#[derive(Clone, PartialEq, Eq, Debug)]
pub struct RemoveEntitiesPacket {
    pub entity_ids: Vec<VarInt>,
}

impl RemoveEntitiesPacket {
    pub open spec fn wf(&self) -> bool {
        self.entity_ids@.len() < 0x1_0000_0000
    }

    pub open spec fn payload_bytes(&self) -> Seq<u8> {
        lp_list_bytes(self.entity_ids@)
    }

    pub open spec fn val_eq(&self, o: &Self) -> bool {
        self.entity_ids@ == o.entity_ids@
    }

    /// Build the packet from the identities of the entities to remove,
    /// one id per entity, in order.
    pub fn from_entities(entity_ids: &Vec<PlayerIdentity>) -> (r: Self)
        ensures
            r.entity_ids@.len() == entity_ids@.len(),
            forall|i: int|
                0 <= i < entity_ids@.len() ==> r.entity_ids@[i].val == entity_ids@[i].short_uuid,
    {
        let mut ids: Vec<VarInt> = Vec::new();
        let mut i: usize = 0;
        while i < entity_ids.len()
            invariant
                i <= entity_ids@.len(),
                ids@.len() == i,
                forall|j: int|
                    0 <= j < i ==> ids@[j].val == entity_ids@[j].short_uuid,
            decreases entity_ids@.len() - i,
        {
            ids.push(VarInt::new(entity_ids[i].short_uuid));
            i = i + 1;
        }
        RemoveEntitiesPacket { entity_ids: ids }
    }

    pub fn encode(&self) -> (r: Vec<u8>)
        requires
            self.wf(),
        ensures
            r@ == self.payload_bytes(),
    {
        let mut out: Vec<u8> = Vec::new();
        write_lp_list(&mut out, &self.entity_ids);
        out
    }

    pub fn decode(payload: &[u8]) -> (r: Result<Self, WireError>)
        ensures
            r matches Ok(v) ==> v.wf() && payload@ == v.payload_bytes(),
            forall|w: Self|
                (w.wf() && payload@ == w.payload_bytes()) ==> (r matches Ok(v) && v.val_eq(&w)),
            r matches Err(e) ==> codec_fatal(e),
    {
        proof {
            assert forall|w: Self| (w.wf() && payload@ == w.payload_bytes()) implies {
                &&& encodes_lp_list_at(payload@, 0, w.entity_ids@)
                &&& wire_seq_wf(w.entity_ids@)
                &&& w.entity_ids@.len() <= 0xFFFF_FFFF
            } by {
                assert(payload@.subrange(0, payload@.len() as int) =~= lp_list_bytes(
                    w.entity_ids@,
                ));
            }
        }
        let _payload_len = payload.len();
        let r1 = decode_lp_list::<VarInt>(payload, 0, 0xFFFF_FFFF);
        let (entity_ids, used) = match r1 {
            Ok(x) => x,
            Err(e) => { return Err(e); },
        };
        if used != payload.len() {
            return Err(WireError::DecodeFieldError);
        }
        let v = RemoveEntitiesPacket { entity_ids };
        proof {
            assert(payload@ =~= payload@.subrange(0, used as int));
            assert forall|w: Self|
                (w.wf() && payload@ == w.payload_bytes()) implies v.val_eq(&w) by {
                assert(wire_seq_eq(v.entity_ids@, w.entity_ids@));
                assert(v.entity_ids@ =~= w.entity_ids@);
            }
        }
        Ok(v)
    }
}

/// The full contents of a container window: the slots, and the item the
/// cursor carries, each an opaque collaborator payload.
#[derive(Clone, PartialEq, Eq, Debug)]
pub struct SetContainerContent {
    pub window_id: VarInt,
    pub state_id: VarInt,
    pub slots: Vec<InventorySlot>,
    pub carried_item: InventorySlot,
}

impl SetContainerContent {
    pub open spec fn wf(&self) -> bool {
        &&& self.slots@.len() < 0x1_0000_0000
        &&& wire_seq_wf(self.slots@)
        &&& self.carried_item.wire_wf()
    }

    pub open spec fn payload_bytes(&self) -> Seq<u8> {
        self.window_id.enc() + self.state_id.enc() + lp_list_bytes(self.slots@)
            + self.carried_item.enc()
    }

    pub open spec fn val_eq(&self, o: &Self) -> bool {
        &&& self.window_id.val == o.window_id.val
        &&& self.state_id.val == o.state_id.val
        &&& wire_seq_eq(self.slots@, o.slots@)
        &&& self.carried_item.data@ == o.carried_item.data@
    }

    pub fn encode(&self) -> (r: Vec<u8>)
        requires
            self.wf(),
        ensures
            r@ == self.payload_bytes(),
    {
        let mut out: Vec<u8> = Vec::new();
        self.window_id.write_wire(&mut out);
        self.state_id.write_wire(&mut out);
        write_lp_list(&mut out, &self.slots);
        self.carried_item.write_wire(&mut out);
        proof {
            assert(out@ =~= self.payload_bytes());
        }
        out
    }

    pub fn decode(payload: &[u8]) -> (r: Result<Self, WireError>)
        ensures
            r matches Ok(v) ==> v.wf() && payload@ == v.payload_bytes(),
            forall|w: Self|
                (w.wf() && payload@ == w.payload_bytes()) ==> (r matches Ok(v) && v.val_eq(&w)),
            r matches Err(e) ==> codec_fatal(e),
    {
        proof {
            assert forall|w: Self| (w.wf() && payload@ == w.payload_bytes()) implies {
                let l1 = w.window_id.enc().len() as int;
                let l2 = l1 + w.state_id.enc().len() as int;
                let l3 = l2 + lp_list_bytes(w.slots@).len() as int;
                &&& payload@.subrange(0, l1) == w.window_id.enc()
                &&& payload@.subrange(l1, l2) == w.state_id.enc()
                &&& encodes_lp_list_at(payload@, l2, w.slots@)
                &&& wire_seq_wf(w.slots@)
                &&& w.slots@.len() <= 0xFFFF_FFFF
                &&& encodes_lp_at(payload@, l3, w.carried_item.data@)
                &&& payload@.len() == l3 + w.carried_item.enc().len()
            } by {
                let l1 = w.window_id.enc().len() as int;
                let l2 = l1 + w.state_id.enc().len() as int;
                let l3 = l2 + lp_list_bytes(w.slots@).len() as int;
                assert(payload@.subrange(0, l1) =~= w.window_id.enc());
                assert(payload@.subrange(l1, l2) =~= w.state_id.enc());
                assert(payload@.subrange(l2, l3) =~= lp_list_bytes(w.slots@));
                assert(payload@.subrange(l3, payload@.len() as int) =~= lp_bytes(
                    w.carried_item.data@,
                ));
            }
        }
        let _payload_len = payload.len();
        let r1 = VarInt::decode_wire(payload, 0);
        let (window_id, p1) = match r1 {
            Ok(x) => x,
            Err(e) => { return Err(e); },
        };
        let r2 = VarInt::decode_wire(payload, p1);
        let (state_id, used2) = match r2 {
            Ok(x) => x,
            Err(e) => {
                proof {
                    assert forall|w: Self|
                        !(w.wf() && payload@ == w.payload_bytes()) by {
                        if w.wf() && payload@ == w.payload_bytes() {
                            let l1 = w.window_id.enc().len() as int;
                            assert(payload@.subrange(l1, l1 + w.state_id.enc().len() as int)
                                == w.state_id.enc());
                        }
                    }
                }
                return Err(e);
            },
        };
        let p2 = p1 + used2;
        let r3 = decode_lp_list::<InventorySlot>(payload, p2, 0xFFFF_FFFF);
        let (slots, used3) = match r3 {
            Ok(x) => x,
            Err(e) => { return Err(e); },
        };
        let p3 = p2 + used3;
        let r4 = InventorySlot::decode_wire(payload, p3);
        let (carried_item, used4) = match r4 {
            Ok(x) => x,
            Err(e) => { return Err(e); },
        };
        if p3 + used4 != payload.len() {
            return Err(WireError::DecodeFieldError);
        }
        let v = SetContainerContent { window_id, state_id, slots, carried_item };
        proof {
            assert forall|w: Self|
                (w.wf() && payload@ == w.payload_bytes()) implies v.val_eq(&w) by {
                assert(wire_seq_eq(v.slots@, w.slots@));
            }
            assert(payload@ =~= payload@.subrange(0, p1 as int) + payload@.subrange(
                p1 as int,
                p2 as int,
            ) + payload@.subrange(p2 as int, p3 as int) + payload@.subrange(
                p3 as int,
                (p3 + used4) as int,
            ));
        }
        Ok(v)
    }
}

/// One completion candidate: the text, and an optional rich-text tooltip
/// carried as an opaque collaborator payload.
#[derive(Clone, PartialEq, Eq, Debug)]
pub struct Match {
    pub content: Vec<u8>,
    pub tooltip: Option<Vec<u8>>,
}

impl Wire for Match {
    open spec fn enc(&self) -> Seq<u8> {
        lp_bytes(self.content@) + opt_bytes(opt_view(self.tooltip))
    }

    open spec fn wire_wf(&self) -> bool {
        &&& self.content@.len() < 0x1_0000_0000
        &&& (self.tooltip matches Some(d) ==> d@.len() < 0x1_0000_0000)
    }

    open spec fn wire_eq(&self, other: &Self) -> bool {
        &&& self.content@ == other.content@
        &&& opt_view(self.tooltip) == opt_view(other.tooltip)
    }

    proof fn lemma_wire_min_len(v: Self) {
        crate::codec::lemma_varint_len_bounds(v.content@.len() as u32);
    }

    proof fn lemma_wire_unambiguous(s: Seq<u8>, start: int, a: Self, b: Self) {
        lemma_match_parts(s, start, a);
        lemma_match_parts(s, start, b);
        lemma_lp_unambiguous(s, start, a.content@, b.content@);
        let c = lp_bytes(a.content@).len() as int;
        lemma_opt_unambiguous(s, start + c, opt_view(a.tooltip), opt_view(b.tooltip));
    }

    fn write_wire(&self, out: &mut Vec<u8>) {
        write_lp_bytes(out, &self.content);
        write_opt_bytes(out, &self.tooltip);
        proof {
            assert(final(out)@ =~= old(out)@ + self.enc());
        }
    }

    fn decode_wire(buf: &[u8], start: usize) -> (r: Result<(Self, usize), WireError>) {
        proof {
            assert forall|w: Self|
                (w.wire_wf() && start + w.enc().len() <= buf@.len() && buf@.subrange(
                    start as int,
                    start + w.enc().len() as int,
                ) == w.enc()) implies {
                let c = lp_bytes(w.content@).len() as int;
                &&& encodes_lp_at(buf@, start as int, w.content@)
                &&& encodes_opt_at(buf@, start + c, opt_view(w.tooltip))
            } by {
                lemma_match_parts(buf@, start as int, w);
            }
        }
        let _buf_len = buf.len();
        let r1 = decode_lp_bytes(buf, start, 0xFFFF_FFFF);
        let (content, u1) = match r1 {
            Ok(x) => x,
            Err(e) => { return Err(e); },
        };
        let p1 = start + u1;
        let r2 = decode_opt_bytes(buf, p1, 0xFFFF_FFFF);
        let (tooltip, u2) = match r2 {
            Ok(x) => x,
            Err(e) => { return Err(e); },
        };
        let m = Match { content, tooltip };
        proof {
            assert(buf@.subrange(start as int, (p1 + u2) as int) =~= buf@.subrange(
                start as int,
                p1 as int,
            ) + buf@.subrange(p1 as int, (p1 + u2) as int));
            assert(buf@.subrange(start as int, (p1 + u2) as int) =~= m.enc());
        }
        Ok((m, u1 + u2))
    }
}

/// Splits a completion candidate's encoding into its content and its
/// optional tooltip.
pub proof fn lemma_match_parts(s: Seq<u8>, start: int, w: Match)
    requires
        w.wire_wf(),
        0 <= start,
        start + w.enc().len() <= s.len(),
        s.subrange(start, start + w.enc().len() as int) == w.enc(),
    ensures
        encodes_lp_at(s, start, w.content@),
        encodes_opt_at(s, start + lp_bytes(w.content@).len(), opt_view(w.tooltip)),
{
    let c = lp_bytes(w.content@).len() as int;
    let e = w.enc();
    assert(s.subrange(start, start + c) =~= e.subrange(0, c));
    assert(e.subrange(0, c) =~= lp_bytes(w.content@));
    assert(s.subrange(start + c, start + e.len() as int) =~= e.subrange(c, e.len() as int));
    assert(e.subrange(c, e.len() as int) =~= opt_bytes(opt_view(w.tooltip)));
}

/// The reply to a completion request: which request, where the
/// completions apply in the input, and the candidates.
#[derive(Clone, PartialEq, Eq, Debug)]
pub struct CommandSuggestionsPacket {
    pub transaction_id: VarInt,
    pub start: VarInt,
    pub length: VarInt,
    pub matches: Vec<Match>,
}

impl CommandSuggestionsPacket {
    pub open spec fn wf(&self) -> bool {
        &&& self.matches@.len() < 0x1_0000_0000
        &&& wire_seq_wf(self.matches@)
    }

    pub open spec fn payload_bytes(&self) -> Seq<u8> {
        self.transaction_id.enc() + self.start.enc() + self.length.enc() + lp_list_bytes(
            self.matches@,
        )
    }

    pub open spec fn val_eq(&self, o: &Self) -> bool {
        &&& self.transaction_id.val == o.transaction_id.val
        &&& self.start.val == o.start.val
        &&& self.length.val == o.length.val
        &&& wire_seq_eq(self.matches@, o.matches@)
    }

    pub fn encode(&self) -> (r: Vec<u8>)
        requires
            self.wf(),
        ensures
            r@ == self.payload_bytes(),
    {
        let mut out: Vec<u8> = Vec::new();
        self.transaction_id.write_wire(&mut out);
        self.start.write_wire(&mut out);
        self.length.write_wire(&mut out);
        write_lp_list(&mut out, &self.matches);
        proof {
            assert(out@ =~= self.payload_bytes());
        }
        out
    }

    #[verifier::rlimit(80)]
    pub fn decode(payload: &[u8]) -> (r: Result<Self, WireError>)
        ensures
            r matches Ok(v) ==> v.wf() && payload@ == v.payload_bytes(),
            forall|w: Self|
                (w.wf() && payload@ == w.payload_bytes()) ==> (r matches Ok(v) && v.val_eq(&w)),
            r matches Err(e) ==> codec_fatal(e),
    {
        proof {
            assert forall|w: Self| (w.wf() && payload@ == w.payload_bytes()) implies {
                let l1 = w.transaction_id.enc().len() as int;
                let l2 = l1 + w.start.enc().len() as int;
                let l3 = l2 + w.length.enc().len() as int;
                &&& payload@.subrange(0, l1) == w.transaction_id.enc()
                &&& payload@.subrange(l1, l2) == w.start.enc()
                &&& payload@.subrange(l2, l3) == w.length.enc()
                &&& encodes_lp_list_at(payload@, l3, w.matches@)
                &&& wire_seq_wf(w.matches@)
                &&& w.matches@.len() <= 0xFFFF_FFFF
                &&& payload@.len() == l3 + lp_list_bytes(w.matches@).len()
            } by {
                let l1 = w.transaction_id.enc().len() as int;
                let l2 = l1 + w.start.enc().len() as int;
                let l3 = l2 + w.length.enc().len() as int;
                assert(payload@.subrange(0, l1) =~= w.transaction_id.enc());
                assert(payload@.subrange(l1, l2) =~= w.start.enc());
                assert(payload@.subrange(l2, l3) =~= w.length.enc());
                assert(payload@.subrange(l3, payload@.len() as int) =~= lp_list_bytes(w.matches@));
            }
        }
        let _payload_len = payload.len();
        let r1 = VarInt::decode_wire(payload, 0);
        let (transaction_id, p1) = match r1 {
            Ok(x) => x,
            Err(e) => { return Err(e); },
        };
        let r2 = VarInt::decode_wire(payload, p1);
        let (start, used2) = match r2 {
            Ok(x) => x,
            Err(e) => { return Err(e); },
        };
        let p2 = p1 + used2;
        let r3 = VarInt::decode_wire(payload, p2);
        let (length, used3) = match r3 {
            Ok(x) => x,
            Err(e) => { return Err(e); },
        };
        let p3 = p2 + used3;
        let r4 = decode_lp_list::<Match>(payload, p3, 0xFFFF_FFFF);
        let (matches, used4) = match r4 {
            Ok(x) => x,
            Err(e) => { return Err(e); },
        };
        if p3 + used4 != payload.len() {
            return Err(WireError::DecodeFieldError);
        }
        let v = CommandSuggestionsPacket { transaction_id, start, length, matches };
        proof {
            assert forall|w: Self|
                (w.wf() && payload@ == w.payload_bytes()) implies v.val_eq(&w) by {
                assert(wire_seq_eq(v.matches@, w.matches@));
            }
            assert(payload@ =~= payload@.subrange(0, p1 as int) + payload@.subrange(
                p1 as int,
                p2 as int,
            ) + payload@.subrange(p2 as int, p3 as int) + payload@.subrange(
                p3 as int,
                (p3 + used4) as int,
            ));
        }
        Ok(v)
    }
}

} // verus!
