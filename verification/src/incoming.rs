//! Serverbound packets: the typed bodies a client may send, each with its
//! exact payload image, an encoder, and a complete decoder over the whole
//! payload of a frame.

use vstd::prelude::*;

use crate::codec::{
    decode_lp_bytes, decode_position, encodes_lp_at, lp_bytes, pos_bytes, pos_wf, write_lp_bytes,
    write_position, NetworkPosition,
};
use crate::net_types::{
    decode_single_varint_payload, encode_single_varint_payload, VarInt,
};
use crate::wire::Wire;
use crate::{codec_fatal, WireError};

verus! {

/// The client closed an open container window.
#[derive(Clone, Copy, PartialEq, Eq, Structural, Debug)]
pub struct CloseContainer {
    pub window_id: VarInt,
}

impl CloseContainer {
    pub open spec fn wf(&self) -> bool {
        true
    }

    pub open spec fn payload_bytes(&self) -> Seq<u8> {
        self.window_id.enc()
    }

    pub open spec fn val_eq(&self, o: &Self) -> bool {
        self.window_id.val == o.window_id.val
    }

    pub fn encode(&self) -> (r: Vec<u8>)
        ensures
            r@ == self.payload_bytes(),
    {
        encode_single_varint_payload(self.window_id)
    }

    pub fn decode(payload: &[u8]) -> (r: Result<Self, WireError>)
        ensures
            r matches Ok(v) ==> v.wf() && payload@ == v.payload_bytes(),
            forall|w: Self|
                (w.wf() && payload@ == w.payload_bytes()) ==> (r matches Ok(v) && v.val_eq(&w)),
            r matches Err(e) ==> codec_fatal(e),
    {
        match decode_single_varint_payload(payload) {
            Ok(v) => Ok(CloseContainer { window_id: v }),
            Err(e) => Err(e),
        }
    }
}

/// The client confirmed a teleport the server initiated.
#[derive(Clone, Copy, PartialEq, Eq, Structural, Debug)]
pub struct ConfirmPlayerTeleport {
    pub teleport_id: VarInt,
}

impl ConfirmPlayerTeleport {
    pub open spec fn wf(&self) -> bool {
        true
    }

    pub open spec fn payload_bytes(&self) -> Seq<u8> {
        self.teleport_id.enc()
    }

    pub open spec fn val_eq(&self, o: &Self) -> bool {
        self.teleport_id.val == o.teleport_id.val
    }

    pub fn encode(&self) -> (r: Vec<u8>)
        ensures
            r@ == self.payload_bytes(),
    {
        encode_single_varint_payload(self.teleport_id)
    }

    pub fn decode(payload: &[u8]) -> (r: Result<Self, WireError>)
        ensures
            r matches Ok(v) ==> v.wf() && payload@ == v.payload_bytes(),
            forall|w: Self|
                (w.wf() && payload@ == w.payload_bytes()) ==> (r matches Ok(v) && v.val_eq(&w)),
            r matches Err(e) ==> codec_fatal(e),
    {
        match decode_single_varint_payload(payload) {
            Ok(v) => Ok(ConfirmPlayerTeleport { teleport_id: v }),
            Err(e) => Err(e),
        }
    }
}

/// The client swung an arm; which hand is a protocol integer.
#[derive(Clone, Copy, PartialEq, Eq, Structural, Debug)]
pub struct SwingArmPacket {
    pub hand: VarInt,
}

impl SwingArmPacket {
    pub open spec fn wf(&self) -> bool {
        true
    }

    pub open spec fn payload_bytes(&self) -> Seq<u8> {
        self.hand.enc()
    }

    pub open spec fn val_eq(&self, o: &Self) -> bool {
        self.hand.val == o.hand.val
    }

    pub fn encode(&self) -> (r: Vec<u8>)
        ensures
            r@ == self.payload_bytes(),
    {
        encode_single_varint_payload(self.hand)
    }

    pub fn decode(payload: &[u8]) -> (r: Result<Self, WireError>)
        ensures
            r matches Ok(v) ==> v.wf() && payload@ == v.payload_bytes(),
            forall|w: Self|
                (w.wf() && payload@ == w.payload_bytes()) ==> (r matches Ok(v) && v.val_eq(&w)),
            r matches Err(e) ==> codec_fatal(e),
    {
        match decode_single_varint_payload(payload) {
            Ok(v) => Ok(SwingArmPacket { hand: v }),
            Err(e) => Err(e),
        }
    }
}

/// A command-completion request: a transaction id and the partial input,
/// carried as a length-prefixed byte string.
#[derive(Clone, PartialEq, Eq, Debug)]
pub struct CommandSuggestionRequest {
    pub transaction_id: VarInt,
    pub input: Vec<u8>,
}

impl CommandSuggestionRequest {
    pub open spec fn wf(&self) -> bool {
        self.input@.len() < 0x1_0000_0000
    }

    pub open spec fn payload_bytes(&self) -> Seq<u8> {
        self.transaction_id.enc() + lp_bytes(self.input@)
    }

    pub open spec fn val_eq(&self, o: &Self) -> bool {
        self.transaction_id.val == o.transaction_id.val && self.input@ == o.input@
    }

    pub fn encode(&self) -> (r: Vec<u8>)
        requires
            self.wf(),
        ensures
            r@ == self.payload_bytes(),
    {
        let mut out: Vec<u8> = Vec::new();
        self.transaction_id.write_wire(&mut out);
        write_lp_bytes(&mut out, &self.input);
        out
    }

    pub fn decode(payload: &[u8]) -> (r: Result<Self, WireError>)
        ensures
            r matches Ok(v) ==> v.wf() && payload@ == v.payload_bytes(),
            forall|w: Self|
                (w.wf() && payload@ == w.payload_bytes()) ==> (r matches Ok(v) && v.val_eq(&w)),
            r matches Err(e) ==> codec_fatal(e),
    {
        proof {
            assert forall|w: Self| (w.wf() && payload@ == w.payload_bytes()) implies {
                let l1 = w.transaction_id.enc().len() as int;
                &&& payload@.subrange(0, l1) == w.transaction_id.enc()
                &&& encodes_lp_at(payload@, l1, w.input@)
            } by {
                let l1 = w.transaction_id.enc().len() as int;
                assert(payload@.subrange(0, l1) =~= w.transaction_id.enc());
                assert(payload@.subrange(l1, payload@.len() as int) =~= lp_bytes(w.input@));
            }
        }
        let _payload_len = payload.len();
        let r1 = VarInt::decode_wire(payload, 0);
        let (tid, p1) = match r1 {
            Ok(x) => x,
            Err(e) => { return Err(e); },
        };
        let r2 = decode_lp_bytes(payload, p1, 0xFFFF_FFFF);
        let (input, used2) = match r2 {
            Ok(x) => x,
            Err(e) => { return Err(e); },
        };
        if p1 + used2 != payload.len() {
            return Err(WireError::DecodeFieldError);
        }
        let v = CommandSuggestionRequest { transaction_id: tid, input };
        proof {
            assert(payload@ =~= payload@.subrange(0, p1 as int) + payload@.subrange(
                p1 as int,
                (p1 + used2) as int,
            ));
        }
        Ok(v)
    }
}

/// The client's reply during encryption negotiation: the shared secret and
/// the verify token, each encrypted under the server's public key and sent
/// length-prefixed.
#[derive(Clone, PartialEq, Eq, Debug)]
pub struct EncryptionResponse {
    pub shared_secret: Vec<u8>,
    pub verify_token: Vec<u8>,
}

impl EncryptionResponse {
    pub open spec fn wf(&self) -> bool {
        self.shared_secret@.len() < 0x1_0000_0000 && self.verify_token@.len() < 0x1_0000_0000
    }

    pub open spec fn payload_bytes(&self) -> Seq<u8> {
        lp_bytes(self.shared_secret@) + lp_bytes(self.verify_token@)
    }

    pub open spec fn val_eq(&self, o: &Self) -> bool {
        self.shared_secret@ == o.shared_secret@ && self.verify_token@ == o.verify_token@
    }

    pub fn encode(&self) -> (r: Vec<u8>)
        requires
            self.wf(),
        ensures
            r@ == self.payload_bytes(),
    {
        let mut out: Vec<u8> = Vec::new();
        write_lp_bytes(&mut out, &self.shared_secret);
        write_lp_bytes(&mut out, &self.verify_token);
        out
    }

    pub fn decode(payload: &[u8]) -> (r: Result<Self, WireError>)
        ensures
            r matches Ok(v) ==> v.wf() && payload@ == v.payload_bytes(),
            forall|w: Self|
                (w.wf() && payload@ == w.payload_bytes()) ==> (r matches Ok(v) && v.val_eq(&w)),
            r matches Err(e) ==> codec_fatal(e),
    {
        proof {
            assert forall|w: Self| (w.wf() && payload@ == w.payload_bytes()) implies {
                let l1 = lp_bytes(w.shared_secret@).len() as int;
                &&& encodes_lp_at(payload@, 0, w.shared_secret@)
                &&& encodes_lp_at(payload@, l1, w.verify_token@)
            } by {
                let l1 = lp_bytes(w.shared_secret@).len() as int;
                assert(payload@.subrange(0, l1) =~= lp_bytes(w.shared_secret@));
                assert(payload@.subrange(l1, payload@.len() as int) =~= lp_bytes(w.verify_token@));
            }
        }
        let _payload_len = payload.len();
        let r1 = decode_lp_bytes(payload, 0, 0xFFFF_FFFF);
        let (shared_secret, p1) = match r1 {
            Ok(x) => x,
            Err(e) => { return Err(e); },
        };
        let r2 = decode_lp_bytes(payload, p1, 0xFFFF_FFFF);
        let (verify_token, used2) = match r2 {
            Ok(x) => x,
            Err(e) => { return Err(e); },
        };
        if p1 + used2 != payload.len() {
            return Err(WireError::DecodeFieldError);
        }
        let v = EncryptionResponse { shared_secret, verify_token };
        proof {
            assert(payload@ =~= payload@.subrange(0, p1 as int) + payload@.subrange(
                p1 as int,
                (p1 + used2) as int,
            ));
        }
        Ok(v)
    }
}

/// A digging or item action: what the player did, where, against which
/// block face, and the client's action sequence number.
#[derive(Clone, Copy, PartialEq, Eq, Structural, Debug)]
pub struct PlayerAction {
    pub status: VarInt,
    pub location: NetworkPosition,
    pub face: u8,
    pub sequence: VarInt,
}

impl PlayerAction {
    pub open spec fn wf(&self) -> bool {
        pos_wf(self.location)
    }

    pub open spec fn payload_bytes(&self) -> Seq<u8> {
        self.status.enc() + pos_bytes(self.location) + seq![self.face] + self.sequence.enc()
    }

    pub open spec fn val_eq(&self, o: &Self) -> bool {
        &&& self.status.val == o.status.val
        &&& self.location == o.location
        &&& self.face == o.face
        &&& self.sequence.val == o.sequence.val
    }

    pub fn encode(&self) -> (r: Vec<u8>)
        requires
            self.wf(),
        ensures
            r@ == self.payload_bytes(),
    {
        let mut out: Vec<u8> = Vec::new();
        self.status.write_wire(&mut out);
        write_position(&mut out, self.location);
        out.push(self.face);
        self.sequence.write_wire(&mut out);
        proof {
            assert(out@ =~= self.payload_bytes());
        }
        out
    }

    pub fn decode(payload: &[u8]) -> (r: Result<Self, WireError>)
        ensures
            r matches Ok(v) ==> v.wf() && payload@ == v.payload_bytes(),
            forall|w: Self|
                (w.wf() && payload@ == w.payload_bytes()) ==> (r matches Ok(v) && v.val_eq(&w)),
            r matches Err(e) ==> codec_fatal(e),
    {
        proof {
            assert forall|w: Self| (w.wf() && payload@ == w.payload_bytes()) implies {
                let l1 = w.status.enc().len() as int;
                &&& payload@.subrange(0, l1) == w.status.enc()
                &&& payload@.subrange(l1, l1 + 8) == pos_bytes(w.location)
                &&& payload@[l1 + 8] == w.face
                &&& payload@.subrange(l1 + 9, payload@.len() as int) == w.sequence.enc()
            } by {
                let l1 = w.status.enc().len() as int;
                assert(pos_bytes(w.location).len() == 8);
                assert(payload@.subrange(0, l1) =~= w.status.enc());
                assert(payload@.subrange(l1, l1 + 8) =~= pos_bytes(w.location));
                assert(payload@.subrange(l1 + 8, l1 + 9) =~= seq![w.face]);
                assert(payload@[l1 + 8] == payload@.subrange(l1 + 8, l1 + 9)[0]);
                assert(payload@.subrange(l1 + 9, payload@.len() as int) =~= w.sequence.enc());
            }
        }
        let _payload_len = payload.len();
        let r1 = VarInt::decode_wire(payload, 0);
        let (status, p1) = match r1 {
            Ok(x) => x,
            Err(e) => { return Err(e); },
        };
        let r2 = decode_position(payload, p1);
        let (location, _u2) = match r2 {
            Ok(x) => x,
            Err(e) => { return Err(e); },
        };
        let p2 = p1 + 8;
        if p2 >= payload.len() {
            return Err(WireError::DecodeFieldError);
        }
        let face = payload[p2];
        let p3 = p2 + 1;
        let r4 = VarInt::decode_wire(payload, p3);
        let (sequence, used4) = match r4 {
            Ok(x) => x,
            Err(e) => {
                proof {
                    assert forall|w: Self|
                        !(w.wf() && payload@ == w.payload_bytes()) by {
                        if w.wf() && payload@ == w.payload_bytes() {
                            let l1 = w.status.enc().len() as int;
                            assert(payload@.subrange(
                                p3 as int,
                                p3 + w.sequence.enc().len() as int,
                            ) =~= w.sequence.enc());
                        }
                    }
                }
                return Err(e);
            },
        };
        if p3 + used4 != payload.len() {
            return Err(WireError::DecodeFieldError);
        }
        let v = PlayerAction { status, location, face, sequence };
        proof {
            assert forall|w: Self|
                (w.wf() && payload@ == w.payload_bytes()) implies v.val_eq(&w) by {
                assert(payload@.subrange(p3 as int, p3 + w.sequence.enc().len() as int)
                    =~= w.sequence.enc());
            }
            assert(payload@ =~= v.payload_bytes()) by {
                assert(payload@ =~= payload@.subrange(0, p1 as int) + payload@.subrange(
                    p1 as int,
                    p2 as int,
                ) + seq![payload@[p2 as int]] + payload@.subrange(p3 as int, (p3 + used4) as int));
            }
        }
        Ok(v)
    }
}

} // verus!
