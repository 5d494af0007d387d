//! Field types that packets carry: protocol integers, byte strings and
//! opaque collaborator payloads, each with its wire image.

use vstd::prelude::*;

use crate::codec::{
    decode_lp_bytes, decode_varint, encodes_lp_at, encodes_varint_at, lemma_varint_unambiguous,
    lp_bytes, varint_bytes, write_lp_bytes, write_varint,
};
use crate::wire::Wire;
use crate::WireError;

verus! {

/// A 32-bit protocol integer, sent as a variable-length integer over its
/// unsigned bit image.
#[derive(Clone, Copy, PartialEq, Eq, Structural, Debug)]
pub struct VarInt {
    pub val: i32,
}

impl VarInt {
    pub fn new(val: i32) -> (r: VarInt)
        ensures
            r.val == val,
    {
        VarInt { val }
    }
}

/// Wire bytes of a signed protocol integer field.
pub open spec fn varint_i32_bytes(v: i32) -> Seq<u8> {
    varint_bytes(v as u32)
}

impl Wire for VarInt {
    open spec fn enc(&self) -> Seq<u8> {
        varint_i32_bytes(self.val)
    }

    open spec fn wire_wf(&self) -> bool {
        true
    }

    open spec fn wire_eq(&self, other: &Self) -> bool {
        self.val == other.val
    }

    proof fn lemma_wire_min_len(v: Self) {
        crate::codec::lemma_varint_len_bounds(v.val as u32);
    }

    proof fn lemma_wire_unambiguous(s: Seq<u8>, start: int, a: Self, b: Self) {
        lemma_varint_unambiguous(s, start, a.val as u32, b.val as u32);
        let x = a.val;
        let y = b.val;
        assert(x == y) by (bit_vector)
            requires
                x as u32 == y as u32;
    }

    fn write_wire(&self, out: &mut Vec<u8>) {
        write_varint(out, self.val as u32);
    }

    fn decode_wire(buf: &[u8], start: usize) -> (r: Result<(Self, usize), WireError>) {
        match decode_varint(buf, start) {
            Ok((v, used)) => {
                let out = VarInt { val: v as i32 };
                proof {
                    let x = out.val;
                    assert(x as u32 == v) by (bit_vector)
                        requires
                            x == v as i32;
                    assert forall|w: Self|
                        (w.wire_wf() && start + w.enc().len() <= buf@.len() && buf@.subrange(
                            start as int,
                            start + w.enc().len() as int,
                        ) == w.enc()) implies out.wire_eq(&w) by {
                        assert(encodes_varint_at(buf@, start as int, w.val as u32));
                        let y = w.val;
                        assert(y == v as i32) by (bit_vector)
                            requires
                                y as u32 == v;
                    }
                }
                Ok((out, used))
            },
            Err(e) => {
                proof {
                    assert forall|w: Self|
                        !(w.wire_wf() && start + w.enc().len() <= buf@.len() && buf@.subrange(
                            start as int,
                            start + w.enc().len() as int,
                        ) == w.enc()) by {
                        if w.wire_wf() && start + w.enc().len() <= buf@.len() && buf@.subrange(
                            start as int,
                            start + w.enc().len() as int,
                        ) == w.enc() {
                            assert(encodes_varint_at(buf@, start as int, w.val as u32));
                        }
                    }
                }
                Err(e)
            },
        }
    }
}

/// An opaque, already-serialized collaborator payload carried as one
/// length-prefixed byte field: an inventory slot, a rich-text document.
#[derive(Clone, PartialEq, Eq, Debug)]
pub struct InventorySlot {
    pub data: Vec<u8>,
}

impl Wire for InventorySlot {
    open spec fn enc(&self) -> Seq<u8> {
        lp_bytes(self.data@)
    }

    open spec fn wire_wf(&self) -> bool {
        self.data@.len() < 0x1_0000_0000
    }

    open spec fn wire_eq(&self, other: &Self) -> bool {
        self.data@ == other.data@
    }

    proof fn lemma_wire_min_len(v: Self) {
        crate::codec::lemma_varint_len_bounds(v.data@.len() as u32);
    }

    proof fn lemma_wire_unambiguous(s: Seq<u8>, start: int, a: Self, b: Self) {
        lemma_lp_unambiguous(s, start, a.data@, b.data@);
    }

    fn write_wire(&self, out: &mut Vec<u8>) {
        write_lp_bytes(out, &self.data);
    }

    fn decode_wire(buf: &[u8], start: usize) -> (r: Result<(Self, usize), WireError>) {
        match decode_lp_bytes(buf, start, 0xFFFF_FFFF) {
            Ok((data, used)) => {
                let out = InventorySlot { data };
                proof {
                    assert forall|w: Self|
                        (w.wire_wf() && start + w.enc().len() <= buf@.len() && buf@.subrange(
                            start as int,
                            start + w.enc().len() as int,
                        ) == w.enc()) implies out.wire_eq(&w) by {
                        assert(encodes_lp_at(buf@, start as int, w.data@));
                    }
                }
                Ok((out, used))
            },
            Err(e) => {
                proof {
                    assert forall|w: Self|
                        !(w.wire_wf() && start + w.enc().len() <= buf@.len() && buf@.subrange(
                            start as int,
                            start + w.enc().len() as int,
                        ) == w.enc()) by {
                        if w.wire_wf() && start + w.enc().len() <= buf@.len() && buf@.subrange(
                            start as int,
                            start + w.enc().len() as int,
                        ) == w.enc() {
                            assert(encodes_lp_at(buf@, start as int, w.data@));
                        }
                    }
                }
                Err(e)
            },
        }
    }
}

/// Who a player is to the rest of the simulation: the compact id other
/// packets name the player by, and the visible name.
#[derive(Clone, PartialEq, Eq, Debug)]
pub struct PlayerIdentity {
    pub short_uuid: i32,
    pub username: Vec<u8>,
}

/// Decode a payload that consists of exactly one protocol integer, as the
/// single-field packets do.
pub fn decode_single_varint_payload(payload: &[u8]) -> (r: Result<VarInt, WireError>)
    ensures
        r matches Ok(v) ==> payload@ == v.enc(),
        forall|w: VarInt| payload@ == w.enc() ==> (r matches Ok(v) && v.val == w.val),
        r matches Err(e) ==> crate::codec_fatal(e),
{
    proof {
        assert forall|w: VarInt| payload@ == w.enc() implies payload@.subrange(
            0,
            w.enc().len() as int,
        ) == w.enc() by {
            assert(payload@.subrange(0, w.enc().len() as int) =~= w.enc());
        }
    }
    match VarInt::decode_wire(payload, 0) {
        Ok((v, used)) => {
            if used == payload.len() {
                proof {
                    assert(payload@.subrange(0, used as int) =~= payload@);
                }
                Ok(v)
            } else {
                Err(WireError::DecodeFieldError)
            }
        },
        Err(e) => Err(e),
    }
}

/// Encode a payload of exactly one protocol integer.
pub fn encode_single_varint_payload(v: VarInt) -> (r: Vec<u8>)
    ensures
        r@ == v.enc(),
{
    let mut out: Vec<u8> = Vec::new();
    v.write_wire(&mut out);
    out
}

/// Two length-prefixed byte fields at one position hold the same contents.
pub proof fn lemma_lp_unambiguous(s: Seq<u8>, start: int, d1: Seq<u8>, d2: Seq<u8>)
    requires
        encodes_lp_at(s, start, d1),
        encodes_lp_at(s, start, d2),
    ensures
        d1 == d2,
{
    crate::codec::lemma_lp_parts(s, start, d1);
    crate::codec::lemma_lp_parts(s, start, d2);
    lemma_varint_unambiguous(s, start, d1.len() as u32, d2.len() as u32);
}

} // verus!
