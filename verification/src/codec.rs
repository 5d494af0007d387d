//! Binary primitives of the wire format: variable-length integers,
//! length-prefixed byte sequences, optional fields and packed coordinates.
//!
//! Every decoder is total over its input slice: it never reads past the
//! given bound and returns either a value with the bytes it consumed, or a
//! typed error. Decoders accept exactly the canonical encodings that the
//! encoders produce, which is what makes the round-trip laws hold.

use vstd::prelude::*;

use crate::WireError;

verus! {

/// The canonical wire bytes of a variable-length integer: seven data bits
/// per byte, least-significant group first, high bit set on every byte but
/// the last. Minimal length, so at most five bytes for a 32-bit value.
pub open spec fn varint_bytes(n: u32) -> Seq<u8>
    decreases n,
{
    if n < 0x80 {
        seq![n as u8]
    } else {
        seq![(n % 0x80 + 0x80) as u8] + varint_bytes(n / 0x80)
    }
}

/// Length in bytes of the canonical encoding of `n`.
pub open spec fn varint_len(n: u32) -> int {
    varint_bytes(n).len() as int
}

/// The canonical encoding of `v` occupies `s[start ..]`'s first bytes.
pub open spec fn encodes_varint_at(s: Seq<u8>, start: int, v: u32) -> bool {
    &&& 0 <= start
    &&& start + varint_len(v) <= s.len()
    &&& s.subrange(start, start + varint_len(v)) == varint_bytes(v)
}

pub proof fn lemma_varint_len_bounds(n: u32)
    ensures
        1 <= varint_len(n) <= 5,
        n < 0x80 ==> varint_len(n) == 1,
        0x80 <= n < 0x4000 ==> varint_len(n) == 2,
        0x4000 <= n < 0x20_0000 ==> varint_len(n) == 3,
        0x20_0000 <= n < 0x1000_0000 ==> varint_len(n) == 4,
        0x1000_0000 <= n ==> varint_len(n) == 5,
    decreases n,
{
    if n >= 0x80 {
        assert(n / 0x80 < n) by (nonlinear_arith)
            requires n >= 0x80;
        lemma_varint_len_bounds(n / 0x80);
        assert(varint_len(n) == 1 + varint_len(n / 0x80));
        assert((n / 0x80 < 0x80) == (n < 0x4000)) by (nonlinear_arith);
        assert((n / 0x80 < 0x4000) == (n < 0x20_0000)) by (nonlinear_arith);
        assert((n / 0x80 < 0x20_0000) == (n < 0x1000_0000)) by (nonlinear_arith);
        assert(n / 0x80 < 0x1000_0000) by (nonlinear_arith)
            requires n < 0x1_0000_0000;
    }
}

/// At one position only one value can be canonically encoded: the wire
/// bytes determine the value. Together with the decoder's contract this
/// yields `decode(encode(n)) == n`.
pub proof fn lemma_varint_unambiguous(s: Seq<u8>, start: int, v1: u32, v2: u32)
    requires
        encodes_varint_at(s, start, v1),
        encodes_varint_at(s, start, v2),
    ensures
        v1 == v2,
    decreases v1,
{
    lemma_first_byte(s, start, v1);
    lemma_first_byte(s, start, v2);
    if v1 < 0x80 && v2 < 0x80 {
        assert(varint_bytes(v1)[0] == v1 as u8 && varint_bytes(v2)[0] == v2 as u8);
    } else if v1 >= 0x80 && v2 >= 0x80 {
        lemma_rest_encoded(s, start, v1);
        lemma_rest_encoded(s, start, v2);
        assert(v1 % 0x80 == v2 % 0x80);
        assert(v1 / 0x80 < v1) by (nonlinear_arith)
            requires v1 >= 0x80;
        lemma_varint_unambiguous(s, start + 1, v1 / 0x80, v2 / 0x80);
        assert(v1 == 0x80 * (v1 / 0x80) + v1 % 0x80) by (nonlinear_arith);
        assert(v2 == 0x80 * (v2 / 0x80) + v2 % 0x80) by (nonlinear_arith);
    } else if v1 < 0x80 && v2 >= 0x80 {
        assert(varint_bytes(v1)[0] == v1 as u8);
        assert(varint_bytes(v2)[0] == (v2 % 0x80 + 0x80) as u8);
        assert((v1 as u8) < 0x80 && ((v2 % 0x80 + 0x80) as u8) >= 0x80);
    } else {
        assert(varint_bytes(v2)[0] == v2 as u8);
        assert(varint_bytes(v1)[0] == (v1 % 0x80 + 0x80) as u8);
        assert((v2 as u8) < 0x80 && ((v1 % 0x80 + 0x80) as u8) >= 0x80);
    }
}

/// Append the canonical encoding of `n` to `out`.
pub fn write_varint(out: &mut Vec<u8>, n: u32)
    ensures
        final(out)@ == old(out)@ + varint_bytes(n),
    decreases n,
{
    if n < 0x80 {
        out.push(n as u8);
    } else {
        out.push((n % 0x80 + 0x80) as u8);
        proof {
            assert(n / 0x80 < n) by (nonlinear_arith)
                requires n >= 0x80;
        }
        write_varint(out, n / 0x80);
        proof {
            assert(final(out)@ =~= old(out)@ + varint_bytes(n));
        }
    }
}

/// The canonical encoding of `n`, on its own.
pub fn encode_varint(n: u32) -> (r: Vec<u8>)
    ensures
        r@ == varint_bytes(n),
{
    let mut out: Vec<u8> = Vec::new();
    write_varint(&mut out, n);
    out
}

/// Decode one variable-length integer starting at `start`.
///
/// The contract is complete: whenever some value is canonically encoded at
/// `start` the decoder returns exactly that value, and it errs exactly when
/// none is — an unterminated or over-long run, or a non-minimal encoding.
pub fn decode_varint(buf: &[u8], start: usize) -> (r: Result<(u32, usize), WireError>)
    requires
        start <= buf@.len(),
    ensures
        match r {
            Ok(p) => {
                &&& encodes_varint_at(buf@, start as int, p.0)
                &&& p.1 == varint_len(p.0)
                &&& start + p.1 <= buf@.len()
            },
            Err(e) => e == WireError::MalformedVarInt,
        },
        forall|w: u32|
            encodes_varint_at(buf@, start as int, w) ==> (r matches Ok(p) && p.0 == w && p.1
                == varint_len(w)),
    decreases buf@.len() - start,
{
    if start >= buf.len() {
        proof {
            assert forall|w: u32| !encodes_varint_at(buf@, start as int, w) by {
                lemma_varint_len_bounds(w);
            }
        }
        return Err(WireError::MalformedVarInt);
    }
    let b = buf[start];
    if b < 0x80 {
        let v = b as u32;
        proof {
            assert(buf@.subrange(start as int, start + 1) =~= varint_bytes(v));
            assert forall|w: u32|
                encodes_varint_at(buf@, start as int, w) implies w == v && varint_len(w)
                == 1 by {
                lemma_varint_unambiguous(buf@, start as int, w, v);
            }
        }
        Ok((v, 1))
    } else {
        let rest = decode_varint(buf, start + 1);
        match rest {
            Ok((rv, rl)) => {
                if rv == 0 {
                    proof {
                        assert forall|w: u32|
                            !encodes_varint_at(buf@, start as int, w) by {
                            if encodes_varint_at(buf@, start as int, w) {
                                lemma_varint_len_bounds(w);
                                lemma_first_byte(buf@, start as int, w);
                                if w >= 0x80 {
                                    lemma_rest_encoded(buf@, start as int, w);
                                    lemma_varint_unambiguous(buf@, start + 1, w / 0x80, 0);
                                }
                            }
                        }
                    }
                    Err(WireError::MalformedVarInt)
                } else if rv <= 0x01FF_FFFF {
                    let v = (b - 0x80) as u32 + rv * 0x80;
                    proof {
                        assert(v % 0x80 == (b - 0x80) as u32 && v / 0x80 == rv)
                            by (nonlinear_arith)
                            requires
                                v == (b - 0x80) as u32 + rv * 0x80,
                                b >= 0x80,
                                rv >= 1,
                                rv <= 0x01FF_FFFF;
                        assert(v >= 0x80) by (nonlinear_arith)
                            requires
                                v == (b - 0x80) as u32 + rv * 0x80,
                                b >= 0x80,
                                rv >= 1;
                        assert(varint_bytes(v) =~= seq![b] + varint_bytes(rv));
                        assert(buf@.subrange(start as int, start + 1 + varint_len(rv))
                            =~= seq![b] + buf@.subrange(start + 1, start + 1 + varint_len(rv)));
                        assert(encodes_varint_at(buf@, start as int, v));
                        assert forall|w: u32|
                            encodes_varint_at(buf@, start as int, w) implies w == v
                            && varint_len(w) == varint_len(v) by {
                            lemma_varint_unambiguous(buf@, start as int, w, v);
                        }
                    }
                    Ok((v, 1 + rl))
                } else {
                    proof {
                        assert forall|w: u32|
                            !encodes_varint_at(buf@, start as int, w) by {
                            if encodes_varint_at(buf@, start as int, w) {
                                lemma_first_byte(buf@, start as int, w);
                                if w >= 0x80 {
                                    lemma_rest_encoded(buf@, start as int, w);
                                    lemma_varint_unambiguous(buf@, start + 1, w / 0x80, rv);
                                    assert(w / 0x80 <= 0x01FF_FFFF) by (nonlinear_arith)
                                        requires w < 0x100000000;
                                }
                            }
                        }
                    }
                    Err(WireError::MalformedVarInt)
                }
            },
            Err(e) => {
                proof {
                    assert forall|w: u32| !encodes_varint_at(buf@, start as int, w) by {
                        if encodes_varint_at(buf@, start as int, w) {
                            lemma_first_byte(buf@, start as int, w);
                            if w >= 0x80 {
                                lemma_rest_encoded(buf@, start as int, w);
                            }
                        }
                    }
                }
                Err(e)
            },
        }
    }
}

/// The first wire byte of a value encoded at `start`.
proof fn lemma_first_byte(s: Seq<u8>, start: int, w: u32)
    requires
        encodes_varint_at(s, start, w),
    ensures
        s[start] == varint_bytes(w)[0],
{
    assert(s.subrange(start, start + varint_len(w))[0] == s[start]);
}

/// For a multi-byte value encoded at `start`, the remaining groups encode
/// `w / 0x80` at `start + 1`.
proof fn lemma_rest_encoded(s: Seq<u8>, start: int, w: u32)
    requires
        encodes_varint_at(s, start, w),
        w >= 0x80,
    ensures
        encodes_varint_at(s, start + 1, w / 0x80),
        s[start] == (w % 0x80 + 0x80) as u8,
{
    let b = varint_bytes(w);
    lemma_first_byte(s, start, w);
    assert(varint_bytes(w / 0x80) =~= b.subrange(1, b.len() as int));
    assert(s.subrange(start + 1, start + varint_len(w)) =~= b.subrange(1, b.len() as int));
}

/// Wire bytes of a length-prefixed byte sequence: a varint count, then the
/// raw bytes.
pub open spec fn lp_bytes(data: Seq<u8>) -> Seq<u8> {
    varint_bytes(data.len() as u32) + data
}

/// A length-prefixed byte sequence with contents `data` occupies
/// `s[start ..]`'s first bytes.
pub open spec fn encodes_lp_at(s: Seq<u8>, start: int, data: Seq<u8>) -> bool {
    &&& 0 <= start
    &&& data.len() < 0x1_0000_0000
    &&& start + lp_bytes(data).len() <= s.len()
    &&& s.subrange(start, start + lp_bytes(data).len() as int) == lp_bytes(data)
}

/// Append a length-prefixed byte sequence to `out`.
pub fn write_lp_bytes(out: &mut Vec<u8>, data: &Vec<u8>)
    requires
        data@.len() < 0x1_0000_0000,
    ensures
        final(out)@ == old(out)@ + lp_bytes(data@),
{
    write_varint(out, data.len() as u32);
    let mut i: usize = 0;
    while i < data.len()
        invariant
            i <= data@.len(),
            data@.len() < 0x1_0000_0000,
            out@ == old(out)@ + varint_bytes(data@.len() as u32) + data@.subrange(0, i as int),
        decreases data@.len() - i,
    {
        out.push(data[i]);
        proof {
            assert(data@.subrange(0, i + 1) =~= data@.subrange(0, i as int) + seq![data@[i as int]]);
            assert(old(out)@ + varint_bytes(data@.len() as u32) + data@.subrange(0, i as int)
                + seq![data@[i as int]] =~= old(out)@ + varint_bytes(data@.len() as u32)
                + data@.subrange(0, i + 1));
        }
        i = i + 1;
    }
    proof {
        assert(data@.subrange(0, data@.len() as int) =~= data@);
        assert(old(out)@ + varint_bytes(data@.len() as u32) + data@ =~= old(out)@ + lp_bytes(data@));
    }
}

/// Decode a length-prefixed byte sequence at `start`. A declared count
/// above `max`, or above what remains of the buffer, fails without any
/// element being read; the complete clause returns exactly the encoded
/// contents whenever there are some.
pub fn decode_lp_bytes(buf: &[u8], start: usize, max: u32) -> (r: Result<(Vec<u8>, usize), WireError>)
    requires
        start <= buf@.len(),
    ensures
        match r {
            Ok(p) => {
                &&& p.0@.len() <= max
                &&& start + p.1 <= buf@.len()
                &&& p.1 == lp_bytes(p.0@).len()
                &&& buf@.subrange(start as int, start + p.1) == lp_bytes(p.0@)
            },
            Err(e) => e == WireError::MalformedVarInt || e == WireError::MalformedFrame,
        },
        forall|data: Seq<u8>|
            data.len() <= max && encodes_lp_at(buf@, start as int, data) ==> (r matches Ok(p)
                && p.0@ == data),
{
    proof {
        assert forall|data: Seq<u8>|
            data.len() <= max && encodes_lp_at(buf@, start as int, data) implies encodes_varint_at(
            buf@,
            start as int,
            data.len() as u32,
        ) by {
            lemma_lp_parts(buf@, start as int, data);
        }
    }
    let (n, used) = match decode_varint(buf, start) {
        Ok(p) => p,
        Err(e) => { return Err(e); },
    };
    if n > max {
        return Err(WireError::MalformedFrame);
    }
    let remaining = buf.len() - (start + used);
    if (n as usize) > remaining {
        proof {
            assert forall|data: Seq<u8>|
                !(data.len() <= max && encodes_lp_at(buf@, start as int, data)) by {
                if data.len() <= max && encodes_lp_at(buf@, start as int, data) {
                    lemma_lp_parts(buf@, start as int, data);
                    lemma_varint_unambiguous(buf@, start as int, data.len() as u32, n);
                }
            }
        }
        return Err(WireError::MalformedFrame);
    }
    let data_start = start + used;
    let count = n as usize;
    let mut out: Vec<u8> = Vec::new();
    let mut i: usize = 0;
    while i < count
        invariant
            i <= count,
            data_start + count <= buf@.len(),
            buf@.len() <= usize::MAX,
            out@ == buf@.subrange(data_start as int, data_start + i),
        decreases count - i,
    {
        out.push(buf[data_start + i]);
        proof {
            assert(buf@.subrange(data_start as int, data_start + i + 1) =~= buf@.subrange(
                data_start as int,
                data_start + i,
            ) + seq![buf@[data_start + i]]);
        }
        i = i + 1;
    }
    proof {
        assert(buf@.subrange(start as int, start + used + count) =~= buf@.subrange(
            start as int,
            start + used,
        ) + buf@.subrange(data_start as int, data_start + count));
        assert(buf@.subrange(start as int, start + used + count) =~= lp_bytes(out@));
        assert forall|data: Seq<u8>|
            data.len() <= max && encodes_lp_at(buf@, start as int, data) implies out@ == data by {
            lemma_lp_parts(buf@, start as int, data);
            lemma_varint_unambiguous(buf@, start as int, data.len() as u32, n);
            assert(data =~= buf@.subrange(data_start as int, data_start + count));
        }
    }
    Ok((out, used + count))
}

/// Splits a length-prefixed encoding into its count and contents.
pub proof fn lemma_lp_parts(s: Seq<u8>, start: int, data: Seq<u8>)
    requires
        encodes_lp_at(s, start, data),
    ensures
        encodes_varint_at(s, start, data.len() as u32),
        data == s.subrange(
            start + varint_len(data.len() as u32),
            start + varint_len(data.len() as u32) + data.len(),
        ),
{
    let c = data.len() as u32;
    let lb = lp_bytes(data);
    assert(s.subrange(start, start + varint_len(c)) =~= lb.subrange(0, varint_len(c)));
    assert(lb.subrange(0, varint_len(c)) =~= varint_bytes(c));
    assert(s.subrange(start + varint_len(c), start + varint_len(c) + data.len()) =~= lb.subrange(
        varint_len(c),
        lb.len() as int,
    ));
    assert(lb.subrange(varint_len(c), lb.len() as int) =~= data);
}

/// Wire bytes of a boolean presence or flag field.
pub open spec fn bool_bytes(b: bool) -> Seq<u8> {
    if b {
        seq![1u8]
    } else {
        seq![0u8]
    }
}

/// Append a boolean flag byte.
pub fn write_bool(out: &mut Vec<u8>, b: bool)
    ensures
        final(out)@ == old(out)@ + bool_bytes(b),
{
    if b {
        out.push(1);
    } else {
        out.push(0);
    }
}

/// Decode a boolean flag byte; any value other than zero or one is a
/// structurally invalid field.
pub fn decode_bool(buf: &[u8], start: usize) -> (r: Result<(bool, usize), WireError>)
    requires
        start <= buf@.len(),
    ensures
        match r {
            Ok(p) => {
                &&& p.1 == 1
                &&& start + 1 <= buf@.len()
                &&& buf@.subrange(start as int, start + 1) == bool_bytes(p.0)
            },
            Err(e) => e == WireError::DecodeFieldError,
        },
        forall|w: bool|
            (start + 1 <= buf@.len() && buf@.subrange(start as int, start + 1) == bool_bytes(w))
                ==> (r matches Ok(p) && p.0 == w),
{
    if start >= buf.len() {
        return Err(WireError::DecodeFieldError);
    }
    let b = buf[start];
    proof {
        assert(buf@.subrange(start as int, start + 1) =~= seq![buf@[start as int]]);
    }
    if b == 0 {
        proof {
            assert forall|w: bool|
                (start + 1 <= buf@.len() && buf@.subrange(start as int, start + 1) == bool_bytes(
                    w,
                )) implies w == false by {
                assert(bool_bytes(w)[0] == buf@[start as int]);
            }
        }
        Ok((false, 1))
    } else if b == 1 {
        proof {
            assert forall|w: bool|
                (start + 1 <= buf@.len() && buf@.subrange(start as int, start + 1) == bool_bytes(
                    w,
                )) implies w == true by {
                assert(bool_bytes(w)[0] == buf@[start as int]);
            }
        }
        Ok((true, 1))
    } else {
        proof {
            assert forall|w: bool|
                !(start + 1 <= buf@.len() && buf@.subrange(start as int, start + 1) == bool_bytes(
                    w,
                )) by {
                if start + 1 <= buf@.len() && buf@.subrange(start as int, start + 1) == bool_bytes(
                    w,
                ) {
                    assert(bool_bytes(w)[0] == buf@[start as int]);
                }
            }
        }
        Err(WireError::DecodeFieldError)
    }
}

/// A block position as three signed coordinates. On the wire the three are
/// bit-packed into one 64-bit big-endian integer: 26 bits for `x`, 26 for
/// `z` and 12 for `y`, each two's complement.
#[derive(Clone, Copy, PartialEq, Eq, Structural, Debug)]
pub struct NetworkPosition {
    pub x: i32,
    pub y: i32,
    pub z: i32,
}

/// The coordinate ranges that fit the packed widths.
pub open spec fn pos_wf(p: NetworkPosition) -> bool {
    &&& -0x200_0000 <= p.x < 0x200_0000
    &&& -0x800 <= p.y < 0x800
    &&& -0x200_0000 <= p.z < 0x200_0000
}

/// Two's-complement image of a 26-bit coordinate.
pub open spec fn u26(v: i32) -> u64 {
    if v >= 0 {
        v as u64
    } else {
        (v + 0x400_0000) as u64
    }
}

/// Two's-complement image of a 12-bit coordinate.
pub open spec fn u12(v: i32) -> u64 {
    if v >= 0 {
        v as u64
    } else {
        (v + 0x1000) as u64
    }
}

/// The packed 64-bit value: x in the top 26 bits, z in the middle 26,
/// y in the low 12.
pub open spec fn pos_packed(p: NetworkPosition) -> u64 {
    (u26(p.x) * 0x40_0000_0000 + u26(p.z) * 0x1000 + u12(p.y)) as u64
}

/// Big-endian bytes of a 64-bit integer.
pub open spec fn u64_be_bytes(v: u64) -> Seq<u8> {
    seq![
        (v >> 56) as u8,
        (v >> 48) as u8,
        (v >> 40) as u8,
        (v >> 32) as u8,
        (v >> 24) as u8,
        (v >> 16) as u8,
        (v >> 8) as u8,
        v as u8,
    ]
}

/// Wire bytes of a packed position.
pub open spec fn pos_bytes(p: NetworkPosition) -> Seq<u8> {
    u64_be_bytes(pos_packed(p))
}

/// Append a packed position.
pub fn write_position(out: &mut Vec<u8>, p: NetworkPosition)
    requires
        pos_wf(p),
    ensures
        final(out)@ == old(out)@ + pos_bytes(p),
{
    let ux: u64 = if p.x >= 0 {
        p.x as u64
    } else {
        (p.x + 0x400_0000) as u64
    };
    let uz: u64 = if p.z >= 0 {
        p.z as u64
    } else {
        (p.z + 0x400_0000) as u64
    };
    let uy: u64 = if p.y >= 0 {
        p.y as u64
    } else {
        (p.y + 0x1000) as u64
    };
    let v: u64 = ux * 0x40_0000_0000 + uz * 0x1000 + uy;
    out.push((v >> 56) as u8);
    out.push((v >> 48) as u8);
    out.push((v >> 40) as u8);
    out.push((v >> 32) as u8);
    out.push((v >> 24) as u8);
    out.push((v >> 16) as u8);
    out.push((v >> 8) as u8);
    out.push(v as u8);
    proof {
        assert(final(out)@ =~= old(out)@ + pos_bytes(p));
    }
}

/// Reassemble a 64-bit integer from its big-endian bytes; the bytes of `v`
/// give back exactly `v`.
proof fn lemma_u64_be_round_trip(v: u64)
    ensures
        ((((v >> 56) as u8) as u64) << 56) | ((((v >> 48) as u8) as u64) << 48) | ((((v
            >> 40) as u8) as u64) << 40) | ((((v >> 32) as u8) as u64) << 32) | ((((v
            >> 24) as u8) as u64) << 24) | ((((v >> 16) as u8) as u64) << 16) | ((((v
            >> 8) as u8) as u64) << 8) | ((v as u8) as u64) == v,
{
    assert(((((v >> 56) as u8) as u64) << 56) | ((((v >> 48) as u8) as u64) << 48) | ((((v
        >> 40) as u8) as u64) << 40) | ((((v >> 32) as u8) as u64) << 32) | ((((v
        >> 24) as u8) as u64) << 24) | ((((v >> 16) as u8) as u64) << 16) | ((((v
        >> 8) as u8) as u64) << 8) | ((v as u8) as u64) == v) by (bit_vector);
}

/// Unpacking inverts packing on well-formed positions.
proof fn lemma_pos_unpack(p: NetworkPosition)
    requires
        pos_wf(p),
    ensures
        pos_packed(p) % 0x1000 == u12(p.y),
        (pos_packed(p) / 0x1000) % 0x400_0000 == u26(p.z),
        pos_packed(p) / 0x40_0000_0000 == u26(p.x),
{
    let ux = u26(p.x);
    let uz = u26(p.z);
    let uy = u12(p.y);
    let v = pos_packed(p);
    assert(v == ux * 0x40_0000_0000 + uz * 0x1000 + uy);
    assert(v % 0x1000 == uy) by (nonlinear_arith)
        requires
            v == ux * 0x40_0000_0000 + uz * 0x1000 + uy,
            uy < 0x1000,
            ux >= 0,
            uz >= 0;
    assert(v / 0x1000 == ux * 0x400_0000 + uz) by (nonlinear_arith)
        requires
            v == ux * 0x40_0000_0000 + uz * 0x1000 + uy,
            uy < 0x1000,
            ux >= 0,
            uz >= 0;
    assert((ux * 0x400_0000 + uz) % 0x400_0000 == uz) by (nonlinear_arith)
        requires
            uz < 0x400_0000,
            ux >= 0;
    assert(v / 0x40_0000_0000 == ux) by (nonlinear_arith)
        requires
            v == ux * 0x40_0000_0000 + uz * 0x1000 + uy,
            uy < 0x1000,
            uz < 0x400_0000,
            ux >= 0;
}

/// Decode a packed position: eight big-endian bytes, or an error when
/// fewer remain. The complete clause gives back exactly the encoded
/// coordinates.
pub fn decode_position(buf: &[u8], start: usize) -> (r: Result<(NetworkPosition, usize), WireError>)
    requires
        start <= buf@.len(),
    ensures
        match r {
            Ok(p) => {
                &&& pos_wf(p.0)
                &&& p.1 == 8
                &&& start + 8 <= buf@.len()
                &&& buf@.subrange(start as int, start + 8) == pos_bytes(p.0)
            },
            Err(e) => e == WireError::DecodeFieldError,
        },
        forall|w: NetworkPosition|
            (pos_wf(w) && start + 8 <= buf@.len() && buf@.subrange(start as int, start + 8)
                == pos_bytes(w)) ==> (r matches Ok(p) && p.0 == w),
{
    if buf.len() - start < 8 {
        return Err(WireError::DecodeFieldError);
    }
    let v: u64 = ((buf[start] as u64) << 56) | ((buf[start + 1] as u64) << 48) | ((buf[start
        + 2] as u64) << 40) | ((buf[start + 3] as u64) << 32) | ((buf[start + 4] as u64) << 24) | ((
    buf[start + 5] as u64) << 16) | ((buf[start + 6] as u64) << 8) | (buf[start + 7] as u64);
    let uy: u64 = v % 0x1000;
    let uz: u64 = (v / 0x1000) % 0x400_0000;
    let ux: u64 = v / 0x40_0000_0000;
    proof {
        assert(ux < 0x400_0000) by (nonlinear_arith)
            requires
                ux == v / 0x40_0000_0000;
    }
    let x: i32 = if ux >= 0x200_0000 {
        (ux as i64 - 0x400_0000) as i32
    } else {
        ux as i32
    };
    let z: i32 = if uz >= 0x200_0000 {
        (uz as i64 - 0x400_0000) as i32
    } else {
        uz as i32
    };
    let y: i32 = if uy >= 0x800 {
        (uy as i64 - 0x1000) as i32
    } else {
        uy as i32
    };
    let p = NetworkPosition { x, y, z };
    proof {
        let b0 = buf@[start as int];
        let b1 = buf@[start + 1];
        let b2 = buf@[start + 2];
        let b3 = buf@[start + 3];
        let b4 = buf@[start + 4];
        let b5 = buf@[start + 5];
        let b6 = buf@[start + 6];
        let b7 = buf@[start + 7];
        assert(v == ((b0 as u64) << 56) | ((b1 as u64) << 48) | ((b2 as u64) << 40) | ((b3
            as u64) << 32) | ((b4 as u64) << 24) | ((b5 as u64) << 16) | ((b6 as u64) << 8) | (b7
            as u64));
        assert(u26(p.x) == ux && u26(p.z) == uz && u12(p.y) == uy);
        assert(v == u26(p.x) * 0x40_0000_0000 + u26(p.z) * 0x1000 + u12(p.y)) by (nonlinear_arith)
            requires
                u26(p.x) == v / 0x40_0000_0000,
                u26(p.z) == (v / 0x1000) % 0x400_0000,
                u12(p.y) == v % 0x1000;
        assert(pos_packed(p) == v);
        assert((v >> 56) as u8 == b0 && (v >> 48) as u8 == b1 && (v >> 40) as u8 == b2 && (v
            >> 32) as u8 == b3 && (v >> 24) as u8 == b4 && (v >> 16) as u8 == b5 && (v >> 8) as u8
            == b6 && v as u8 == b7) by (bit_vector)
            requires
                v == ((b0 as u64) << 56) | ((b1 as u64) << 48) | ((b2 as u64) << 40) | ((b3
                    as u64) << 32) | ((b4 as u64) << 24) | ((b5 as u64) << 16) | ((b6 as u64)
                    << 8) | (b7 as u64);
        assert(buf@.subrange(start as int, start + 8) =~= pos_bytes(p));
        assert forall|w: NetworkPosition|
            (pos_wf(w) && start + 8 <= buf@.len() && buf@.subrange(start as int, start + 8)
                == pos_bytes(w)) implies pos_packed(w) == v && w == p by {
            let pw = pos_packed(w);
            assert(u64_be_bytes(pw)[0] == b0);
            assert(u64_be_bytes(pw)[1] == b1);
            assert(u64_be_bytes(pw)[2] == b2);
            assert(u64_be_bytes(pw)[3] == b3);
            assert(u64_be_bytes(pw)[4] == b4);
            assert(u64_be_bytes(pw)[5] == b5);
            assert(u64_be_bytes(pw)[6] == b6);
            assert(u64_be_bytes(pw)[7] == b7);
            assert(pw == v) by (bit_vector)
                requires
                    v == ((b0 as u64) << 56) | ((b1 as u64) << 48) | ((b2 as u64) << 40) | ((b3
                        as u64) << 32) | ((b4 as u64) << 24) | ((b5 as u64) << 16) | ((b6 as u64)
                        << 8) | (b7 as u64),
                    (pw >> 56) as u8 == b0,
                    (pw >> 48) as u8 == b1,
                    (pw >> 40) as u8 == b2,
                    (pw >> 32) as u8 == b3,
                    (pw >> 24) as u8 == b4,
                    (pw >> 16) as u8 == b5,
                    (pw >> 8) as u8 == b6,
                    pw as u8 == b7;
            lemma_pos_unpack(w);
            assert(u26(w.x) == ux && u26(w.z) == uz && u12(w.y) == uy);
        }
    }
    Ok((p, 8))
}

/// The contents of an optional field as a mathematical value.
pub open spec fn opt_view(t: Option<Vec<u8>>) -> Option<Seq<u8>> {
    match t {
        Option::None => Option::None,
        Option::Some(d) => Option::Some(d@),
    }
}

/// Wire bytes of a prefixed-optional field: a presence flag, then the
/// length-prefixed payload when present.
pub open spec fn opt_bytes(t: Option<Seq<u8>>) -> Seq<u8> {
    match t {
        Option::None => seq![0u8],
        Option::Some(d) => seq![1u8] + lp_bytes(d),
    }
}

/// A prefixed-optional field with contents `t` occupies `s[start ..]`'s
/// first bytes.
pub open spec fn encodes_opt_at(s: Seq<u8>, start: int, t: Option<Seq<u8>>) -> bool {
    &&& 0 <= start
    &&& (t matches Some(d) ==> d.len() < 0x1_0000_0000)
    &&& start + opt_bytes(t).len() <= s.len()
    &&& s.subrange(start, start + opt_bytes(t).len() as int) == opt_bytes(t)
}

/// Two prefixed-optional fields at one position hold the same contents.
pub proof fn lemma_opt_unambiguous(s: Seq<u8>, start: int, t1: Option<Seq<u8>>, t2: Option<Seq<u8>>)
    requires
        encodes_opt_at(s, start, t1),
        encodes_opt_at(s, start, t2),
    ensures
        t1 == t2,
{
    assert(s.subrange(start, start + 1) =~= opt_bytes(t1).subrange(0, 1));
    assert(s.subrange(start, start + 1) =~= opt_bytes(t2).subrange(0, 1));
    assert(opt_bytes(t1)[0] == opt_bytes(t2)[0]);
    if t1 is Some && t2 is Some {
        lemma_opt_some_parts(s, start, t1->0);
        lemma_opt_some_parts(s, start, t2->0);
        lemma_lp_parts(s, start + 1, t1->0);
        lemma_lp_parts(s, start + 1, t2->0);
        lemma_varint_unambiguous(s, start + 1, t1->0.len() as u32, t2->0.len() as u32);
    }
}

/// A present optional's payload is a length-prefixed field right after
/// the flag byte.
pub proof fn lemma_opt_some_parts(s: Seq<u8>, start: int, d: Seq<u8>)
    requires
        encodes_opt_at(s, start, Some(d)),
    ensures
        encodes_lp_at(s, start + 1, d),
{
    let ob = opt_bytes(Some(d));
    assert(s.subrange(start + 1, start + ob.len() as int) =~= ob.subrange(1, ob.len() as int));
    assert(ob.subrange(1, ob.len() as int) =~= lp_bytes(d));
}

/// Append a prefixed-optional field.
pub fn write_opt_bytes(out: &mut Vec<u8>, t: &Option<Vec<u8>>)
    requires
        (*t matches Some(d) ==> d@.len() < 0x1_0000_0000),
    ensures
        final(out)@ == old(out)@ + opt_bytes(opt_view(*t)),
{
    match t {
        Option::None => {
            out.push(0);
            proof {
                assert(final(out)@ =~= old(out)@ + opt_bytes(opt_view(*t)));
            }
        },
        Option::Some(d) => {
            out.push(1);
            write_lp_bytes(out, d);
            proof {
                assert(final(out)@ =~= old(out)@ + opt_bytes(opt_view(*t)));
            }
        },
    }
}

/// Decode a prefixed-optional field at `start`: the flag byte gates
/// whether a length-prefixed payload follows. Complete: whatever optional
/// is encoded there comes back exactly.
pub fn decode_opt_bytes(buf: &[u8], start: usize, max: u32) -> (r: Result<
    (Option<Vec<u8>>, usize),
    WireError,
>)
    requires
        start <= buf@.len(),
    ensures
        match r {
            Ok(p) => {
                &&& start + p.1 <= buf@.len()
                &&& p.1 == opt_bytes(opt_view(p.0)).len()
                &&& buf@.subrange(start as int, start + p.1) == opt_bytes(opt_view(p.0))
                &&& (p.0 matches Some(d) ==> d@.len() <= max)
            },
            Err(e) => e != WireError::UnknownPacket && e != WireError::HandlerError,
        },
        forall|t: Option<Seq<u8>>|
            ((t matches Some(d) ==> d.len() <= max) && encodes_opt_at(buf@, start as int, t)) ==> (
            r matches Ok(p) && opt_view(p.0) == t),
{
    proof {
        assert forall|t: Option<Seq<u8>>|
            ((t matches Some(d) ==> d.len() <= max) && encodes_opt_at(
                buf@,
                start as int,
                t,
            )) implies {
            &&& start + 1 <= buf@.len()
            &&& buf@.subrange(start as int, start + 1) == bool_bytes(t is Some)
            &&& (t matches Some(d) ==> encodes_lp_at(buf@, start + 1, d))
        } by {
            assert(buf@.subrange(start as int, start + 1) =~= opt_bytes(t).subrange(0, 1));
            assert(opt_bytes(t).subrange(0, 1) =~= bool_bytes(t is Some));
            if t is Some {
                lemma_opt_some_parts(buf@, start as int, t->0);
            }
        }
    }
    let _buf_len = buf.len();
    let (flag, _f) = match decode_bool(buf, start) {
        Ok(x) => x,
        Err(e) => { return Err(e); },
    };
    if !flag {
        proof {
            assert(buf@.subrange(start as int, start + 1) =~= opt_bytes(
                opt_view(Option::<Vec<u8>>::None),
            ));
        }
        Ok((None, 1))
    } else {
        let (d, used) = match decode_lp_bytes(buf, start + 1, max) {
            Ok(x) => x,
            Err(e) => { return Err(e); },
        };
        proof {
            assert(buf@.subrange(start as int, start + 1 + used) =~= buf@.subrange(
                start as int,
                start + 1,
            ) + buf@.subrange(start + 1, start + 1 + used));
        }
        Ok((Some(d), 1 + used))
    }
}

} // verus!
