//! Framing: the length-delimited unit on the wire, and the compression
//! step that follows encoding once a threshold is negotiated.
//!
//! Outbound: encode, then compress when the body reaches the threshold,
//! then frame. A body under the threshold passes through behind a zero
//! marker in the uncompressed-length field. Inbound mirrors it.

use vstd::prelude::*;

use crate::codec::{
    decode_varint, encodes_varint_at, lemma_varint_len_bounds, lemma_varint_unambiguous,
    varint_bytes, varint_len, write_varint,
};
use crate::broadcast::append_bytes;
use crate::dispatch::Frame;
use crate::WireError;

verus! {

/// What flate2 returns for these bytes: a fixed compression level, so the
/// image depends on the input alone.
pub uninterp spec fn deflate_of(data: Seq<u8>) -> Seq<u8>;

/// Relies on flate2's `ZlibEncoder` over a `Vec` sink at a fixed level:
/// deterministic in the input, and writing to a `Vec` cannot fail.
#[verifier::external_body]
fn deflate_bytes(data: &Vec<u8>) -> (r: Vec<u8>)
    ensures
        r@ == deflate_of(data@),
{
    let mut enc = flate2::write::ZlibEncoder::new(Vec::new(), flate2::Compression::new(6));
    let _ = std::io::Write::write_all(&mut enc, data.as_slice());
    match enc.finish() {
        Ok(v) => v,
        Err(_) => Vec::new(),
    }
}

/// Relies on flate2's `ZlibDecoder` over a `Vec` sink: decompression is
/// lossless, so a stream that is the compression of `b` decodes to `b`;
/// a corrupt stream is an error.
#[verifier::external_body]
fn inflate_bytes(data: &Vec<u8>) -> (r: Result<Vec<u8>, WireError>)
    ensures
        match r {
            Ok(out) => forall|b: Seq<u8>| data@ == deflate_of(b) ==> out@ == b,
            Err(e) => e == WireError::CompressionError && (forall|b: Seq<u8>|
                data@ != deflate_of(b)),
        },
{
    let mut dec = flate2::write::ZlibDecoder::new(Vec::new());
    match std::io::Write::write_all(&mut dec, data.as_slice()) {
        Ok(()) => match dec.finish() {
            Ok(v) => Ok(v),
            Err(_) => Err(WireError::CompressionError),
        },
        Err(_) => Err(WireError::CompressionError),
    }
}

/// The body of a frame before compression: the packet id, then the
/// payload.
pub open spec fn body_bytes(packet_id: u32, payload: Seq<u8>) -> Seq<u8> {
    varint_bytes(packet_id) + payload
}

/// The data section of a frame once compression is negotiated: at or
/// above the threshold the body is compressed behind its uncompressed
/// length; under it the body passes through behind a zero marker.
pub open spec fn compressed_data_bytes(body: Seq<u8>, threshold: u32) -> Seq<u8> {
    if body.len() >= threshold {
        varint_bytes(body.len() as u32) + deflate_of(body)
    } else {
        varint_bytes(0) + body
    }
}

/// A whole wire frame: the data section behind its length.
pub open spec fn framed_bytes(data: Seq<u8>) -> Seq<u8> {
    varint_bytes(data.len() as u32) + data
}

/// Frame a packet without compression: `[length][id][payload]`.
pub fn encode_frame_plain(packet_id: u32, payload: &Vec<u8>) -> (r: Vec<u8>)
    requires
        payload@.len() + 5 < 0x1_0000_0000,
    ensures
        r@ == framed_bytes(body_bytes(packet_id, payload@)),
{
    let mut body: Vec<u8> = Vec::new();
    write_varint(&mut body, packet_id);
    append_bytes(&mut body, payload);
    let mut out: Vec<u8> = Vec::new();
    write_varint(&mut out, body.len() as u32);
    append_bytes(&mut out, &body);
    proof {
        lemma_varint_len_bounds(packet_id);
    }
    out
}

/// Frame a packet under negotiated compression. A 300-byte body over a
/// 256-byte threshold goes out compressed; a 100-byte body right after
/// goes out uncompressed behind the zero marker. Only a compressed image
/// too large for the length field is refused.
pub fn encode_frame_compressed(packet_id: u32, payload: &Vec<u8>, threshold: u32) -> (r: Result<
    Vec<u8>,
    WireError,
>)
    requires
        payload@.len() + 10 < 0x1_0000_0000,
    ensures
        ({
            let body = body_bytes(packet_id, payload@);
            &&& (r matches Ok(out) ==> out@ == framed_bytes(
                compressed_data_bytes(body, threshold),
            ))
            &&& (body.len() < threshold ==> r is Ok)
            &&& (r matches Err(e) ==> e == WireError::CompressionError && body.len() >= threshold
                && deflate_of(body).len() >= 0xFFFF_FFF0)
        }),
{
    let mut body: Vec<u8> = Vec::new();
    write_varint(&mut body, packet_id);
    append_bytes(&mut body, payload);
    proof {
        lemma_varint_len_bounds(packet_id);
    }
    let blen = body.len();
    let mut data: Vec<u8> = Vec::new();
    if (threshold as usize) <= blen {
        write_varint(&mut data, blen as u32);
        let compressed = deflate_bytes(&body);
        if compressed.len() >= 0xFFFF_FFF0usize {
            return Err(WireError::CompressionError);
        }
        append_bytes(&mut data, &compressed);
        proof {
            lemma_varint_len_bounds(blen as u32);
            assert(data@ =~= compressed_data_bytes(body_bytes(packet_id, payload@), threshold));
        }
    } else {
        write_varint(&mut data, 0);
        append_bytes(&mut data, &body);
        proof {
            assert(data@ =~= compressed_data_bytes(body_bytes(packet_id, payload@), threshold));
        }
    }
    let mut out: Vec<u8> = Vec::new();
    write_varint(&mut out, data.len() as u32);
    append_bytes(&mut out, &data);
    proof {
        assert(out@ =~= framed_bytes(compressed_data_bytes(body_bytes(packet_id, payload@), threshold)));
    }
    Ok(out)
}

/// Undo the compression step of an inbound frame's data section: a zero
/// marker passes the rest through, anything else must inflate back to
/// exactly the declared length.
pub fn decode_compressed_data(data: &Vec<u8>) -> (r: Result<Vec<u8>, WireError>)
    ensures
        (r matches Ok(out) ==> (data@ == varint_bytes(0) + out@ || (out@.len() > 0
            && encodes_varint_at(data@, 0, out@.len() as u32)))),
        forall|b: Seq<u8>| data@ == varint_bytes(0) + b ==> (r matches Ok(out) && out@ == b),
        forall|b: Seq<u8>|
            (0 < b.len() < 0x1_0000_0000 && data@ == varint_bytes(b.len() as u32) + deflate_of(b))
                ==> (r matches Ok(out) && out@ == b),
{
    proof {
        assert forall|b: Seq<u8>|
            data@ == varint_bytes(0) + b implies encodes_varint_at(data@, 0, 0) by {
            assert(data@.subrange(0, varint_len(0)) =~= varint_bytes(0));
        }
        assert forall|b: Seq<u8>|
            (0 < b.len() < 0x1_0000_0000 && data@ == varint_bytes(b.len() as u32) + deflate_of(
                b,
            )) implies encodes_varint_at(data@, 0, b.len() as u32) by {
            assert(data@.subrange(0, varint_len(b.len() as u32)) =~= varint_bytes(b.len() as u32));
        }
    }
    let dlen = data.len();
    let r1 = decode_varint(data.as_slice(), 0);
    let (ulen, used) = match r1 {
        Ok(x) => x,
        Err(e) => { return Err(e); },
    };
    let mut rest: Vec<u8> = Vec::new();
    let mut i: usize = used;
    while i < dlen
        invariant
            used <= i <= dlen,
            dlen == data@.len(),
            rest@ == data@.subrange(used as int, i as int),
        decreases dlen - i,
    {
        rest.push(data[i]);
        proof {
            assert(data@.subrange(used as int, i + 1) =~= data@.subrange(used as int, i as int)
                + seq![data@[i as int]]);
        }
        i = i + 1;
    }
    proof {
        assert(data@ =~= data@.subrange(0, used as int) + data@.subrange(used as int, dlen as int));
        assert forall|b: Seq<u8>|
            data@ == varint_bytes(0) + b implies ulen == 0 && rest@ == b by {
            lemma_varint_unambiguous(data@, 0, ulen, 0);
            assert(b =~= data@.subrange(varint_len(0), data@.len() as int));
        }
        assert forall|b: Seq<u8>|
            (0 < b.len() < 0x1_0000_0000 && data@ == varint_bytes(b.len() as u32) + deflate_of(
                b,
            )) implies ulen == b.len() as u32 && rest@ == deflate_of(b) by {
            lemma_varint_unambiguous(data@, 0, ulen, b.len() as u32);
            assert(deflate_of(b) =~= data@.subrange(
                varint_len(b.len() as u32),
                data@.len() as int,
            ));
        }
    }
    if ulen == 0 {
        proof {
            assert(data@ =~= varint_bytes(0) + rest@);
        }
        Ok(rest)
    } else {
        let inflated = match inflate_bytes(&rest) {
            Ok(x) => x,
            Err(e) => { return Err(e); },
        };
        if inflated.len() == ulen as usize {
            Ok(inflated)
        } else {
            Err(WireError::CompressionError)
        }
    }
}

/// A frame with this id and payload occupies `s[start ..]`'s first bytes.
pub open spec fn encodes_frame_at(s: Seq<u8>, start: int, packet_id: u32, payload: Seq<u8>) -> bool {
    let fb = framed_bytes(body_bytes(packet_id, payload));
    &&& 0 <= start
    &&& body_bytes(packet_id, payload).len() < 0x1_0000_0000
    &&& start + fb.len() <= s.len()
    &&& s.subrange(start, start + fb.len() as int) == fb
}

/// At one position only one frame can be encoded.
pub proof fn lemma_frame_unambiguous(
    s: Seq<u8>,
    start: int,
    id1: u32,
    pl1: Seq<u8>,
    id2: u32,
    pl2: Seq<u8>,
)
    requires
        encodes_frame_at(s, start, id1, pl1),
        encodes_frame_at(s, start, id2, pl2),
    ensures
        id1 == id2,
        pl1 == pl2,
{
    let b1 = body_bytes(id1, pl1);
    let b2 = body_bytes(id2, pl2);
    lemma_frame_parts(s, start, id1, pl1);
    lemma_frame_parts(s, start, id2, pl2);
    lemma_varint_unambiguous(s, start, b1.len() as u32, b2.len() as u32);
    let d = start + varint_len(b1.len() as u32);
    lemma_varint_unambiguous(s, d, id1, id2);
    assert(pl1 =~= pl2) by {
        assert(pl1 == s.subrange(d + varint_len(id1), d + b1.len() as int));
        assert(pl2 == s.subrange(d + varint_len(id2), d + b2.len() as int));
    }
}

/// Splits an encoded frame into its outer length, its packet id and its
/// payload bytes.
proof fn lemma_frame_parts(s: Seq<u8>, start: int, packet_id: u32, payload: Seq<u8>)
    requires
        encodes_frame_at(s, start, packet_id, payload),
    ensures
        ({
            let b = body_bytes(packet_id, payload);
            let d = start + varint_len(b.len() as u32);
            &&& encodes_varint_at(s, start, b.len() as u32)
            &&& encodes_varint_at(s, d, packet_id)
            &&& payload == s.subrange(d + varint_len(packet_id), d + b.len() as int)
        }),
{
    let b = body_bytes(packet_id, payload);
    let ol = varint_len(b.len() as u32);
    let fb = framed_bytes(b);
    let d = start + ol;
    assert(s.subrange(start, start + ol) =~= fb.subrange(0, ol));
    assert(fb.subrange(0, ol) =~= varint_bytes(b.len() as u32));
    assert(s.subrange(d, d + varint_len(packet_id)) =~= fb.subrange(ol, ol + varint_len(
        packet_id,
    )));
    assert(fb.subrange(ol, ol + varint_len(packet_id)) =~= varint_bytes(packet_id));
    assert(s.subrange(d + varint_len(packet_id), d + b.len() as int) =~= fb.subrange(
        ol + varint_len(packet_id),
        fb.len() as int,
    ));
    assert(fb.subrange(ol + varint_len(packet_id), fb.len() as int) =~= payload);
}

/// Split one plain frame off the stream: the outer length, then that many
/// bytes of body, of which the packet id comes first. Complete: whenever
/// a frame is encoded at `start`, exactly that frame comes back.
pub fn decode_frame_plain(buf: &[u8], start: usize) -> (r: Result<(Frame, usize), WireError>)
    requires
        start <= buf@.len(),
    ensures
        match r {
            Ok(p) => {
                &&& start + p.1 <= buf@.len()
                &&& p.0.payload@.len() < 0x1_0000_0000
                &&& buf@.subrange(start as int, start + p.1) == framed_bytes(
                    body_bytes(p.0.packet_id, p.0.payload@),
                )
            },
            Err(e) => e == WireError::MalformedVarInt || e == WireError::MalformedFrame,
        },
        forall|pid: u32, pl: Seq<u8>|
            encodes_frame_at(buf@, start as int, pid, pl) ==> (r matches Ok(p) && p.0.packet_id
                == pid && p.0.payload@ == pl && p.1 == framed_bytes(body_bytes(pid, pl)).len()),
{
    proof {
        assert forall|pid: u32, pl: Seq<u8>|
            encodes_frame_at(buf@, start as int, pid, pl) implies encodes_varint_at(
            buf@,
            start as int,
            body_bytes(pid, pl).len() as u32,
        ) by {
            lemma_frame_parts(buf@, start as int, pid, pl);
        }
    }
    let buf_len = buf.len();
    let (flen, used1) = match decode_varint(buf, start) {
        Ok(x) => x,
        Err(e) => { return Err(e); },
    };
    if (flen as usize) > buf_len - (start + used1) {
        return Err(WireError::MalformedFrame);
    }
    let body_start = start + used1;
    let body_end = body_start + flen as usize;
    let r2 = decode_varint(buf, body_start);
    let (packet_id, used2) = match r2 {
        Ok(x) => x,
        Err(e) => {
        proof {
            assert forall|pid: u32, pl: Seq<u8>|
                !encodes_frame_at(buf@, start as int, pid, pl) by {
                if encodes_frame_at(buf@, start as int, pid, pl) {
                    lemma_frame_parts(buf@, start as int, pid, pl);
                    lemma_varint_unambiguous(
                        buf@,
                        start as int,
                        body_bytes(pid, pl).len() as u32,
                        flen,
                    );
                }
            }
        }
            return Err(WireError::MalformedVarInt);
        },
    };
    if used2 > flen as usize {
        proof {
            assert forall|pid: u32, pl: Seq<u8>|
                !encodes_frame_at(buf@, start as int, pid, pl) by {
                if encodes_frame_at(buf@, start as int, pid, pl) {
                    lemma_frame_parts(buf@, start as int, pid, pl);
                    lemma_varint_unambiguous(
                        buf@,
                        start as int,
                        body_bytes(pid, pl).len() as u32,
                        flen,
                    );
                }
            }
        }
        return Err(WireError::MalformedFrame);
    }
    let pay_start = body_start + used2;
    let mut payload: Vec<u8> = Vec::new();
    let mut i: usize = pay_start;
    while i < body_end
        invariant
            pay_start <= i <= body_end,
            body_end <= buf@.len(),
            payload@ == buf@.subrange(pay_start as int, i as int),
        decreases body_end - i,
    {
        payload.push(buf[i]);
        proof {
            assert(buf@.subrange(pay_start as int, i + 1) =~= buf@.subrange(
                pay_start as int,
                i as int,
            ) + seq![buf@[i as int]]);
        }
        i = i + 1;
    }
    proof {
        lemma_varint_len_bounds(packet_id);
        lemma_varint_len_bounds(flen);
    }
    if used2 + payload.len() != flen as usize {
        proof {
            assert forall|pid: u32, pl: Seq<u8>|
                !encodes_frame_at(buf@, start as int, pid, pl) by {
                if encodes_frame_at(buf@, start as int, pid, pl) {
                    lemma_frame_parts(buf@, start as int, pid, pl);
                    lemma_varint_unambiguous(
                        buf@,
                        start as int,
                        body_bytes(pid, pl).len() as u32,
                        flen,
                    );
                }
            }
        }
        return Err(WireError::MalformedFrame);
    }
    let f = Frame { packet_id, payload };
    proof {
        assert(buf@.subrange(start as int, body_end as int) =~= buf@.subrange(
            start as int,
            body_start as int,
        ) + buf@.subrange(body_start as int, pay_start as int) + buf@.subrange(
            pay_start as int,
            body_end as int,
        ));
        assert(framed_bytes(body_bytes(f.packet_id, f.payload@)) =~= varint_bytes(flen)
            + varint_bytes(f.packet_id) + f.payload@);
        assert(encodes_frame_at(buf@, start as int, f.packet_id, f.payload@));
        assert forall|pid: u32, pl: Seq<u8>|
            encodes_frame_at(buf@, start as int, pid, pl) implies pid == f.packet_id && pl
            == f.payload@ by {
            lemma_frame_unambiguous(buf@, start as int, pid, pl, f.packet_id, f.payload@);
        }
    }
    Ok((f, used1 + flen as usize))
}

} // verus!
