//! A common contract for wire elements, and the length-prefixed list codec
//! built over it.
//!
//! Every element type states its own byte image (`enc`), proves that image
//! unambiguous at a position, and supplies a complete decoder. The list
//! codec then works for any element: a varint count followed by the
//! elements in order, with the count checked against a maximum and against
//! the remaining buffer before any element is read.

use vstd::prelude::*;

use crate::codec::{
    decode_varint, encodes_varint_at, lemma_varint_unambiguous, varint_bytes, varint_len,
    write_varint,
};
use crate::WireError;

verus! {

/// `v`'s wire image occupies `s[start ..]`'s first bytes.
pub open spec fn encodes_wire_at<T: Wire>(s: Seq<u8>, start: int, v: T) -> bool {
    &&& 0 <= start
    &&& start + v.enc().len() <= s.len()
    &&& s.subrange(start, start + v.enc().len() as int) == v.enc()
}

/// An element that can be carried inside a packet body.
pub trait Wire: Sized {
    /// The element's exact wire bytes.
    spec fn enc(&self) -> Seq<u8>;

    /// Structurally valid values, the ones an encoder may be given.
    spec fn wire_wf(&self) -> bool;

    /// Two values that carry the same information. Element types that own
    /// heap storage compare their contents here, which is what a decoder
    /// can promise to give back.
    spec fn wire_eq(&self, other: &Self) -> bool;

    /// A well-formed element occupies at least one wire byte, so a
    /// declared element count can be held against the remaining buffer
    /// before any element is decoded.
    proof fn lemma_wire_min_len(v: Self)
        requires
            v.wire_wf(),
        ensures
            v.enc().len() >= 1,
        ;

    /// At one position only one value can be encoded.
    proof fn lemma_wire_unambiguous(s: Seq<u8>, start: int, a: Self, b: Self)
        requires
            a.wire_wf(),
            b.wire_wf(),
            0 <= start,
            start + a.enc().len() <= s.len(),
            s.subrange(start, start + a.enc().len() as int) == a.enc(),
            start + b.enc().len() <= s.len(),
            s.subrange(start, start + b.enc().len() as int) == b.enc(),
        ensures
            a.wire_eq(&b),
            a.enc() == b.enc(),
        ;

    /// Append the element's wire bytes to `out`.
    fn write_wire(&self, out: &mut Vec<u8>)
        requires
            self.wire_wf(),
        ensures
            final(out)@ == old(out)@ + self.enc(),
        ;

    /// Decode one element at `start`, completely: whenever a well-formed
    /// value is encoded there, exactly that value comes back.
    fn decode_wire(buf: &[u8], start: usize) -> (r: Result<(Self, usize), WireError>)
        requires
            start <= buf@.len(),
        ensures
            match r {
                Ok(p) => {
                    &&& p.0.wire_wf()
                    &&& p.1 == p.0.enc().len()
                    &&& start + p.1 <= buf@.len()
                    &&& buf@.subrange(start as int, start + p.1) == p.0.enc()
                },
                Err(e) => e != WireError::UnknownPacket && e != WireError::HandlerError,
            },
            forall|w: Self|
                (w.wire_wf() && start + w.enc().len() <= buf@.len() && buf@.subrange(
                    start as int,
                    start + w.enc().len() as int,
                ) == w.enc()) ==> (r matches Ok(p) && p.0.wire_eq(&w)),
        ;
}

/// Concatenated wire bytes of a run of elements, in order.
pub open spec fn wire_seq_bytes<T: Wire>(vals: Seq<T>) -> Seq<u8>
    decreases vals.len(),
{
    if vals.len() == 0 {
        Seq::empty()
    } else {
        vals[0].enc() + wire_seq_bytes(vals.drop_first())
    }
}

/// Every element of the run is well formed.
pub open spec fn wire_seq_wf<T: Wire>(vals: Seq<T>) -> bool {
    forall|i: int| 0 <= i < vals.len() ==> (#[trigger] vals[i]).wire_wf()
}

/// The two runs carry the same elements, in the same order.
pub open spec fn wire_seq_eq<T: Wire>(xs: Seq<T>, ys: Seq<T>) -> bool {
    &&& xs.len() == ys.len()
    &&& forall|i: int| 0 <= i < xs.len() ==> (#[trigger] xs[i]).wire_eq(&ys[i])
}

/// Wire bytes of a length-prefixed list: a varint count, then the elements.
pub open spec fn lp_list_bytes<T: Wire>(vals: Seq<T>) -> Seq<u8> {
    varint_bytes(vals.len() as u32) + wire_seq_bytes(vals)
}

/// A length-prefixed list with contents `vals` occupies `s[start ..]`'s
/// first bytes.
pub open spec fn encodes_lp_list_at<T: Wire>(s: Seq<u8>, start: int, vals: Seq<T>) -> bool {
    &&& 0 <= start
    &&& vals.len() < 0x1_0000_0000
    &&& start + lp_list_bytes(vals).len() <= s.len()
    &&& s.subrange(start, start + lp_list_bytes(vals).len() as int) == lp_list_bytes(vals)
}

/// A run of well-formed elements takes at least one byte per element.
pub proof fn lemma_wire_seq_min_len<T: Wire>(vals: Seq<T>)
    requires
        wire_seq_wf(vals),
    ensures
        wire_seq_bytes(vals).len() >= vals.len(),
    decreases vals.len(),
{
    if vals.len() > 0 {
        T::lemma_wire_min_len(vals[0]);
        assert(wire_seq_wf(vals.drop_first())) by {
            assert forall|i: int|
                0 <= i < vals.drop_first().len() implies (#[trigger] vals.drop_first()[i]).wire_wf() by {
                assert(vals.drop_first()[i] == vals[i + 1]);
            }
        }
        lemma_wire_seq_min_len(vals.drop_first());
    }
}

pub proof fn lemma_wire_seq_push<T: Wire>(vals: Seq<T>, v: T)
    ensures
        wire_seq_bytes(vals.push(v)) == wire_seq_bytes(vals) + v.enc(),
    decreases vals.len(),
{
    if vals.len() == 0 {
        assert(vals.push(v).drop_first() =~= Seq::<T>::empty());
        assert(vals.push(v)[0] == v);
        assert(wire_seq_bytes(vals.push(v)) == vals.push(v)[0].enc() + wire_seq_bytes(
            vals.push(v).drop_first(),
        ));
        assert(wire_seq_bytes(Seq::<T>::empty()) == Seq::<u8>::empty());
        assert(v.enc() + Seq::<u8>::empty() =~= v.enc());
        assert(wire_seq_bytes(vals) + v.enc() =~= v.enc());
    } else {
        assert(vals.push(v).drop_first() =~= vals.drop_first().push(v));
        lemma_wire_seq_push(vals.drop_first(), v);
        assert(vals.push(v)[0] == vals[0]);
        assert(vals[0].enc() + (wire_seq_bytes(vals.drop_first()) + v.enc()) =~= (vals[0].enc()
            + wire_seq_bytes(vals.drop_first())) + v.enc());
    }
}

/// Two runs encoded at one position agree on their common prefix; with
/// equal counts they are equal element for element.
pub proof fn lemma_wire_seq_prefix_unambiguous<T: Wire>(
    s: Seq<u8>,
    start: int,
    xs: Seq<T>,
    ys: Seq<T>,
)
    requires
        0 <= start,
        wire_seq_wf(xs),
        wire_seq_wf(ys),
        xs.len() <= ys.len(),
        start + wire_seq_bytes(xs).len() <= s.len(),
        s.subrange(start, start + wire_seq_bytes(xs).len() as int) == wire_seq_bytes(xs),
        start + wire_seq_bytes(ys).len() <= s.len(),
        s.subrange(start, start + wire_seq_bytes(ys).len() as int) == wire_seq_bytes(ys),
    ensures
        wire_seq_eq(xs, ys.subrange(0, xs.len() as int)),
        wire_seq_bytes(xs) == wire_seq_bytes(ys.subrange(0, xs.len() as int)),
    decreases xs.len(),
{
    if xs.len() == 0 {
        assert(wire_seq_bytes(ys.subrange(0, 0)) =~= Seq::<u8>::empty());
        assert(wire_seq_bytes(xs) =~= Seq::<u8>::empty());
    } else {
        let xb = wire_seq_bytes(xs);
        let yb = wire_seq_bytes(ys);
        assert(encodes_wire_at(s, start, xs[0])) by {
            assert(s.subrange(start, start + xs[0].enc().len() as int) =~= xb.subrange(
                0,
                xs[0].enc().len() as int,
            ));
            assert(xb.subrange(0, xs[0].enc().len() as int) =~= xs[0].enc());
        }
        assert(encodes_wire_at(s, start, ys[0])) by {
            assert(s.subrange(start, start + ys[0].enc().len() as int) =~= yb.subrange(
                0,
                ys[0].enc().len() as int,
            ));
            assert(yb.subrange(0, ys[0].enc().len() as int) =~= ys[0].enc());
        }
        T::lemma_wire_unambiguous(s, start, xs[0], ys[0]);
        let e = xs[0].enc().len() as int;
        assert(s.subrange(start + e, start + xb.len() as int) =~= wire_seq_bytes(
            xs.drop_first(),
        )) by {
            assert(wire_seq_bytes(xs.drop_first()) =~= xb.subrange(e, xb.len() as int));
        }
        assert(s.subrange(start + e, start + yb.len() as int) =~= wire_seq_bytes(
            ys.drop_first(),
        )) by {
            assert(wire_seq_bytes(ys.drop_first()) =~= yb.subrange(e, yb.len() as int));
        }
        lemma_wire_seq_prefix_unambiguous(s, start + e, xs.drop_first(), ys.drop_first());
        assert(ys.drop_first().subrange(0, xs.len() - 1) =~= ys.subrange(
            1,
            xs.len() as int,
        ));
        let yp = ys.subrange(0, xs.len() as int);
        assert forall|i: int| 0 <= i < xs.len() implies (#[trigger] xs[i]).wire_eq(&yp[i]) by {
            if i > 0 {
                assert(xs.drop_first()[i - 1].wire_eq(&ys.subrange(1, xs.len() as int)[i - 1]));
            }
        }
        assert(wire_seq_bytes(yp) =~= wire_seq_bytes(xs)) by {
            assert(yp[0] == ys[0]);
            assert(yp.drop_first() =~= ys.subrange(1, xs.len() as int));
            assert(wire_seq_bytes(yp) == yp[0].enc() + wire_seq_bytes(yp.drop_first()));
            assert(wire_seq_bytes(xs) == xs[0].enc() + wire_seq_bytes(xs.drop_first()));
        }
    }
}

/// The bytes of element `k` of an encoded run stand right after the bytes
/// of the elements before it.
pub proof fn lemma_wire_seq_elem_at<T: Wire>(s: Seq<u8>, start: int, ys: Seq<T>, k: int)
    requires
        0 <= start,
        0 <= k < ys.len(),
        start + wire_seq_bytes(ys).len() <= s.len(),
        s.subrange(start, start + wire_seq_bytes(ys).len() as int) == wire_seq_bytes(ys),
    ensures
        encodes_wire_at(s, start + wire_seq_bytes(ys.subrange(0, k)).len(), ys[k]),
    decreases k,
{
    let yb = wire_seq_bytes(ys);
    if k == 0 {
        assert(wire_seq_bytes(ys.subrange(0, 0)) =~= Seq::<u8>::empty());
        assert(s.subrange(start, start + ys[0].enc().len() as int) =~= yb.subrange(
            0,
            ys[0].enc().len() as int,
        ));
        assert(yb.subrange(0, ys[0].enc().len() as int) =~= ys[0].enc());
    } else {
        let e = ys[0].enc().len() as int;
        assert(s.subrange(start + e, start + yb.len() as int) =~= wire_seq_bytes(
            ys.drop_first(),
        )) by {
            assert(wire_seq_bytes(ys.drop_first()) =~= yb.subrange(e, yb.len() as int));
        }
        lemma_wire_seq_elem_at(s, start + e, ys.drop_first(), k - 1);
        assert(ys.drop_first()[k - 1] == ys[k]);
        assert(ys.drop_first().subrange(0, k - 1) =~= ys.subrange(1, k));
        assert(wire_seq_bytes(ys.subrange(0, k)) =~= ys.subrange(0, k)[0].enc() + wire_seq_bytes(
            ys.subrange(0, k).drop_first(),
        ));
        assert(ys.subrange(0, k).drop_first() =~= ys.subrange(1, k));
        assert(ys.subrange(0, k)[0] == ys[0]);
    }
}

/// Append a length-prefixed list of elements.
pub fn write_lp_list<T: Wire>(out: &mut Vec<u8>, vals: &Vec<T>)
    requires
        vals@.len() < 0x1_0000_0000,
        wire_seq_wf(vals@),
    ensures
        final(out)@ == old(out)@ + lp_list_bytes(vals@),
{
    write_varint(out, vals.len() as u32);
    let mut i: usize = 0;
    while i < vals.len()
        invariant
            i <= vals@.len(),
            vals@.len() < 0x1_0000_0000,
            wire_seq_wf(vals@),
            out@ == old(out)@ + varint_bytes(vals@.len() as u32) + wire_seq_bytes(
                vals@.subrange(0, i as int),
            ),
        decreases vals@.len() - i,
    {
        vals[i].write_wire(out);
        proof {
            lemma_wire_seq_push(vals@.subrange(0, i as int), vals@[i as int]);
            assert(vals@.subrange(0, i + 1) =~= vals@.subrange(0, i as int).push(vals@[i as int]));
            assert(old(out)@ + varint_bytes(vals@.len() as u32) + wire_seq_bytes(
                vals@.subrange(0, i as int),
            ) + vals@[i as int].enc() =~= old(out)@ + varint_bytes(vals@.len() as u32)
                + wire_seq_bytes(vals@.subrange(0, i + 1)));
        }
        i = i + 1;
    }
    proof {
        assert(vals@.subrange(0, vals@.len() as int) =~= vals@);
        assert(old(out)@ + varint_bytes(vals@.len() as u32) + wire_seq_bytes(vals@) =~= old(out)@
            + lp_list_bytes(vals@));
    }
}

/// Splits a list encoding into its count and its run of elements.
proof fn lemma_lp_list_parts<T: Wire>(s: Seq<u8>, start: int, vals: Seq<T>)
    requires
        encodes_lp_list_at(s, start, vals),
    ensures
        encodes_varint_at(s, start, vals.len() as u32),
        ({
            let d = start + varint_len(vals.len() as u32);
            &&& d + wire_seq_bytes(vals).len() <= s.len()
            &&& s.subrange(d, d + wire_seq_bytes(vals).len() as int) == wire_seq_bytes(vals)
        }),
{
    let c = vals.len() as u32;
    let lb = lp_list_bytes(vals);
    assert(s.subrange(start, start + varint_len(c)) =~= lb.subrange(0, varint_len(c)));
    assert(lb.subrange(0, varint_len(c)) =~= varint_bytes(c));
    let d = start + varint_len(c);
    assert(s.subrange(d, d + wire_seq_bytes(vals).len() as int) =~= lb.subrange(
        varint_len(c),
        lb.len() as int,
    ));
    assert(lb.subrange(varint_len(c), lb.len() as int) =~= wire_seq_bytes(vals));
}

/// Decode a length-prefixed list at `start`. A declared count above `max`
/// fails before any element is read; the complete clause gives back exactly
/// the encoded elements, in order.
pub fn decode_lp_list<T: Wire>(buf: &[u8], start: usize, max: u32) -> (r: Result<
    (Vec<T>, usize),
    WireError,
>)
    requires
        start <= buf@.len(),
    ensures
        match r {
            Ok(p) => {
                &&& p.0@.len() <= max
                &&& wire_seq_wf(p.0@)
                &&& start + p.1 <= buf@.len()
                &&& p.1 == lp_list_bytes(p.0@).len()
                &&& buf@.subrange(start as int, start + p.1) == lp_list_bytes(p.0@)
            },
            Err(e) => e != WireError::UnknownPacket && e != WireError::HandlerError,
        },
        forall|vals: Seq<T>|
            (vals.len() <= max && wire_seq_wf(vals) && encodes_lp_list_at(buf@, start as int, vals))
                ==> (r matches Ok(p) && wire_seq_eq(p.0@, vals) && p.1 == lp_list_bytes(
                vals,
            ).len()),
{
    proof {
        assert forall|vals: Seq<T>|
            (vals.len() <= max && wire_seq_wf(vals) && encodes_lp_list_at(
                buf@,
                start as int,
                vals,
            )) implies encodes_varint_at(buf@, start as int, vals.len() as u32) by {
            lemma_lp_list_parts(buf@, start as int, vals);
        }
    }
    let buf_len = buf.len();
    let (n, used) = match decode_varint(buf, start) {
        Ok(p) => p,
        Err(e) => { return Err(e); },
    };
    if n > max {
        return Err(WireError::MalformedFrame);
    }
    let data_start = start + used;
    if (n as usize) > buf_len - data_start {
        proof {
            assert forall|vals: Seq<T>|
                !(vals.len() <= max && wire_seq_wf(vals) && encodes_lp_list_at(
                    buf@,
                    start as int,
                    vals,
                )) by {
                if vals.len() <= max && wire_seq_wf(vals) && encodes_lp_list_at(
                    buf@,
                    start as int,
                    vals,
                ) {
                    lemma_lp_list_parts(buf@, start as int, vals);
                    lemma_wire_seq_min_len(vals);
                }
            }
        }
        return Err(WireError::MalformedFrame);
    }
    let count = n as usize;
    let mut out: Vec<T> = Vec::new();
    let mut pos: usize = data_start;
    let mut i: usize = 0;
    while i < count
        invariant
            i <= count,
            count == n,
            used == varint_len(n),
            data_start == start + used,
            data_start <= pos <= buf@.len(),
            buf@.len() <= usize::MAX,
            out@.len() == i,
            wire_seq_wf(out@),
            pos == data_start + wire_seq_bytes(out@).len(),
            buf@.subrange(data_start as int, pos as int) == wire_seq_bytes(out@),
            encodes_varint_at(buf@, start as int, n),
            forall|vals: Seq<T>|
                (vals.len() <= max && wire_seq_wf(vals) && encodes_lp_list_at(
                    buf@,
                    start as int,
                    vals,
                )) ==> vals.len() == n,
        decreases count - i,
    {
        let one = T::decode_wire(buf, pos);
        match one {
            Ok((v, vused)) => {
                proof {
                    lemma_wire_seq_push(out@, v);
                    assert(buf@.subrange(data_start as int, pos + vused) =~= buf@.subrange(
                        data_start as int,
                        pos as int,
                    ) + buf@.subrange(pos as int, pos + vused));
                    assert(buf@.subrange(data_start as int, pos + vused) =~= wire_seq_bytes(
                        out@.push(v),
                    ));
                }
                out.push(v);
                pos = pos + vused;
            },
            Err(e) => {
                proof {
                    assert forall|vals: Seq<T>|
                        !(vals.len() <= max && wire_seq_wf(vals) && encodes_lp_list_at(
                            buf@,
                            start as int,
                            vals,
                        )) by {
                        if vals.len() <= max && wire_seq_wf(vals) && encodes_lp_list_at(
                            buf@,
                            start as int,
                            vals,
                        ) {
                            lemma_lp_list_parts(buf@, start as int, vals);
                            lemma_wire_seq_prefix_unambiguous(
                                buf@,
                                data_start as int,
                                out@,
                                vals,
                            );
                            lemma_wire_seq_elem_at(buf@, data_start as int, vals, i as int);
                            assert(wire_seq_bytes(vals.subrange(0, i as int)) == wire_seq_bytes(
                                out@,
                            ));
                            assert(encodes_wire_at(buf@, pos as int, vals[i as int]));
                            assert(vals[i as int].wire_wf());
                        }
                    }
                }
                return Err(e);
            },
        }
        i = i + 1;
    }
    proof {
        assert(buf@.subrange(start as int, pos as int) =~= buf@.subrange(
            start as int,
            data_start as int,
        ) + buf@.subrange(data_start as int, pos as int));
        assert(buf@.subrange(start as int, data_start as int) =~= varint_bytes(n));
        assert(buf@.subrange(start as int, pos as int) =~= lp_list_bytes(out@));
        assert forall|vals: Seq<T>|
            (vals.len() <= max && wire_seq_wf(vals) && encodes_lp_list_at(
                buf@,
                start as int,
                vals,
            )) implies wire_seq_eq(out@, vals) && pos - start == lp_list_bytes(vals).len() by {
            lemma_lp_list_parts(buf@, start as int, vals);
            lemma_wire_seq_prefix_unambiguous(buf@, data_start as int, out@, vals);
            assert(vals.subrange(0, vals.len() as int) =~= vals);
            assert(wire_seq_bytes(out@).len() == wire_seq_bytes(vals).len());
        }
    }
    Ok((out, pos - start))
}

} // verus!
