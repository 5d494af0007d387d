//! Ordered outbound fan-out: messages are queued in enqueue order, and one
//! processing step per tick drains the queue, encodes each message exactly
//! once, and appends the identical bytes to every targeted connection's
//! outbound buffer — first-queued, first-written, for every recipient.

use vstd::prelude::*;

use crate::codec::{bool_bytes, lp_bytes, write_bool, write_lp_bytes};

verus! {

/// A server-originated message awaiting fan-out: its payload, the overlay
/// flag, and the target set — every connection, or a listed subset.
#[derive(Clone, PartialEq, Eq, Debug)]
pub struct BroadcastMessage {
    pub payload: Vec<u8>,
    pub overlay: bool,
    pub target_all: bool,
    pub targets: Vec<u32>,
}

/// Whether the message is addressed to the given connection.
pub open spec fn targets_conn(m: BroadcastMessage, conn_id: u32) -> bool {
    m.target_all || m.targets@.contains(conn_id)
}

/// A message can be encoded.
pub open spec fn message_wf(m: BroadcastMessage) -> bool {
    m.payload@.len() < 0x1_0000_0000
}

/// The bytes one message contributes to a recipient: the system-chat
/// packet body, encoded once and shared by all recipients.
pub open spec fn message_bytes(m: BroadcastMessage) -> Seq<u8> {
    lp_bytes(m.payload@) + bool_bytes(m.overlay)
}

/// The bytes a given connection receives from draining a queue, in queue
/// order.
pub open spec fn delivered_bytes(queue: Seq<BroadcastMessage>, conn_id: u32) -> Seq<u8>
    decreases queue.len(),
{
    if queue.len() == 0 {
        Seq::empty()
    } else {
        (if targets_conn(queue[0], conn_id) {
            message_bytes(queue[0])
        } else {
            Seq::empty()
        }) + delivered_bytes(queue.drop_first(), conn_id)
    }
}

pub proof fn lemma_delivered_push(queue: Seq<BroadcastMessage>, m: BroadcastMessage, conn_id: u32)
    ensures
        delivered_bytes(queue.push(m), conn_id) == delivered_bytes(queue, conn_id) + (
        if targets_conn(m, conn_id) {
            message_bytes(m)
        } else {
            Seq::<u8>::empty()
        }),
    decreases queue.len(),
{
    let tail = if targets_conn(m, conn_id) {
        message_bytes(m)
    } else {
        Seq::<u8>::empty()
    };
    if queue.len() == 0 {
        assert(queue.push(m).drop_first() =~= Seq::<BroadcastMessage>::empty());
        assert(queue.push(m)[0] == m);
        assert(delivered_bytes(queue.push(m), conn_id) == tail + delivered_bytes(
            Seq::<BroadcastMessage>::empty(),
            conn_id,
        ));
        assert(delivered_bytes(Seq::<BroadcastMessage>::empty(), conn_id) == Seq::<u8>::empty());
        assert(tail + Seq::<u8>::empty() =~= tail);
        assert(delivered_bytes(queue, conn_id) + tail =~= tail);
    } else {
        assert(queue.push(m).drop_first() =~= queue.drop_first().push(m));
        lemma_delivered_push(queue.drop_first(), m, conn_id);
        assert(queue.push(m)[0] == queue[0]);
        let head = if targets_conn(queue[0], conn_id) {
            message_bytes(queue[0])
        } else {
            Seq::<u8>::empty()
        };
        assert(head + (delivered_bytes(queue.drop_first(), conn_id) + tail) =~= (head
            + delivered_bytes(queue.drop_first(), conn_id)) + tail);
    }
}

/// First queued, first written: draining a queue that holds message `a`
/// before message `b` hands every common recipient `a`'s bytes strictly
/// before `b`'s.
pub proof fn lemma_broadcast_fifo(a: BroadcastMessage, b: BroadcastMessage, conn_id: u32)
    requires
        targets_conn(a, conn_id),
        targets_conn(b, conn_id),
    ensures
        delivered_bytes(seq![a, b], conn_id) == message_bytes(a) + message_bytes(b),
{
    assert(seq![a, b].drop_first() =~= seq![b]);
    assert(seq![b].drop_first() =~= Seq::<BroadcastMessage>::empty());
    assert(delivered_bytes(seq![b], conn_id) == message_bytes(b) + delivered_bytes(
        Seq::<BroadcastMessage>::empty(),
        conn_id,
    ));
    assert(delivered_bytes(Seq::<BroadcastMessage>::empty(), conn_id) == Seq::<u8>::empty());
    assert(message_bytes(b) + Seq::<u8>::empty() =~= message_bytes(b));
    assert(message_bytes(a) + (message_bytes(b) + Seq::<u8>::empty()) =~= message_bytes(a)
        + message_bytes(b));
}

/// The queue the scheduler owns; systems publish by enqueuing, never
/// through shared mutable state.
#[derive(Debug)]
pub struct BroadcastQueue {
    pub queue: Vec<BroadcastMessage>,
}

impl BroadcastQueue {
    pub fn new() -> (r: Self)
        ensures
            r.queue@.len() == 0,
    {
        BroadcastQueue { queue: Vec::new() }
    }

    /// Queue one message; order of arrival is order of delivery.
    pub fn enqueue(&mut self, m: BroadcastMessage)
        ensures
            final(self).queue@ == old(self).queue@.push(m),
    {
        self.queue.push(m);
    }

    /// Drain the queue in enqueue order. Each message is encoded exactly
    /// once; every open targeted buffer receives the identical bytes,
    /// appended in queue order after whatever it already held. A closed
    /// connection (`open[j]` false) receives nothing: closure stops
    /// outbound delivery.
    pub fn process(&mut self, conn_ids: &Vec<u32>, open: &Vec<bool>, outs: &mut Vec<Vec<u8>>)
        requires
            conn_ids@.len() == old(outs)@.len(),
            open@.len() == old(outs)@.len(),
            forall|k: int|
                0 <= k < old(self).queue@.len() ==> message_wf(#[trigger] old(self).queue@[k]),
        ensures
            final(self).queue@.len() == 0,
            final(outs)@.len() == old(outs)@.len(),
            forall|j: int|
                0 <= j < conn_ids@.len() ==> (#[trigger] final(outs)@[j])@ == old(outs)@[j]@ + (
                if open@[j] {
                    delivered_bytes(old(self).queue@, conn_ids@[j])
                } else {
                    Seq::<u8>::empty()
                }),
    {
        let n = self.queue.len();
        let mut k: usize = 0;
        proof {
            assert(old(self).queue@.subrange(0, 0) =~= Seq::<BroadcastMessage>::empty());
            assert forall|j: int| 0 <= j < conn_ids@.len() implies (#[trigger] outs@[j])@
                == old(outs)@[j]@ + (if open@[j] {
                delivered_bytes(old(self).queue@.subrange(0, 0), conn_ids@[j])
            } else {
                Seq::<u8>::empty()
            }) by {
                assert(delivered_bytes(old(self).queue@.subrange(0, 0), conn_ids@[j])
                    =~= Seq::<u8>::empty());
                assert(old(outs)@[j]@ + Seq::<u8>::empty() =~= old(outs)@[j]@);
            }
        }
        while k < n
            invariant
                k <= n,
                n == old(self).queue@.len(),
                self.queue@ == old(self).queue@,
                conn_ids@.len() == outs@.len(),
                open@.len() == outs@.len(),
                forall|i: int|
                    0 <= i < old(self).queue@.len() ==> message_wf(
                        #[trigger] old(self).queue@[i],
                    ),
                forall|j: int|
                    0 <= j < conn_ids@.len() ==> (#[trigger] outs@[j])@ == old(outs)@[j]@ + (
                    if open@[j] {
                        delivered_bytes(old(self).queue@.subrange(0, k as int), conn_ids@[j])
                    } else {
                        Seq::<u8>::empty()
                    }),
            decreases n - k,
        {
            let m = &self.queue[k];
            let mut bytes: Vec<u8> = Vec::new();
            write_lp_bytes(&mut bytes, &m.payload);
            write_bool(&mut bytes, m.overlay);
            let mut j: usize = 0;
            while j < outs.len()
                invariant
                    j <= outs@.len(),
                    k < n,
                    n == old(self).queue@.len(),
                    self.queue@ == old(self).queue@,
                    conn_ids@.len() == outs@.len(),
                    open@.len() == outs@.len(),
                    bytes@ == message_bytes(old(self).queue@[k as int]),
                    forall|i: int|
                        0 <= i < old(self).queue@.len() ==> message_wf(
                            #[trigger] old(self).queue@[i],
                        ),
                    forall|j2: int|
                        j <= j2 < conn_ids@.len() ==> (#[trigger] outs@[j2])@ == old(outs)@[j2]@ + (
                        if open@[j2] {
                            delivered_bytes(old(self).queue@.subrange(0, k as int), conn_ids@[j2])
                        } else {
                            Seq::<u8>::empty()
                        }),
                    forall|j2: int|
                        0 <= j2 < j ==> (#[trigger] outs@[j2])@ == old(outs)@[j2]@ + (
                        if open@[j2] {
                            delivered_bytes(old(self).queue@.subrange(0, k + 1), conn_ids@[j2])
                        } else {
                            Seq::<u8>::empty()
                        }),
                decreases outs@.len() - j,
            {
                let targeted = open[j] && (if self.queue[k].target_all {
                    true
                } else {
                    contains_id(&self.queue[k].targets, conn_ids[j])
                });
                proof {
                    assert(old(self).queue@.subrange(0, k + 1) =~= old(self).queue@.subrange(
                        0,
                        k as int,
                    ).push(old(self).queue@[k as int]));
                    lemma_delivered_push(
                        old(self).queue@.subrange(0, k as int),
                        old(self).queue@[k as int],
                        conn_ids@[j as int],
                    );
                }
                if targeted {
                    let mut buf = copy_bytes(&outs[j]);
                    append_bytes(&mut buf, &bytes);
                    outs[j] = buf;
                    proof {
                        assert((outs@[j as int])@ =~= old(outs)@[j as int]@ + delivered_bytes(
                            old(self).queue@.subrange(0, k + 1),
                            conn_ids@[j as int],
                        ));
                    }
                } else {
                    proof {
                        if open@[j as int] {
                            assert((outs@[j as int])@ =~= old(outs)@[j as int]@ + delivered_bytes(
                                old(self).queue@.subrange(0, k + 1),
                                conn_ids@[j as int],
                            ));
                        }
                    }
                }
                j = j + 1;
            }
            k = k + 1;
        }
        self.queue.clear();
        proof {
            assert(old(self).queue@.subrange(0, n as int) =~= old(self).queue@);
        }
    }
}

/// Whether the list holds the id.
pub fn contains_id(v: &Vec<u32>, x: u32) -> (r: bool)
    ensures
        r == v@.contains(x),
{
    let mut i: usize = 0;
    while i < v.len()
        invariant
            i <= v@.len(),
            forall|j: int| 0 <= j < i ==> v@[j] != x,
        decreases v@.len() - i,
    {
        if v[i] == x {
            return true;
        }
        i = i + 1;
    }
    proof {
        assert(!v@.contains(x));
    }
    false
}

/// A fresh buffer with the same bytes.
pub fn copy_bytes(src: &Vec<u8>) -> (r: Vec<u8>)
    ensures
        r@ == src@,
{
    let mut out: Vec<u8> = Vec::new();
    append_bytes(&mut out, src);
    out
}

/// Append `src`'s bytes to `dst`.
pub fn append_bytes(dst: &mut Vec<u8>, src: &Vec<u8>)
    ensures
        final(dst)@ == old(dst)@ + src@,
{
    let mut i: usize = 0;
    while i < src.len()
        invariant
            i <= src@.len(),
            dst@ == old(dst)@ + src@.subrange(0, i as int),
        decreases src@.len() - i,
    {
        dst.push(src[i]);
        proof {
            assert(old(dst)@ + src@.subrange(0, i as int) + seq![src@[i as int]] =~= old(dst)@
                + src@.subrange(0, i + 1));
        }
        i = i + 1;
    }
    proof {
        assert(src@.subrange(0, src@.len() as int) =~= src@);
    }
}

} // verus!
