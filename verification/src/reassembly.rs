use vstd::prelude::*;

verus! {

/// One complete transport batch found in the input: the payload occupies
/// `start..start+len`, with the 2-byte length prefix (stream transports
/// only) excluded.
pub struct BatchSpan {
    pub start: usize,
    pub len: usize,
}

/// What one reassembly call yields: the complete batches, the bytes
/// consumed by them (prefixes included), and whether the tail is a partial
/// batch the host must complete with the next segment.
pub struct Reassembly {
    pub batches: Vec<BatchSpan>,
    pub consumed: usize,
    pub needs_more: bool,
}

/// The spans as pairs of mathematical integers.
pub open spec fn span_views(bs: Seq<BatchSpan>) -> Seq<(int, int)> {
    bs.map(|i: int, b: BatchSpan| (b.start as int, b.len as int))
}

/// The value of a 2-byte little-endian length prefix.
pub open spec fn le16(b0: u8, b1: u8) -> int {
    b0 + 256 * b1
}

/// The payload spans of the complete stream batches of `buf`, read from
/// `off` on: while at least two bytes remain, a prefix `n` is read, and a
/// batch of `n` payload bytes follows if they are all present.
pub open spec fn stream_spans(buf: Seq<u8>, off: int) -> Seq<(int, int)>
    decreases buf.len() - off,
{
    if off < 0 || off + 2 > buf.len() {
        Seq::empty()
    } else {
        let n = le16(buf[off], buf[off + 1]);
        if n > buf.len() - off - 2 {
            Seq::empty()
        } else {
            seq![(off + 2, n)] + stream_spans(buf, off + 2 + n)
        }
    }
}

/// The bytes the complete stream batches of `buf` from `off` consume:
/// prefix and payload for each, and nothing for a partial tail.
pub open spec fn stream_consumed(buf: Seq<u8>, off: int) -> int
    decreases buf.len() - off,
{
    if off < 0 || off + 2 > buf.len() {
        0
    } else {
        let n = le16(buf[off], buf[off + 1]);
        if n > buf.len() - off - 2 {
            0
        } else {
            2 + n + stream_consumed(buf, off + 2 + n)
        }
    }
}

/// Whether the tail of `buf` from `off` is a partial batch: a length
/// prefix announcing more bytes than remain.
pub open spec fn stream_needs_more(buf: Seq<u8>, off: int) -> bool
    decreases buf.len() - off,
{
    if off < 0 || off + 2 > buf.len() {
        false
    } else {
        let n = le16(buf[off], buf[off + 1]);
        if n > buf.len() - off - 2 {
            true
        } else {
            stream_needs_more(buf, off + 2 + n)
        }
    }
}

/// Splits one packet's bytes into complete batches. On a stream transport
/// (`can_desegment`) the buffer is walked prefix by prefix; a prefix that
/// announces more bytes than remain stops the walk with nothing of that
/// batch consumed and the desegmentation flag raised. On a datagram
/// transport the whole buffer is one batch. Bytes consumed plus the
/// unconsumed tail always equal the input length.
#[verifier::loop_isolation(false)]
pub fn reassemble(buf: &[u8], can_desegment: bool) -> (r: Reassembly)
    ensures
        can_desegment ==> {
            &&& span_views(r.batches@) =~= stream_spans(buf@, 0)
            &&& r.consumed == stream_consumed(buf@, 0)
            &&& r.needs_more == stream_needs_more(buf@, 0)
        },
        !can_desegment ==> {
            &&& span_views(r.batches@) =~= seq![(0int, buf@.len() as int)]
            &&& r.consumed == buf@.len()
            &&& !r.needs_more
        },
        forall|k: int|
            0 <= k < r.batches@.len() ==> (#[trigger] r.batches@[k]).start + r.batches@[k].len
                <= buf@.len(),
        r.consumed <= buf@.len(),
        can_desegment && buf@.len() >= 2 && le16(buf@[0], buf@[1]) > buf@.len() - 2 ==> {
            &&& r.consumed == 0
            &&& r.needs_more
            &&& r.batches@.len() == 0
        },
{
    if !can_desegment {
        let n = buf.len();
        let mut batches: Vec<BatchSpan> = Vec::new();
        batches.push(BatchSpan { start: 0, len: n });
        proof {
            assert(span_views(batches@) =~= seq![(0int, buf@.len() as int)]);
        }
        return Reassembly { batches, consumed: n, needs_more: false };
    }
    let mut batches: Vec<BatchSpan> = Vec::new();
    let mut off: usize = 0;
    let mut needs_more = false;
    let mut stop = false;
    while !stop && buf.len() - off >= 2
        invariant
            off <= buf.len(),
            stream_spans(buf@, 0) =~= span_views(batches@) + (if stop {
                Seq::<(int, int)>::empty()
            } else {
                stream_spans(buf@, off as int)
            }),
            stream_consumed(buf@, 0) == off + (if stop {
                0int
            } else {
                stream_consumed(buf@, off as int)
            }),
            stream_needs_more(buf@, 0) == (if stop {
                needs_more
            } else {
                stream_needs_more(buf@, off as int)
            }),
            !stop ==> !needs_more,
            forall|k: int|
                0 <= k < batches@.len() ==> (#[trigger] batches@[k]).start + batches@[k].len
                    <= buf@.len(),
        decreases buf@.len() - off + (if stop {
            0int
        } else {
            1int
        }),
    {
        let n = (buf[off] as usize) + 256 * (buf[off + 1] as usize);
        if n > buf.len() - off - 2 {
            needs_more = true;
            stop = true;
        } else {
            let ghost prior = batches@;
            batches.push(BatchSpan { start: off + 2, len: n });
            proof {
                assert(span_views(batches@) =~= span_views(prior).push(
                    ((off + 2) as int, n as int),
                ));
            }
            off = off + 2 + n;
        }
    }
    Reassembly { batches, consumed: off, needs_more }
}


/// The bytes a sequence of batch spans stands for: prefix and payload of
/// each.
pub open spec fn span_sum(spans: Seq<(int, int)>) -> int
    decreases spans.len(),
{
    if spans.len() == 0 {
        0
    } else {
        2 + spans[0].1 + span_sum(spans.drop_first())
    }
}

/// The reassembler's byte accounting: what one call consumes is exactly
/// the prefixed length of every complete batch it found, so consumed
/// bytes plus the unconsumed tail always equal the input length.
pub proof fn lemma_consumed_accounts_for_spans(buf: Seq<u8>, off: int)
    ensures
        stream_consumed(buf, off) == span_sum(stream_spans(buf, off)),
    decreases buf.len() - off,
{
    if off < 0 || off + 2 > buf.len() {
    } else {
        let n = le16(buf[off], buf[off + 1]);
        if n > buf.len() - off - 2 {
        } else {
            lemma_consumed_accounts_for_spans(buf, off + 2 + n);
            assert(stream_spans(buf, off).drop_first() =~= stream_spans(buf, off + 2 + n));
        }
    }
}

} // verus!
