use vstd::prelude::*;
use zenoh_buffers::ZSlice;
use zenoh_protocol::transport::TransportMessage;
use zenoh_transport::common::batch::BatchConfig;
use zenoh_transport::common::batch::Decode;
use zenoh_transport::common::batch::RBatch;

verus! {

#[verifier::external_type_specification]
#[verifier::external_body]
pub struct ExTransportMessage(TransportMessage);

/// A batch being read: zenoh-transport's `RBatch` over a `ZSlice`, held
/// opaquely; its contents are spoken of through `rbatch_rest` and
/// `rbatch_compressed` alone.
#[verifier::external_body]
pub struct ReadBatch {
    inner: RBatch<ZSlice>,
}

/// The bytes a read batch still holds for decoding, front first.
pub uninterp spec fn rbatch_rest(b: ReadBatch) -> Seq<u8>;

/// Whether the batch was created under the decompression policy.
pub uninterp spec fn rbatch_compressed(b: ReadBatch) -> bool;

/// What the transport codec does with the bytes at the front of a batch:
/// the count of bytes one successful decode consumes, or nothing when the
/// bytes do not begin with a parseable message. The codec's read path is a
/// pure parser: its outcome depends on the buffer contents alone.
pub uninterp spec fn codec_step_of(bytes: Seq<u8>) -> Option<int>;

/// Whether the codec parses the byte run completely: message after
/// message, each consuming at least one byte, until nothing remains.
pub open spec fn codec_run_ok(bytes: Seq<u8>) -> bool
    decreases bytes.len(),
{
    if bytes.len() == 0 {
        true
    } else {
        match codec_step_of(bytes) {
            Some(k) => 1 <= k <= bytes.len() && codec_run_ok(bytes.skip(k)),
            None => false,
        }
    }
}

/// Whether each message's recorded length is exactly what the codec
/// consumes at the message's position in the byte run.
pub open spec fn codec_lens_of(ms: Seq<(TransportMessage, u16)>, bytes: Seq<u8>) -> bool
    decreases ms.len(),
{
    if ms.len() == 0 {
        true
    } else {
        codec_step_of(bytes) == Some(ms[0].1 as int) && codec_lens_of(
            ms.drop_first(),
            bytes.skip(ms[0].1 as int),
        )
    }
}

/// A batch unusable even after the no-compression fallback; it aborts the
/// rest of the current packet only.
#[derive(Debug)]
pub struct BatchInitError;

/// One message failed to decode; it aborts the rest of the current batch.
#[derive(Debug)]
pub struct CodecError;

/// Relies on zenoh-transport's `RBatch::new` (with a `BatchConfig` of
/// maximal mtu and no stream framing) and zenoh-buffers' `ZSlice::from`:
/// the new batch holds exactly the given bytes and remembers the policy.
#[verifier::external_body]
fn rbatch_new(bytes: &[u8], is_compression: bool) -> (r: ReadBatch)
    ensures
        rbatch_rest(r) == bytes@,
        rbatch_compressed(r) == is_compression,
{
    let config = BatchConfig { mtu: u16::MAX, is_streamed: false, is_compression };
    ReadBatch { inner: RBatch::new(config, ZSlice::from(bytes.to_vec())) }
}

/// Relies on zenoh-transport's `RBatch::initialize`: without the
/// decompression policy it leaves the buffer untouched and succeeds; under
/// the policy it splits off a one-byte batch header (panicking on an empty
/// buffer, which the precondition excludes) and may fail decompressing.
#[verifier::external_body]
fn rbatch_initialize(b: &mut ReadBatch) -> (r: bool)
    requires
        rbatch_compressed(*old(b)) ==> rbatch_rest(*old(b)).len() >= 1,
    ensures
        rbatch_compressed(*final(b)) == rbatch_compressed(*old(b)),
        !rbatch_compressed(*old(b)) ==> r && rbatch_rest(*final(b)) == rbatch_rest(*old(b)),
{
    b.inner.initialize(|| vec![0u8; u16::MAX as usize].into_boxed_slice()).is_ok()
}

/// Relies on zenoh-transport's `RBatch::len`: the count of bytes still
/// held for decoding.
#[verifier::external_body]
pub(crate) fn rbatch_len(b: &ReadBatch) -> (r: usize)
    ensures
        r == rbatch_rest(*b).len(),
{
    b.inner.len()
}

/// Relies on zenoh-transport's `RBatch::is_empty`.
#[verifier::external_body]
fn rbatch_is_empty(b: &ReadBatch) -> (r: bool)
    ensures
        r == (rbatch_rest(*b).len() == 0),
{
    b.inner.is_empty()
}

/// Relies on zenoh-transport's `Decode<(TransportMessage, BatchSize)>` for
/// `RBatch`: one message is read from the front of the buffer by a pure
/// parser, and the consumed byte count is the difference of the buffer
/// lengths; success and count are therefore the function `codec_step_of`
/// of the buffered bytes.
#[verifier::external_body]
fn rbatch_decode(b: &mut ReadBatch) -> (r: Result<(TransportMessage, u16), CodecError>)
    requires
        rbatch_rest(*old(b)).len() <= u16::MAX,
    ensures
        rbatch_compressed(*final(b)) == rbatch_compressed(*old(b)),
        r matches Ok((m, k)) ==> k <= rbatch_rest(*old(b)).len() && rbatch_rest(*final(b))
            == rbatch_rest(*old(b)).skip(k as int),
        r is Err ==> rbatch_rest(*final(b)).len() <= rbatch_rest(*old(b)).len(),
        r is Ok <==> codec_step_of(rbatch_rest(*old(b))) is Some,
        r matches Ok((m, k)) ==> codec_step_of(rbatch_rest(*old(b))) == Some(k as int),
{
    let res: Result<(TransportMessage, u16), _> = (&mut b.inner).decode();
    res.map_err(|_| CodecError)
}

/// Builds a readable batch from one batch's payload bytes under the given
/// decompression policy. If initialization under the policy fails — or
/// cannot be attempted, as on an empty batch that cannot hold the batch
/// header — it is retried exactly once with compression forced off. The
/// uncompressed attempt cannot fail, so the result is always usable: a
/// batch produced without decompression holds exactly the payload bytes,
/// and a decompressed batch arises only under the policy.
pub fn create_rbatch(batch: &[u8], is_compression: bool) -> (r: Result<
    ReadBatch,
    BatchInitError,
>)
    ensures
        r is Ok,
        r matches Ok(b) ==> (rbatch_compressed(b) ==> is_compression),
        r matches Ok(b) ==> (!rbatch_compressed(b) ==> rbatch_rest(b) == batch@),
        !is_compression ==> (r matches Ok(b) && !rbatch_compressed(b)),
{
    if is_compression && batch.len() > 0 {
        let mut rb = rbatch_new(batch, true);
        if rbatch_initialize(&mut rb) {
            return Ok(rb);
        }
    }
    let mut plain = rbatch_new(batch, false);
    if !rbatch_initialize(&mut plain) {
        return Err(BatchInitError);
    }
    Ok(plain)
}

/// The total byte count of a decoded message sequence.
pub open spec fn sum_lens(ms: Seq<(TransportMessage, u16)>) -> int
    decreases ms.len(),
{
    if ms.len() == 0 {
        0
    } else {
        sum_lens(ms.drop_last()) + ms.last().1
    }
}

/// Decodes messages from the front of `b` until it is exhausted or the
/// codec rejects (or fails to advance past) the remaining bytes. An empty
/// batch decodes cleanly as no messages; no error is reported exactly when
/// the codec parses the whole byte run, in which case the batch is decoded
/// to the last byte; and every decoded message's length is exactly what
/// the codec consumed at its position.
pub fn decode_batch(b: &mut ReadBatch) -> (r: (
    Vec<(TransportMessage, u16)>,
    Option<CodecError>,
))
    requires
        rbatch_rest(*old(b)).len() <= u16::MAX,
    ensures
        rbatch_rest(*old(b)).len() == 0 ==> r.1 is None && r.0@.len() == 0,
        r.1 is None <==> codec_run_ok(rbatch_rest(*old(b))),
        codec_lens_of(r.0@, rbatch_rest(*old(b))),
        r.1 is None ==> sum_lens(r.0@) == rbatch_rest(*old(b)).len() && rbatch_rest(
            *final(b),
        ).len() == 0,
        sum_lens(r.0@) + rbatch_rest(*final(b)).len() <= rbatch_rest(*old(b)).len(),
{
    let mut msgs: Vec<(TransportMessage, u16)> = Vec::new();
    proof {
        assert(rbatch_rest(*old(b)).skip(0) =~= rbatch_rest(*old(b)));
    }
    loop
        invariant
            sum_lens(msgs@) + rbatch_rest(*b).len() == rbatch_rest(*old(b)).len(),
            rbatch_rest(*b).len() <= u16::MAX,
            sum_lens(msgs@) >= 0,
            rbatch_rest(*b) == rbatch_rest(*old(b)).skip(sum_lens(msgs@)),
            codec_lens_of(msgs@, rbatch_rest(*old(b))),
            codec_run_ok(rbatch_rest(*old(b))) == codec_run_ok(rbatch_rest(*b)),
            rbatch_rest(*old(b)).len() == 0 ==> msgs@.len() == 0,
        decreases rbatch_rest(*b).len(),
    {
        if rbatch_is_empty(b) {
            return (msgs, None);
        }
        let ghost before = msgs@;
        let ghost rest = rbatch_rest(*b);
        match rbatch_decode(b) {
            Ok((m, k)) => {
                if k == 0 {
                    proof {
                        assert(!codec_run_ok(rest));
                    }
                    return (msgs, Some(CodecError));
                }
                proof {
                    lemma_codec_lens_push(before, rbatch_rest(*old(b)), (m, k));
                    assert(rest.skip(k as int) =~= rbatch_rest(*old(b)).skip(
                        sum_lens(before) + k,
                    ));
                }
                msgs.push((m, k));
                proof {
                    assert(msgs@.drop_last() =~= before);
                }
            },
            Err(e) => {
                proof {
                    assert(!codec_run_ok(rest));
                }
                return (msgs, Some(e));
            },
        }
    }
}

/// Partial sums of recorded message lengths are never negative.
proof fn lemma_sum_lens_nonneg(ms: Seq<(TransportMessage, u16)>)
    ensures
        sum_lens(ms) >= 0,
    decreases ms.len(),
{
    if ms.len() > 0 {
        lemma_sum_lens_nonneg(ms.drop_last());
    }
}

/// A length sum decomposes at the front as well as at the back.
proof fn lemma_sum_lens_head(ms: Seq<(TransportMessage, u16)>)
    requires
        ms.len() > 0,
    ensures
        sum_lens(ms) == ms[0].1 + sum_lens(ms.drop_first()),
    decreases ms.len(),
{
    if ms.len() == 1 {
        assert(ms.drop_last() =~= Seq::<(TransportMessage, u16)>::empty());
        assert(ms.drop_first() =~= Seq::<(TransportMessage, u16)>::empty());
    } else {
        lemma_sum_lens_head(ms.drop_last());
        assert(ms.drop_last()[0] == ms[0]);
        assert(ms.drop_last().drop_first() =~= ms.drop_first().drop_last());
        assert(ms.drop_first().last() == ms.last());
    }
}

/// Appending one message whose recorded length is the codec's step at the
/// end of the run keeps the length record exact.
proof fn lemma_codec_lens_push(
    ms: Seq<(TransportMessage, u16)>,
    bytes: Seq<u8>,
    m: (TransportMessage, u16),
)
    requires
        codec_lens_of(ms, bytes),
        sum_lens(ms) <= bytes.len(),
        codec_step_of(bytes.skip(sum_lens(ms))) == Some(m.1 as int),
    ensures
        codec_lens_of(ms.push(m), bytes),
    decreases ms.len(),
{
    lemma_sum_lens_nonneg(ms);
    let grown = ms.push(m);
    if ms.len() == 0 {
        assert(bytes.skip(0) =~= bytes);
        assert(grown[0] == m);
        assert(grown.drop_first() =~= Seq::<(TransportMessage, u16)>::empty());
        assert(codec_step_of(bytes) == Some(m.1 as int));
        assert(codec_lens_of(grown.drop_first(), bytes.skip(grown[0].1 as int)));
    } else {
        assert(grown[0] == ms[0]);
        assert(grown.drop_first() =~= ms.drop_first().push(m));
        lemma_sum_lens_head(ms);
        lemma_sum_lens_nonneg(ms.drop_first());
        assert(bytes.skip(ms[0].1 as int).skip(sum_lens(ms.drop_first())) =~= bytes.skip(
            sum_lens(ms),
        ));
        lemma_codec_lens_push(ms.drop_first(), bytes.skip(ms[0].1 as int), m);
        assert(codec_step_of(bytes) == Some(ms[0].1 as int));
        assert(codec_lens_of(ms.drop_first().push(m), bytes.skip(ms[0].1 as int)));
        assert(codec_lens_of(grown.drop_first(), bytes.skip(grown[0].1 as int)));
    }
}

} // verus!
