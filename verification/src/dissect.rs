use vstd::prelude::*;
use vstd::string::StringExecFns;
use crate::batch::ReadBatch;
use crate::batch::create_rbatch;
use crate::batch::decode_batch;
use crate::batch::rbatch_rest;
use crate::batch::sum_lens;
use crate::header_field::Registry;
use crate::reassembly::Reassembly;
use crate::reassembly::reassemble;
use crate::reassembly::span_views;
use crate::reassembly::stream_consumed;
use crate::reassembly::stream_needs_more;
use crate::reassembly::stream_spans;
use crate::schema::Schema;
use crate::tree::EventSpec;
use crate::tree::event_views;
use crate::tree::TreeEvent;
use crate::tree::events_of;
use crate::utils::SizedSummary;
use crate::utils::clipped;
use crate::value::Value;
use crate::value::conforms;
use zenoh_protocol::transport::TransportMessage;

verus! {

/// Cap on batch summaries in one packet's summary.
pub const MAX_PACKET_SUMMARY: usize = 5;

/// Cap on message summaries in one batch's summary.
pub const MAX_BATCH_SUMMARY: usize = 5;

/// One decoded batch, as the codec boundary reports it: unusable, or a
/// run of decoded messages possibly cut short by a codec failure.
pub enum BatchDecode {
    Failed,
    Messages { messages: Vec<(TransportMessage, u16)>, error: bool },
}

/// The payload bytes of one reassembled batch.
pub open spec fn batch_payload(buf: Seq<u8>, span: crate::reassembly::BatchSpan) -> Seq<u8> {
    buf.subrange(span.start as int, span.start + span.len)
}

/// What one decode-phase entry says of its batch when no decompression
/// stands between the payload and the codec: a batch is unusable only
/// when it overruns the codec's 16-bit length accounting; otherwise its
/// messages carry the codec's own consumed counts, the error flag is
/// raised exactly when the codec rejects the byte run, and a clean batch
/// is accounted to the last byte.
pub open spec fn decode_entry_ok(d: BatchDecode, payload: Seq<u8>) -> bool {
    match d {
        BatchDecode::Failed => payload.len() > u16::MAX,
        BatchDecode::Messages { messages, error } => {
            &&& sum_lens(messages@) <= payload.len()
            &&& (!error ==> sum_lens(messages@) == payload.len())
            &&& (error <==> !crate::batch::codec_run_ok(payload))
            &&& crate::batch::codec_lens_of(messages@, payload)
        },
    }
}

/// Whether a decoded batch aborts the packet: unusable, or cut short.
pub open spec fn bad_decode(b: BatchDecode) -> bool {
    match b {
        BatchDecode::Failed => true,
        BatchDecode::Messages { messages, error } => error,
    }
}

/// Reassembles `buf` and decodes every complete batch in order, stopping
/// after the first batch that cannot be initialized or whose decoding
/// fails. Without the decompression policy, a cleanly decoded batch's
/// message lengths account for its payload exactly.
pub fn decode_packet(buf: &[u8], can_desegment: bool, is_compression: bool) -> (r: (
    Reassembly,
    Vec<BatchDecode>,
))
    ensures
        can_desegment ==> {
            &&& span_views(r.0.batches@) =~= stream_spans(buf@, 0)
            &&& r.0.consumed == stream_consumed(buf@, 0)
            &&& r.0.needs_more == stream_needs_more(buf@, 0)
        },
        !can_desegment ==> {
            &&& span_views(r.0.batches@) =~= seq![(0int, buf@.len() as int)]
            &&& r.0.consumed == buf@.len()
            &&& !r.0.needs_more
        },
        forall|k: int|
            0 <= k < r.0.batches@.len() ==> (#[trigger] r.0.batches@[k]).start
                + r.0.batches@[k].len <= buf@.len(),
        r.0.consumed <= buf@.len(),
        r.1@.len() <= r.0.batches@.len(),
        r.1@.len() < r.0.batches@.len() ==> r.1@.len() > 0 && bad_decode(r.1@.last()),
        forall|i: int|
            0 <= i < r.1@.len() ==> match #[trigger] r.1@[i] {
                BatchDecode::Failed => true,
                BatchDecode::Messages { messages, error } => sum_lens(messages@) <= u16::MAX,
            },
        !is_compression ==> forall|i: int|
            0 <= i < r.1@.len() ==> decode_entry_ok(
                #[trigger] r.1@[i],
                batch_payload(buf@, r.0.batches@[i]),
            ),
{
    let reassembly = reassemble(buf, can_desegment);
    let mut out: Vec<BatchDecode> = Vec::new();
    let n = reassembly.batches.len();
    let mut i: usize = 0;
    let mut stopped = false;
    while !stopped && i < n
        invariant
            n == reassembly.batches@.len(),
            i <= n,
            out@.len() == i,
            stopped ==> i >= 1 && bad_decode(out@.last()),
            forall|k: int|
                0 <= k < reassembly.batches@.len() ==> (#[trigger] reassembly.batches@[k]).start
                    + reassembly.batches@[k].len <= buf@.len(),
            forall|j: int|
                0 <= j < i ==> match #[trigger] out@[j] {
                    BatchDecode::Failed => true,
                    BatchDecode::Messages { messages, error } => sum_lens(messages@)
                        <= u16::MAX,
                },
            !is_compression ==> forall|j: int|
                0 <= j < i ==> decode_entry_ok(
                    #[trigger] out@[j],
                    batch_payload(buf@, reassembly.batches@[j]),
                ),
        decreases n - i + (if stopped {
            0int
        } else {
            1int
        }),
    {
        let span = &reassembly.batches[i];
        let payload: &[u8] = crate::dissect::subslice(buf, span.start, span.len);
        match create_rbatch(payload, is_compression) {
            Err(_) => {
                out.push(BatchDecode::Failed);
                stopped = true;
            },
            Ok(mut rb) => {
                if rbatch_len_ok(&rb) {
                    let (messages, err) = decode_batch(&mut rb);
                    let error = err.is_some();
                    out.push(BatchDecode::Messages { messages, error });
                    if error {
                        stopped = true;
                    }
                } else {
                    out.push(BatchDecode::Failed);
                    stopped = true;
                }
            },
        }
        i += 1;
    }
    (reassembly, out)
}

/// Whether the batch is small enough for the codec's 16-bit length
/// accounting.
fn rbatch_len_ok(b: &ReadBatch) -> (r: bool)
    ensures
        r == (rbatch_rest(*b).len() <= u16::MAX),
{
    crate::batch::rbatch_len(b) <= u16::MAX as usize
}

/// The subrange `start..start+len` of `buf`.
pub fn subslice(buf: &[u8], start: usize, len: usize) -> (r: &[u8])
    requires
        start + len <= buf@.len(),
    ensures
        r@ == buf@.subrange(start as int, start as int + len as int),
{
    // Binding the slice length keeps the bound start + len <= usize::MAX
    // in scope for the range arithmetic below.
    let total = buf.len();
    vstd::slice::slice_subrange(buf, start, start + len)
}

/// One decoded message handed to the rendering phase: its value shaped by
/// the registry's schema, its one-line summary, and its encoded length.
pub struct MessageInput {
    pub value: Value,
    pub summary: String,
    pub len: u16,
}

/// One batch handed to the rendering phase.
pub enum BatchInput {
    Failed,
    Messages { messages: Vec<MessageInput>, error: bool },
}

/// The total byte count of a batch's messages.
pub open spec fn sum_msg_lens(ms: Seq<MessageInput>) -> int
    decreases ms.len(),
{
    if ms.len() == 0 {
        0
    } else {
        sum_msg_lens(ms.drop_last()) + ms.last().len
    }
}

/// The messages' one-line summaries.
pub open spec fn msg_summary_views(ms: Seq<MessageInput>) -> Seq<Seq<char>> {
    ms.map(|i: int, m: MessageInput| m.summary@)
}

/// What a summary holds after being offered `items` in order: the first
/// `cap` of them, each clipped.
pub open spec fn capped_items(items: Seq<Seq<char>>, cap: int) -> Seq<Seq<char>> {
    (if items.len() <= cap {
        items
    } else {
        items.take(cap)
    }).map(|i: int, s: Seq<char>| clipped(s))
}

/// The rendered line of a summary offered `items` with cap `cap`.
pub open spec fn summary_line(items: Seq<Seq<char>>, cap: int) -> Seq<char> {
    SizedSummary::rendered(capped_items(items, cap), items.len() > cap)
}

/// The summary line of one batch.
pub open spec fn batch_line(b: BatchInput) -> Seq<char> {
    match b {
        BatchInput::Failed => SizedSummary::rendered(Seq::empty(), false),
        BatchInput::Messages { messages, error } => summary_line(
            msg_summary_views(messages@),
            MAX_BATCH_SUMMARY as int,
        ),
    }
}

/// The summary lines of a packet's batches.
pub open spec fn batch_lines(bs: Seq<BatchInput>) -> Seq<Seq<char>> {
    bs.map(|i: int, b: BatchInput| batch_line(b))
}

/// The packet's summary when nothing failed: on a datagram the single
/// batch's line as it stands, on a stream the batch lines folded once
/// more under the packet cap.
pub open spec fn packet_line(bs: Seq<BatchInput>, can_desegment: bool) -> Seq<char> {
    if !can_desegment {
        if bs.len() > 0 {
            batch_line(bs[0])
        } else {
            SizedSummary::rendered(Seq::empty(), false)
        }
    } else {
        summary_line(batch_lines(bs), MAX_PACKET_SUMMARY as int)
    }
}

/// Whether a batch aborts the packet: unusable, or cut short by the codec.
pub open spec fn bad_batch(b: BatchInput) -> bool {
    match b {
        BatchInput::Failed => true,
        BatchInput::Messages { messages, error } => error,
    }
}

/// Whether some batch aborts the packet.
pub open spec fn spec_failed(bs: Seq<BatchInput>) -> bool {
    exists|i: int| 0 <= i < bs.len() && bad_batch(#[trigger] bs[i])
}

/// The events of one batch's messages: each message rendered at the
/// packet offset where its bytes start.
pub open spec fn batch_events(
    ms: Seq<MessageInput>,
    schema: Schema,
    prefix: Seq<char>,
    start: int,
) -> Seq<EventSpec>
    decreases ms.len(),
{
    if ms.len() == 0 {
        Seq::empty()
    } else {
        batch_events(ms.drop_last(), schema, prefix, start) + events_of(
            ms.last().value,
            schema,
            prefix,
            start + sum_msg_lens(ms.drop_last()),
            ms.last().len as int,
        )
    }
}

/// The message events of a whole packet: batch after batch until one is
/// unusable (nothing of it rendered) or cut short (its decoded messages
/// rendered, the rest of the packet dropped).
pub open spec fn packet_msg_events(
    bs: Seq<BatchInput>,
    spans: Seq<crate::reassembly::BatchSpan>,
    schema: Schema,
    prefix: Seq<char>,
) -> Seq<EventSpec>
    decreases bs.len(),
{
    if bs.len() == 0 || spans.len() == 0 {
        Seq::empty()
    } else {
        match bs[0] {
            BatchInput::Failed => Seq::empty(),
            BatchInput::Messages { messages, error } => batch_events(
                messages@,
                schema,
                prefix,
                spans[0].start as int,
            ) + (if error {
                Seq::empty()
            } else {
                packet_msg_events(bs.drop_first(), spans.drop_first(), schema, prefix)
            }),
        }
    }
}

/// A batch acceptable to the rendering phase: its messages conform to the
/// registry's schema and their lengths fit the transport's 16-bit frame.
pub open spec fn batch_input_ok(b: BatchInput, schema: Schema) -> bool {
    match b {
        BatchInput::Failed => true,
        BatchInput::Messages { messages, error } => {
            &&& sum_msg_lens(messages@) <= u16::MAX
            &&& forall|j: int|
                0 <= j < messages@.len() ==> conforms((#[trigger] messages@[j]).value, schema)
        },
    }
}

/// The host-visible fallback summary for a packet that failed to decode.
pub open spec fn failure_text() -> Seq<char> {
    "Failed to decode possibly due to the experimental compression preference."@
}

/// The fallback summary line shown when a packet fails to decode.
pub fn failure_summary() -> (r: String)
    ensures
        r@ == failure_text(),
{
    "Failed to decode possibly due to the experimental compression preference.".to_owned()
}

/// One dissected packet: the emitted tree events, the one-line summary,
/// the bytes consumed, the desegmentation request, and whether decoding
/// failed. `render_ok` records that no message hit a rendering error.
pub struct Dissection {
    pub events: Vec<TreeEvent>,
    pub summary: String,
    pub consumed: usize,
    pub needs_more: bool,
    pub failed: bool,
    pub render_ok: bool,
}

/// The re-subscription a changed port preference requires: the currently
/// subscribed port to drop and the newly configured one to add, or
/// nothing when the preference is unchanged.
pub fn port_resubscription(current: u16, configured: u16) -> (r: Option<(u16, u16)>)
    ensures
        (current == configured) <==> (r is None),
        r matches Some(p) ==> p == (current, configured),
{
    if current != configured {
        Some((current, configured))
    } else {
        None
    }
}

/// Heuristic dissection must never surface an error: a failed packet is
/// simply not ours.
pub fn heuristic_accepts(d: &Dissection) -> (r: bool)
    ensures
        r == !d.failed,
{
    !d.failed
}

/// Renders a decoded packet: opens the protocol root over the whole
/// input, renders every decoded message at its byte offset, folds message
/// summaries per batch and batch summaries per packet, and reports the
/// reassembler's byte accounting. A failed batch aborts what follows it
/// but keeps everything already rendered, and turns the summary into the
/// fallback line.
#[verifier::loop_isolation(false)]
pub fn render_packet(
    input_len: usize,
    can_desegment: bool,
    reassembly: &Reassembly,
    batches: &Vec<BatchInput>,
    registry: &Registry,
    root_label: &str,
) -> (r: Dissection)
    requires
        registry.wf(),
        batches@.len() <= reassembly.batches@.len(),
        input_len <= usize::MAX - 65536,
        forall|i: int|
            0 <= i < reassembly.batches@.len() ==> (#[trigger] reassembly.batches@[i]).start
                + reassembly.batches@[i].len <= input_len,
        forall|i: int|
            0 <= i < batches@.len() ==> batch_input_ok(#[trigger] batches@[i], registry.schema),
    ensures
        r.needs_more == reassembly.needs_more,
        r.consumed == (if can_desegment {
            reassembly.consumed
        } else {
            input_len
        }),
        r.failed == spec_failed(batches@),
        r.summary@ == (if spec_failed(batches@) {
            failure_text()
        } else {
            packet_line(batches@, can_desegment)
        }),
        r.render_ok,
        event_views(r.events@) =~= seq![
            EventSpec::Open {
                path: registry.prefix@,
                label: root_label@,
                start: 0,
                length: input_len as int,
            },
        ] + packet_msg_events(batches@, reassembly.batches@, registry.schema, registry.prefix@)
            + seq![EventSpec::Close],
{
    let ghost schema = registry.schema;
    let ghost prefix = registry.prefix@;
    let ghost root_ev = EventSpec::Open {
        path: registry.prefix@,
        label: root_label@,
        start: 0,
        length: input_len as int,
    };
    let mut events: Vec<TreeEvent> = Vec::new();
    events.push(
        TreeEvent::Open {
            path: registry.prefix.clone(),
            label: root_label.to_owned(),
            start: 0,
            length: input_len,
        },
    );
    proof {
        assert(event_views(events@) =~= seq![root_ev]);
    }
    let mut render_ok = true;
    let mut failed = false;
    let mut packet_summary = SizedSummary::new(MAX_PACKET_SUMMARY);
    let mut datagram_line: Option<String> = None;
    let nb = batches.len();
    let mut bi: usize = 0;
    proof {
        assert(batches@.skip(0) =~= batches@);
        assert(reassembly.batches@.skip(0) =~= reassembly.batches@);
        assert(batches@.take(0) =~= Seq::<BatchInput>::empty());
        assert(capped_items(batch_lines(Seq::<BatchInput>::empty()), MAX_PACKET_SUMMARY as int)
            =~= Seq::<Seq<char>>::empty());
    }
    while !failed && bi < nb
        invariant
            bi <= nb,
            failed == spec_failed(batches@.take(bi as int)),
            render_ok,
            render_ok ==> seq![root_ev] + packet_msg_events(
                batches@,
                reassembly.batches@,
                schema,
                prefix,
            ) =~= event_views(events@) + (if failed {
                Seq::<EventSpec>::empty()
            } else {
                packet_msg_events(
                    batches@.skip(bi as int),
                    reassembly.batches@.skip(bi as int),
                    schema,
                    prefix,
                )
            }),
            can_desegment && !failed ==> packet_summary.items() =~= capped_items(
                batch_lines(batches@.take(bi as int)),
                MAX_PACKET_SUMMARY as int,
            ),
            can_desegment && !failed ==> packet_summary.overflowed() == (bi
                > MAX_PACKET_SUMMARY),
            packet_summary.capacity() == MAX_PACKET_SUMMARY,
            !can_desegment && !failed && bi >= 1 ==> (datagram_line matches Some(l) && l@
                == batch_line(batches@[0])),
            bi == 0 ==> datagram_line is None,
        decreases nb - bi + (if failed {
            0int
        } else {
            1int
        }),
    {
        proof {
            assert(batches@.skip(bi as int)[0] == batches@[bi as int]);
            assert(batches@.skip(bi as int).drop_first() =~= batches@.skip(bi as int + 1));
            assert(reassembly.batches@.skip(bi as int).drop_first() =~= reassembly.batches@.skip(
                bi as int + 1,
            ));
            assert(reassembly.batches@.skip(bi as int)[0] == reassembly.batches@[bi as int]);
            assert(batches@.take(bi as int + 1).drop_last() =~= batches@.take(bi as int));
            assert(batches@.take(bi as int + 1).last() == batches@[bi as int]);
        }
        match &batches[bi] {
            BatchInput::Failed => {
                failed = true;
                proof {
                    assert(bad_batch(batches@[bi as int]));
                    assert(spec_failed(batches@.take(bi as int + 1)));
                    assert(packet_msg_events(
                        batches@.skip(bi as int),
                        reassembly.batches@.skip(bi as int),
                        schema,
                        prefix,
                    ) =~= Seq::<EventSpec>::empty());
                }
            },
            BatchInput::Messages { messages, error } => {
                let span_start = reassembly.batches[bi].start;
                let ghost span_start_i = span_start as int;
                let mut batch_summary = SizedSummary::new(MAX_BATCH_SUMMARY);
                let ghost base = event_views(events@);
                let mut start: usize = span_start;
                let nm = messages.len();
                let mut mi: usize = 0;
                while mi < nm
                    invariant
                        mi <= nm,
                        nm == messages@.len(),
                        start == span_start + sum_msg_lens(messages@.take(mi as int)),
                        render_ok,
                        render_ok ==> event_views(events@) =~= base + batch_events(
                            messages@.take(mi as int),
                            schema,
                            prefix,
                            span_start_i,
                        ),
                        batch_summary.items() =~= capped_items(
                            msg_summary_views(messages@.take(mi as int)),
                            MAX_BATCH_SUMMARY as int,
                        ),
                        batch_summary.overflowed() == (mi > MAX_BATCH_SUMMARY),
                        batch_summary.capacity() == MAX_BATCH_SUMMARY,
                    decreases nm - mi,
                {
                    proof {
                        assert(messages@.take(mi as int + 1).drop_last() =~= messages@.take(
                            mi as int,
                        ));
                        assert(messages@.take(mi as int + 1).last() == messages@[mi as int]);
                        assert(sum_msg_lens(messages@.take(mi as int + 1)) == sum_msg_lens(
                            messages@.take(mi as int),
                        ) + messages@[mi as int].len);
                        assert(batch_input_ok(batches@[bi as int], schema));
                        assert(messages@.take(nm as int) =~= messages@);
                        assert(sum_msg_lens(messages@) <= u16::MAX);
                        lemma_sum_msg_lens_mono(messages@, mi as int + 1);
                        assert(conforms(messages@[mi as int].value, schema));
                    }
                    proof {
                        crate::laws::lemma_registry_lookups_ok(*registry, messages@[mi as int].value);
                    }
                    let m = &messages[mi];
                    let res = crate::tree::render_value(
                        &m.value,
                        &registry.schema,
                        registry.prefix.as_str(),
                        start,
                        m.len as usize,
                        &registry.hf_map,
                        &registry.subtrees,
                        &mut events,
                    );
                    if res.is_err() {
                        render_ok = false;
                    }
                    let line = m.summary.clone();
                    let ghost line_view = line@;
                    batch_summary.append(
                        (|| -> (s: String)
                            ensures
                                s@ == line_view,
                            { line }),
                    );
                    proof {
                        assert(msg_summary_views(messages@.take(mi as int + 1)) =~= msg_summary_views(
                            messages@.take(mi as int),
                        ).push(line_view));
                        lemma_capped_step(
                            msg_summary_views(messages@.take(mi as int)),
                            line_view,
                            MAX_BATCH_SUMMARY as int,
                        );
                    }
                    start = start + m.len as usize;
                    mi += 1;
                }
                proof {
                    assert(messages@.take(nm as int) =~= messages@);
                }
                let rendered_line = batch_summary.render();
                proof {
                    assert(rendered_line@ == batch_line(batches@[bi as int]));
                }
                if !can_desegment {
                    if bi == 0 {
                        datagram_line = Some(rendered_line);
                    }
                } else if !*error {
                    let ghost rv = rendered_line@;
                    let ghost prior_items = packet_summary.items();
                    packet_summary.append(
                        (|| -> (s: String)
                            ensures
                                s@ == rv,
                            { rendered_line }),
                    );
                    proof {
                        assert(batch_lines(batches@.take(bi as int + 1)) =~= batch_lines(
                            batches@.take(bi as int),
                        ).push(rv));
                        lemma_capped_step(
                            batch_lines(batches@.take(bi as int)),
                            rv,
                            MAX_PACKET_SUMMARY as int,
                        );
                    }
                }
                proof {
                    assert(packet_msg_events(
                        batches@.skip(bi as int),
                        reassembly.batches@.skip(bi as int),
                        schema,
                        prefix,
                    ) =~= batch_events(
                        messages@,
                        schema,
                        prefix,
                        reassembly.batches@[bi as int].start as int,
                    ) + (if *error {
                        Seq::<EventSpec>::empty()
                    } else {
                        packet_msg_events(
                            batches@.skip(bi as int + 1),
                            reassembly.batches@.skip(bi as int + 1),
                            schema,
                            prefix,
                        )
                    }));
                }
                if *error {
                    failed = true;
                    proof {
                        assert(bad_batch(batches@[bi as int]));
                        assert(spec_failed(batches@.take(bi as int + 1)));
                    }
                } else {
                    proof {
                        if spec_failed(batches@.take(bi as int + 1)) {
                            let w = choose|w: int|
                                0 <= w < batches@.take(bi as int + 1).len() && #[trigger] bad_batch(
                                    batches@.take(bi as int + 1)[w],
                                );
                            assert(bad_batch(batches@.take(bi as int)[w]));
                        }
                    }
                }
            },
        }
        bi += 1;
    }
    proof {
        if failed {
            let w = choose|w: int|
                0 <= w < batches@.take(bi as int).len() && #[trigger] bad_batch(
                    batches@.take(bi as int)[w],
                );
            assert(bad_batch(batches@[w]));
        } else {
            assert(batches@.take(bi as int) =~= batches@);
            assert(batches@.skip(bi as int) =~= Seq::<BatchInput>::empty());
            assert(batch_lines(batches@).len() == batches@.len());
            assert(packet_msg_events(
                batches@.skip(bi as int),
                reassembly.batches@.skip(bi as int),
                schema,
                prefix,
            ) =~= Seq::<EventSpec>::empty());
        }
    }
    events.push(TreeEvent::Close);
    let summary: String;
    if failed {
        summary = failure_summary();
    } else if !can_desegment {
        match datagram_line {
            Some(l) => {
                summary = l;
            },
            None => {
                summary = "Empty".to_owned();
            },
        }
    } else {
        summary = packet_summary.render();
    }
    Dissection {
        events,
        summary,
        consumed: if can_desegment {
            reassembly.consumed
        } else {
            input_len
        },
        needs_more: reassembly.needs_more,
        failed,
        render_ok,
    }
}

/// The character of one decimal digit.
pub open spec fn digit_char(d: int) -> char {
    if d == 0 {
        '0'
    } else if d == 1 {
        '1'
    } else if d == 2 {
        '2'
    } else if d == 3 {
        '3'
    } else if d == 4 {
        '4'
    } else if d == 5 {
        '5'
    } else if d == 6 {
        '6'
    } else if d == 7 {
        '7'
    } else if d == 8 {
        '8'
    } else {
        '9'
    }
}

/// The decimal digits of `n`, most significant first.
pub open spec fn dec_of(n: int) -> Seq<char>
    decreases n,
{
    if n < 10 {
        seq![digit_char(n)]
    } else {
        dec_of(n / 10) + seq![digit_char(n % 10)]
    }
}

/// One decimal digit as text.
fn digit_str(d: u16) -> (r: &'static str)
    requires
        d < 10,
    ensures
        r@ =~= seq![digit_char(d as int)],
{
    proof {
        reveal_strlit("0");
        reveal_strlit("1");
        reveal_strlit("2");
        reveal_strlit("3");
        reveal_strlit("4");
        reveal_strlit("5");
        reveal_strlit("6");
        reveal_strlit("7");
        reveal_strlit("8");
        reveal_strlit("9");
    }
    match d {
        0 => "0",
        1 => "1",
        2 => "2",
        3 => "3",
        4 => "4",
        5 => "5",
        6 => "6",
        7 => "7",
        8 => "8",
        _ => "9",
    }
}

/// A port number in decimal.
pub fn u16_string(n: u16) -> (r: String)
    ensures
        r@ == dec_of(n as int),
    decreases n,
{
    if n < 10 {
        digit_str(n).to_owned()
    } else {
        u16_string(n / 10).concat(digit_str(n % 10))
    }
}

/// The info-column line for one packet: source port, arrow, destination
/// port, then the packet summary or the fallback line.
pub open spec fn info_text(src: int, dst: int, text: Seq<char>) -> Seq<char> {
    dec_of(src) + " \u{2192} "@ + dec_of(dst) + " "@ + text
}

/// Builds the info-column line from the ports and a summary.
pub fn info_line(src_port: u16, dst_port: u16, text: &str) -> (r: String)
    ensures
        r@ == info_text(src_port as int, dst_port as int, text@),
{
    let r = u16_string(src_port).concat(" \u{2192} ").concat(u16_string(dst_port).as_str()).concat(
        " ",
    ).concat(text);
    proof {
        assert(r@ =~= info_text(src_port as int, dst_port as int, text@));
    }
    r
}

/// Prefix sums of message lengths never pass the total.
proof fn lemma_sum_msg_lens_mono(ms: Seq<MessageInput>, k: int)
    requires
        0 <= k <= ms.len(),
    ensures
        sum_msg_lens(ms.take(k)) <= sum_msg_lens(ms),
        sum_msg_lens(ms.take(k)) >= 0,
    decreases ms.len() - k,
{
    lemma_sum_msg_lens_nonneg(ms.take(k));
    if k < ms.len() {
        lemma_sum_msg_lens_mono(ms, k + 1);
        assert(ms.take(k + 1).drop_last() =~= ms.take(k));
        assert(ms.take(k + 1).last().len >= 0);
    } else {
        assert(ms.take(k) =~= ms);
    }
}

/// Message length sums are non-negative.
proof fn lemma_sum_msg_lens_nonneg(ms: Seq<MessageInput>)
    ensures
        sum_msg_lens(ms) >= 0,
    decreases ms.len(),
{
    if ms.len() > 0 {
        lemma_sum_msg_lens_nonneg(ms.drop_last());
    }
}

/// How one more offered item changes a capped summary's contents.
proof fn lemma_capped_step(items: Seq<Seq<char>>, next: Seq<char>, cap: int)
    requires
        cap >= 0,
    ensures
        items.len() < cap ==> capped_items(items.push(next), cap) =~= capped_items(
            items,
            cap,
        ).push(clipped(next)),
        items.len() >= cap ==> capped_items(items.push(next), cap) =~= capped_items(items, cap),
{
    let grown = items.push(next);
    if items.len() < cap {
        assert(capped_items(grown, cap) =~= capped_items(items, cap).push(clipped(next)));
    } else {
        assert(grown.take(cap) =~= (if items.len() <= cap {
            items
        } else {
            items.take(cap)
        }));
        assert(capped_items(grown, cap) =~= capped_items(items, cap));
    }
}

} // verus!
