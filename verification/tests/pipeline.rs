use zenoh_buffers::writer::HasWriter;
use zenoh_codec::WCodec;
use zenoh_codec::Zenoh080;
use zenoh_dissector::dissect::BatchDecode;
use zenoh_dissector::dissect::BatchInput;
use zenoh_dissector::dissect::MessageInput;
use zenoh_dissector::dissect::decode_packet;
use zenoh_dissector::dissect::failure_summary;
use zenoh_dissector::dissect::heuristic_accepts;
use zenoh_dissector::dissect::info_line;
use zenoh_dissector::dissect::port_resubscription;
use zenoh_dissector::dissect::render_packet;
use zenoh_dissector::dissect::u16_string;
use zenoh_dissector::tree::TreeEvent;
use zenoh_dissector::value::Value;
use zenoh_dissector::zenoh_impl::ZenohProtocol;
use zenoh_protocol::transport::Frame;
use zenoh_protocol::transport::KeepAlive;
use zenoh_protocol::transport::TransportBody;
use zenoh_protocol::transport::TransportMessage;

fn encode(msg: &TransportMessage) -> Vec<u8> {
    let mut buf: Vec<u8> = Vec::new();
    let codec = Zenoh080::new();
    let mut writer = buf.writer();
    codec.write(&mut writer, msg).expect("encoding succeeds");
    buf
}

fn keep_alive() -> TransportMessage {
    TransportMessage { body: TransportBody::KeepAlive(KeepAlive) }
}

fn empty_frame() -> TransportMessage {
    TransportMessage {
        body: TransportBody::Frame(Frame {
            reliability: Default::default(),
            sn: 42,
            ext_qos: zenoh_protocol::transport::frame::ext::QoSType::DEFAULT,
            payload: Vec::new(),
        }),
    }
}

/// Rebuilds the library's value model of a decoded message, as the host
/// glue does, for the message shapes these scenarios use.
fn value_of(msg: &TransportMessage) -> Value {
    let body = match &msg.body {
        TransportBody::KeepAlive(_) => Value::union(5, Value::structure(vec![])),
        TransportBody::Frame(f) => Value::union(
            6,
            Value::structure(vec![
                Value::leaf(&format!("{:?}", f.reliability)),
                Value::leaf(&format!("{:?}", f.sn)),
                Value::leaf(&format!("{:?}", f.ext_qos)),
                Value::repeated(Vec::new()),
            ]),
        ),
        other => panic!("scenario uses an unexpected message: {other:?}"),
    };
    Value::structure(vec![body])
}

fn convert(decodes: Vec<BatchDecode>) -> Vec<BatchInput> {
    decodes
        .into_iter()
        .map(|d| match d {
            BatchDecode::Failed => BatchInput::Failed,
            BatchDecode::Messages { messages, error } => BatchInput::Messages {
                messages: messages
                    .into_iter()
                    .map(|(m, len)| MessageInput {
                        value: value_of(&m),
                        summary: m.to_string(),
                        len,
                    })
                    .collect(),
                error,
            },
        })
        .collect()
}

fn frame_stream(payload: &[u8]) -> Vec<u8> {
    let mut out = vec![(payload.len() & 0xFF) as u8, (payload.len() >> 8) as u8];
    out.extend_from_slice(payload);
    out
}

#[test]
fn udp_datagram_with_one_message_consumes_all_and_summarizes() {
    // Scenario: one datagram holding a single minimal message.
    let bytes = encode(&keep_alive());
    let (reassembly, decodes) = decode_packet(&bytes, false, false);
    let batches = convert(decodes);
    let registry = ZenohProtocol::registry("zenoh");
    let d = render_packet(bytes.len(), false, &reassembly, &batches, &registry, "Zenoh Protocol");
    assert!(!d.failed);
    assert!(d.render_ok);
    assert_eq!(d.consumed, bytes.len());
    assert!(!d.needs_more);
    assert_ne!(d.summary, "Empty");
    assert_eq!(d.summary, "KeepAlive");
    assert!(heuristic_accepts(&d));
}

#[test]
fn framed_messages_decode_exactly_with_zero_leftover() {
    // Two encoded messages concatenated into one stream-framed batch.
    let one = encode(&keep_alive());
    let mut payload = one.clone();
    payload.extend_from_slice(&one);
    let bytes = frame_stream(&payload);
    let (reassembly, decodes) = decode_packet(&bytes, true, false);
    assert_eq!(reassembly.batches.len(), 1);
    assert_eq!(reassembly.consumed, bytes.len());
    assert!(!reassembly.needs_more);
    assert_eq!(decodes.len(), 1);
    match &decodes[0] {
        BatchDecode::Messages { messages, error } => {
            assert!(!error);
            assert_eq!(messages.len(), 2, "exactly one decode call per message");
            let total: usize = messages.iter().map(|(_, l)| *l as usize).sum();
            assert_eq!(total, payload.len(), "message lengths account for every byte");
        },
        BatchDecode::Failed => panic!("batch unexpectedly failed"),
    }
}

#[test]
fn tcp_segment_with_complete_batch_then_partial_prefix() {
    // Scenario: one complete framed batch, then a length prefix that
    // announces more bytes than remain.
    let one = encode(&keep_alive());
    let mut bytes = frame_stream(&one);
    let consumed_before_tail = bytes.len();
    bytes.extend_from_slice(&[0x09, 0x00, 0xAA]);
    let (reassembly, decodes) = decode_packet(&bytes, true, false);
    assert!(reassembly.needs_more);
    assert_eq!(reassembly.consumed, consumed_before_tail);
    let batches = convert(decodes);
    let registry = ZenohProtocol::registry("zenoh");
    let d = render_packet(bytes.len(), true, &reassembly, &batches, &registry, "Zenoh Protocol");
    assert!(!d.failed);
    assert!(d.render_ok);
    assert!(d.needs_more, "a desegmentation request is returned");
    assert_eq!(d.consumed, consumed_before_tail, "no additional bytes are consumed");
    // The first batch was fully rendered: root subtree, message subtree.
    let opens = d
        .events
        .iter()
        .filter(|e| matches!(e, TreeEvent::Open { .. }))
        .count();
    assert_eq!(opens, 2);
    assert_eq!(d.summary, "KeepAlive");
}

#[test]
fn compression_policy_falls_back_to_plain_decoding() {
    // Scenario: under the decompression policy, a frame's first byte
    // looks like a compressed-batch header but the bytes after it are not
    // a valid LZ4 block; initialization fails and is retried with
    // compression off, after which the batch decodes and renders fully.
    let msg = empty_frame();
    let payload = encode(&msg);
    assert_eq!(payload[0] & 0x01, 0x01, "frame header byte carries the compression bit");
    let bytes = frame_stream(&payload);
    let (reassembly, decodes) = decode_packet(&bytes, true, true);
    assert_eq!(decodes.len(), 1);
    match &decodes[0] {
        BatchDecode::Messages { messages, error } => {
            assert!(!error, "fallback decoding succeeds");
            assert_eq!(messages.len(), 1);
        },
        BatchDecode::Failed => panic!("initialization fallback was not taken"),
    }
    let batches = convert(decodes);
    let registry = ZenohProtocol::registry("zenoh");
    let d = render_packet(bytes.len(), true, &reassembly, &batches, &registry, "Zenoh Protocol");
    assert!(!d.failed, "the packet renders instead of reporting a batch error");
    assert!(d.render_ok);
    let texts = d
        .events
        .iter()
        .filter(|e| matches!(e, TreeEvent::Text { .. }))
        .count();
    assert_eq!(texts, 3, "the frame's scalar members are all rendered");
}

#[test]
fn undecodable_batch_fails_with_fallback_summary() {
    // A framed batch whose byte stream is not a valid message.
    let bytes = frame_stream(&[0xFF, 0xFF, 0xFF]);
    let (reassembly, decodes) = decode_packet(&bytes, true, false);
    assert_eq!(decodes.len(), 1);
    let saw_error = match &decodes[0] {
        BatchDecode::Messages { error, .. } => *error,
        BatchDecode::Failed => true,
    };
    assert!(saw_error);
    let batches = convert(decodes);
    let registry = ZenohProtocol::registry("zenoh");
    let d = render_packet(bytes.len(), true, &reassembly, &batches, &registry, "Zenoh Protocol");
    assert!(d.failed);
    assert_eq!(d.summary, failure_summary());
    assert!(!heuristic_accepts(&d), "heuristic mode turns every error into a miss");
}

#[test]
fn info_line_formats_ports_and_summary() {
    assert_eq!(u16_string(0), "0");
    assert_eq!(u16_string(7447), "7447");
    assert_eq!(u16_string(65535), "65535");
    assert_eq!(info_line(7447, 54321, "KeepAlive"), "7447 \u{2192} 54321 KeepAlive");
}

#[test]
fn port_change_swaps_subscription() {
    assert!(port_resubscription(7447, 7447).is_none());
    assert_eq!(port_resubscription(7447, 8000), Some((7447, 8000)));
}

#[test]
fn empty_batch_under_compression_policy_is_handled() {
    // An empty stream batch cannot hold a compressed-batch header; the
    // policy falls back to plain initialization and yields no messages.
    let bytes = [0x00u8, 0x00];
    let (reassembly, decodes) = decode_packet(&bytes, true, true);
    assert_eq!(reassembly.consumed, 2);
    assert_eq!(decodes.len(), 1);
    match &decodes[0] {
        BatchDecode::Messages { messages, error } => {
            assert!(!error);
            assert!(messages.is_empty());
        },
        BatchDecode::Failed => panic!("an empty batch decodes as zero messages"),
    }
}
