use zenoh_dissector::reassembly::reassemble;

#[test]
fn oversized_prefix_consumes_nothing_and_asks_for_more() {
    // The prefix announces 5 payload bytes, only 1 follows.
    let buf = [0x05u8, 0x00, 0xAA];
    let r = reassemble(&buf, true);
    assert_eq!(r.batches.len(), 0);
    assert_eq!(r.consumed, 0);
    assert!(r.needs_more);
}

#[test]
fn complete_batches_are_split_in_order() {
    // Two batches: 1 payload byte, then 2 payload bytes.
    let buf = [0x01u8, 0x00, 0xAA, 0x02, 0x00, 0xBB, 0xCC];
    let r = reassemble(&buf, true);
    assert_eq!(r.batches.len(), 2);
    assert_eq!((r.batches[0].start, r.batches[0].len), (2, 1));
    assert_eq!((r.batches[1].start, r.batches[1].len), (5, 2));
    assert_eq!(r.consumed, 7);
    assert!(!r.needs_more);
}

#[test]
fn complete_batch_then_partial_tail() {
    // One complete batch, then a prefix announcing more than remains.
    let buf = [0x01u8, 0x00, 0xAA, 0x05, 0x00, 0xBB];
    let r = reassemble(&buf, true);
    assert_eq!(r.batches.len(), 1);
    assert_eq!((r.batches[0].start, r.batches[0].len), (2, 1));
    assert_eq!(r.consumed, 3);
    assert!(r.needs_more);
}

#[test]
fn datagram_is_one_whole_batch() {
    let buf = [0x04u8, 0x04, 0x04];
    let r = reassemble(&buf, false);
    assert_eq!(r.batches.len(), 1);
    assert_eq!((r.batches[0].start, r.batches[0].len), (0, 3));
    assert_eq!(r.consumed, 3);
    assert!(!r.needs_more);
}

#[test]
fn short_tail_is_left_unconsumed_without_a_request() {
    // A lone byte cannot even hold a prefix.
    let buf = [0x01u8, 0x00, 0xAA, 0x07];
    let r = reassemble(&buf, true);
    assert_eq!(r.batches.len(), 1);
    assert_eq!(r.consumed, 3);
    assert!(!r.needs_more);
}

#[test]
fn little_endian_prefix_is_read_correctly() {
    let mut buf = vec![0x00u8, 0x01];
    buf.extend(std::iter::repeat(0xEE).take(256));
    let r = reassemble(&buf, true);
    assert_eq!(r.batches.len(), 1);
    assert_eq!((r.batches[0].start, r.batches[0].len), (2, 256));
    assert_eq!(r.consumed, 258);
}
