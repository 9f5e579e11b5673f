use teltonika::encode::{
    datagram_ack_bytes, frame_ack_bytes, imei_approval_bytes, imei_denial_bytes,
};
use teltonika::parser::{tcp_frame, udp_datagram};
use teltonika::stream::{FeedOutcome, Reassembler, ReassemblyState, TeltonikaStream};
use teltonika::{DecodeError, TeltonikaFrame};

#[test]
fn stream_new_uses_default_capacities() {
    let stream = TeltonikaStream::new(vec![0u8; 4]);
    assert_eq!(stream.imei_buf_capacity(), 128);
    assert_eq!(stream.packet_buf_capacity(), 2048);
    assert_eq!(stream.inner(), &vec![0u8; 4]);
}

#[test]
fn stream_with_capacity_keeps_capacities() {
    let mut stream = TeltonikaStream::with_capacity("transport", 32, 64);
    assert_eq!(stream.imei_buf_capacity(), 32);
    assert_eq!(stream.packet_buf_capacity(), 64);
    assert_eq!(stream.inner_mut(), &mut "transport");
    assert_eq!(stream.into_inner(), "transport");
}

#[test]
fn reassembler_completes_a_frame_fed_in_chunks() {
    let input = hex::decode("000000000000002808010000016B40D9AD80010000000000000000000000000000000103021503010101425E100000010000F22A").unwrap();
    let (_, expected) = tcp_frame(&input).unwrap();
    let mut reassembler = Reassembler::new(false);
    assert!(matches!(
        reassembler.feed_frame(&input[..10]),
        FeedOutcome::NeedMore
    ));
    assert_eq!(reassembler.state(), ReassemblyState::Accumulating);
    match reassembler.feed_frame(&input[10..]) {
        FeedOutcome::Complete(frame) => assert_eq!(frame, expected),
        other => panic!("expected completion, got {:?}", other),
    }
    assert_eq!(reassembler.state(), ReassemblyState::Complete);
}

#[test]
fn reassembler_frame_tolerates_empty_reads() {
    let mut reassembler = Reassembler::new(false);
    assert!(matches!(reassembler.feed_frame(&[]), FeedOutcome::NeedMore));
    assert_eq!(reassembler.state(), ReassemblyState::Accumulating);
}

#[test]
fn reassembler_imei_empty_read_closes_connection() {
    let mut reassembler = Reassembler::new(true);
    match reassembler.feed_imei(&[]) {
        FeedOutcome::Failed(e) => assert_eq!(e, DecodeError::ConnectionClosed),
        other => panic!("expected a closed connection, got {:?}", other),
    }
    assert_eq!(reassembler.state(), ReassemblyState::Failed);
}

#[test]
fn reassembler_imei_completes() {
    let input = hex::decode("000F333536333037303432343431303133").unwrap();
    let mut reassembler = Reassembler::with_buffer_capacity(true, 128);
    match reassembler.feed_imei(&input) {
        FeedOutcome::Complete(imei) => assert_eq!(imei, "356307042441013"),
        other => panic!("expected completion, got {:?}", other),
    }
}

#[test]
fn reassembler_datagram_completes() {
    let input = hex::decode("003DCAFE0105000F33353230393330383634303336353508010000016B4F815B30010000000000000000000000000000000103021503010101425DBC000001").unwrap();
    let (_, expected) = udp_datagram(&input).unwrap();
    let mut reassembler = Reassembler::new(true);
    assert!(matches!(
        reassembler.feed_datagram(&input[..5]),
        FeedOutcome::NeedMore
    ));
    match reassembler.feed_datagram(&input[5..]) {
        FeedOutcome::Complete(datagram) => assert_eq!(datagram, expected),
        other => panic!("expected completion, got {:?}", other),
    }
}

#[test]
fn reassembler_discards_bytes_past_the_frame() {
    let input = hex::decode("000000000000002808010000016B40D9AD80010000000000000000000000000000000103021503010101425E100000010000F22A").unwrap();
    let (_, expected) = tcp_frame(&input).unwrap();
    let mut with_junk = input.clone();
    with_junk.extend_from_slice(&[0xAB, 0xCD]);
    let mut reassembler = Reassembler::new(false);
    match reassembler.feed_frame(&with_junk) {
        FeedOutcome::Complete(frame) => assert_eq!(frame, expected),
        other => panic!("expected completion, got {:?}", other),
    }
}

#[test]
fn reassembler_fails_terminally_on_bad_preamble() {
    let mut reassembler = Reassembler::new(false);
    match reassembler.feed_frame(&[0xDE, 0xAD, 0xBE, 0xEF]) {
        FeedOutcome::Failed(e) => assert_eq!(e, DecodeError::InvalidPreamble),
        other => panic!("expected a failure, got {:?}", other),
    }
    assert_eq!(reassembler.state(), ReassemblyState::Failed);
}

#[test]
fn imei_handshake_bytes() {
    assert_eq!(imei_approval_bytes(), vec![1u8]);
    assert_eq!(imei_denial_bytes(), vec![0u8]);
}

#[test]
fn frame_ack_counts_records() {
    let input = hex::decode("000000000000004308020000016B40D57B480100000000000000000000000000000001010101000000000000016B40D5C198010000000000000000000000000000000101010101000000020000252C").unwrap();
    let (_, frame) = tcp_frame(&input).unwrap();
    assert_eq!(frame_ack_bytes(Some(&frame)), vec![0, 0, 0, 2]);
    assert_eq!(frame_ack_bytes(None), vec![0, 0, 0, 0]);
    match &frame {
        TeltonikaFrame::AVL(f) => assert_eq!(f.records.len(), 2),
        TeltonikaFrame::GPRS(_) => panic!("expected a telemetry frame"),
    }
}

#[test]
fn datagram_ack_mirrors_header() {
    let input = hex::decode("003DCAFE0105000F33353230393330383634303336353508010000016B4F815B30010000000000000000000000000000000103021503010101425DBC000001").unwrap();
    let (_, datagram) = udp_datagram(&input).unwrap();
    assert_eq!(
        datagram_ack_bytes(Some(&datagram)),
        vec![0x00, 0x01, 0xCA, 0xFE, 0x01, 0x05, 0x00, 0x00, 0x00, 0x01]
    );
    assert_eq!(
        datagram_ack_bytes(None),
        vec![0x00, 0x00, 0x00, 0x00, 0x01, 0x00, 0x00, 0x00, 0x00, 0x00]
    );
}
