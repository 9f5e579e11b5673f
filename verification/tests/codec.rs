use teltonika::crc16;
use teltonika::encode::{encode_command, encode_commands};
use teltonika::parser::{record, tcp_frame};
use teltonika::{
    AVLEventIO, AVLEventIOValue, Codec, DecodeError, Priority, TeltonikaFrame,
};

#[test]
fn test_crc16() {
    let input = hex::decode(
        "08010000016B40D9AD80010000000000000000000000000000000103021503010101425E10000001",
    )
    .unwrap();
    assert_eq!(crc16(&input), 0x0000F22A);
}

#[test]
fn crc16_of_empty_is_zero() {
    assert_eq!(crc16(&[]), 0);
}

#[test]
fn crc16_known_check_value() {
    // The published CRC-16/ARC check value for the nine ASCII digits.
    assert_eq!(crc16(b"123456789"), 0xBB3D);
}

#[test]
fn crc16_is_a_pure_function() {
    let input = b"the same bytes give the same checksum";
    assert_eq!(crc16(input), crc16(input));
}

#[test]
fn encode_commands_exact_bytes() {
    let out = encode_commands(&["getinfo"]).unwrap();
    let expected = hex::decode("000000000000000F0C010500000007676574696E666F0100004312").unwrap();
    assert_eq!(out, expected);
}

#[test]
fn encode_command_matches_singleton_list() {
    assert_eq!(encode_command("getinfo"), encode_commands(&["getinfo"]));
}

#[test]
fn encode_commands_rejects_empty_list() {
    assert_eq!(encode_commands(&[]), None);
}

#[test]
fn commands_round_trip() {
    let commands = ["getinfo", "setparam 123:7", ""];
    let bytes = encode_commands(&commands).unwrap();
    let (consumed, frame) = tcp_frame(&bytes).unwrap();
    assert_eq!(consumed, bytes.len());
    match frame {
        TeltonikaFrame::GPRS(f) => {
            assert_eq!(f.codec, Codec::C12);
            assert_eq!(f.command_responses, vec!["getinfo", "setparam 123:7", ""]);
        }
        TeltonikaFrame::AVL(_) => panic!("expected a command frame"),
    }
}

#[test]
fn frame_with_nonzero_preamble_is_rejected() {
    let input = hex::decode("010000000000000F0C010500000007676574696E666F0100004312").unwrap();
    assert_eq!(tcp_frame(&input).unwrap_err(), DecodeError::InvalidPreamble);
}

#[test]
fn frame_with_unknown_codec_byte_is_rejected() {
    // The payload is present, so the codec byte is judged before the
    // trailing checksum is even required.
    let input = hex::decode("0000000000000001FF").unwrap();
    assert_eq!(tcp_frame(&input).unwrap_err(), DecodeError::UnrecognizedCodec);
}

#[test]
fn frame_with_unknown_priority_byte_is_rejected() {
    let mut input = hex::decode("000000000000003608010000016B40D8EA30010000000000000000000000000000000105021503010101425E0F01F10000601A014E0000000000000000010000C7CF").unwrap();
    // The priority byte of the first record.
    input[18] = 0x03;
    assert_eq!(
        tcp_frame(&input).unwrap_err(),
        DecodeError::UnrecognizedEnumValue
    );
}

#[test]
fn frame_with_wrong_trailing_count_is_rejected() {
    let mut input = hex::decode("000000000000003608010000016B40D8EA30010000000000000000000000000000000105021503010101425E0F01F10000601A014E0000000000000000010000C7CF").unwrap();
    let last_payload = input.len() - 5;
    input[last_payload] = 0x02;
    assert_eq!(tcp_frame(&input).unwrap_err(), DecodeError::CountMismatch);
}

#[test]
fn corrupting_any_checksum_byte_is_detected() {
    let input = hex::decode("000000000000003608010000016B40D8EA30010000000000000000000000000000000105021503010101425E0F01F10000601A014E0000000000000000010000C7CF").unwrap();
    assert!(tcp_frame(&input).is_ok());
    for k in 1..=4 {
        let mut corrupted = input.clone();
        let j = input.len() - k;
        corrupted[j] = corrupted[j].wrapping_add(1);
        assert_eq!(
            tcp_frame(&corrupted).unwrap_err(),
            DecodeError::ChecksumMismatch,
            "checksum byte {} from the end",
            k
        );
    }
}

#[test]
fn truncating_a_frame_anywhere_yields_incomplete() {
    let input = hex::decode("000000000000003608010000016B40D8EA30010000000000000000000000000000000105021503010101425E0F01F10000601A014E0000000000000000010000C7CF").unwrap();
    assert!(tcp_frame(&input).is_ok());
    for m in 0..input.len() {
        match tcp_frame(&input[..m]) {
            Err(DecodeError::Incomplete(n)) => assert!(n > 0),
            other => panic!("truncation at {} gave {:?}", m, other),
        }
    }
}

#[test]
fn record_with_invalid_timestamp_is_rejected() {
    let input = hex::decode("7FFFFFFFFFFFFFFF01000000000000000000000000000000010000000000").unwrap();
    assert_eq!(
        record(&input, Codec::C8).unwrap_err(),
        DecodeError::InvalidTimestamp
    );
}

#[test]
fn record_with_unknown_generation_cause_is_rejected() {
    // A C16 record whose generation-cause byte is out of range.
    let input =
        hex::decode("0000016B40D8EA3001000000000000000000000000000000000108").unwrap();
    assert_eq!(
        record(&input, Codec::C16).unwrap_err(),
        DecodeError::UnrecognizedEnumValue
    );
}

#[test]
fn record_with_variable_length_event() {
    let input = hex::decode("0000016B40D8EA3001000000000000000000000000000000000100020001001005000000000000000100110003AABBCC").unwrap();
    let (consumed, rec) = record(&input, Codec::C8Ext).unwrap();
    assert_eq!(consumed, input.len());
    assert_eq!(rec.priority, Priority::High);
    assert_eq!(rec.trigger_event_id, 1);
    assert_eq!(
        rec.io_events,
        vec![
            AVLEventIO {
                id: 0x10,
                value: AVLEventIOValue::U8(5)
            },
            AVLEventIO {
                id: 0x11,
                value: AVLEventIOValue::Variable(vec![0xAA, 0xBB, 0xCC])
            },
        ]
    );
}

#[test]
fn record_with_wrong_event_total_is_rejected() {
    // As the variable-length fixture, but the total-count field says 3.
    let input = hex::decode("0000016B40D8EA3001000000000000000000000000000000000100030001001005000000000000000100110003AABBCC").unwrap();
    assert_eq!(
        record(&input, Codec::C8Ext).unwrap_err(),
        DecodeError::CountMismatch
    );
}
