use teltonika::parser::{command_response, imei, record, tcp_frame, udp_datagram};
use teltonika::{
    AVLDatagram, AVLEventIO, AVLEventIOValue, AVLFrame, AVLRecord, Codec, DecodeError,
    EventGenerationCause, Priority, TeltonikaFrame,
};

/// Milliseconds since the Unix epoch of an RFC 3339 instant.
fn ts(s: &str) -> u64 {
    s.parse::<chrono::DateTime<chrono::Utc>>()
        .unwrap()
        .timestamp_millis() as u64
}

fn degrees(raw: i32) -> f64 {
    raw as f64 / 10000000.0
}

#[test]
fn parse_imei() {
    let input = hex::decode("000F333536333037303432343431303133").unwrap();
    let (consumed, imei) = imei(&input).unwrap();
    assert_eq!(consumed, input.len());
    assert_eq!(imei, "356307042441013");
}

#[test]
fn parse_imei_incomplete() {
    let input = hex::decode("000F3335363330373034323434313031").unwrap();
    let err = imei(&input).unwrap_err();
    assert_eq!(err, DecodeError::Incomplete(1));
}

#[test]
fn parse_codec() {
    let codec = Codec::from_wire(0x08);
    assert_eq!(codec, Some(Codec::C8));
}

#[test]
fn parse_priority() {
    let priority = Priority::from_wire(0x00);
    assert_eq!(priority, Some(Priority::Low));
}

#[test]
fn parse_record() {
    let input = hex::decode("0000016B40D8EA30010000000000000000000000000000000105021503010101425E0F01F10000601A014E0000000000000000").unwrap();
    let (consumed, record) = record(&input, Codec::C8).unwrap();
    assert_eq!(consumed, input.len());
    assert_eq!(
        record,
        AVLRecord {
            timestamp: ts("2019-06-10T10:04:46Z"),
            priority: Priority::High,
            longitude: 0,
            latitude: 0,
            altitude: 0,
            angle: 0,
            satellites: 0,
            speed: 0,
            trigger_event_id: 1,
            generation_type: None,
            io_events: vec![
                AVLEventIO {
                    id: 21,
                    value: AVLEventIOValue::U8(3,),
                },
                AVLEventIO {
                    id: 1,
                    value: AVLEventIOValue::U8(1,),
                },
                AVLEventIO {
                    id: 66,
                    value: AVLEventIOValue::U16(24079,),
                },
                AVLEventIO {
                    id: 241,
                    value: AVLEventIOValue::U32(24602,),
                },
                AVLEventIO {
                    id: 78,
                    value: AVLEventIOValue::U64(0,),
                },
            ],
        }
    );
}

#[test]
fn parse_record_incomplete() {
    let input = hex::decode("0000016B40D8EA30010000000000000000000000000000000105021503010101425E0F01F10000601A014E00000000000000").unwrap();
    let err = record(&input, Codec::C8).unwrap_err();
    assert_eq!(err, DecodeError::Incomplete(1));
}

#[test]
fn parse_frame_codec8_1() {
    let input = hex::decode("000000000000003608010000016B40D8EA30010000000000000000000000000000000105021503010101425E0F01F10000601A014E0000000000000000010000C7CF").unwrap();
    let (consumed, frame) = tcp_frame(&input).unwrap();
    assert_eq!(consumed, input.len());
    assert_eq!(
        frame,
        TeltonikaFrame::AVL(AVLFrame {
            codec: Codec::C8,
            records: vec![AVLRecord {
                timestamp: ts("2019-06-10T10:04:46Z"),
                priority: Priority::High,
                longitude: 0,
                latitude: 0,
                altitude: 0,
                angle: 0,
                satellites: 0,
                speed: 0,
                trigger_event_id: 1,
                generation_type: None,
                io_events: vec![
                    AVLEventIO {
                        id: 21,
                        value: AVLEventIOValue::U8(3,),
                    },
                    AVLEventIO {
                        id: 1,
                        value: AVLEventIOValue::U8(1,),
                    },
                    AVLEventIO {
                        id: 66,
                        value: AVLEventIOValue::U16(24079,),
                    },
                    AVLEventIO {
                        id: 241,
                        value: AVLEventIOValue::U32(24602,),
                    },
                    AVLEventIO {
                        id: 78,
                        value: AVLEventIOValue::U64(0,),
                    },
                ],
            },],
            crc16: 51151,
        })
    );
}

#[test]
fn parse_frame_codec8_2() {
    let input = hex::decode("000000000000002808010000016B40D9AD80010000000000000000000000000000000103021503010101425E100000010000F22A").unwrap();
    let (consumed, frame) = tcp_frame(&input).unwrap();
    assert_eq!(consumed, input.len());
    assert_eq!(
        frame,
        TeltonikaFrame::AVL(AVLFrame {
            codec: Codec::C8,
            records: vec![AVLRecord {
                timestamp: ts("2019-06-10T10:05:36Z"),
                priority: Priority::High,
                longitude: 0,
                latitude: 0,
                altitude: 0,
                angle: 0,
                satellites: 0,
                speed: 0,
                trigger_event_id: 1,
                generation_type: None,
                io_events: vec![
                    AVLEventIO {
                        id: 21,
                        value: AVLEventIOValue::U8(3,),
                    },
                    AVLEventIO {
                        id: 1,
                        value: AVLEventIOValue::U8(1,),
                    },
                    AVLEventIO {
                        id: 66,
                        value: AVLEventIOValue::U16(24080,),
                    },
                ],
            },],
            crc16: 61994,
        })
    );
}

#[test]
fn parse_frame_codec8_3() {
    let input = hex::decode("000000000000004308020000016B40D57B480100000000000000000000000000000001010101000000000000016B40D5C198010000000000000000000000000000000101010101000000020000252C").unwrap();
    let (consumed, frame) = tcp_frame(&input).unwrap();
    assert_eq!(consumed, input.len());
    assert_eq!(
        frame,
        TeltonikaFrame::AVL(AVLFrame {
            codec: Codec::C8,
            records: vec![
                AVLRecord {
                    timestamp: ts("2019-06-10T10:01:01Z"),
                    priority: Priority::High,
                    longitude: 0,
                    latitude: 0,
                    altitude: 0,
                    angle: 0,
                    satellites: 0,
                    speed: 0,
                    trigger_event_id: 1,
                    generation_type: None,
                    io_events: vec![AVLEventIO {
                        id: 1,
                        value: AVLEventIOValue::U8(0,),
                    },],
                },
                AVLRecord {
                    timestamp: ts("2019-06-10T10:01:19Z"),
                    priority: Priority::High,
                    longitude: 0,
                    latitude: 0,
                    altitude: 0,
                    angle: 0,
                    satellites: 0,
                    speed: 0,
                    trigger_event_id: 1,
                    generation_type: None,
                    io_events: vec![AVLEventIO {
                        id: 1,
                        value: AVLEventIOValue::U8(1,),
                    },],
                },
            ],
            crc16: 9516,
        })
    );
}

#[test]
fn parse_frame_codec8ext() {
    let input = hex::decode("000000000000004A8E010000016B412CEE000100000000000000000000000000000000010005000100010100010011001D00010010015E2C880002000B000000003544C87A000E000000001DD7E06A00000100002994").unwrap();
    let (consumed, frame) = tcp_frame(&input).unwrap();
    assert_eq!(consumed, input.len());
    assert_eq!(
        frame,
        TeltonikaFrame::AVL(AVLFrame {
            codec: Codec::C8Ext,
            records: vec![AVLRecord {
                timestamp: ts("2019-06-10T11:36:32Z"),
                priority: Priority::High,
                longitude: 0,
                latitude: 0,
                altitude: 0,
                angle: 0,
                satellites: 0,
                speed: 0,
                trigger_event_id: 1,
                generation_type: None,
                io_events: vec![
                    AVLEventIO {
                        id: 1,
                        value: AVLEventIOValue::U8(1,),
                    },
                    AVLEventIO {
                        id: 17,
                        value: AVLEventIOValue::U16(29,),
                    },
                    AVLEventIO {
                        id: 16,
                        value: AVLEventIOValue::U32(22949000,),
                    },
                    AVLEventIO {
                        id: 11,
                        value: AVLEventIOValue::U64(893700218,),
                    },
                    AVLEventIO {
                        id: 14,
                        value: AVLEventIOValue::U64(500686954,),
                    },
                ],
            },],
            crc16: 10644,
        })
    );
}

#[test]
fn parse_frame_codec16() {
    let input = hex::decode("000000000000005F10020000016BDBC7833000000000000000000000000000000000000B05040200010000030002000B00270042563A00000000016BDBC7871800000000000000000000000000000000000B05040200010000030002000B00260042563A00000200005FB3").unwrap();
    let (consumed, frame) = tcp_frame(&input).unwrap();
    assert_eq!(consumed, input.len());
    assert_eq!(
        frame,
        TeltonikaFrame::AVL(AVLFrame {
            codec: Codec::C16,
            records: vec![
                AVLRecord {
                    timestamp: ts("2019-07-10T12:06:54Z"),
                    priority: Priority::Low,
                    longitude: 0,
                    latitude: 0,
                    altitude: 0,
                    angle: 0,
                    satellites: 0,
                    speed: 0,
                    trigger_event_id: 11,
                    generation_type: Some(EventGenerationCause::OnChange),
                    io_events: vec![
                        AVLEventIO {
                            id: 1,
                            value: AVLEventIOValue::U8(0)
                        },
                        AVLEventIO {
                            id: 3,
                            value: AVLEventIOValue::U8(0)
                        },
                        AVLEventIO {
                            id: 11,
                            value: AVLEventIOValue::U16(39)
                        },
                        AVLEventIO {
                            id: 66,
                            value: AVLEventIOValue::U16(22074)
                        }
                    ]
                },
                AVLRecord {
                    timestamp: ts("2019-07-10T12:06:55Z"),
                    priority: Priority::Low,
                    longitude: 0,
                    latitude: 0,
                    altitude: 0,
                    angle: 0,
                    satellites: 0,
                    speed: 0,
                    trigger_event_id: 11,
                    generation_type: Some(EventGenerationCause::OnChange),
                    io_events: vec![
                        AVLEventIO {
                            id: 1,
                            value: AVLEventIOValue::U8(0)
                        },
                        AVLEventIO {
                            id: 3,
                            value: AVLEventIOValue::U8(0)
                        },
                        AVLEventIO {
                            id: 11,
                            value: AVLEventIOValue::U16(38)
                        },
                        AVLEventIO {
                            id: 66,
                            value: AVLEventIOValue::U16(22074)
                        }
                    ]
                }
            ],
            crc16: 24499
        })
    );
}

#[test]
fn parse_udp_datagram() {
    let input = hex::decode("003DCAFE0105000F33353230393330383634303336353508010000016B4F815B30010000000000000000000000000000000103021503010101425DBC000001").unwrap();
    let (consumed, datagram) = udp_datagram(&input).unwrap();
    assert_eq!(consumed, input.len());
    assert_eq!(
        datagram,
        AVLDatagram {
            packet_id: 0xCAFE,
            avl_packet_id: 0x05,
            imei: String::from("\x33\x35\x32\x30\x39\x33\x30\x38\x36\x34\x30\x33\x36\x35\x35"),
            codec: Codec::C8,
            records: vec![AVLRecord {
                timestamp: ts("2019-06-13T06:23:26Z"),
                priority: Priority::High,
                longitude: 0,
                latitude: 0,
                altitude: 0,
                angle: 0,
                satellites: 0,
                speed: 0,
                trigger_event_id: 0x01,
                generation_type: None,
                io_events: vec![
                    AVLEventIO {
                        id: 0x15,
                        value: AVLEventIOValue::U8(0x03)
                    },
                    AVLEventIO {
                        id: 0x01,
                        value: AVLEventIOValue::U8(0x01)
                    },
                    AVLEventIO {
                        id: 0x42,
                        value: AVLEventIOValue::U16(0x5DBC)
                    },
                ]
            }],
        }
    )
}

#[test]
fn parse_udp_datagram_incomplete() {
    let input = hex::decode("003DCAFE0105000F33353230393330383634303336353508010000016B4F815B30010000000000000000000000000000000103021503010101425DBC00").unwrap();
    let err = udp_datagram(&input).unwrap_err();
    assert_eq!(err, DecodeError::Incomplete(2));
}

#[test]
fn parse_negative_emisphere_coordinates() {
    let input = hex::decode("00000000000000460801000001776D58189001FA0A1F00F1194D80009C009D05000F9B0D06EF01F0001505C80045019B0105B5000BB6000A424257430F8044000002F1000060191000000BE1000100006E2B").unwrap();
    let (consumed, frame) = tcp_frame(&input).unwrap();
    assert_eq!(consumed, input.len());
    let records = match &frame {
        TeltonikaFrame::AVL(f) => &f.records,
        TeltonikaFrame::GPRS(_) => panic!("expected a telemetry frame"),
    };
    assert_eq!(degrees(records[0].longitude), -10.0);
    assert_eq!(degrees(records[0].latitude), -25.0);
}

#[test]
fn parse_command_response() {
    let input = [
        0u8, 0, 0, 0, 0, 0, 0, 160, 12, 1, 6, 0, 0, 0, 152, 82, 84, 67, 58, 50, 48, 50, 52, 47,
        55, 47, 49, 49, 32, 49, 49, 58, 51, 51, 32, 73, 110, 105, 116, 58, 50, 48, 50, 52, 47,
        54, 47, 54, 32, 56, 58, 51, 48, 32, 85, 112, 84, 105, 109, 101, 58, 51, 48, 50, 57, 52,
        57, 52, 115, 32, 80, 87, 82, 58, 65, 98, 110, 111, 114, 109, 97, 108, 32, 82, 83, 84,
        58, 49, 32, 71, 80, 83, 58, 51, 32, 83, 65, 84, 58, 49, 55, 32, 84, 84, 70, 70, 58, 52,
        32, 84, 84, 76, 70, 58, 51, 32, 78, 79, 71, 80, 83, 58, 48, 58, 48, 32, 83, 82, 58, 56,
        51, 49, 56, 53, 32, 70, 71, 58, 48, 32, 70, 76, 58, 52, 52, 32, 83, 77, 83, 58, 48, 32,
        82, 69, 67, 58, 48, 32, 77, 68, 58, 48, 32, 68, 66, 58, 48, 1, 0, 0, 220, 144,
    ];

    assert_eq!(
        command_response(&input),
        Ok((
            input.len(),
            vec![
                82u8, 84, 67, 58, 50, 48, 50, 52, 47, 55, 47, 49, 49, 32, 49, 49, 58, 51, 51,
                32, 73, 110, 105, 116, 58, 50, 48, 50, 52, 47, 54, 47, 54, 32, 56, 58, 51, 48,
                32, 85, 112, 84, 105, 109, 101, 58, 51, 48, 50, 57, 52, 57, 52, 115, 32, 80,
                87, 82, 58, 65, 98, 110, 111, 114, 109, 97, 108, 32, 82, 83, 84, 58, 49, 32,
                71, 80, 83, 58, 51, 32, 83, 65, 84, 58, 49, 55, 32, 84, 84, 70, 70, 58, 52, 32,
                84, 84, 76, 70, 58, 51, 32, 78, 79, 71, 80, 83, 58, 48, 58, 48, 32, 83, 82, 58,
                56, 51, 49, 56, 53, 32, 70, 71, 58, 48, 32, 70, 76, 58, 52, 52, 32, 83, 77, 83,
                58, 48, 32, 82, 69, 67, 58, 48, 32, 77, 68, 58, 48, 32, 68, 66, 58, 48
            ]
        ))
    );
}
