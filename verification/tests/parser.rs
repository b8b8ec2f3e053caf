use bytes::Bytes;
use moqt::{
    AnnounceCancel, Error, FilterType, FullSequence, MessageParser, MessageParserEvent,
    ObjectForwardingPreference, ObjectHeader, ObjectStatus, ParserErrorCode, Subscribe,
};

fn drain(parser: &mut MessageParser) -> Vec<MessageParserEvent> {
    let mut events = vec![];
    while let Some(event) = parser.poll_event() {
        events.push(event);
    }
    events
}

fn violation(reason: &str) -> MessageParserEvent {
    MessageParserEvent::ParsingError(ParserErrorCode::ProtocolViolation, reason.to_string())
}

fn subscribe_packet() -> Vec<u8> {
    vec![
        0x03, 0x01, 0x02, // id and alias
        0x03, 0x66, 0x6f, 0x6f, // track_namespace = "foo"
        0x04, 0x61, 0x62, 0x63, 0x64, // track_name = "abcd"
        0x03, // Filter type: Absolute Start
        0x04, // start_group = 4
        0x01, // start_object = 1
        0x01, // 1 parameter
        0x02, 0x03, 0x62, 0x61, 0x72, // authorization_info = "bar"
    ]
}

fn subscribe_message() -> Subscribe {
    Subscribe {
        subscribe_id: 1,
        track_alias: 2,
        track_namespace: "foo".to_string(),
        track_name: "abcd".to_string(),
        filter_type: FilterType::AbsoluteStart(FullSequence {
            group_id: 4,
            object_id: 1,
        }),
        authorization_info: Some("bar".to_string()),
    }
}

fn group_header(group_id: u64, object_id: u64, length: u64, status: ObjectStatus) -> ObjectHeader {
    ObjectHeader {
        subscribe_id: 3,
        track_alias: 4,
        group_id,
        object_id,
        object_send_order: 7,
        object_status: status,
        object_forwarding_preference: ObjectForwardingPreference::Group,
        object_payload_length: Some(length),
    }
}

#[test]
fn new_parser_has_no_events() {
    let mut parser = MessageParser::new(false);
    assert_eq!(parser.poll_event(), None);
    let mut parser = MessageParser::new(true);
    assert_eq!(parser.poll_event(), None);
}

#[test]
fn control_message_fed_whole() {
    let mut parser = MessageParser::new(false);
    parser.process_data(&subscribe_packet(), false);
    assert_eq!(
        drain(&mut parser),
        vec![MessageParserEvent::SubscribeMessage(subscribe_message())]
    );
    assert_eq!(parser.poll_event(), None);
}

#[test]
fn control_message_fed_byte_by_byte_gives_the_same_event() {
    let packet = subscribe_packet();

    let mut whole = MessageParser::new(false);
    whole.process_data(&packet, true);
    let expected = drain(&mut whole);
    assert_eq!(
        expected,
        vec![MessageParserEvent::SubscribeMessage(subscribe_message())]
    );

    let mut pieces = MessageParser::new(false);
    for i in 0..packet.len() {
        assert_eq!(pieces.poll_event(), None);
        pieces.process_data(&packet[i..i + 1], i + 1 == packet.len());
    }
    assert_eq!(drain(&mut pieces), expected);
}

#[test]
fn control_message_fed_in_uneven_pieces() {
    let packet = subscribe_packet();
    let mut parser = MessageParser::new(false);
    parser.process_data(&packet[..1], false);
    parser.process_data(&[], false);
    parser.process_data(&packet[1..9], false);
    parser.process_data(&packet[9..], false);
    parser.process_data(&[], true);
    assert_eq!(
        drain(&mut parser),
        vec![MessageParserEvent::SubscribeMessage(subscribe_message())]
    );
}

#[test]
fn two_messages_in_one_chunk_come_out_in_order() {
    let mut data = vec![0x0c, 0x03, 0x66, 0x6f, 0x6f];
    data.extend_from_slice(&subscribe_packet());
    data.extend_from_slice(&[0x0c, 0x01, 0x78]);
    let mut parser = MessageParser::new(false);
    parser.process_data(&data, false);
    assert_eq!(
        drain(&mut parser),
        vec![
            MessageParserEvent::AnnounceCancelMessage(AnnounceCancel {
                track_namespace: "foo".to_string()
            }),
            MessageParserEvent::SubscribeMessage(subscribe_message()),
            MessageParserEvent::AnnounceCancelMessage(AnnounceCancel {
                track_namespace: "x".to_string()
            }),
        ]
    );
}

#[test]
fn events_are_polled_oldest_first() {
    let mut parser = MessageParser::new(false);
    parser.process_data(&[0x0c, 0x01, 0x61], false);
    parser.process_data(&[0x0c, 0x01, 0x62], false);
    assert_eq!(
        parser.poll_event(),
        Some(MessageParserEvent::AnnounceCancelMessage(AnnounceCancel {
            track_namespace: "a".to_string()
        }))
    );
    assert_eq!(
        parser.poll_event(),
        Some(MessageParserEvent::AnnounceCancelMessage(AnnounceCancel {
            track_namespace: "b".to_string()
        }))
    );
    assert_eq!(parser.poll_event(), None);
}

#[test]
fn duplicate_authorization_is_reported_once_and_ends_the_parsing() {
    let packet: Vec<u8> = vec![
        0x03, 0x01, 0x02, 0x03, 0x66, 0x6f, 0x6f, 0x04, 0x61, 0x62, 0x63, 0x64, 0x02, 0x02, 0x02,
        0x03, 0x62, 0x61, 0x72, 0x02, 0x03, 0x62, 0x61, 0x7a,
    ];
    let mut parser = MessageParser::new(false);
    parser.process_data(&packet, false);
    assert_eq!(
        drain(&mut parser),
        vec![violation(
            "AUTHORIZATION_INFO parameter appears twice in SUBSCRIBE"
        )]
    );
    // Every later call is refused, and nothing more is reported.
    parser.process_data(&[0x0c, 0x01, 0x61], false);
    assert_eq!(drain(&mut parser), vec![]);
}

#[test]
fn data_after_the_end_of_the_stream_is_a_violation() {
    let mut parser = MessageParser::new(false);
    parser.process_data(&[0x0c, 0x01, 0x61], true);
    assert_eq!(
        drain(&mut parser),
        vec![MessageParserEvent::AnnounceCancelMessage(AnnounceCancel {
            track_namespace: "a".to_string()
        })]
    );
    parser.process_data(&[0x0c, 0x01, 0x62], false);
    assert_eq!(
        drain(&mut parser),
        vec![violation("Data after end of stream")]
    );
    parser.process_data(&[], true);
    assert_eq!(drain(&mut parser), vec![]);
}

#[test]
fn stream_that_ends_inside_a_message() {
    // The end comes with the bytes that leave the message incomplete.
    let mut parser = MessageParser::new(false);
    parser.process_data(&[0x0c, 0x03, 0x66], true);
    assert_eq!(
        drain(&mut parser),
        vec![violation("incomplete message at end of stream")]
    );

    // The end comes alone, behind a message that was left incomplete.
    let mut parser = MessageParser::new(false);
    parser.process_data(&[0x0c, 0x03, 0x66], false);
    assert_eq!(drain(&mut parser), vec![]);
    parser.process_data(&[], true);
    assert_eq!(drain(&mut parser), vec![violation("stream ended mid message")]);
}

#[test]
fn empty_stream_is_no_error() {
    let mut parser = MessageParser::new(false);
    parser.process_data(&[], true);
    assert_eq!(drain(&mut parser), vec![]);
}

#[test]
fn message_that_outgrows_the_buffer() {
    // An ANNOUNCE_CANCEL that announces a namespace of 3000 bytes.
    let mut data = vec![0x0c, 0x4b, 0xb8];
    data.extend_from_slice(&[0x61; 2045]);
    let mut parser = MessageParser::new(false);
    parser.process_data(&data, false);
    assert_eq!(drain(&mut parser), vec![]);
    parser.process_data(&[0x61], false);
    assert_eq!(
        drain(&mut parser),
        vec![MessageParserEvent::ParsingError(
            ParserErrorCode::InternalError,
            "message too large to buffer".to_string()
        )]
    );
    parser.process_data(&[0x61], false);
    assert_eq!(drain(&mut parser), vec![]);
}

#[test]
fn large_message_that_arrives_whole_is_read() {
    let mut data = vec![0x0c, 0x4b, 0xb8];
    data.extend_from_slice(&[0x61; 3000]);
    let mut parser = MessageParser::new(false);
    parser.process_data(&data, false);
    assert_eq!(
        drain(&mut parser),
        vec![MessageParserEvent::AnnounceCancelMessage(AnnounceCancel {
            track_namespace: "a".repeat(3000)
        })]
    );
}

#[test]
fn unknown_message_type_waits_and_fails_at_the_end() {
    let mut parser = MessageParser::new(false);
    parser.process_data(&[0x3f, 0x01], false);
    assert_eq!(drain(&mut parser), vec![]);
    parser.process_data(&[0x02], true);
    assert_eq!(
        drain(&mut parser),
        vec![violation("incomplete message at end of stream")]
    );
}

#[test]
fn datagram_object_on_a_stream_is_a_violation() {
    let mut parser = MessageParser::new(false);
    parser.process_data(&[0x01, 0x03, 0x04, 0x05, 0x06, 0x07, 0x00, 0x61], false);
    assert_eq!(
        drain(&mut parser),
        vec![violation("Received OBJECT_DATAGRAM on stream")]
    );
}

#[test]
fn object_stream_runs_to_the_end_of_the_stream() {
    let header = ObjectHeader {
        subscribe_id: 3,
        track_alias: 4,
        group_id: 5,
        object_id: 6,
        object_send_order: 7,
        object_status: ObjectStatus::Normal,
        object_forwarding_preference: ObjectForwardingPreference::Object,
        object_payload_length: None,
    };
    let mut parser = MessageParser::new(false);
    parser.process_data(&[0x00, 0x03, 0x04, 0x05, 0x06, 0x07, 0x00, 0x66, 0x6f], false);
    parser.process_data(&[0x6f], false);
    parser.process_data(&[], false);
    parser.process_data(&[0x62, 0x61, 0x72], true);
    assert_eq!(
        drain(&mut parser),
        vec![
            MessageParserEvent::ObjectMessage(header, Bytes::from_static(b"fo"), false),
            MessageParserEvent::ObjectMessage(header, Bytes::from_static(b"o"), false),
            MessageParserEvent::ObjectMessage(header, Bytes::new(), false),
            MessageParserEvent::ObjectMessage(header, Bytes::from_static(b"bar"), true),
        ]
    );
}

#[test]
fn object_stream_header_in_pieces() {
    let header = ObjectHeader {
        subscribe_id: 3,
        track_alias: 4,
        group_id: 5,
        object_id: 6,
        object_send_order: 7,
        object_status: ObjectStatus::Normal,
        object_forwarding_preference: ObjectForwardingPreference::Object,
        object_payload_length: None,
    };
    let mut parser = MessageParser::new(false);
    parser.process_data(&[0x00, 0x03, 0x04], false);
    assert_eq!(drain(&mut parser), vec![]);
    parser.process_data(&[0x05, 0x06, 0x07], false);
    assert_eq!(drain(&mut parser), vec![]);
    parser.process_data(&[0x00], false);
    assert_eq!(
        drain(&mut parser),
        vec![MessageParserEvent::ObjectMessage(header, Bytes::new(), false)]
    );
    parser.process_data(&[0x61], true);
    assert_eq!(
        drain(&mut parser),
        vec![MessageParserEvent::ObjectMessage(
            header,
            Bytes::from_static(b"a"),
            true
        )]
    );
}

#[test]
fn object_of_another_status_has_no_payload() {
    let header = ObjectHeader {
        subscribe_id: 3,
        track_alias: 4,
        group_id: 5,
        object_id: 6,
        object_send_order: 7,
        object_status: ObjectStatus::EndOfGroup,
        object_forwarding_preference: ObjectForwardingPreference::Object,
        object_payload_length: None,
    };
    let mut parser = MessageParser::new(false);
    parser.process_data(&[0x00, 0x03, 0x04, 0x05, 0x06, 0x07, 0x03], false);
    assert_eq!(
        drain(&mut parser),
        vec![MessageParserEvent::ObjectMessage(header, Bytes::new(), true)]
    );
    parser.process_data(&[0x61], false);
    assert_eq!(
        drain(&mut parser),
        vec![violation("Object with non-normal status has payload")]
    );

    let mut parser = MessageParser::new(false);
    parser.process_data(&[0x00, 0x03, 0x04, 0x05, 0x06, 0x07, 0x03, 0x61], false);
    assert_eq!(
        drain(&mut parser),
        vec![violation("Object with non-normal status has payload")]
    );
}

#[test]
fn object_of_invalid_status_is_a_violation() {
    let mut parser = MessageParser::new(false);
    parser.process_data(&[0x00, 0x03, 0x04, 0x05, 0x06, 0x07, 0x09], false);
    assert_eq!(drain(&mut parser), vec![violation("Invalid object status")]);
}

#[test]
fn group_stream_delivers_objects_by_their_length() {
    let mut data: Vec<u8> = vec![0x40, 0x51, 0x03, 0x04, 0x05, 0x07];
    data.extend_from_slice(&[0x05, 0x00, 0x03, 0x66, 0x6f, 0x6f]); // object 0: "foo"
    data.extend_from_slice(&[0x05, 0x01, 0x00, 0x03]); // object 1: end of group
    data.extend_from_slice(&[0x05, 0x02, 0x02, 0x68]); // object 2: "h" of "hi"
    let mut parser = MessageParser::new(false);
    parser.process_data(&data, false);
    assert_eq!(
        drain(&mut parser),
        vec![
            MessageParserEvent::ObjectMessage(
                group_header(5, 0, 3, ObjectStatus::Normal),
                Bytes::from_static(b"foo"),
                true
            ),
            MessageParserEvent::ObjectMessage(
                group_header(5, 1, 0, ObjectStatus::EndOfGroup),
                Bytes::new(),
                true
            ),
            MessageParserEvent::ObjectMessage(
                group_header(5, 2, 2, ObjectStatus::Normal),
                Bytes::from_static(b"h"),
                false
            ),
        ]
    );
    // The rest of object 2, then object 3 in the same chunk.
    parser.process_data(&[0x69, 0x05, 0x03, 0x01, 0x21], true);
    assert_eq!(
        drain(&mut parser),
        vec![
            MessageParserEvent::ObjectMessage(
                group_header(5, 2, 2, ObjectStatus::Normal),
                Bytes::from_static(b"i"),
                true
            ),
            MessageParserEvent::ObjectMessage(
                group_header(5, 3, 1, ObjectStatus::Normal),
                Bytes::from_static(b"!"),
                true
            ),
        ]
    );
}

#[test]
fn group_stream_object_fields_in_pieces() {
    let mut parser = MessageParser::new(false);
    parser.process_data(&[0x40, 0x51, 0x03, 0x04, 0x05, 0x07, 0x05], false);
    assert_eq!(drain(&mut parser), vec![]);
    parser.process_data(&[0x00, 0x02, 0x61], false);
    assert_eq!(
        drain(&mut parser),
        vec![MessageParserEvent::ObjectMessage(
            group_header(5, 0, 2, ObjectStatus::Normal),
            Bytes::from_static(b"a"),
            false
        )]
    );
    parser.process_data(&[0x62], false);
    assert_eq!(
        drain(&mut parser),
        vec![MessageParserEvent::ObjectMessage(
            group_header(5, 0, 2, ObjectStatus::Normal),
            Bytes::from_static(b"b"),
            true
        )]
    );
}

#[test]
fn group_object_cut_short_by_the_end_of_the_stream() {
    // Ten bytes are announced, five arrive, and the stream ends with them.
    let mut data: Vec<u8> = vec![0x40, 0x51, 0x03, 0x04, 0x05, 0x07, 0x05, 0x00, 0x0a];
    data.extend_from_slice(b"hello");

    let mut parser = MessageParser::new(false);
    parser.process_data(&data, true);
    assert_eq!(drain(&mut parser), vec![violation("FIN mid-payload")]);

    // The five bytes arrive first, and the stream ends afterwards.
    let mut parser = MessageParser::new(false);
    parser.process_data(&data, false);
    assert_eq!(
        drain(&mut parser),
        vec![MessageParserEvent::ObjectMessage(
            group_header(5, 0, 10, ObjectStatus::Normal),
            Bytes::from_static(b"hello"),
            false
        )]
    );
    parser.process_data(&[], true);
    assert_eq!(
        drain(&mut parser),
        vec![violation("stream ended mid OBJECT payload")]
    );

    // Four more bytes with the end of the stream are one too few.
    let mut parser = MessageParser::new(false);
    parser.process_data(&data, false);
    parser.process_data(b"worl", true);
    assert_eq!(
        drain(&mut parser),
        vec![
            MessageParserEvent::ObjectMessage(
                group_header(5, 0, 10, ObjectStatus::Normal),
                Bytes::from_static(b"hello"),
                false
            ),
            violation("stream ended mid OBJECT payload"),
        ]
    );

    // Five more bytes complete the object.
    let mut parser = MessageParser::new(false);
    parser.process_data(&data, false);
    parser.process_data(b"world", true);
    assert_eq!(
        drain(&mut parser),
        vec![
            MessageParserEvent::ObjectMessage(
                group_header(5, 0, 10, ObjectStatus::Normal),
                Bytes::from_static(b"hello"),
                false
            ),
            MessageParserEvent::ObjectMessage(
                group_header(5, 0, 10, ObjectStatus::Normal),
                Bytes::from_static(b"world"),
                true
            ),
        ]
    );
}

#[test]
fn track_stream_gives_each_object_its_group() {
    let header = |group_id: u64| ObjectHeader {
        subscribe_id: 3,
        track_alias: 4,
        group_id,
        object_id: 0,
        object_send_order: 7,
        object_status: ObjectStatus::Normal,
        object_forwarding_preference: ObjectForwardingPreference::Track,
        object_payload_length: None,
    };
    let mut parser = MessageParser::new(false);
    parser.process_data(&[0x40, 0x50, 0x03, 0x04, 0x07, 0x09, 0x61, 0x62], false);
    assert_eq!(
        drain(&mut parser),
        vec![MessageParserEvent::ObjectMessage(
            header(9),
            Bytes::from_static(b"ab"),
            false
        )]
    );
    parser.process_data(&[0x0a, 0x63], true);
    assert_eq!(
        drain(&mut parser),
        vec![MessageParserEvent::ObjectMessage(
            header(10),
            Bytes::from_static(b"c"),
            true
        )]
    );
}

#[test]
fn datagram_holds_one_object_whole() {
    let header = ObjectHeader {
        subscribe_id: 3,
        track_alias: 4,
        group_id: 5,
        object_id: 6,
        object_send_order: 7,
        object_status: ObjectStatus::Normal,
        object_forwarding_preference: ObjectForwardingPreference::Datagram,
        object_payload_length: None,
    };
    assert_eq!(
        MessageParser::process_datagram(&[0x01, 0x03, 0x04, 0x05, 0x06, 0x07, 0x00, 0x66, 0x6f, 0x6f]),
        Ok((header, Bytes::from_static(b"foo")))
    );
    assert_eq!(
        MessageParser::process_datagram(&[0x01, 0x03, 0x04, 0x05, 0x06, 0x07, 0x00]),
        Ok((header, Bytes::new()))
    );
    let ended = ObjectHeader {
        object_status: ObjectStatus::EndOfTrack,
        ..header
    };
    assert_eq!(
        MessageParser::process_datagram(&[0x01, 0x03, 0x04, 0x05, 0x06, 0x07, 0x04]),
        Ok((ended, Bytes::new()))
    );
}

#[test]
fn malformed_datagrams_are_decode_errors() {
    assert_eq!(
        MessageParser::process_datagram(&[]),
        Err(Error::ErrUnexpectedEnd)
    );
    assert_eq!(
        MessageParser::process_datagram(&[0x00, 0x03, 0x04, 0x05, 0x06, 0x07, 0x00]),
        Err(Error::ErrInvalidMessageType(0))
    );
    assert_eq!(
        MessageParser::process_datagram(&[0x3f]),
        Err(Error::ErrInvalidMessageType(0x3f))
    );
    assert_eq!(
        MessageParser::process_datagram(&[0x01, 0x03, 0x04, 0x05]),
        Err(Error::ErrUnexpectedEnd)
    );
    assert_eq!(
        MessageParser::process_datagram(&[0x01, 0x03, 0x04, 0x05, 0x06, 0x07, 0x08]),
        Err(Error::ErrProtocolViolation(
            "Invalid object status".to_string()
        ))
    );
    assert_eq!(
        MessageParser::process_datagram(&[0x01, 0x03, 0x04, 0x05, 0x06, 0x07, 0x01, 0x61]),
        Err(Error::ErrProtocolViolation(
            "Object with non-normal status has payload".to_string()
        ))
    );
}

#[test]
fn parser_tells_its_transport_and_whether_it_is_done() {
    let mut parser = MessageParser::new(true);
    assert!(parser.use_web_transport());
    assert!(!parser.is_terminated());
    parser.process_data(&[0x0c, 0x01], false);
    assert!(!parser.is_terminated());
    parser.process_data(&[0x61], true);
    assert!(parser.is_terminated());
    assert!(!MessageParser::new(false).use_web_transport());

    let mut parser = MessageParser::new(false);
    parser.process_data(&[0x01], false);
    assert!(parser.is_terminated());
}

#[test]
fn an_error_is_the_last_event_of_its_call() {
    // A message, then a datagram object, then another message: the error
    // follows the first message and nothing follows the error.
    let mut parser = MessageParser::new(false);
    parser.process_data(&[0x0c, 0x01, 0x61, 0x01, 0x0c, 0x01, 0x62], false);
    assert_eq!(
        drain(&mut parser),
        vec![
            MessageParserEvent::AnnounceCancelMessage(AnnounceCancel {
                track_namespace: "a".to_string()
            }),
            violation("Received OBJECT_DATAGRAM on stream"),
        ]
    );
}
