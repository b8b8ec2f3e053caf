use moqt::{
    Announce, AnnounceError, AnnounceOk, ClientSetup, ControlMessage, Error, FullSequence, GoAway,
    MessageParser, MessageParserEvent, MessageType, ParserErrorCode, Role, ServerSetup,
    SubscribeDone, SubscribeError, SubscribeOk, SubscribeUpdate, TrackStatus, TrackStatusRequest,
    UnAnnounce, UnSubscribe, Version,
};

fn cases() -> Vec<(ControlMessage, Vec<u8>)> {
    vec![
        (
            ControlMessage::Announce(Announce {
                track_namespace: "foo".to_string(),
                authorization_info: Some("bar".to_string()),
            }),
            vec![0x06, 0x03, 0x66, 0x6f, 0x6f, 0x01, 0x02, 0x03, 0x62, 0x61, 0x72],
        ),
        (
            ControlMessage::Announce(Announce {
                track_namespace: "foo".to_string(),
                authorization_info: None,
            }),
            vec![0x06, 0x03, 0x66, 0x6f, 0x6f, 0x00],
        ),
        (
            ControlMessage::AnnounceOk(AnnounceOk {
                track_namespace: "foo".to_string(),
            }),
            vec![0x07, 0x03, 0x66, 0x6f, 0x6f],
        ),
        (
            ControlMessage::AnnounceError(AnnounceError {
                track_namespace: "foo".to_string(),
                error_code: 1,
                reason_phrase: "bar".to_string(),
            }),
            vec![0x08, 0x03, 0x66, 0x6f, 0x6f, 0x01, 0x03, 0x62, 0x61, 0x72],
        ),
        (
            ControlMessage::UnAnnounce(UnAnnounce {
                track_namespace: "foo".to_string(),
            }),
            vec![0x09, 0x03, 0x66, 0x6f, 0x6f],
        ),
        (
            ControlMessage::UnSubscribe(UnSubscribe { subscribe_id: 3 }),
            vec![0x0a, 0x03],
        ),
        (
            ControlMessage::SubscribeOk(SubscribeOk {
                subscribe_id: 1,
                expires: 3,
                largest_id: Some(FullSequence {
                    group_id: 12,
                    object_id: 20,
                }),
            }),
            vec![0x04, 0x01, 0x03, 0x01, 0x0c, 0x14],
        ),
        (
            ControlMessage::SubscribeOk(SubscribeOk {
                subscribe_id: 1,
                expires: 3,
                largest_id: None,
            }),
            vec![0x04, 0x01, 0x03, 0x00],
        ),
        (
            ControlMessage::SubscribeError(SubscribeError {
                subscribe_id: 2,
                error_code: 1,
                reason_phrase: "bar".to_string(),
                track_alias: 4,
            }),
            vec![0x05, 0x02, 0x01, 0x03, 0x62, 0x61, 0x72, 0x04],
        ),
        (
            ControlMessage::SubscribeDone(SubscribeDone {
                subscribe_id: 2,
                status_code: 3,
                reason_phrase: "hi".to_string(),
                final_id: Some(FullSequence {
                    group_id: 8,
                    object_id: 12,
                }),
            }),
            vec![0x0b, 0x02, 0x03, 0x02, 0x68, 0x69, 0x01, 0x08, 0x0c],
        ),
        (
            ControlMessage::SubscribeDone(SubscribeDone {
                subscribe_id: 2,
                status_code: 3,
                reason_phrase: "hi".to_string(),
                final_id: None,
            }),
            vec![0x0b, 0x02, 0x03, 0x02, 0x68, 0x69, 0x00],
        ),
        (
            ControlMessage::SubscribeUpdate(SubscribeUpdate {
                subscribe_id: 2,
                start_group: 3,
                start_object: 1,
                end_group: 4,
                end_object: 1,
                authorization_info: Some("bar".to_string()),
            }),
            vec![0x02, 0x02, 0x03, 0x01, 0x04, 0x01, 0x01, 0x02, 0x03, 0x62, 0x61, 0x72],
        ),
        (
            ControlMessage::TrackStatusRequest(TrackStatusRequest {
                track_namespace: "foo".to_string(),
                track_name: "abcd".to_string(),
            }),
            vec![0x0d, 0x03, 0x66, 0x6f, 0x6f, 0x04, 0x61, 0x62, 0x63, 0x64],
        ),
        (
            ControlMessage::TrackStatus(TrackStatus {
                track_namespace: "foo".to_string(),
                track_name: "abcd".to_string(),
                status_code: 0,
                last_group: 12,
                last_object: 20,
            }),
            vec![0x0e, 0x03, 0x66, 0x6f, 0x6f, 0x04, 0x61, 0x62, 0x63, 0x64, 0x00, 0x0c, 0x14],
        ),
        (
            ControlMessage::GoAway(GoAway {
                new_session_uri: "foo".to_string(),
            }),
            vec![0x10, 0x03, 0x66, 0x6f, 0x6f],
        ),
        (
            ControlMessage::ClientSetup(ClientSetup {
                supported_versions: vec![Version::Draft01, Version::Draft02],
                role: Role::PubSub,
                path: Some("foo".to_string()),
            }),
            vec![
                0x40, 0x40, // message type
                0x02, // two versions
                0xc0, 0x00, 0x00, 0x00, 0xff, 0x00, 0x00, 0x01, // draft 01
                0xc0, 0x00, 0x00, 0x00, 0xff, 0x00, 0x00, 0x02, // draft 02
                0x02, // two parameters
                0x00, 0x01, 0x03, // role = PubSub
                0x01, 0x03, 0x66, 0x6f, 0x6f, // path = "foo"
            ],
        ),
        (
            ControlMessage::ClientSetup(ClientSetup {
                supported_versions: vec![],
                role: Role::Subscriber,
                path: None,
            }),
            vec![0x40, 0x40, 0x00, 0x01, 0x00, 0x01, 0x02],
        ),
        (
            ControlMessage::ServerSetup(ServerSetup {
                selected_version: Version::Draft04,
                role: Role::Publisher,
            }),
            vec![
                0x40, 0x41, // message type
                0xc0, 0x00, 0x00, 0x00, 0xff, 0x00, 0x00, 0x04, // draft 04
                0x01, // one parameter
                0x00, 0x01, 0x01, // role = Publisher
            ],
        ),
    ]
}

#[test]
fn every_message_has_its_layout() {
    for (message, bytes) in cases() {
        let mut w = vec![];
        assert_eq!(message.serialize(&mut w), Ok(bytes.len()));
        assert_eq!(w, bytes);
        assert_eq!(
            ControlMessage::deserialize(&bytes),
            Ok((message, bytes.len()))
        );
    }
}

#[test]
fn every_message_survives_encode_decode_encode() {
    for (message, _) in cases() {
        let mut first = vec![0xee];
        message.serialize(&mut first).unwrap();
        // Bytes behind the message are left alone.
        let mut input = first[1..].to_vec();
        input.extend_from_slice(&[0xaa, 0xbb]);
        let (back, taken) = ControlMessage::deserialize(&input).unwrap();
        assert_eq!(taken, first.len() - 1);
        let mut second = vec![0xee];
        back.serialize(&mut second).unwrap();
        assert_eq!(first, second);
    }
}

#[test]
fn every_message_is_cut_short_by_any_shorter_input() {
    for (_, bytes) in cases() {
        for k in 0..bytes.len() {
            let r = ControlMessage::deserialize(&bytes[..k]);
            assert!(
                matches!(
                    r,
                    Err(Error::ErrUnexpectedEnd) | Err(Error::ErrBufferTooShort)
                ),
                "{:?}",
                r
            );
        }
    }
}

#[test]
fn every_message_comes_out_of_the_parser_in_pieces_as_whole() {
    for (message, bytes) in cases() {
        let mut whole = MessageParser::new(false);
        whole.process_data(&bytes, false);
        let mut pieces = MessageParser::new(false);
        for i in 0..bytes.len() {
            pieces.process_data(&bytes[i..i + 1], false);
        }
        let expected = MessageParserEvent::from_message(message);
        assert_eq!(whole.poll_event().as_ref(), Some(&expected));
        assert_eq!(pieces.poll_event().as_ref(), Some(&expected));
        assert_eq!(whole.poll_event(), None);
        assert_eq!(pieces.poll_event(), None);
    }
}

#[test]
fn message_types_of_the_messages() {
    let expected = vec![
        MessageType::Announce,
        MessageType::Announce,
        MessageType::AnnounceOk,
        MessageType::AnnounceError,
        MessageType::UnAnnounce,
        MessageType::UnSubscribe,
        MessageType::SubscribeOk,
        MessageType::SubscribeOk,
        MessageType::SubscribeError,
        MessageType::SubscribeDone,
        MessageType::SubscribeDone,
        MessageType::SubscribeUpdate,
        MessageType::TrackStatusRequest,
        MessageType::TrackStatus,
        MessageType::GoAway,
        MessageType::ClientSetup,
        MessageType::ClientSetup,
        MessageType::ServerSetup,
    ];
    let types: Vec<MessageType> = cases().iter().map(|(m, _)| m.message_type()).collect();
    assert_eq!(types, expected);
}

#[test]
fn content_exists_is_zero_or_one() {
    assert_eq!(
        ControlMessage::deserialize(&[0x04, 0x01, 0x03, 0x02, 0x0c, 0x14]),
        Err(Error::ErrInvalidBooleanValue(2))
    );
    assert_eq!(
        ControlMessage::deserialize(&[0x0b, 0x02, 0x03, 0x00, 0xff]),
        Err(Error::ErrInvalidBooleanValue(0xff))
    );
}

#[test]
fn setup_needs_a_role() {
    // No parameter at all.
    assert_eq!(
        ControlMessage::deserialize(&[0x40, 0x41, 0xc0, 0x00, 0x00, 0x00, 0xff, 0x00, 0x00, 0x04, 0x00]),
        Err(Error::ErrMissingParameter)
    );
    // A path, but no role.
    assert_eq!(
        ControlMessage::deserialize(&[0x40, 0x40, 0x00, 0x01, 0x01, 0x01, 0x61]),
        Err(Error::ErrMissingParameter)
    );
    // A role that does not exist.
    assert_eq!(
        ControlMessage::deserialize(&[0x40, 0x40, 0x00, 0x01, 0x00, 0x01, 0x07]),
        Err(Error::ErrInvalidRole(7))
    );
    // A role in an entry that is longer than the role.
    assert_eq!(
        ControlMessage::deserialize(&[0x40, 0x40, 0x00, 0x01, 0x00, 0x02, 0x01, 0x00]),
        Err(Error::ErrParseError(
            ParserErrorCode::ParameterLengthMismatch,
            "Parameter length does not match varint encoding".to_string()
        ))
    );
    // A role in an empty entry.
    assert_eq!(
        ControlMessage::deserialize(&[0x40, 0x40, 0x00, 0x01, 0x00, 0x00]),
        Err(Error::ErrUnexpectedEnd)
    );
    // Two roles.
    assert_eq!(
        ControlMessage::deserialize(&[0x40, 0x40, 0x00, 0x02, 0x00, 0x01, 0x01, 0x00, 0x01, 0x02]),
        Err(Error::ErrDuplicateParameter)
    );
    // A path that is no UTF-8.
    assert!(matches!(
        ControlMessage::deserialize(&[0x40, 0x40, 0x00, 0x02, 0x00, 0x01, 0x01, 0x01, 0x01, 0xff]),
        Err(Error::ErrInvalidString(_))
    ));
    // A version that this implementation does not speak.
    assert_eq!(
        ControlMessage::deserialize(&[0x40, 0x40, 0x01, 0x05, 0x01, 0x00, 0x01, 0x01]),
        Err(Error::ErrUnsupportedVersion(5))
    );
    assert_eq!(
        ControlMessage::deserialize(&[0x40, 0x41, 0x05, 0x01, 0x00, 0x01, 0x01]),
        Err(Error::ErrUnsupportedVersion(5))
    );
}

#[test]
fn setup_passes_over_unknown_parameters() {
    let (message, n) = ControlMessage::deserialize(&[
        0x40, 0x41, // message type
        0xc0, 0x00, 0x00, 0x00, 0xff, 0x00, 0x00, 0x03, // draft 03
        0x03, // three parameters
        0x09, 0x02, 0xff, 0xff, // unknown
        0x00, 0x01, 0x02, // role = Subscriber
        0x01, 0x01, 0xff, // a path is of no interest to a server's setup
    ])
    .unwrap();
    assert_eq!(n, 21);
    assert_eq!(
        message,
        ControlMessage::ServerSetup(ServerSetup {
            selected_version: Version::Draft03,
            role: Role::Subscriber,
        })
    );
}

#[test]
fn structural_failures_of_a_control_message_end_the_parsing() {
    // A setup message without a role.
    let mut parser = MessageParser::new(false);
    parser.process_data(&[0x40, 0x40, 0x00, 0x00], false);
    assert_eq!(
        parser.poll_event(),
        Some(MessageParserEvent::ParsingError(
            ParserErrorCode::ProtocolViolation,
            "missing parameter".to_string()
        ))
    );
    assert_eq!(parser.poll_event(), None);

    // A setup message with two roles.
    let mut parser = MessageParser::new(false);
    parser.process_data(
        &[0x40, 0x40, 0x00, 0x02, 0x00, 0x01, 0x01, 0x00, 0x01, 0x02],
        false,
    );
    assert_eq!(
        parser.poll_event(),
        Some(MessageParserEvent::ParsingError(
            ParserErrorCode::ProtocolViolation,
            "duplicate parameter".to_string()
        ))
    );

    // A role whose entry has the wrong length is reported under its own code.
    let mut parser = MessageParser::new(false);
    parser.process_data(&[0x40, 0x40, 0x00, 0x01, 0x00, 0x02, 0x01, 0x00], false);
    assert_eq!(
        parser.poll_event(),
        Some(MessageParserEvent::ParsingError(
            ParserErrorCode::ParameterLengthMismatch,
            "Parameter length does not match varint encoding".to_string()
        ))
    );

    // An announcement with two authorizations.
    let mut parser = MessageParser::new(false);
    parser.process_data(
        &[0x06, 0x01, 0x61, 0x02, 0x02, 0x01, 0x62, 0x02, 0x01, 0x63],
        false,
    );
    assert_eq!(
        parser.poll_event(),
        Some(MessageParserEvent::ParsingError(
            ParserErrorCode::ProtocolViolation,
            "AUTHORIZATION_INFO parameter appears twice in ANNOUNCE".to_string()
        ))
    );
}
