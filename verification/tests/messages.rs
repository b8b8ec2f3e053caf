use moqt::{AnnounceCancel, ControlMessage, FilterType, FullSequence, Result, Subscribe};

#[test]
fn test_announce_cancel() -> Result<()> {
    let expected_packet: Vec<u8> = vec![
        0x0c, 0x03, 0x66, 0x6f, 0x6f, // track_namespace = "foo"
    ];

    let expected_message = ControlMessage::AnnounceCancel(AnnounceCancel {
        track_namespace: "foo".to_string(),
    });

    let (actual_message, actual_len) = ControlMessage::deserialize(expected_packet.as_ref())?;
    assert_eq!(expected_message, actual_message);
    assert_eq!(expected_packet.len(), actual_len);

    let mut actual_packet = vec![];
    let _ = expected_message.serialize(&mut actual_packet)?;
    assert_eq!(expected_packet, actual_packet);

    Ok(())
}

#[test]
fn test_subscribe() -> Result<()> {
    let expected_packet: Vec<u8> = vec![
        0x03, 0x01, 0x02, // id and alias
        0x03, 0x66, 0x6f, 0x6f, // track_namespace = "foo"
        0x04, 0x61, 0x62, 0x63, 0x64, // track_name = "abcd"
        0x03, // Filter type: Absolute Start
        0x04, // start_group = 4 (relative previous)
        0x01, // start_object = 1 (absolute)
        // No EndGroup or EndObject
        0x01, // 1 parameter
        0x02, 0x03, 0x62, 0x61, 0x72, // authorization_info = "bar"
    ];

    let expected_message = ControlMessage::Subscribe(Subscribe {
        subscribe_id: 1,
        track_alias: 2,
        track_namespace: "foo".to_string(),
        track_name: "abcd".to_string(),
        filter_type: FilterType::AbsoluteStart(FullSequence {
            group_id: 4,
            object_id: 1,
        }),
        authorization_info: Some("bar".to_string()),
    });

    let (actual_message, actual_len) = ControlMessage::deserialize(expected_packet.as_ref())?;
    assert_eq!(expected_message, actual_message);
    assert_eq!(expected_packet.len(), actual_len);

    let mut actual_packet = vec![];
    let _ = expected_message.serialize(&mut actual_packet)?;
    assert_eq!(expected_packet, actual_packet);

    Ok(())
}

#[test]
fn announce_cancel_body_alone() {
    let m = AnnounceCancel {
        track_namespace: "foo".to_string(),
    };
    let mut w = vec![];
    assert_eq!(m.serialize(&mut w), Ok(4));
    assert_eq!(w, vec![0x03, 0x66, 0x6f, 0x6f]);
    assert_eq!(AnnounceCancel::deserialize(&w), Ok((m, 4)));
}

#[test]
fn subscribe_without_authorization_round_trips() {
    let m = Subscribe {
        subscribe_id: 1,
        track_alias: 2,
        track_namespace: "foo".to_string(),
        track_name: "abcd".to_string(),
        filter_type: FilterType::LatestGroup,
        authorization_info: None,
    };
    let mut w = vec![];
    assert_eq!(m.serialize(&mut w), Ok(13));
    assert_eq!(
        w,
        vec![0x01, 0x02, 0x03, 0x66, 0x6f, 0x6f, 0x04, 0x61, 0x62, 0x63, 0x64, 0x01, 0x00]
    );
    assert_eq!(Subscribe::deserialize(&w), Ok((m, 13)));
}

#[test]
fn subscribe_encode_decode_encode_is_stable() {
    let messages = vec![
        ControlMessage::Subscribe(Subscribe {
            subscribe_id: 70000,
            track_alias: 300,
            track_namespace: "live".to_string(),
            track_name: "video".to_string(),
            filter_type: FilterType::AbsoluteRange(
                FullSequence {
                    group_id: 4,
                    object_id: 1,
                },
                FullSequence {
                    group_id: 9,
                    object_id: 100,
                },
            ),
            authorization_info: Some("token".to_string()),
        }),
        ControlMessage::Subscribe(Subscribe {
            subscribe_id: 0,
            track_alias: 0,
            track_namespace: String::new(),
            track_name: String::new(),
            filter_type: FilterType::LatestObject,
            authorization_info: None,
        }),
        ControlMessage::AnnounceCancel(AnnounceCancel {
            track_namespace: "bar".to_string(),
        }),
    ];
    for m in messages {
        let mut first = vec![];
        let n = m.serialize(&mut first).unwrap();
        assert_eq!(n, first.len());
        let (back, taken) = ControlMessage::deserialize(&first).unwrap();
        assert_eq!(taken, first.len());
        assert_eq!(back, m);
        let mut second = vec![];
        back.serialize(&mut second).unwrap();
        assert_eq!(first, second);
    }
}

#[test]
fn subscribe_with_authorization_twice_is_a_violation() {
    let packet: Vec<u8> = vec![
        0x03, 0x01, 0x02, // id and alias
        0x03, 0x66, 0x6f, 0x6f, // track_namespace = "foo"
        0x04, 0x61, 0x62, 0x63, 0x64, // track_name = "abcd"
        0x02, // Filter type: Latest Object
        0x02, // 2 parameters
        0x02, 0x03, 0x62, 0x61, 0x72, // authorization_info = "bar"
        0x02, 0x03, 0x62, 0x61, 0x7a, // authorization_info = "baz"
    ];
    assert_eq!(
        ControlMessage::deserialize(&packet),
        Err(moqt::Error::ErrParseError(
            moqt::ParserErrorCode::ProtocolViolation,
            "AUTHORIZATION_INFO parameter appears twice in SUBSCRIBE".to_string()
        ))
    );
}

#[test]
fn subscribe_passes_over_unknown_parameters() {
    let packet: Vec<u8> = vec![
        0x01, 0x02, // id and alias
        0x01, 0x61, // track_namespace = "a"
        0x01, 0x62, // track_name = "b"
        0x01, // Filter type: Latest Group
        0x03, // 3 parameters
        0x07, 0x02, 0xff, 0xfe, // unknown, two bytes that are no UTF-8
        0x02, 0x01, 0x78, // authorization_info = "x"
        0x07, 0x00, // unknown again, empty
        0x99, // not part of the message
    ];
    let (m, n) = Subscribe::deserialize(&packet).unwrap();
    assert_eq!(n, 17);
    assert_eq!(m.authorization_info, Some("x".to_string()));
    assert_eq!(m.track_namespace, "a");
    assert_eq!(m.track_name, "b");
}

#[test]
fn subscribe_errors() {
    // Ends inside the parameter block.
    assert_eq!(
        Subscribe::deserialize(&[0x01, 0x02, 0x00, 0x00, 0x01, 0x01]),
        Err(moqt::Error::ErrUnexpectedEnd)
    );
    // A parameter that announces more bytes than there are.
    assert_eq!(
        Subscribe::deserialize(&[0x01, 0x02, 0x00, 0x00, 0x01, 0x01, 0x02, 0x05, 0x61]),
        Err(moqt::Error::ErrBufferTooShort)
    );
    // An authorization that is no UTF-8.
    assert!(matches!(
        Subscribe::deserialize(&[0x01, 0x02, 0x00, 0x00, 0x01, 0x01, 0x02, 0x01, 0xff]),
        Err(moqt::Error::ErrInvalidString(_))
    ));
    // A filter type that does not exist.
    assert_eq!(
        Subscribe::deserialize(&[0x01, 0x02, 0x00, 0x00, 0x05, 0x00]),
        Err(moqt::Error::ErrInvalidFilterType(5))
    );
    // An integer field beyond the domain cannot be written.
    let m = Subscribe {
        subscribe_id: 1,
        track_alias: u64::MAX,
        track_namespace: String::new(),
        track_name: String::new(),
        filter_type: FilterType::LatestGroup,
        authorization_info: None,
    };
    let mut w = vec![];
    assert_eq!(m.serialize(&mut w), Err(moqt::Error::ErrVarIntBoundsExceeded));
    assert_eq!(w, vec![0x01]);
}

#[test]
fn control_message_needs_a_control_type() {
    assert_eq!(
        ControlMessage::deserialize(&[]),
        Err(moqt::Error::ErrUnexpectedEnd)
    );
    assert_eq!(
        ControlMessage::deserialize(&[0x00, 0x01]),
        Err(moqt::Error::ErrInvalidMessageType(0))
    );
    assert_eq!(
        ControlMessage::deserialize(&[0x3f]),
        Err(moqt::Error::ErrInvalidMessageType(0x3f))
    );
    assert_eq!(
        ControlMessage::deserialize(&[0x0c, 0x03, 0x66]),
        Err(moqt::Error::ErrBufferTooShort)
    );
}
