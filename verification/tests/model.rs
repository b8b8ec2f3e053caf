use moqt::{
    Error, FilterType, FullSequence, FullTrackName, MessageType, ObjectForwardingPreference,
    ObjectStatus, ParameterKey, Parameters, ParserErrorCode, Role, Version,
};

#[test]
fn message_type_values() {
    let table: Vec<(u64, MessageType)> = vec![
        (0x0, MessageType::ObjectStream),
        (0x1, MessageType::ObjectDatagram),
        (0x2, MessageType::SubscribeUpdate),
        (0x3, MessageType::Subscribe),
        (0x4, MessageType::SubscribeOk),
        (0x5, MessageType::SubscribeError),
        (0x6, MessageType::Announce),
        (0x7, MessageType::AnnounceOk),
        (0x8, MessageType::AnnounceError),
        (0x9, MessageType::UnAnnounce),
        (0xa, MessageType::UnSubscribe),
        (0xb, MessageType::SubscribeDone),
        (0xc, MessageType::AnnounceCancel),
        (0xd, MessageType::TrackStatusRequest),
        (0xe, MessageType::TrackStatus),
        (0x10, MessageType::GoAway),
        (0x40, MessageType::ClientSetup),
        (0x41, MessageType::ServerSetup),
        (0x50, MessageType::StreamHeaderTrack),
        (0x51, MessageType::StreamHeaderGroup),
    ];
    for (value, t) in table {
        assert_eq!(MessageType::try_from(value), Ok(t));
        assert_eq!(t.value(), value);
    }
    assert_eq!(
        MessageType::try_from(0xf),
        Err(Error::ErrInvalidMessageType(0xf))
    );
    assert_eq!(
        MessageType::try_from(0x52),
        Err(Error::ErrInvalidMessageType(0x52))
    );
    assert_eq!(MessageType::default(), MessageType::ObjectStream);
}

#[test]
fn message_type_on_the_wire() {
    let mut w = vec![];
    assert_eq!(MessageType::StreamHeaderGroup.encode(&mut w), Ok(2));
    assert_eq!(w, vec![0x40, 0x51]);
    assert_eq!(
        MessageType::decode(&w),
        Ok((MessageType::StreamHeaderGroup, 2))
    );
    assert_eq!(
        MessageType::decode(&[0x0c, 0xff]),
        Ok((MessageType::AnnounceCancel, 1))
    );
    assert_eq!(
        MessageType::decode(&[0x3f]),
        Err(Error::ErrInvalidMessageType(0x3f))
    );
    assert_eq!(MessageType::decode(&[]), Err(Error::ErrUnexpectedEnd));
}

#[test]
fn forwarding_preference_and_message_type() {
    let pairs = vec![
        (MessageType::ObjectStream, ObjectForwardingPreference::Object),
        (MessageType::ObjectDatagram, ObjectForwardingPreference::Datagram),
        (MessageType::StreamHeaderTrack, ObjectForwardingPreference::Track),
        (MessageType::StreamHeaderGroup, ObjectForwardingPreference::Group),
    ];
    for (t, p) in pairs {
        assert_eq!(t.get_object_forwarding_preference(), Ok(p));
        assert_eq!(p.get_message_type(), t);
    }
    assert_eq!(
        MessageType::Subscribe.get_object_forwarding_preference(),
        Err(Error::ErrInvalidMessageType(3))
    );
}

#[test]
fn object_status_values() {
    assert_eq!(ObjectStatus::from(0), ObjectStatus::Normal);
    assert_eq!(ObjectStatus::from(1), ObjectStatus::ObjectDoesNotExist);
    assert_eq!(ObjectStatus::from(2), ObjectStatus::GroupDoesNotExist);
    assert_eq!(ObjectStatus::from(3), ObjectStatus::EndOfGroup);
    assert_eq!(ObjectStatus::from(4), ObjectStatus::EndOfTrack);
    assert_eq!(ObjectStatus::from(5), ObjectStatus::Invalid);
    assert_eq!(ObjectStatus::from(1000), ObjectStatus::Invalid);
}

#[test]
fn parser_error_code_values() {
    assert_eq!(ParserErrorCode::NoError.value(), 0x0);
    assert_eq!(ParserErrorCode::InternalError.value(), 0x1);
    assert_eq!(ParserErrorCode::Unauthorized.value(), 0x2);
    assert_eq!(ParserErrorCode::ProtocolViolation.value(), 0x3);
    assert_eq!(ParserErrorCode::DuplicateTrackAlias.value(), 0x4);
    assert_eq!(ParserErrorCode::ParameterLengthMismatch.value(), 0x5);
    assert_eq!(ParserErrorCode::GoawayTimeout.value(), 0x10);
}

#[test]
fn filter_type_layouts() {
    let start = FullSequence {
        group_id: 4,
        object_id: 1,
    };
    let end = FullSequence {
        group_id: 300,
        object_id: 2,
    };
    let cases: Vec<(FilterType, Vec<u8>)> = vec![
        (FilterType::LatestGroup, vec![0x01]),
        (FilterType::LatestObject, vec![0x02]),
        (FilterType::AbsoluteStart(start), vec![0x03, 0x04, 0x01]),
        (
            FilterType::AbsoluteRange(start, end),
            vec![0x04, 0x04, 0x01, 0x41, 0x2c, 0x02],
        ),
    ];
    for (filter, bytes) in cases {
        let mut w = vec![];
        assert_eq!(filter.encode(&mut w), Ok(bytes.len()));
        assert_eq!(w, bytes);
        assert_eq!(FilterType::decode(&w), Ok((filter, bytes.len())));
    }
    assert_eq!(
        FilterType::decode(&[0x00]),
        Err(Error::ErrInvalidFilterType(0))
    );
    assert_eq!(
        FilterType::decode(&[0x05, 0x01, 0x01]),
        Err(Error::ErrInvalidFilterType(5))
    );
    assert_eq!(FilterType::decode(&[0x03, 0x04]), Err(Error::ErrUnexpectedEnd));
    assert_eq!(
        FilterType::decode(&[0x04, 0x04, 0x01, 0x02]),
        Err(Error::ErrUnexpectedEnd)
    );
    assert_eq!(FilterType::default(), FilterType::LatestGroup);
}

#[test]
fn full_sequence_and_full_track_name() {
    let position = FullSequence {
        group_id: 16384,
        object_id: 7,
    };
    let mut w = vec![];
    assert_eq!(position.encode(&mut w), Ok(5));
    assert_eq!(w, vec![0x80, 0x00, 0x40, 0x00, 0x07]);
    assert_eq!(FullSequence::decode(&w), Ok((position, 5)));
    assert_eq!(FullSequence::decode(&w[..4]), Err(Error::ErrUnexpectedEnd));

    let name = FullTrackName {
        track_namespace: "foo".to_string(),
        track_name: "abcd".to_string(),
    };
    let mut w = vec![];
    assert_eq!(name.encode(&mut w), Ok(9));
    assert_eq!(
        w,
        vec![0x03, 0x66, 0x6f, 0x6f, 0x04, 0x61, 0x62, 0x63, 0x64]
    );
    assert_eq!(FullTrackName::decode(&w), Ok((name, 9)));
    assert_eq!(
        FullTrackName::decode(&w[..6]),
        Err(Error::ErrBufferTooShort)
    );
}

#[test]
fn version_values() {
    let table: Vec<(u64, Version)> = vec![
        (0xff000000, Version::Draft00),
        (0xff000001, Version::Draft01),
        (0xff000002, Version::Draft02),
        (0xff000003, Version::Draft03),
        (0xff000004, Version::Draft04),
    ];
    for (value, version) in table {
        assert_eq!(Version::try_from(value), Ok(version));
        assert_eq!(version.value(), value);
    }
    assert_eq!(
        Version::try_from(0xff000005),
        Err(Error::ErrUnsupportedVersion(0xff000005))
    );
    assert_eq!(Version::try_from(1), Err(Error::ErrUnsupportedVersion(1)));
    let mut w = vec![];
    assert_eq!(Version::Draft04.encode(&mut w), Ok(8));
    assert_eq!(w, vec![0xc0, 0x00, 0x00, 0x00, 0xff, 0x00, 0x00, 0x04]);
    assert_eq!(Version::decode(&w), Ok((Version::Draft04, 8)));
    assert_eq!(Version::decode(&[0x01]), Err(Error::ErrUnsupportedVersion(1)));
}

#[test]
fn role_values() {
    assert_eq!(Role::try_from(1), Ok(Role::Publisher));
    assert_eq!(Role::try_from(2), Ok(Role::Subscriber));
    assert_eq!(Role::try_from(3), Ok(Role::PubSub));
    assert_eq!(Role::try_from(0), Err(Error::ErrInvalidRole(0)));
    assert_eq!(Role::try_from(4), Err(Error::ErrInvalidRole(4)));
    assert_eq!(Role::PubSub.value(), 3);
    let mut w = vec![];
    assert_eq!(Role::Subscriber.encode(&mut w), Ok(1));
    assert_eq!(w, vec![0x02]);
    assert_eq!(Role::decode(&w), Ok((Role::Subscriber, 1)));
    assert_eq!(Role::decode(&[0x09]), Err(Error::ErrInvalidRole(9)));
}

#[test]
fn parameters_refuse_a_second_entry_under_a_key() {
    let mut block = Parameters::new();
    assert_eq!(block.len(), 0);
    assert_eq!(
        block.insert(ParameterKey::AuthorizationInfo, "bar".to_string()),
        Ok(())
    );
    assert_eq!(
        block.insert(ParameterKey::AuthorizationInfo, "baz".to_string()),
        Err(Error::ErrDuplicateParameter)
    );
    assert_eq!(block.insert(ParameterKey::Path, "/p".to_string()), Ok(()));
    assert_eq!(block.len(), 2);
    assert!(block.contains(2));
    assert!(block.contains(1));
    assert!(!block.contains(0));

    let mut w = vec![];
    assert_eq!(block.serialize(&mut w), Ok(10));
    assert_eq!(
        w,
        vec![0x02, 0x02, 0x03, 0x62, 0x61, 0x72, 0x01, 0x02, 0x2f, 0x70]
    );
    assert_eq!(Parameters::deserialize(&w), Ok((block, 10)));
}

#[test]
fn parameters_decode_detects_duplicates() {
    assert_eq!(
        Parameters::deserialize(&[0x02, 0x05, 0x01, 0x61, 0x05, 0x00]),
        Err(Error::ErrDuplicateParameter)
    );
    assert_eq!(
        Parameters::deserialize(&[0x02, 0x05, 0x01, 0x61]),
        Err(Error::ErrUnexpectedEnd)
    );
    assert_eq!(
        Parameters::deserialize(&[0x01, 0x05, 0x02, 0x61]),
        Err(Error::ErrBufferTooShort)
    );
    let (empty, n) = Parameters::deserialize(&[0x00, 0x07]).unwrap();
    assert_eq!(n, 1);
    assert_eq!(empty.len(), 0);
    assert_eq!(ParameterKey::Role.value(), 0);
    assert_eq!(ParameterKey::Path.value(), 1);
    assert_eq!(ParameterKey::AuthorizationInfo.value(), 2);
}

#[test]
fn violations_carry_their_reason() {
    assert_eq!(
        Error::ErrProtocolViolation("x".to_string()).violation(),
        Some((ParserErrorCode::ProtocolViolation, "x".to_string()))
    );
    assert_eq!(
        Error::ErrParseError(ParserErrorCode::ParameterLengthMismatch, "y".to_string())
            .violation(),
        Some((ParserErrorCode::ParameterLengthMismatch, "y".to_string()))
    );
    assert_eq!(
        Error::ErrDuplicateParameter.violation(),
        Some((
            ParserErrorCode::ProtocolViolation,
            "duplicate parameter".to_string()
        ))
    );
    assert_eq!(
        Error::ErrMissingParameter.violation(),
        Some((
            ParserErrorCode::ProtocolViolation,
            "missing parameter".to_string()
        ))
    );
    assert_eq!(Error::ErrUnexpectedEnd.violation(), None);
    assert_eq!(Error::ErrMalformedVarInt.violation(), None);
    assert_eq!(Error::ErrInvalidBooleanValue(2).violation(), None);
}
