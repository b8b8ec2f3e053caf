use moqt::codec::string::{deserialize_string, serialize_string};
use moqt::codec::varint::{
    deserialize_u64, deserialize_varints, serialize_u64, serialize_usize, VARINT_LIMIT,
};
use moqt::{Error, VarInt};

fn encode(v: u64) -> Vec<u8> {
    let mut w = vec![];
    let n = serialize_u64(v, &mut w).unwrap();
    assert_eq!(n, w.len());
    w
}

#[test]
fn varint_round_trip_at_the_thresholds() {
    let cases: Vec<(u64, usize)> = vec![
        (0, 1),
        (63, 1),
        (64, 2),
        (16383, 2),
        (16384, 4),
        (1073741823, 4),
        (1073741824, 8),
        (4611686018427387903, 8),
    ];
    for (v, len) in cases {
        let bytes = encode(v);
        assert_eq!(bytes.len(), len);
        assert_eq!(deserialize_u64(&bytes), Ok((v, len)));
        let var = VarInt::from_u64(v).unwrap();
        assert_eq!(var.size(), len);
        let (back, taken) = VarInt::deserialize(&bytes).unwrap();
        assert_eq!(back, var);
        assert_eq!(taken, len);
        assert_eq!(back.into_inner(), v);
    }
}

#[test]
fn varint_known_encodings() {
    assert_eq!(encode(37), vec![0x25]);
    assert_eq!(encode(15293), vec![0x7b, 0xbd]);
    assert_eq!(encode(494878333), vec![0x9d, 0x7f, 0x3e, 0x7d]);
    assert_eq!(
        encode(151288809941952652),
        vec![0xc2, 0x19, 0x7c, 0x5e, 0xff, 0x14, 0xe8, 0x8c]
    );
    assert_eq!(encode(64), vec![0x40, 0x40]);
    assert_eq!(encode(16384), vec![0x80, 0x00, 0x40, 0x00]);
    assert_eq!(
        encode(1073741824),
        vec![0xc0, 0x00, 0x00, 0x00, 0x40, 0x00, 0x00, 0x00]
    );
}

#[test]
fn varint_known_decodings() {
    assert_eq!(deserialize_u64(&[0x25]), Ok((37, 1)));
    assert_eq!(deserialize_u64(&[0x7b, 0xbd]), Ok((15293, 2)));
    assert_eq!(deserialize_u64(&[0x9d, 0x7f, 0x3e, 0x7d]), Ok((494878333, 4)));
    assert_eq!(
        deserialize_u64(&[0xc2, 0x19, 0x7c, 0x5e, 0xff, 0x14, 0xe8, 0x8c]),
        Ok((151288809941952652, 8))
    );
}

#[test]
fn varint_encode_fails_beyond_the_domain() {
    let mut w = vec![0xaa];
    assert_eq!(
        serialize_u64(4611686018427387904, &mut w),
        Err(Error::ErrVarIntBoundsExceeded)
    );
    assert_eq!(w, vec![0xaa]);
    assert_eq!(
        serialize_u64(u64::MAX, &mut w),
        Err(Error::ErrVarIntBoundsExceeded)
    );
    assert_eq!(
        VarInt::from_u64(VARINT_LIMIT),
        Err(Error::ErrVarIntBoundsExceeded)
    );
    assert!(VarInt::from_u64(VARINT_LIMIT - 1).is_ok());
}

#[test]
fn varint_appends_behind_what_is_there() {
    let mut w = vec![1, 2, 3];
    assert_eq!(serialize_u64(300, &mut w), Ok(2));
    assert_eq!(w, vec![1, 2, 3, 0x41, 0x2c]);
    assert_eq!(serialize_usize(5, &mut w), Ok(1));
    assert_eq!(w, vec![1, 2, 3, 0x41, 0x2c, 5]);
}

#[test]
fn varint_length_comes_from_the_tag_alone() {
    // Bytes behind the announced length are left alone, whatever they are.
    assert_eq!(deserialize_u64(&[0x00, 0xff, 0xff]), Ok((0, 1)));
    assert_eq!(deserialize_u64(&[0x3f, 0x40, 0x00]), Ok((63, 1)));
    assert_eq!(deserialize_u64(&[0x7f, 0xff, 0xff]), Ok((16383, 2)));
    assert_eq!(
        deserialize_u64(&[0xbf, 0xff, 0xff, 0xff, 0x00]),
        Ok((1073741823, 4))
    );
    // The tag of an encoding always names the length of that encoding.
    for v in [0u64, 63, 64, 16383, 16384, 1073741823, 1073741824, VARINT_LIMIT - 1] {
        let bytes = encode(v);
        assert_eq!(1usize << (bytes[0] >> 6), bytes.len());
        let mut longer = bytes.clone();
        longer.extend_from_slice(&[0xff, 0x00, 0x80]);
        assert_eq!(deserialize_u64(&longer), Ok((v, bytes.len())));
    }
}

#[test]
fn varint_truncated_input_is_an_unexpected_end() {
    assert_eq!(deserialize_u64(&[]), Err(Error::ErrUnexpectedEnd));
    assert_eq!(deserialize_u64(&[0x40]), Err(Error::ErrUnexpectedEnd));
    assert_eq!(deserialize_u64(&[0x80, 1, 2]), Err(Error::ErrUnexpectedEnd));
    assert_eq!(
        deserialize_u64(&[0xc0, 1, 2, 3, 4, 5, 6]),
        Err(Error::ErrUnexpectedEnd)
    );
    assert_eq!(VarInt::deserialize(&[]), Err(Error::ErrUnexpectedEnd));
}

#[test]
fn varint_constructors_and_conversions() {
    assert_eq!(VarInt::from_u32(7).into_inner(), 7);
    assert_eq!(VarInt::from_u32(u32::MAX).into_inner(), 4294967295);
    assert_eq!(VarInt::from_u64_unchecked(9).into_inner(), 9);
    assert_eq!(VarInt::max().into_inner(), 4611686018427387903);
    assert_eq!(VarInt::default().into_inner(), 0);
    assert_eq!(VarInt::MAX_SIZE, 8);
    assert_eq!(u64::from(VarInt::from_u32(11)), 11);
    assert_eq!(VarInt::from(200u8).into_inner(), 200);
    assert_eq!(VarInt::from(60000u16).into_inner(), 60000);
    assert_eq!(VarInt::from(70000u32).into_inner(), 70000);
    assert_eq!(VarInt::try_from(5u64).unwrap().into_inner(), 5);
    assert_eq!(
        VarInt::try_from(VARINT_LIMIT),
        Err(Error::ErrVarIntBoundsExceeded)
    );
    assert_eq!(VarInt::try_from(6u128).unwrap().into_inner(), 6);
    assert_eq!(
        VarInt::try_from(u128::MAX),
        Err(Error::ErrVarIntBoundsExceeded)
    );
    assert_eq!(VarInt::try_from(8usize).unwrap().into_inner(), 8);
    assert!(VarInt::from_u32(1) < VarInt::from_u32(2));
}

#[test]
fn varint_size_by_magnitude() {
    assert_eq!(VarInt::from_u32(0).size(), 1);
    assert_eq!(VarInt::from_u32(63).size(), 1);
    assert_eq!(VarInt::from_u32(64).size(), 2);
    assert_eq!(VarInt::from_u32(16383).size(), 2);
    assert_eq!(VarInt::from_u32(16384).size(), 4);
    assert_eq!(VarInt::from_u32(1073741823).size(), 4);
    assert_eq!(VarInt::from_u32(1073741824).size(), 8);
    assert_eq!(VarInt::max().size(), 8);
}

#[test]
fn varint_serialize_writes_the_value() {
    let mut w = vec![];
    assert_eq!(VarInt::from_u32(16384).serialize(&mut w), Ok(4));
    assert_eq!(w, vec![0x80, 0x00, 0x40, 0x00]);
}

#[test]
fn runs_of_integers() {
    assert_eq!(
        deserialize_varints(&[0x01, 0x40, 0x02, 0x03, 0xff], 3),
        Ok((vec![1, 2, 3], 4))
    );
    assert_eq!(deserialize_varints(&[0x01], 0), Ok((vec![], 0)));
    assert_eq!(
        deserialize_varints(&[0x01, 0x40], 2),
        Err(Error::ErrUnexpectedEnd)
    );
}

#[test]
fn string_round_trip() {
    let mut w = vec![];
    assert_eq!(serialize_string(&"foo".to_string(), &mut w), Ok(4));
    assert_eq!(w, vec![0x03, 0x66, 0x6f, 0x6f]);
    assert_eq!(deserialize_string(&w), Ok(("foo".to_string(), 4)));

    let mut w = vec![];
    assert_eq!(serialize_string(&String::new(), &mut w), Ok(1));
    assert_eq!(w, vec![0x00]);
    assert_eq!(deserialize_string(&[0x00, 0x41]), Ok((String::new(), 1)));

    // Two bytes of UTF-8 for one character.
    let mut w = vec![];
    assert_eq!(serialize_string(&"é".to_string(), &mut w), Ok(3));
    assert_eq!(w, vec![0x02, 0xc3, 0xa9]);
    assert_eq!(deserialize_string(&w), Ok(("é".to_string(), 3)));
}

#[test]
fn string_of_more_than_63_bytes_has_a_two_byte_length() {
    let text = "x".repeat(64);
    let mut w = vec![];
    assert_eq!(serialize_string(&text, &mut w), Ok(66));
    assert_eq!(w[0], 0x40);
    assert_eq!(w[1], 0x40);
    assert_eq!(deserialize_string(&w), Ok((text, 66)));
}

#[test]
fn string_errors() {
    assert_eq!(deserialize_string(&[]), Err(Error::ErrUnexpectedEnd));
    assert_eq!(
        deserialize_string(&[0x03, 0x66, 0x6f]),
        Err(Error::ErrBufferTooShort)
    );
    assert!(matches!(
        deserialize_string(&[0x02, 0xff, 0xfe]),
        Err(Error::ErrInvalidString(_))
    ));
    assert!(matches!(
        deserialize_string(&[0x01, 0xc3]),
        Err(Error::ErrInvalidString(_))
    ));
}
