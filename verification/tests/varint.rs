use massa::varint::{
    u32_from_varint_bytes, u32_to_varint_bytes, u64_from_varint_bytes, u64_to_varint_bytes,
    VarIntError,
};

#[test]
fn encodes_known_values() {
    assert_eq!(u32_to_varint_bytes(0), vec![0]);
    assert_eq!(u32_to_varint_bytes(1), vec![1]);
    assert_eq!(u32_to_varint_bytes(127), vec![0x7f]);
    assert_eq!(u32_to_varint_bytes(128), vec![0x80, 0x01]);
    assert_eq!(u32_to_varint_bytes(300), vec![0xac, 0x02]);
    assert_eq!(u32_to_varint_bytes(16384), vec![0x80, 0x80, 0x01]);
    assert_eq!(u32_to_varint_bytes(u32::MAX), vec![0xff, 0xff, 0xff, 0xff, 0x0f]);
    assert_eq!(
        u64_to_varint_bytes(u64::MAX),
        vec![0xff, 0xff, 0xff, 0xff, 0xff, 0xff, 0xff, 0xff, 0xff, 0x01]
    );
}

#[test]
fn decodes_known_values() {
    assert_eq!(u32_from_varint_bytes(&[0]), Ok((0, 1)));
    assert_eq!(u32_from_varint_bytes(&[0xac, 0x02, 0xff]), Ok((300, 2)));
    assert_eq!(
        u32_from_varint_bytes(&[0xff, 0xff, 0xff, 0xff, 0x0f]),
        Ok((u32::MAX, 5))
    );
    assert_eq!(
        u64_from_varint_bytes(&[0xff, 0xff, 0xff, 0xff, 0xff, 0xff, 0xff, 0xff, 0xff, 0x01]),
        Ok((u64::MAX, 10))
    );
}

#[test]
fn decode_errors() {
    assert_eq!(u32_from_varint_bytes(&[]), Err(VarIntError::Insufficient));
    assert_eq!(u32_from_varint_bytes(&[0x80, 0x80]), Err(VarIntError::Insufficient));
    assert_eq!(u32_from_varint_bytes(&[0x80, 0x00]), Err(VarIntError::NotMinimal));
    assert_eq!(
        u32_from_varint_bytes(&[0x80, 0x80, 0x80, 0x80, 0x80, 0x01]),
        Err(VarIntError::Overflow)
    );
    // five bytes, but more than 32 bits
    assert_eq!(
        u32_from_varint_bytes(&[0xff, 0xff, 0xff, 0xff, 0x1f]),
        Err(VarIntError::Overflow)
    );
    assert_eq!(
        u64_from_varint_bytes(&[0xff, 0xff, 0xff, 0xff, 0xff, 0xff, 0xff, 0xff, 0xff, 0x02]),
        Err(VarIntError::Overflow)
    );
}

#[test]
fn roundtrip_with_trailing_bytes() {
    for v in [0u64, 1, 127, 128, 255, 256, 1 << 20, (1 << 35) + 17, u64::MAX - 1, u64::MAX] {
        let mut bytes = u64_to_varint_bytes(v);
        let n = bytes.len();
        bytes.extend_from_slice(&[0x80, 0x01]);
        assert_eq!(u64_from_varint_bytes(&bytes), Ok((v, n)));
    }
    for v in [0u32, 5, 200, 70000, u32::MAX] {
        let bytes = u32_to_varint_bytes(v);
        assert_eq!(u32_from_varint_bytes(&bytes), Ok((v, bytes.len())));
    }
}
