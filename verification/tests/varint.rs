use wasmdec::error::DecodeError;
use wasmdec::varint::{encode_varint, read_u32};

#[test]
fn varint_encode_exact_bytes() {
    assert_eq!(encode_varint(0), vec![0x00]);
    assert_eq!(encode_varint(1), vec![0x01]);
    assert_eq!(encode_varint(127), vec![0x7F]);
    assert_eq!(encode_varint(128), vec![0x80, 0x01]);
    assert_eq!(encode_varint(300), vec![0xAC, 0x02]);
    assert_eq!(encode_varint(16384), vec![0x80, 0x80, 0x01]);
    assert_eq!(encode_varint(624485), vec![0xE5, 0x8E, 0x26]);
    assert_eq!(encode_varint(u32::MAX), vec![0xFF, 0xFF, 0xFF, 0xFF, 0x0F]);
}

#[test]
fn varint_round_trip_values() {
    let values = [
        0u32,
        1,
        2,
        127,
        128,
        129,
        255,
        256,
        300,
        16383,
        16384,
        65535,
        624485,
        2097151,
        2097152,
        268435455,
        268435456,
        4000000000,
        u32::MAX,
    ];
    for &v in values.iter() {
        let enc = encode_varint(v);
        let (got, rest) = read_u32(&enc).expect("round trip must decode");
        assert_eq!(got, v);
        assert!(rest.is_empty());
    }
}

#[test]
fn varint_round_trip_leaves_trailing_bytes() {
    let mut buf = encode_varint(300);
    buf.push(0xAA);
    buf.push(0x7F);
    let (got, rest) = read_u32(&buf).unwrap();
    assert_eq!(got, 300);
    assert_eq!(rest, &[0xAA, 0x7F][..]);
}

#[test]
fn varint_empty_is_truncated() {
    assert_eq!(read_u32(&[]), Err(DecodeError::Truncated));
}

#[test]
fn varint_all_continuation_truncated() {
    assert_eq!(read_u32(&[0x80]), Err(DecodeError::Truncated));
    assert_eq!(read_u32(&[0x80, 0x80]), Err(DecodeError::Truncated));
    assert_eq!(read_u32(&[0xFF, 0xFF, 0xFF]), Err(DecodeError::Truncated));
    assert_eq!(read_u32(&[0x80, 0x80, 0x80, 0x80]), Err(DecodeError::Truncated));
}

#[test]
fn varint_six_groups_overflow() {
    assert_eq!(
        read_u32(&[0x80, 0x80, 0x80, 0x80, 0x80, 0x80]),
        Err(DecodeError::Overflow)
    );
    assert_eq!(
        read_u32(&[0x80, 0x80, 0x80, 0x80, 0x80, 0x00]),
        Err(DecodeError::Overflow)
    );
}

#[test]
fn varint_five_continuations_truncated() {
    assert_eq!(read_u32(&[0x80, 0x80, 0x80, 0x80, 0x80]), Err(DecodeError::Truncated));
    assert_eq!(read_u32(&[0xFF, 0xFF, 0xFF, 0xFF, 0xFF]), Err(DecodeError::Truncated));
}

#[test]
fn varint_fifth_group_too_wide_overflow() {
    assert_eq!(
        read_u32(&[0xFF, 0xFF, 0xFF, 0xFF, 0x1F]),
        Err(DecodeError::Overflow)
    );
    let (v, rest) = read_u32(&[0xFF, 0xFF, 0xFF, 0xFF, 0x0F]).unwrap();
    assert_eq!(v, u32::MAX);
    assert!(rest.is_empty());
}
