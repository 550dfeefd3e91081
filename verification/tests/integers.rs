use ed::{Decode, Encode, Error};

#[test]
fn unsigned_are_big_endian() {
    assert_eq!(0xabu8.encode().unwrap(), vec![0xab]);
    assert_eq!(0x1234u16.encode().unwrap(), vec![0x12, 0x34]);
    assert_eq!(0x1234_5678u32.encode().unwrap(), vec![0x12, 0x34, 0x56, 0x78]);
    assert_eq!(
        0x0102_0304_0506_0708u64.encode().unwrap(),
        vec![1, 2, 3, 4, 5, 6, 7, 8]
    );
    assert_eq!(
        0x0102_0304_0506_0708_090a_0b0c_0d0e_0f10u128.encode().unwrap(),
        vec![1, 2, 3, 4, 5, 6, 7, 8, 9, 10, 11, 12, 13, 14, 15, 16]
    );
}

#[test]
fn unsigned_match_the_standard_library() {
    for value in [0u32, 1, 255, 256, 0xdead_beef, u32::MAX] {
        assert_eq!(value.encode().unwrap(), value.to_be_bytes().to_vec());
    }
    for value in [0u128, 1, u64::MAX as u128 + 1, u128::MAX] {
        assert_eq!(value.encode().unwrap(), value.to_be_bytes().to_vec());
        let bytes = value.to_be_bytes();
        assert_eq!(u128::decode(&mut &bytes[..]), Ok(value));
    }
}

#[test]
fn signed_are_twos_complement() {
    assert_eq!((-1i8).encode().unwrap(), vec![0xff]);
    assert_eq!(i8::MIN.encode().unwrap(), vec![0x80]);
    assert_eq!(i8::MAX.encode().unwrap(), vec![0x7f]);
    assert_eq!((-2i16).encode().unwrap(), vec![0xff, 0xfe]);
    assert_eq!((-0x1234_5678i32).encode().unwrap(), vec![0xed, 0xcb, 0xa9, 0x88]);
    assert_eq!(i64::MIN.encode().unwrap(), vec![0x80, 0, 0, 0, 0, 0, 0, 0]);
    assert_eq!((-1i128).encode().unwrap(), vec![0xff; 16]);
}

#[test]
fn signed_match_the_standard_library() {
    for value in [i16::MIN, -300, -1, 0, 1, 300, i16::MAX] {
        let bytes = value.encode().unwrap();
        assert_eq!(bytes, value.to_be_bytes().to_vec());
        assert_eq!(i16::decode(&mut bytes.as_slice()), Ok(value));
    }
    for value in [i64::MIN, -1, 0, 1, i64::MAX] {
        let bytes = value.encode().unwrap();
        assert_eq!(bytes, value.to_be_bytes().to_vec());
        assert_eq!(i64::decode(&mut bytes.as_slice()), Ok(value));
    }
    for value in [i128::MIN, i128::MIN + 1, -1, 0, 1, i128::MAX] {
        let bytes = value.encode().unwrap();
        assert_eq!(bytes, value.to_be_bytes().to_vec());
        assert_eq!(i128::decode(&mut bytes.as_slice()), Ok(value));
    }
}

#[test]
fn every_i8_round_trips() {
    for value in i8::MIN..=i8::MAX {
        let bytes = value.encode().unwrap();
        assert_eq!(bytes.len(), 1);
        assert_eq!(i8::decode(&mut bytes.as_slice()), Ok(value));
    }
}

#[test]
fn every_u8_round_trips() {
    for value in u8::MIN..=u8::MAX {
        let bytes = value.encode().unwrap();
        assert_eq!(bytes, vec![value]);
        assert_eq!(u8::decode(&mut bytes.as_slice()), Ok(value));
    }
}

#[test]
fn integer_lengths_are_their_widths() {
    assert_eq!(0u8.encoding_length(), Ok(1));
    assert_eq!(0u16.encoding_length(), Ok(2));
    assert_eq!(0u32.encoding_length(), Ok(4));
    assert_eq!(0u64.encoding_length(), Ok(8));
    assert_eq!(0u128.encoding_length(), Ok(16));
    assert_eq!(0i8.encoding_length(), Ok(1));
    assert_eq!(0i16.encoding_length(), Ok(2));
    assert_eq!(0i32.encoding_length(), Ok(4));
    assert_eq!(0i64.encoding_length(), Ok(8));
    assert_eq!(0i128.encoding_length(), Ok(16));
}

#[test]
fn u16_from_one_byte_is_a_short_read() {
    let bytes = [0x12u8];
    let mut input = &bytes[..];
    assert_eq!(u16::decode(&mut input), Err(Error::ShortRead));
}

#[test]
fn integer_decode_leaves_trailing_bytes() {
    let bytes = [0x12u8, 0x34, 0x56];
    let mut input = &bytes[..];
    assert_eq!(u16::decode(&mut input), Ok(0x1234));
    assert_eq!(input, &[0x56]);
    assert_eq!(u8::decode(&mut input), Ok(0x56));
    assert!(input.is_empty());
    assert_eq!(u8::decode(&mut input), Err(Error::ShortRead));
}

#[test]
fn encode_into_appends() {
    let mut dest = vec![9u8];
    0x0102u16.encode_into(&mut dest).unwrap();
    (-1i8).encode_into(&mut dest).unwrap();
    assert_eq!(dest, vec![9, 1, 2, 0xff]);
}

#[test]
fn decode_into_overwrites_an_integer() {
    let mut value = 7u32;
    let bytes = [0u8, 0, 1, 0];
    value.decode_into(&mut &bytes[..]).unwrap();
    assert_eq!(value, 256);
}
