use ed::{Decode, Encode};

#[test]
fn encode_decode_u8() {
    let value = 0x12u8;
    let bytes = value.encode().unwrap();
    assert_eq!(bytes.as_slice(), &[0x12]);
    let decoded_value = u8::decode(&mut bytes.as_slice()).unwrap();
    assert_eq!(decoded_value, value);
}

#[test]
fn encode_decode_u64() {
    let value = 0x1234567890u64;
    let bytes = value.encode().unwrap();
    assert_eq!(bytes.as_slice(), &[0, 0, 0, 0x12, 0x34, 0x56, 0x78, 0x90]);
    let decoded_value = u64::decode(&mut bytes.as_slice()).unwrap();
    assert_eq!(decoded_value, value);
}

#[test]
fn encode_decode_option() {
    let value = Some(0x1234567890u64);
    let bytes = value.encode().unwrap();
    assert_eq!(
        bytes.as_slice(),
        &[1, 0, 0, 0, 0x12, 0x34, 0x56, 0x78, 0x90]
    );
    let decoded_value: Option<u64> = Decode::decode(&mut bytes.as_slice()).unwrap();
    assert_eq!(decoded_value, value);

    let value: Option<u64> = None;
    let bytes = value.encode().unwrap();
    assert_eq!(bytes.as_slice(), &[0]);
    let decoded_value: Option<u64> = Decode::decode(&mut bytes.as_slice()).unwrap();
    assert_eq!(decoded_value, None);
}

#[test]
fn encode_decode_tuple() {
    let value: (u16, u16) = (1, 2);
    let bytes = value.encode().unwrap();
    assert_eq!(bytes.as_slice(), &[0, 1, 0, 2]);
    let decoded_value: (u16, u16) = Decode::decode(&mut bytes.as_slice()).unwrap();
    assert_eq!(decoded_value, value);

    let value = ();
    let bytes = value.encode().unwrap();
    assert_eq!(bytes.as_slice().len(), 0);
    let decoded_value: () = Decode::decode(&mut bytes.as_slice()).unwrap();
    assert_eq!(decoded_value, value);
}

#[test]
fn encode_decode_array() {
    let value: [u16; 4] = [1, 2, 3, 4];
    let bytes = value.encode().unwrap();
    assert_eq!(bytes.as_slice(), &[0, 1, 0, 2, 0, 3, 0, 4]);
    let decoded_value: [u16; 4] = Decode::decode(&mut bytes.as_slice()).unwrap();
    assert_eq!(decoded_value, value);
}

#[test]
#[should_panic(expected = "failed to fill whole buffer")]
fn encode_decode_array_eof_length() {
    let bytes = [0, 1, 0, 2, 0, 3];
    let _: [u16; 4] = Decode::decode(&mut &bytes[..])
        .map_err(|e| e.message())
        .unwrap();
}

#[test]
#[should_panic(expected = "failed to fill whole buffer")]
fn encode_decode_array_eof_element() {
    let bytes = [0, 1, 0, 2, 0, 3, 0];
    let _: [u16; 4] = Decode::decode(&mut &bytes[..])
        .map_err(|e| e.message())
        .unwrap();
}

#[test]
fn encode_decode_vec() {
    let value: Vec<u16> = vec![1, 2, 3, 4];
    let bytes = value.encode().unwrap();
    assert_eq!(bytes.as_slice(), &[0, 1, 0, 2, 0, 3, 0, 4]);
    let decoded_value: Vec<u16> = Decode::decode(&mut bytes.as_slice()).unwrap();
    assert_eq!(decoded_value, value);
}

#[test]
#[should_panic(expected = "failed to fill whole buffer")]
fn encode_decode_vec_eof_element() {
    let bytes = [0, 1, 0, 2, 0, 3, 0];
    let _: Vec<u16> = Decode::decode(&mut &bytes[..])
        .map_err(|e| e.message())
        .unwrap();
}
