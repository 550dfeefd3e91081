use ed::{Decode, Encode, Error};

#[test]
fn vector_has_no_length_prefix() {
    let value: Vec<u16> = vec![1, 2, 3, 4];
    assert_eq!(value.encode().unwrap(), vec![0, 1, 0, 2, 0, 3, 0, 4]);
    assert_eq!(value.encoding_length(), Ok(8));
    assert_eq!(Vec::<u16>::new().encode().unwrap(), Vec::<u8>::new());
    assert_eq!(Vec::<u16>::new().encoding_length(), Ok(0));
}

#[test]
fn vector_decode_uses_up_the_input() {
    let bytes = [1u8, 0, 1];
    let mut input = &bytes[..];
    assert_eq!(Vec::<bool>::decode(&mut input), Ok(vec![true, false, true]));
    assert!(input.is_empty());
    assert_eq!(Vec::<bool>::decode(&mut input), Ok(vec![]));
}

#[test]
fn decode_into_a_longer_vector_truncates() {
    let mut value: Vec<u16> = vec![10, 20, 30, 40, 50];
    value.decode_into(&mut &[0u8, 1, 0, 2][..]).unwrap();
    assert_eq!(value, vec![1, 2]);
}

#[test]
fn decode_into_a_shorter_vector_appends() {
    let mut value: Vec<u16> = vec![10];
    value.decode_into(&mut &[0u8, 1, 0, 2, 0, 3][..]).unwrap();
    assert_eq!(value, vec![1, 2, 3]);
}

#[test]
fn decode_into_a_vector_of_the_same_length() {
    let mut value: Vec<u8> = vec![1, 2, 3];
    value.decode_into(&mut &[4u8, 5, 6][..]).unwrap();
    assert_eq!(value, vec![4, 5, 6]);
}

#[test]
fn decode_into_from_nothing_empties_the_vector() {
    let mut value: Vec<u8> = vec![1, 2, 3];
    let bytes: [u8; 0] = [];
    value.decode_into(&mut &bytes[..]).unwrap();
    assert!(value.is_empty());
}

#[test]
fn decode_into_reuses_the_elements_in_front() {
    let mut value: Vec<Option<Box<u8>>> = vec![Some(Box::new(1)), Some(Box::new(2))];
    let first = format!("{:p}", *value[0].as_ref().unwrap());
    let second = format!("{:p}", *value[1].as_ref().unwrap());
    value.decode_into(&mut &[1u8, 7, 1, 8, 1, 9][..]).unwrap();
    assert_eq!(
        value,
        vec![Some(Box::new(7)), Some(Box::new(8)), Some(Box::new(9))]
    );
    assert_eq!(format!("{:p}", *value[0].as_ref().unwrap()), first);
    assert_eq!(format!("{:p}", *value[1].as_ref().unwrap()), second);
}

#[test]
fn vector_with_half_an_element_fails() {
    let bytes = [0u8, 1, 0];
    assert_eq!(Vec::<u16>::decode(&mut &bytes[..]), Err(Error::ShortRead));
    let mut value: Vec<u16> = vec![5, 6, 7];
    assert_eq!(value.decode_into(&mut &bytes[..]), Err(Error::ShortRead));
}

#[test]
fn vector_reports_an_unexpected_byte() {
    assert_eq!(
        Vec::<bool>::decode(&mut &[1u8, 0, 5, 1][..]),
        Err(Error::UnexpectedByte(5))
    );
}

#[test]
fn vector_of_empty_elements_reads_nothing_from_nothing() {
    let bytes: [u8; 0] = [];
    assert_eq!(Vec::<()>::decode(&mut &bytes[..]), Ok(vec![]));
    assert_eq!(vec![(), (), ()].encode().unwrap(), Vec::<u8>::new());
}

#[test]
fn vector_of_empty_elements_refuses_bytes() {
    assert_eq!(
        Vec::<()>::decode(&mut &[7u8, 8][..]),
        Err(Error::UnexpectedByte(7))
    );
    assert_eq!(
        Vec::<[u8; 0]>::decode(&mut &[9u8][..]),
        Err(Error::UnexpectedByte(9))
    );
}

#[test]
fn length_is_exact() {
    let value = (3u8, Some(-5i32), [true, false], vec![(1u16, 2u64), (3, 4)]);
    assert_eq!(value.encode().unwrap().len(), value.encoding_length().unwrap());
    assert_eq!(value.encoding_length(), Ok(1 + 5 + 2 + 20));
}

#[test]
fn encoding_is_deterministic() {
    let first = (1u8, vec![Some(2u16), None]);
    let second = (1u8, vec![Some(2u16), None]);
    assert_eq!(first.encode().unwrap(), second.encode().unwrap());
    assert_eq!(first.encode().unwrap(), first.encode().unwrap());
    assert_eq!(first.encode().unwrap(), vec![1, 1, 0, 2, 0]);
}

#[test]
fn nested_values_round_trip() {
    let value = (
        Some((1u8, -2i64)),
        [Box::new(3u32), Box::new(4)],
        Some(vec![(true, 5u128), (false, 6)]),
    );
    let bytes = value.encode().unwrap();
    let back: (Option<(u8, i64)>, [Box<u32>; 2], Option<Vec<(bool, u128)>>) =
        Decode::decode(&mut bytes.as_slice()).unwrap();
    assert_eq!(back, value);
}
