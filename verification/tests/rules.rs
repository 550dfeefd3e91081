use ed::derive::{
    check_bounds, iter_field_groups, iter_terminated_bounds, terminated_impl, Bound, Data,
    DeriveError, Field, Group,
};
use ed::tag::{decode_discriminant, encode_discriminant, read_tag};
use ed::Error;

fn kept() -> Field {
    Field { skip: false }
}

fn skipped() -> Field {
    Field { skip: true }
}

#[test]
fn every_field_but_the_last_must_be_terminated() {
    assert_eq!(
        iter_terminated_bounds(&[kept(), kept(), kept()]),
        vec![Bound::Terminated, Bound::Terminated, Bound::Codec]
    );
    assert_eq!(iter_terminated_bounds(&[kept()]), vec![Bound::Codec]);
    assert_eq!(iter_terminated_bounds(&[]), Vec::<Bound>::new());
}

#[test]
fn skipped_fields_ask_for_nothing() {
    assert_eq!(
        iter_terminated_bounds(&[kept(), skipped(), kept(), skipped()]),
        vec![Bound::Terminated, Bound::Skipped, Bound::Codec, Bound::Skipped]
    );
    assert_eq!(
        iter_terminated_bounds(&[skipped(), skipped()]),
        vec![Bound::Skipped, Bound::Skipped]
    );
    assert_eq!(
        iter_terminated_bounds(&[kept(), skipped()]),
        vec![Bound::Codec, Bound::Skipped]
    );
}

#[test]
fn a_terminated_type_has_terminated_fields() {
    assert_eq!(
        terminated_impl(&[kept(), skipped(), kept()]),
        vec![Bound::Terminated, Bound::Skipped, Bound::Terminated]
    );
    assert_eq!(terminated_impl(&[]), Vec::<Bound>::new());
}

#[test]
fn a_vector_in_front_is_refused() {
    let bounds = iter_terminated_bounds(&[kept(), kept()]);
    assert_eq!(check_bounds(&bounds, &[false, true]), Err(0));
    assert_eq!(check_bounds(&bounds, &[true, true]), Ok(()));
}

#[test]
fn a_vector_at_the_end_is_accepted() {
    let bounds = iter_terminated_bounds(&[kept(), kept(), kept()]);
    assert_eq!(check_bounds(&bounds, &[true, true, false]), Ok(()));
    assert_eq!(check_bounds(&bounds, &[true, false, false]), Err(1));
    assert_eq!(check_bounds(&bounds, &[false, false, false]), Err(0));
}

#[test]
fn a_field_of_unknown_type_counts_as_not_terminated() {
    let bounds = iter_terminated_bounds(&[kept(), kept(), kept()]);
    assert_eq!(check_bounds(&bounds, &[true]), Err(1));
    assert_eq!(check_bounds(&bounds, &[]), Err(0));
    assert_eq!(check_bounds(&[Bound::Codec], &[]), Ok(()));
    assert_eq!(check_bounds(&[], &[false]), Ok(()));
}

#[test]
fn a_struct_is_one_group_without_discriminant() {
    let data = Data::Struct(vec![kept(), kept()]);
    assert_eq!(
        iter_field_groups(&data),
        Ok(vec![Group {
            discriminant: None,
            bounds: vec![Bound::Terminated, Bound::Codec],
        }])
    );
    assert_eq!(
        iter_field_groups(&Data::Struct(vec![])),
        Ok(vec![Group { discriminant: None, bounds: vec![] }])
    );
}

#[test]
fn variants_are_numbered_in_order() {
    let data = Data::Enum(vec![vec![kept(), kept()], vec![kept(), skipped()], vec![]]);
    assert_eq!(
        iter_field_groups(&data),
        Ok(vec![
            Group {
                discriminant: Some(0),
                bounds: vec![Bound::Terminated, Bound::Codec],
            },
            Group {
                discriminant: Some(1),
                bounds: vec![Bound::Codec, Bound::Skipped],
            },
            Group { discriminant: Some(2), bounds: vec![] },
        ])
    );
    assert_eq!(iter_field_groups(&Data::Enum(vec![])), Ok(vec![]));
}

#[test]
fn an_enum_has_at_most_256_variants() {
    let groups = iter_field_groups(&Data::Enum(vec![vec![]; 256])).unwrap();
    assert_eq!(groups.len(), 256);
    assert_eq!(groups[255].discriminant, Some(255));
    assert_eq!(
        iter_field_groups(&Data::Enum(vec![vec![]; 257])),
        Err(DeriveError::TooManyVariants(257))
    );
}

#[test]
fn discriminant_is_one_byte() {
    let mut dest = vec![7u8];
    encode_discriminant(2, &mut dest).unwrap();
    assert_eq!(dest, vec![7, 2]);
}

#[test]
fn discriminant_out_of_range_is_unexpected() {
    assert_eq!(
        decode_discriminant(&mut &[0xffu8][..], 3),
        Err(Error::UnexpectedByte(255))
    );
    assert_eq!(decode_discriminant(&mut &[3u8][..], 3), Err(Error::UnexpectedByte(3)));
    assert_eq!(decode_discriminant(&mut &[0u8][..], 0), Err(Error::UnexpectedByte(0)));
    let empty: [u8; 0] = [];
    assert_eq!(decode_discriminant(&mut &empty[..], 3), Err(Error::ShortRead));
}

#[test]
fn discriminant_in_range_is_taken_from_the_front() {
    let bytes = [2u8, 9];
    let mut input = &bytes[..];
    assert_eq!(decode_discriminant(&mut input, 3), Ok(2));
    assert_eq!(input, &[9]);
    assert_eq!(decode_discriminant(&mut &[255u8][..], 256), Ok(255));
}

#[test]
fn tag_is_the_first_byte() {
    let bytes = [5u8, 6];
    let mut input = &bytes[..];
    assert_eq!(read_tag(&mut input), Ok(5));
    assert_eq!(read_tag(&mut input), Ok(6));
    assert_eq!(read_tag(&mut input), Err(Error::ShortRead));
}
