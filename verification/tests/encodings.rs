use ssz_types::fixed_vector::FixedVector;
use ssz_types::offsets::sanitize_offset;
use ssz_types::serde_utils::{hex_prog_var_list, prog_list_of_hex_fixed_vec};
use ssz_types::ssz_element::{SszElement, BYTES_PER_LENGTH_OFFSET, MAX_LENGTH_VALUE};
use ssz_types::{Error, HexError, ProgressiveVariableList, SszError};

type Bytes = ProgressiveVariableList<u8, 0>;

#[test]
fn documented_example() {
    let base: Vec<u64> = vec![1, 2, 3, 4];
    let mut list: ProgressiveVariableList<u64, 0> = ProgressiveVariableList::new(base.clone()).unwrap();
    assert_eq!(list.as_slice(), &[1, 2, 3, 4]);
    list.push(5).unwrap();
    assert_eq!(list.as_slice(), &[1, 2, 3, 4, 5]);
    type Bounded = ProgressiveVariableList<u64, 8>;
    assert_eq!(Bounded::max_len(), Some(8));
    assert!(Bounded::new(vec![0; 9]).is_err());
}

#[test]
fn limit_constants_match_the_ssz_crate() {
    assert_eq!(MAX_LENGTH_VALUE, ssz::MAX_LENGTH_VALUE);
    assert_eq!(BYTES_PER_LENGTH_OFFSET, ssz::BYTES_PER_LENGTH_OFFSET);
}

#[test]
fn u64_items_encode_little_endian() {
    let list = ProgressiveVariableList::<u64, 0>::new(vec![258, 1 << 56]).unwrap();
    assert_eq!(
        list.as_ssz_bytes(),
        vec![2, 1, 0, 0, 0, 0, 0, 0, 0, 0, 0, 0, 0, 0, 0, 1]
    );
    assert_eq!(list.ssz_bytes_len(), 16);
    let decoded = ProgressiveVariableList::<u64, 0>::from_ssz_bytes(&[1, 0, 0, 0, 0, 0, 0, 0, 0, 1, 0, 0, 0, 0, 0, 0]).unwrap();
    assert_eq!(decoded.as_slice(), &[1, 256]);
}

#[test]
fn u8_items_encode_as_themselves() {
    let list = Bytes::new(vec![0, 7, 255]).unwrap();
    assert_eq!(list.as_ssz_bytes(), vec![0, 7, 255]);
    assert_eq!(Bytes::from_ssz_bytes(&[9, 8]).unwrap().as_slice(), &[9, 8]);
}

#[test]
fn item_level_codec() {
    assert_eq!(<u64 as SszElement>::ssz_fixed_len(), Some(8));
    assert_eq!(<u8 as SszElement>::ssz_fixed_len(), Some(1));
    assert_eq!(<Bytes as SszElement>::ssz_fixed_len(), None);
    assert_eq!(<u64 as SszElement>::from_ssz_bytes(&[5, 0, 0, 0, 0, 0, 0, 0]), Ok(5));
    assert_eq!(
        <u64 as SszElement>::from_ssz_bytes(&[5, 0, 0]),
        Err(SszError::InvalidByteLength { len: 3, expected: 8 })
    );
    assert!(matches!(
        <u8 as SszElement>::from_ssz_bytes(&[]),
        Err(SszError::InvalidByteLength { len: 0, expected: 1 })
    ));
    let mut buf = vec![9];
    SszElement::ssz_append(&300u64, &mut buf);
    assert_eq!(buf, vec![9, 44, 1, 0, 0, 0, 0, 0, 0]);
    assert_eq!(SszElement::ssz_bytes_len(&300u64), 8);
}

#[test]
fn nested_lists_use_offsets() {
    let outer = ProgressiveVariableList::<Bytes, 0>::new(vec![
        Bytes::new(vec![1, 2]).unwrap(),
        Bytes::new(vec![3]).unwrap(),
    ])
    .unwrap();
    let encoded = outer.as_ssz_bytes();
    assert_eq!(encoded, vec![8, 0, 0, 0, 10, 0, 0, 0, 1, 2, 3]);
    assert_eq!(outer.ssz_bytes_len(), 11);
    assert_eq!(
        ProgressiveVariableList::<Bytes, 0>::from_ssz_bytes(&encoded),
        Ok(outer)
    );
    assert!(!ProgressiveVariableList::<Bytes, 0>::is_ssz_fixed_len());
    assert_eq!(ProgressiveVariableList::<Bytes, 0>::ssz_fixed_len(), 4);
}

#[test]
fn nested_list_inner_limit_is_checked() {
    let bytes = vec![4, 0, 0, 0, 1, 2, 3];
    assert!(ProgressiveVariableList::<ProgressiveVariableList<u8, 3>, 0>::from_ssz_bytes(&bytes).is_ok());
    assert_eq!(
        ProgressiveVariableList::<ProgressiveVariableList<u8, 2>, 0>::from_ssz_bytes(&bytes),
        Err(SszError::TooManyItems { items: 3, max: 2 })
    );
}

#[test]
fn bad_offsets_are_reported() {
    type Outer = ProgressiveVariableList<Bytes, 0>;
    assert_eq!(
        Outer::from_ssz_bytes(&[1, 0]),
        Err(SszError::InvalidLengthPrefix { len: 2, expected: 4 })
    );
    assert_eq!(Outer::from_ssz_bytes(&[9, 0, 0, 0]), Err(SszError::OffsetOutOfBounds(9)));
    assert_eq!(Outer::from_ssz_bytes(&[2, 0, 0, 0]), Err(SszError::InvalidListFixedBytesLen(2)));
    assert_eq!(Outer::from_ssz_bytes(&[0, 0, 0, 0]), Err(SszError::InvalidListFixedBytesLen(0)));
    assert_eq!(
        Outer::from_ssz_bytes(&[8, 0, 0, 0, 4, 0, 0, 0]),
        Err(SszError::OffsetIntoFixedPortion(4))
    );
    assert_eq!(
        Outer::from_ssz_bytes(&[8, 0, 0, 0, 9, 0, 0, 0]),
        Err(SszError::OffsetOutOfBounds(9))
    );
    let decreasing = [12, 0, 0, 0, 14, 0, 0, 0, 13, 0, 0, 0, 1, 2, 3];
    assert_eq!(Outer::from_ssz_bytes(&decreasing), Err(SszError::OffsetsAreDecreasing(13)));
    assert_eq!(
        ssz::decode_list_of_variable_length_items::<Vec<u8>, Vec<Vec<u8>>>(&decreasing, None),
        Err(ssz::DecodeError::OffsetsAreDecreasing(13))
    );
}

#[test]
fn an_item_fails_before_a_later_offset_is_read() {
    // Item 0 is two bytes, over the inner limit of one; offset 2 goes back. The item is
    // decoded before offset 2 is read, so its error is the one reported.
    let bytes = [12, 0, 0, 0, 14, 0, 0, 0, 13, 0, 0, 0, 1, 2, 3];
    assert_eq!(
        ProgressiveVariableList::<ProgressiveVariableList<u8, 1>, 0>::from_ssz_bytes(&bytes),
        Err(SszError::TooManyItems { items: 2, max: 1 })
    );
    // With a valid item 0, item 1 is reached only after offset 2 is checked.
    let bytes = [12, 0, 0, 0, 13, 0, 0, 0, 12, 0, 0, 0, 1, 2, 3];
    assert_eq!(
        ProgressiveVariableList::<ProgressiveVariableList<u8, 1>, 0>::from_ssz_bytes(&bytes),
        Err(SszError::OffsetsAreDecreasing(12))
    );
}

#[test]
fn variable_items_past_the_limit_are_refused_before_decoding() {
    let bytes = [8, 0, 0, 0, 10, 0, 0, 0, 1, 2, 3];
    assert_eq!(
        ProgressiveVariableList::<Bytes, 1>::from_ssz_bytes(&bytes),
        Err(SszError::TooManyVariableItems { items: 2, max: 1 })
    );
    let decoded = ProgressiveVariableList::<Bytes, 2>::from_ssz_bytes(&bytes).unwrap();
    assert_eq!(decoded.as_slice()[0].as_slice(), &[1, 2]);
    assert_eq!(decoded.as_slice()[1].as_slice(), &[3]);
    // The last item runs to the end, and may be empty.
    let decoded = ProgressiveVariableList::<Bytes, 0>::from_ssz_bytes(&[8, 0, 0, 0, 8, 0, 0, 0]).unwrap();
    assert_eq!(decoded.len(), 2);
    assert!(decoded.as_slice()[0].is_empty() && decoded.as_slice()[1].is_empty());
}

#[test]
fn set_replaces_one_value() {
    let mut list = ProgressiveVariableList::<u64, 3>::new(vec![1, 2, 3]).unwrap();
    list.set(1, 9);
    assert_eq!(list.as_slice(), &[1, 9, 3]);
    assert_eq!(list.len(), 3);
}

#[test]
fn decode_error_variants() {
    assert_eq!(
        ProgressiveVariableList::<u64, 0>::from_ssz_bytes(&[0; 9]),
        Err(SszError::UnevenLength { len: 9, item_len: 8 })
    );
    assert_eq!(
        ProgressiveVariableList::<u64, 1>::from_ssz_bytes(&[0; 16]),
        Err(SszError::TooManyItems { items: 2, max: 1 })
    );
    // The limit is checked before the length is found uneven.
    assert_eq!(
        ProgressiveVariableList::<u64, 1>::from_ssz_bytes(&[0; 17]),
        Err(SszError::TooManyItems { items: 2, max: 1 })
    );
    assert_eq!(
        ProgressiveVariableList::<u64, 1>::from_ssz_bytes(&[]),
        Ok(ProgressiveVariableList::empty())
    );
}

#[test]
fn push_fills_to_the_limit_then_refuses() {
    let mut list = ProgressiveVariableList::<u8, 2>::empty();
    assert!(list.is_empty());
    assert_eq!(list.push(1), Ok(()));
    assert_eq!(list.push(2), Ok(()));
    assert_eq!(list.push(3), Err(Error::OutOfBounds { i: 3, len: 2 }));
    assert_eq!(list.as_slice(), &[1, 2]);
    assert!(!list.is_empty());
    assert_eq!(list.clone().into_vec(), vec![1, 2]);
    assert_eq!(Vec::from(list), vec![1, 2]);
}

#[test]
fn try_from_iter_reports_the_first_item_past_the_limit() {
    assert_eq!(
        ProgressiveVariableList::<u8, 2>::try_from_iter(&mut vec![1, 2, 3, 4, 5, 6].into_iter()),
        Err(Error::OutOfBounds { i: 3, len: 2 })
    );
    assert_eq!(
        ProgressiveVariableList::<u8, 2>::new(vec![1, 2, 3, 4, 5, 6]),
        Err(Error::OutOfBounds { i: 6, len: 2 })
    );
}

#[test]
fn capacity_to_reserve_follows_the_hint() {
    assert_eq!(ProgressiveVariableList::<u8, 0>::capacity_to_reserve((3, None)), 3);
    assert_eq!(ProgressiveVariableList::<u8, 0>::capacity_to_reserve((3, Some(7))), 7);
    assert_eq!(ProgressiveVariableList::<u8, 5>::capacity_to_reserve((3, Some(7))), 5);
}

#[test]
fn truncating_new_keeps_the_first_items() {
    assert_eq!(
        ProgressiveVariableList::<u8, 2>::truncating_new(vec![4, 5, 6]).as_slice(),
        &[4, 5]
    );
    assert_eq!(
        ProgressiveVariableList::<u8, 0>::truncating_new(vec![4, 5, 6]).as_slice(),
        &[4, 5, 6]
    );
    assert_eq!(ProgressiveVariableList::<u8, 3>::default().len(), 0);
}

#[test]
fn error_message() {
    assert_eq!(
        Error::OutOfBounds { i: 5, len: 4 }.message(),
        "Index out of bounds: index 5, length 4"
    );
}

#[test]
fn hex_text() {
    let list = Bytes::new(vec![10, 255, 0]).unwrap();
    assert_eq!(hex_prog_var_list::serialize(&list), "0x0aff00");
    assert_eq!(
        hex_prog_var_list::deserialize::<0>("0x0AfF00").unwrap().as_slice(),
        &[10, 255, 0]
    );
    assert!(matches!(
        hex_prog_var_list::deserialize::<0>("0aff"),
        Err(HexError::InvalidHex(_))
    ));
    assert!(matches!(
        hex_prog_var_list::deserialize::<0>("0xabc"),
        Err(HexError::InvalidHex(_))
    ));
    assert!(matches!(
        hex_prog_var_list::deserialize::<0>("0xzz"),
        Err(HexError::InvalidHex(_))
    ));
    assert_eq!(
        hex_prog_var_list::deserialize::<2>("0x010203"),
        Err(HexError::TooLong { len: 3, max: 2 })
    );
}

#[test]
fn fixed_vector_lengths() {
    assert_eq!(FixedVector::<u8, 2>::new(vec![1, 2]).unwrap().as_slice(), &[1, 2]);
    assert_eq!(
        FixedVector::<u8, 2>::new(vec![1]),
        Err(Error::OutOfBounds { i: 1, len: 2 })
    );
    assert_eq!(
        prog_list_of_hex_fixed_vec::WrappedListOwned::<2>::deserialize("0x01").err(),
        Some(HexError::WrongLength { len: 1, expected: 2 })
    );
    let v = prog_list_of_hex_fixed_vec::WrappedListOwned::<2>::deserialize("0x0102").unwrap();
    assert_eq!(v.0.len(), 2);
    assert_eq!(prog_list_of_hex_fixed_vec::WrappedListRef(&v.0).serialize(), "0x0102");
}

#[test]
fn lists_nest_to_any_depth() {
    type Inner = ProgressiveVariableList<u64, 2>;
    type Middle = ProgressiveVariableList<Inner, 0>;
    type Outer = ProgressiveVariableList<Middle, 0>;
    let middle = Middle::new(vec![Inner::new(vec![1]).unwrap(), Inner::new(vec![]).unwrap()]).unwrap();
    let outer = Outer::new(vec![middle, Middle::empty()]).unwrap();
    let encoded = outer.as_ssz_bytes();
    assert_eq!(
        encoded,
        vec![8, 0, 0, 0, 24, 0, 0, 0, 8, 0, 0, 0, 16, 0, 0, 0, 1, 0, 0, 0, 0, 0, 0, 0]
    );
    assert_eq!(outer.ssz_bytes_len(), encoded.len());
    assert_eq!(Outer::from_ssz_bytes(&encoded), Ok(outer));
    // An inner list of three numbers breaks the inner limit of two.
    let too_long = [4, 0, 0, 0, 1, 0, 0, 0, 0, 0, 0, 0, 2, 0, 0, 0, 0, 0, 0, 0, 3, 0, 0, 0, 0, 0, 0, 0];
    assert_eq!(
        Middle::from_ssz_bytes(&too_long),
        Err(SszError::TooManyItems { items: 3, max: 2 })
    );
}

#[test]
fn offset_checks_come_in_order() {
    assert_eq!(sanitize_offset(3, None, 10, Some(4)), Err(SszError::OffsetIntoFixedPortion(3)));
    assert_eq!(sanitize_offset(5, None, 10, Some(4)), Err(SszError::OffsetSkipsVariableBytes(5)));
    assert_eq!(sanitize_offset(11, Some(4), 10, Some(4)), Err(SszError::OffsetOutOfBounds(11)));
    assert_eq!(sanitize_offset(11, None, 10, None), Err(SszError::OffsetOutOfBounds(11)));
    assert_eq!(sanitize_offset(6, Some(7), 10, Some(4)), Err(SszError::OffsetsAreDecreasing(6)));
    assert_eq!(sanitize_offset(7, Some(7), 10, Some(4)), Ok(7));
    assert_eq!(sanitize_offset(4, None, 10, Some(4)), Ok(4));
    // Into the fixed part is reported before out of bounds.
    assert_eq!(sanitize_offset(3, Some(9), 2, Some(4)), Err(SszError::OffsetIntoFixedPortion(3)));
}

#[test]
fn hex_error_messages() {
    let message = |text: &str| match hex_prog_var_list::deserialize::<0>(text) {
        Err(HexError::InvalidHex(message)) => message,
        other => panic!("expected invalid hex, got {:?}", other),
    };
    assert_eq!(message("0aff"), "hex must have 0x prefix");
    assert_eq!(message("0xabc"), "invalid hex: OddLength");
    assert_eq!(message("0xzz"), "invalid hex: InvalidHexCharacter { c: 'z', index: 0 }");
    assert_eq!(message("0x0a1g"), "invalid hex: InvalidHexCharacter { c: 'g', index: 3 }");
}
