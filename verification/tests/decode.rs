use rlp_decode::parse::decode;
use rlp_decode::parse::parse_rlp;
use rlp_decode::parse::parse_rlp_list_internal;
use rlp_decode::parse::var_len_be_to_usize;
use rlp_decode::Parsed;
use rlp_decode::RlpError;

fn expect_bytes(p: &Parsed) -> &Vec<u8> {
    match p {
        Parsed::Data(b) => b,
        Parsed::List(_) => panic!("expected an atomic item, found a list"),
    }
}

fn expect_list(p: &Parsed) -> &Vec<Parsed> {
    match p {
        Parsed::List(items) => items,
        Parsed::Data(_) => panic!("expected a list, found an atomic item"),
    }
}

#[test]
fn single_byte_values_decode_to_themselves() {
    for v in 0x00u8..=0x7f {
        let encoded = [v];
        let (item, rest) = parse_rlp(&encoded).unwrap();
        assert_eq!(expect_bytes(&item), &vec![v]);
        assert!(rest.is_empty());
    }
}

#[test]
fn short_strings_round_trip() {
    for l in 0usize..=55 {
        let s: Vec<u8> = (0..l).map(|i| (i as u8).wrapping_mul(3)).collect();
        let mut encoded = vec![0x80 + l as u8];
        encoded.extend_from_slice(&s);
        let (item, rest) = parse_rlp(&encoded).unwrap();
        assert_eq!(expect_bytes(&item), &s);
        assert!(rest.is_empty());
    }
}

#[test]
fn long_string_one_length_byte() {
    let s: Vec<u8> = (0..56u32).map(|i| i as u8).collect();
    let mut encoded = vec![0xb8, 56];
    encoded.extend_from_slice(&s);
    let (item, rest) = parse_rlp(&encoded).unwrap();
    assert_eq!(expect_bytes(&item), &s);
    assert!(rest.is_empty());
}

#[test]
fn long_string_two_length_bytes() {
    let s: Vec<u8> = (0..300u32).map(|i| i as u8).collect();
    let mut encoded = vec![0xb9, 0x01, 0x2c];
    encoded.extend_from_slice(&s);
    let (item, rest) = parse_rlp(&encoded).unwrap();
    assert_eq!(expect_bytes(&item), &s);
    assert!(rest.is_empty());
}

#[test]
fn short_list_of_two_atoms() {
    let item = decode(&[0xc2, 0x01, 0x02]).unwrap();
    let items = expect_list(&item);
    assert_eq!(items.len(), 2);
    assert_eq!(expect_bytes(&items[0]), &vec![0x01]);
    assert_eq!(expect_bytes(&items[1]), &vec![0x02]);
}

#[test]
fn empty_list() {
    let item = decode(&[0xc0]).unwrap();
    assert!(expect_list(&item).is_empty());
}

#[test]
fn long_list() {
    let item = decode(&[0xf8, 0x03, 0x01, 0x02, 0x03]).unwrap();
    let items = expect_list(&item);
    assert_eq!(items.len(), 3);
    for (i, child) in items.iter().enumerate() {
        assert_eq!(expect_bytes(child), &vec![(i + 1) as u8]);
    }
}

#[test]
fn nested_list() {
    let item = decode(&[0xc3, 0xc1, 0x01, 0x80]).unwrap();
    let items = expect_list(&item);
    assert_eq!(items.len(), 2);
    let inner = expect_list(&items[0]);
    assert_eq!(inner.len(), 1);
    assert_eq!(expect_bytes(&inner[0]), &vec![0x01]);
    assert_eq!(expect_bytes(&items[1]), &Vec::<u8>::new());
}

#[test]
fn empty_input_is_rejected() {
    assert_eq!(decode(&[]), Err(RlpError::EmptyInput));
    assert!(matches!(parse_rlp(&[]), Err(RlpError::EmptyInput)));
}

#[test]
fn truncated_short_string_is_rejected() {
    assert_eq!(decode(&[0x83, 0x01, 0x02]), Err(RlpError::TruncatedInput));
}

#[test]
fn truncated_length_field_is_rejected() {
    assert_eq!(decode(&[0xb9, 0x01]), Err(RlpError::TruncatedInput));
}

#[test]
fn truncated_long_string_payload_is_rejected() {
    assert_eq!(
        decode(&[0xbf, 0xff, 0xff, 0xff, 0xff, 0xff, 0xff, 0xff, 0xff]),
        Err(RlpError::TruncatedInput)
    );
}

#[test]
fn truncated_list_child_is_rejected() {
    assert_eq!(decode(&[0xc2, 0x81]), Err(RlpError::TruncatedInput));
}

#[test]
fn oversized_length_field_overflows() {
    assert_eq!(
        var_len_be_to_usize(&[0xff; 9]),
        Err(RlpError::LengthOverflow)
    );
}

#[test]
fn big_endian_length_values() {
    assert_eq!(var_len_be_to_usize(&[]), Ok(0));
    assert_eq!(var_len_be_to_usize(&[0x38]), Ok(56));
    assert_eq!(var_len_be_to_usize(&[0x01, 0x00]), Ok(256));
    assert_eq!(var_len_be_to_usize(&[0x01, 0x2c]), Ok(300));
    assert_eq!(var_len_be_to_usize(&[0x00, 0x00, 0x01]), Ok(1));
}

#[test]
fn trailing_bytes_are_ignored_by_decode() {
    let item = decode(&[0x05, 0xff, 0xff]).unwrap();
    assert_eq!(expect_bytes(&item), &vec![0x05]);
}

#[test]
fn parse_rlp_returns_the_remainder() {
    let (item, rest) = parse_rlp(&[0x81, 0xaa, 0xc0, 0x07]).unwrap();
    assert_eq!(expect_bytes(&item), &vec![0xaa]);
    assert_eq!(rest, &[0xc0u8, 0x07][..]);
}

#[test]
fn list_payload_decodes_to_items_in_order() {
    let items = parse_rlp_list_internal(&[0x01, 0x82, 0xbe, 0xef, 0xc0]).unwrap();
    assert_eq!(items.len(), 3);
    assert_eq!(expect_bytes(&items[0]), &vec![0x01]);
    assert_eq!(expect_bytes(&items[1]), &vec![0xbe, 0xef]);
    assert!(expect_list(&items[2]).is_empty());
}

#[test]
fn empty_payload_is_an_empty_item_sequence() {
    let items = parse_rlp_list_internal(&[]).unwrap();
    assert!(items.is_empty());
}

#[test]
fn non_canonical_single_byte_is_accepted() {
    let (item, rest) = parse_rlp(&[0x81, 0x05]).unwrap();
    assert_eq!(expect_bytes(&item), &vec![0x05]);
    assert!(rest.is_empty());
}
