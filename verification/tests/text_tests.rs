use chain_indexer::text::be_to_dec_string;
use chain_indexer::text::eq_str_lower;
use chain_indexer::text::hex_string_0x;
use chain_indexer::text::parse_address;
use chain_indexer::text::parse_chain_id_list;
use chain_indexer::text::u64_to_dec_string;

#[test]
fn test_u64_decimal_rendering() {
    assert_eq!(u64_to_dec_string(0), "0");
    assert_eq!(u64_to_dec_string(7), "7");
    assert_eq!(u64_to_dec_string(11155111), "11155111");
    assert_eq!(u64_to_dec_string(u64::MAX), "18446744073709551615");
}

#[test]
fn test_wide_decimal_rendering() {
    // A 9-byte value one past the 64-bit range.
    let mut bytes = vec![1u8];
    bytes.extend_from_slice(&[0u8; 8]);
    assert_eq!(be_to_dec_string(&bytes), "18446744073709551616");
    assert_eq!(be_to_dec_string(&vec![0u8; 32]), "0");
}

#[test]
fn test_hex_rendering() {
    assert_eq!(hex_string_0x(&vec![]), "0x");
    assert_eq!(hex_string_0x(&vec![0x00, 0xff, 0x1a]), "0x00ff1a");
}

#[test]
fn test_parse_address_round_trip() {
    let parsed = parse_address("0x1111111111111111111111111111111111111111").unwrap();
    assert_eq!(parsed, vec![0x11; 20]);
    let mixed = parse_address("0xAbCdEf1234567890aBcDeF1234567890abcdef12").unwrap();
    assert_eq!(hex_string_0x(&mixed), "0xabcdef1234567890abcdef1234567890abcdef12");
    assert!(parse_address("0x123").is_none());
    assert!(parse_address("1111111111111111111111111111111111111111ab").is_none());
    assert!(parse_address("0xzz11111111111111111111111111111111111111").is_none());
}

#[test]
fn test_case_insensitive_compare() {
    assert!(eq_str_lower("0xabc", "0xAbC"));
    assert!(!eq_str_lower("0xabc", "0xabd"));
    assert!(!eq_str_lower("0xabc", "0xab"));
}

#[test]
fn test_chain_id_list_edges() {
    assert_eq!(parse_chain_id_list(""), Vec::<u64>::new());
    assert_eq!(parse_chain_id_list("5"), vec![5]);
    assert_eq!(parse_chain_id_list("5,,7"), vec![5, 7]);
    assert_eq!(parse_chain_id_list("18446744073709551615"), vec![u64::MAX]);
    assert_eq!(parse_chain_id_list("18446744073709551616"), Vec::<u64>::new());
}
