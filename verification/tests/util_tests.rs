use selene::errors::{BracketError, ResolveError};
use selene::util::{decode_hex, matching_bracket_substring};

#[test]
fn decode_hex_happy_path() {
    let manifest_hex = "0xb87f84a4ced179cfc020624ade3d7f71";
    let true_hex = "b87f84a4ced179cfc020624ade3d7f71";

    assert!(decode_hex(&manifest_hex).is_ok());
    assert!(decode_hex(&true_hex).is_ok());
}

#[test]
fn unsupported_character_is_rejected() {
    let result = matching_bracket_substring("lmao", 'o');
    assert!(result.is_err())
}

#[test]
fn supported_character_is_accepted() {
    let result = matching_bracket_substring("[]", '[');
    assert!(result.is_ok());
}

#[test]
fn closer_first_will_fail() {
    let result = matching_bracket_substring("][", '[');
    assert!(result.is_err())
}

#[test]
fn will_parse_nested_brackets() {
    let result = matching_bracket_substring("[[[[]]]]", '[');
    assert!(result.is_ok());
    assert_eq!(result.unwrap(), "[[[[]]]]");
}

#[test]
fn will_parse_nested_mixed_brackets() {
    let result = matching_bracket_substring("([(<[{}]>)] junk;", '[');
    assert!(result.is_ok());
    assert_eq!(result.unwrap(), "[(<[{}]>)]");
}

#[test]
fn will_fail_on_unbalanced_brackets() {
    let result = matching_bracket_substring("[[[[[[]]]]", '[');
    assert!(result.is_err());
}

#[test]
fn input_without_brackets_is_rejected() {
    assert_eq!(
        matching_bracket_substring("no brackets at all", '['),
        Err(BracketError::NoBrackets)
    );
}

#[test]
fn decode_hex_exact_bytes_with_and_without_prefix() {
    let with_prefix = decode_hex("0xB87F84A4").unwrap();
    let without_prefix = decode_hex("B87F84A4").unwrap();
    assert_eq!(with_prefix, vec![0xB8u8, 0x7F, 0x84, 0xA4]);
    assert_eq!(with_prefix, without_prefix);
}

#[test]
fn decode_hex_rejects_odd_length() {
    assert_eq!(decode_hex("0xABC"), Err(ResolveError::InvalidHexEncoding));
    assert_eq!(decode_hex("ABC"), Err(ResolveError::InvalidHexEncoding));
}

#[test]
fn decode_hex_rejects_non_hex_characters() {
    assert_eq!(decode_hex("zz"), Err(ResolveError::InvalidHexEncoding));
}

#[test]
fn decode_hex_of_empty_input_is_empty() {
    assert_eq!(decode_hex("").unwrap(), Vec::<u8>::new());
    assert_eq!(decode_hex("0x").unwrap(), Vec::<u8>::new());
}
