use sfu_core::digits::{i64_to_dec, parse_i64, parse_u64, u64_to_dec};
use sfu_core::errors::ApplicationError;
use sfu_core::token::{encode_member_token, member_token_of_text, member_token_round_trip, MemberToken};

fn encode_plain(text: &str) -> String {
    base64::encode_config(text, base64::URL_SAFE)
}

#[test]
fn round_trip_basic() {
    let tok = encode_member_token(42, "secret");
    let mt = MemberToken::decode(&tok).unwrap();
    assert_eq!(mt.member_id, 42);
    assert_eq!(mt.secret_token, "secret");
}

#[test]
fn round_trip_negative_id() {
    let tok = encode_member_token(-7, "s3cr3t+/=");
    let mt = MemberToken::decode(&tok).unwrap();
    assert_eq!(mt.member_id, -7);
    assert_eq!(mt.secret_token, "s3cr3t+/=");
}

#[test]
fn round_trip_empty_secret() {
    let tok = encode_member_token(5, "");
    let mt = MemberToken::decode(&tok).unwrap();
    assert_eq!(mt.member_id, 5);
    assert_eq!(mt.secret_token, "");
}

#[test]
fn round_trip_function_returns_inputs() {
    let mt = member_token_round_trip(i64::MIN, "unicode-秘密");
    assert_eq!(mt.member_id, i64::MIN);
    assert_eq!(mt.secret_token, "unicode-秘密");
}

#[test]
fn decode_token_built_by_hand() {
    let tok = encode_plain("123:abc");
    let mt = MemberToken::decode(&tok).unwrap();
    assert_eq!(mt.member_id, 123);
    assert_eq!(mt.secret_token, "abc");
}

#[test]
fn encode_matches_base64_crate() {
    let tok = encode_member_token(123, "abc");
    assert_eq!(tok, encode_plain("123:abc"));
}

#[test]
fn decode_rejects_bad_base64() {
    let r = MemberToken::decode(&String::from("!!!not base64!!!"));
    assert!(matches!(r, Err(ApplicationError::Base64(_))));
}

#[test]
fn decode_rejects_bad_utf8() {
    let tok = base64::encode_config([0xffu8, 0xfe, 0x3a, 0x31], base64::URL_SAFE);
    let r = MemberToken::decode(&tok);
    assert!(matches!(r, Err(ApplicationError::Decode(_))));
}

#[test]
fn decode_rejects_missing_colon() {
    let r = MemberToken::decode(&encode_plain("12345"));
    match r {
        Err(ApplicationError::Message(m)) => assert_eq!(m, "Invalid member token format."),
        other => panic!("expected a format error, got {:?}", other),
    }
}

#[test]
fn decode_rejects_two_colons() {
    let r = MemberToken::decode(&encode_plain("1:2:3"));
    assert!(matches!(r, Err(ApplicationError::Message(_))));
}

#[test]
fn decode_rejects_non_integer_id() {
    let r = MemberToken::decode(&encode_plain("abc:x"));
    match r {
        Err(ApplicationError::Message(m)) => assert_eq!(m, "Invalid member token id."),
        other => panic!("expected an id error, got {:?}", other),
    }
}

#[test]
fn decode_rejects_overflowing_id() {
    let r = MemberToken::decode(&encode_plain("9223372036854775808:x"));
    assert!(matches!(r, Err(ApplicationError::Message(_))));
}

#[test]
fn text_splitter_accepts_two_fields() {
    let mt = member_token_of_text("15:tok").unwrap();
    assert_eq!(mt.member_id, 15);
    assert_eq!(mt.secret_token, "tok");
}

#[test]
fn text_splitter_keeps_empty_secret() {
    let mt = member_token_of_text("15:").unwrap();
    assert_eq!(mt.member_id, 15);
    assert_eq!(mt.secret_token, "");
}

#[test]
fn parse_i64_bounds() {
    assert_eq!(parse_i64("9223372036854775807"), Some(i64::MAX));
    assert_eq!(parse_i64("-9223372036854775808"), Some(i64::MIN));
    assert_eq!(parse_i64("9223372036854775808"), None);
    assert_eq!(parse_i64("-9223372036854775809"), None);
}

#[test]
fn parse_i64_grammar() {
    assert_eq!(parse_i64("+5"), Some(5));
    assert_eq!(parse_i64("-0"), Some(0));
    assert_eq!(parse_i64("007"), Some(7));
    assert_eq!(parse_i64(""), None);
    assert_eq!(parse_i64("-"), None);
    assert_eq!(parse_i64("+"), None);
    assert_eq!(parse_i64("5x"), None);
    assert_eq!(parse_i64(" 5"), None);
}

#[test]
fn parse_u64_bounds() {
    assert_eq!(parse_u64("18446744073709551615"), Some(u64::MAX));
    assert_eq!(parse_u64("18446744073709551616"), None);
    assert_eq!(parse_u64("+12"), Some(12));
    assert_eq!(parse_u64("-1"), None);
    assert_eq!(parse_u64(""), None);
}

#[test]
fn decimal_notation() {
    assert_eq!(u64_to_dec(0), "0");
    assert_eq!(u64_to_dec(1234), "1234");
    assert_eq!(u64_to_dec(u64::MAX), "18446744073709551615");
    assert_eq!(i64_to_dec(-50), "-50");
    assert_eq!(i64_to_dec(0), "0");
    assert_eq!(i64_to_dec(i64::MIN), "-9223372036854775808");
}
