use pronoun_bot::pronouns::{parse_pronouns, PronounError};
use pronoun_bot::text::{
    byte_len, decimal_string, ends_with, join_strings, split_on_char, str_equal, strip_suffix,
};
use pronoun_bot::user_data::{RwLockUserDataExt, UserData};

fn strings(parts: &[&str]) -> Vec<String> {
    parts.iter().map(|s| s.to_string()).collect()
}

#[test]
fn byte_len_counts_utf8_bytes() {
    assert_eq!(byte_len("abc"), 3);
    assert_eq!(byte_len("ñ"), 2);
    assert_eq!(byte_len("京"), 3);
    assert_eq!(byte_len("💝"), 4);
    assert_eq!(byte_len(""), 0);
}

#[test]
fn split_keeps_empty_pieces() {
    assert_eq!(split_on_char("she/her,they/them", ','), strings(&["she/her", "they/them"]));
    assert_eq!(split_on_char("", ','), strings(&[""]));
    assert_eq!(split_on_char("a,", ','), strings(&["a", ""]));
    assert_eq!(split_on_char(",,", ','), strings(&["", "", ""]));
}

#[test]
fn join_then_split_round_trip() {
    let parts = strings(&["he/him", "", "xe/xem"]);
    let joined = join_strings(&parts, ",");
    assert_eq!(joined, "he/him,,xe/xem");
    assert_eq!(split_on_char(&joined, ','), parts);
    assert_eq!(join_strings(&strings(&[]), ", "), "");
    assert_eq!(join_strings(&strings(&["one"]), ", "), "one");
}

#[test]
fn suffix_helpers() {
    assert!(ends_with("Alex | she/her", "she/her"));
    assert!(!ends_with("Alex", "she/her"));
    assert!(ends_with("Alex", ""));
    assert_eq!(strip_suffix("Alex | she/her", "she/her"), Some("Alex | "));
    assert_eq!(strip_suffix("Alex", "Alexander"), None);
    assert_eq!(strip_suffix("京都", "都"), Some("京"));
    assert!(str_equal("abc", "abc"));
    assert!(!str_equal("abc", "abd"));
    assert!(!str_equal("abc", "ab"));
}

#[test]
fn decimal_rendering() {
    assert_eq!(decimal_string(0), "0");
    assert_eq!(decimal_string(7), "7");
    assert_eq!(decimal_string(10), "10");
    assert_eq!(decimal_string(1234567890123), "1234567890123");
    assert_eq!(decimal_string(u128::MAX), u128::MAX.to_string());
}

#[test]
fn parse_accepts_valid_lists() {
    assert_eq!(parse_pronouns("she/her,they/them").unwrap(), strings(&["she/her", "they/them"]));
    assert_eq!(parse_pronouns("any").unwrap(), strings(&["any"]));
    // Empty pieces pass: they have no characters.
    assert_eq!(parse_pronouns("he,").unwrap(), strings(&["he", ""]));
    // Non-ASCII letters are alphabetic.
    assert_eq!(parse_pronouns("él/ella").unwrap(), strings(&["él/ella"]));
    // Exactly ten characters is the limit.
    assert_eq!(parse_pronouns("abcde/ghij").unwrap(), strings(&["abcde/ghij"]));
    // The limit counts characters, not bytes: six two-byte letters pass.
    assert_eq!(parse_pronouns("éééééé").unwrap(), strings(&["éééééé"]));
    assert_eq!(parse_pronouns("ññññ/ññññé").unwrap(), strings(&["ññññ/ññññé"]));
}

#[test]
fn parse_refuses_invalid_character() {
    match parse_pronouns("she/her,they them") {
        Err(PronounError::InvalidCharacter(p)) => assert_eq!(p, "they them"),
        other => panic!("unexpected {:?}", other),
    }
    let e = parse_pronouns("he1").unwrap_err();
    assert_eq!(
        e.message(),
        "Pronoun `he1` contains non-alphabetic character that is not `/`!"
    );
}

#[test]
fn parse_refuses_too_long() {
    match parse_pronouns("she/her/hers") {
        Err(PronounError::TooLong(p)) => assert_eq!(p, "she/her/hers"),
        other => panic!("unexpected {:?}", other),
    }
    // Eleven two-byte letters are eleven characters.
    let e = parse_pronouns("ñññññññññññ").unwrap_err();
    assert_eq!(e.message(), "Pronoun `ñññññññññññ` has length exceeding maximum (10)!");
}

#[test]
fn parse_reports_first_failing_piece_character_check_first() {
    // The first piece is too long, the second has a bad character: the first
    // failing piece is reported.
    match parse_pronouns("abcdefghijk,a b") {
        Err(PronounError::TooLong(p)) => assert_eq!(p, "abcdefghijk"),
        other => panic!("unexpected {:?}", other),
    }
    // A piece that is both too long and has a bad character is refused for
    // the character.
    match parse_pronouns("abcdefghij k") {
        Err(PronounError::InvalidCharacter(p)) => assert_eq!(p, "abcdefghij k"),
        other => panic!("unexpected {:?}", other),
    }
}

#[test]
fn pronouns_string_joins_with_comma_space() {
    let d = UserData { current: 0, change_nickname: false, pronouns: strings(&["she/her", "they/them"]) };
    assert_eq!(d.user_pronouns_string(), "she/her, they/them");
}
