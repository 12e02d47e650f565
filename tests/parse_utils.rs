use amuri::parse::utils::{
    is_underscore, is_valid_body_char, valid_body0_parser, valid_body1_parser, FailKind,
    SegmentError,
};

#[test]
fn can_parse_undercore() {
    assert!(is_underscore(b'_'));
}

#[test]
fn will_reject_non_underscore() {
    assert_eq!(is_underscore(b'a'), false);
}

#[test]
fn can_parse_valid_chars_ie_letters_numbers_underscore() {
    let valid = [b'a', b'b', b'c', b'0', b'9', b'_'];
    for test in &valid {
        assert!(is_valid_body_char(*test));
    }
}

#[test]
fn rejects_invalid_chars() {
    let invalid = [b'-', b'$', b'!', b' ', b',', b'.', b'/', b'?', b'\\', b'|'];
    for test in &invalid {
        assert_eq!(is_valid_body_char(*test), false);
    }
}

#[test]
fn can_parse_valid_body1_data() {
    assert_eq!(valid_body1_parser("abc_123-"), Ok(("-", "abc_123")));
}

#[test]
fn will_fail_when_starting_with_invalid_char() {
    assert_eq!(
        valid_body1_parser("-abc_123-"),
        Err(SegmentError { kind: FailKind::Start, pos: 0 })
    );
}

#[test]
fn will_fail_if_presented_with_empty_string() {
    assert_eq!(
        valid_body1_parser(""),
        Err(SegmentError { kind: FailKind::Start, pos: 0 })
    );
}

#[test]
fn can_parse_str_with_valid_chars() {
    assert_eq!(valid_body0_parser("abc_123-"), Ok(("-", "abc_123")));
}

#[test]
fn will_make_no_progress_on_str_starting_with_invalid_char() {
    assert_eq!(valid_body0_parser("-abc_123-"), Ok(("-abc_123-", "")));
}

#[test]
fn can_handle_empty_str() {
    assert_eq!(valid_body0_parser(""), Ok(("", "")));
}

#[test]
fn body_chars_are_ascii_only() {
    assert_eq!(valid_body0_parser("ab\u{c1}c"), Ok(("\u{c1}c", "ab")));
    assert!(is_valid_body_char(b'Z'));
    assert!(!is_valid_body_char(0xc1));
}
