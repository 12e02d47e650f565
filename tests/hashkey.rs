use amuri::parse::hashkey::parse_hashtag;
use amuri::parse::utils::{FailKind, SegmentError};

#[test]
fn can_parse_hashtag() {
    assert_eq!(parse_hashtag("#main"), Ok(("", "main")))
}

#[test]
fn cannot_start_with_number() {
    assert_eq!(
        parse_hashtag("#1main"),
        Err(SegmentError { kind: FailKind::Start, pos: 1 })
    );
}

#[test]
fn cannot_parse_a_symbol() {
    assert_eq!(parse_hashtag("#ma$in"), Ok(("$in", "ma")));
}

#[test]
fn hashkey_cannot_end_with_underscore() {
    assert_eq!(
        parse_hashtag("#main_"),
        Err(SegmentError { kind: FailKind::Tail, pos: 5 })
    );
}

#[test]
fn hashtag_needs_its_mark() {
    assert_eq!(
        parse_hashtag("main"),
        Err(SegmentError { kind: FailKind::Tag, pos: 0 })
    );
}
