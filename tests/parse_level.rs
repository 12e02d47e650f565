use amuri::level::Level;
use amuri::parse::level::{
    parse_level, parse_level_item, parse_seq, parse_sequence, parse_shot, parse_show,
};
use amuri::parse::utils::{FailKind, SegmentError};

fn err(kind: FailKind, pos: usize) -> SegmentError {
    SegmentError { kind, pos }
}

#[test]
fn can_parse_show_starting_with_letter_and_ending_with_number() {
    assert_eq!(parse_show("DEV01"), Ok(("", Level::show("DEV01"))));
}

#[test]
fn can_parse_show_up_to_period() {
    assert_eq!(parse_show("DEV01."), Ok((".", Level::show("DEV01"))));
}

#[test]
fn cannot_parse_show_ending_with_underscore() {
    assert_eq!(parse_show("DEV01_"), Err(err(FailKind::Tail, 5)));
}

#[test]
fn can_parse_seq() {
    assert_eq!(parse_seq("dev01.rd"), Ok(("", Level::seq("dev01", "rd"))));
}

#[test]
fn can_parse_seq_up_to_period() {
    assert_eq!(parse_seq("dev01.rd."), Ok((".", Level::seq("dev01", "rd"))));
    assert_eq!(parse_sequence("dev01.rd."), Ok((".", Level::seq("dev01", "rd"))));
}

#[test]
fn can_parse_level_item_consisting_of_numbers() {
    assert_eq!(parse_level_item("0001"), Ok(("", "0001")));
}

#[test]
fn can_parse_level_item_consisting_of_letters_and_numbers() {
    assert_eq!(parse_level_item("a0001"), Ok(("", "a0001")));
}

#[test]
fn can_parse_level_item_up_to_space() {
    assert_eq!(parse_level_item("a 0001"), Ok((" 0001", "a")));
}

#[test]
fn cannot_parse_level_item_ending_in_underscore() {
    assert_eq!(parse_level_item("0001_"), Err(err(FailKind::Tail, 4)));
}

#[test]
fn test_parse_shot() {
    assert_eq!(
        parse_shot("dev01.rd.0001"),
        Ok(("", Level::shot("dev01", "rd", "0001")))
    );
}

#[test]
fn can_parse_level_from_shot() {
    assert_eq!(
        parse_level("dev01.rd.9999/"),
        Ok(("", Level::shot("dev01", "rd", "9999")))
    );
}

#[test]
fn can_parse_level_from_shot_up_to_slash() {
    assert_eq!(
        parse_level("dev01.rd.9999/"),
        Ok(("", Level::shot("dev01", "rd", "9999")))
    );
}

#[test]
fn can_parse_level_from_seq_up_to_slash() {
    assert_eq!(parse_level("dev01.rd/"), Ok(("", Level::seq("dev01", "rd"))));
}

#[test]
fn can_parse_level_from_show_up_to_slash() {
    assert_eq!(parse_level("dev01/"), Ok(("", Level::show("dev01"))));
}

#[test]
fn can_parse_level_from_seq_up_to_space() {
    assert_eq!(parse_level("dev01 .rd/"), Err(err(FailKind::Tag, 5)));
}

#[test]
fn level_reports_the_furthest_failure() {
    // the shot gets furthest: its third part ends in `_`
    assert_eq!(parse_level("dev01.rd.9999_/"), Err(err(FailKind::Tail, 13)));
    // a sequence part may not start with `_`
    assert_eq!(parse_level("dev01._rd/"), Err(err(FailKind::Start, 6)));
    assert_eq!(parse_level("1dev01/"), Err(err(FailKind::Start, 0)));
    assert_eq!(parse_level("dev01.rd.9999/rest"), Ok(("rest", Level::shot("dev01", "rd", "9999"))));
}
