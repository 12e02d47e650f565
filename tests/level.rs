use amuri::errors::AmuriError;
use amuri::level::{Level, LevelOwned};

#[test]
fn can_construct_shot_from_str() {
    let level = Level::from_str("dev02.rd.9999");
    assert_eq!(level, Ok(Level::shot("dev02", "rd", "9999")));
}

#[test]
fn can_construct_seq_from_str() {
    let level = Level::from_str("dev02.rd");
    assert_eq!(level, Ok(Level::seq("dev02", "rd")));
}

#[test]
fn can_construct_show_from_str() {
    let level = Level::from_str("dev02");
    assert_eq!(level, Ok(Level::show("dev02")));
}

#[test]
fn from_str_will_fail_with_invalid_input() {
    let level = Level::from_str("_dev02.rd.9999");
    assert_eq!(
        level,
        Err(AmuriError::LevelParsingFailure("_dev02.rd.9999".into()))
    );
}

#[test]
fn can_convert_shot_level_to_ownedlevel() {
    let level = Level::from_str("dev02.rd.9999").unwrap();
    let owned = level.to_owned();
    assert_eq!(owned, LevelOwned::shot("dev02", "rd", "9999"));
}

#[test]
fn can_convert_seq_level_to_ownedlevel() {
    let level = Level::from_str("dev02.rd").unwrap();
    let owned = level.to_owned();
    assert_eq!(owned, LevelOwned::seq("dev02", "rd"));
}

#[test]
fn can_convert_show_level_to_ownedlevel() {
    let level = Level::from_str("dev02").unwrap();
    let owned = level.to_owned();
    assert_eq!(owned, LevelOwned::show("dev02"));
}

#[test]
fn level_from_str_needs_the_whole_text() {
    assert!(Level::from_str("dev02/").is_err());
    assert!(Level::from_str("dev02.rd.9999.x").is_err());
    assert!(Level::from_str("").is_err());
}

#[test]
fn owned_level_renders_its_parts_joined_by_dots() {
    assert_eq!(LevelOwned::shot("dev02", "rd", "9999").to_string(), "dev02.rd.9999");
    assert_eq!(LevelOwned::sequence("dev02", "rd").to_string(), "dev02.rd");
    assert_eq!(LevelOwned::show("dev02").to_string(), "dev02");
    assert_eq!(Level::sequence("a", "b"), Level::seq("a", "b"));
}

#[test]
fn owned_level_from_borrowed() {
    assert_eq!(LevelOwned::from(Level::shot("a", "b", "c")), LevelOwned::shot("a", "b", "c"));
    assert_eq!(LevelOwned::from(Level::show("a")), LevelOwned::show("a"));
}
