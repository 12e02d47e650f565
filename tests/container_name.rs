use amuri::parse::container_name::{
    parse_asset_name, parse_department, parse_instance_name, parse_name, parse_snapshot_type,
    parse_subcontext,
};
use amuri::parse::utils::{FailKind, SegmentError};

fn err(kind: FailKind, pos: usize) -> SegmentError {
    SegmentError { kind, pos }
}

#[test]
fn name_can_start_and_end_with_letter() {
    assert_eq!(parse_asset_name("fred/"), Ok(("", "fred")));
}

#[test]
fn container_name_cannot_end_with_underscore() {
    assert_eq!(parse_asset_name("fred_/"), Err(err(FailKind::Tail, 4)));
}

#[test]
fn cannot_start_with_underscore() {
    assert_eq!(parse_asset_name("_fred/"), Err(err(FailKind::Start, 0)));
}

#[test]
fn cannot_parse_asset_name_ending_in_number() {
    assert_eq!(parse_asset_name("fred1/"), Err(err(FailKind::Tail, 4)));
}

#[test]
fn can_parse_name_ending_in_number() {
    assert_eq!(parse_instance_name("fred1/"), Ok(("", "fred1")));
}

#[test]
fn can_have_internal_underscores() {
    assert_eq!(
        parse_instance_name("drop_dead_fred_1/"),
        Ok(("", "drop_dead_fred_1"))
    );
}

#[test]
fn can_have_capital_letters() {
    assert_eq!(parse_instance_name("FRED1/"), Ok(("", "FRED1")));
}

#[test]
fn cannot_start_with_a_number() {
    assert_eq!(parse_instance_name("1fred1/"), Err(err(FailKind::Start, 0)));
}

#[test]
fn cannot_end_with_a_letter() {
    assert_eq!(parse_instance_name("1fred/"), Err(err(FailKind::Start, 0)));
    assert_eq!(parse_instance_name("fred/"), Err(err(FailKind::Tail, 3)));
}

#[test]
fn cannot_end_with_an_underscore() {
    assert_eq!(parse_instance_name("fred_/"), Err(err(FailKind::Tail, 4)));
}

#[test]
fn cannot_start_with_an_underscore() {
    assert_eq!(parse_instance_name("_fred1/"), Err(err(FailKind::Start, 0)));
}

#[test]
fn can_parse_instances_with_internal_underscores() {
    assert_eq!(
        parse_instance_name("fred_flinstone1/"),
        Ok(("", "fred_flinstone1"))
    );
}

#[test]
fn can_parse_name_which_starts_and_ends_with_letter() {
    assert_eq!(parse_name("fred/"), Ok(("", "fred")));
}

#[test]
fn can_parse_name_which_starts_and_ends_with_uppercase_letter() {
    assert_eq!(parse_name("FRED/"), Ok(("", "FRED")));
}

#[test]
fn can_parse_name_which_starts_with_letter_and_ends_with_number() {
    assert_eq!(parse_name("fred1/"), Ok(("", "fred1")));
}

#[test]
fn can_parse_name_with_internal_underscores() {
    assert_eq!(parse_name("fred_flinstone/"), Ok(("", "fred_flinstone")));
}

#[test]
fn fails_name_that_ends_in_underscore() {
    assert_eq!(parse_name("fred1_/"), Err(err(FailKind::Tail, 5)));
}

#[test]
fn fails_name_that_starts_with_number() {
    assert_eq!(parse_name("1fred1/"), Err(err(FailKind::Start, 0)));
}

#[test]
fn fails_name_that_starts_with_undercsore() {
    assert_eq!(parse_name("_fred1/"), Err(err(FailKind::Start, 0)));
}

#[test]
fn flat_segments_need_their_slash() {
    assert_eq!(parse_department("model/rest"), Ok(("rest", "model")));
    assert_eq!(parse_subcontext("hi-"), Err(err(FailKind::Tag, 2)));
    assert_eq!(parse_snapshot_type("maya_model?version=1"), Ok(("?version=1", "maya_model")));
    assert_eq!(parse_snapshot_type("maya_model_"), Err(err(FailKind::Tail, 10)));
}
