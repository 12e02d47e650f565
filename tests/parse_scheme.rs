use amuri::parse::scheme::{parse_scheme, scheme_parser};
use amuri::parse::utils::{FailKind, SegmentError};
use amuri::scheme::Scheme;

#[test]
fn can_parse_asset_instance_render_plate_up_to_colon() {
    assert_eq!(scheme_parser("asset://"), Ok(("", "asset")));
    assert_eq!(scheme_parser("instance://"), Ok(("", "instance")));
    assert_eq!(scheme_parser("render://"), Ok(("", "render")));
    assert_eq!(scheme_parser("plate://"), Ok(("", "plate")));
}

#[test]
fn other_schemes_are_not_supported() {
    assert_eq!(scheme_parser("renderful://").is_err(), true);
    assert_eq!(scheme_parser("frender://").is_err(), true);
}

#[test]
fn parse_scheme_gives_the_scheme_and_the_rest() {
    assert_eq!(parse_scheme("plate://dev01/"), Ok(("dev01/", Scheme::Plate)));
    assert_eq!(parse_scheme("renderful://"), Err(SegmentError { kind: FailKind::Tag, pos: 6 }));
    assert_eq!(parse_scheme("x://"), Err(SegmentError { kind: FailKind::Tag, pos: 0 }));
}
