use amuri::errors::AmuriError;
use amuri::scheme::Scheme;

#[test]
fn test_can_display() {
    let tests = ["asset", "instance", "render", "plate"];
    for (cnt, scheme) in Scheme::iter().into_iter().enumerate() {
        assert_eq!(&scheme.to_string(), tests[cnt]);
    }
}

#[test]
fn test_can_convert_to_ref() {
    let tests = ["asset", "instance", "render", "plate"];
    for (cnt, scheme) in Scheme::iter().into_iter().enumerate() {
        assert_eq!(scheme.as_str(), tests[cnt]);
    }
}

#[test]
fn test_create_from_str() {
    let tests = ["asset", "instance", "render", "plate"];
    for cnt in 0..tests.len() {
        assert_eq!(Scheme::from_str(tests[cnt]).is_ok(), true);
    }
}

#[test]
fn unknown_scheme_is_a_parse_error() {
    assert_eq!(Scheme::from_str("Asset"), Err(AmuriError::ParseError("Asset".into())));
    assert_eq!(Scheme::from_str("assets"), Err(AmuriError::ParseError("assets".into())));
    assert_eq!(Scheme::from_str("plate"), Ok(Scheme::Plate));
}
