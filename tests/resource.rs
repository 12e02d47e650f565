use amuri::parse::resource::parse_resource;

#[test]
fn test_parse_resource() {
    assert_eq!(parse_resource("a123b"), Ok(("", "a123b")));
    assert_eq!(parse_resource("a123_").is_err(), true);
    assert_eq!(parse_resource("a123b"), Ok(("", "a123b")));
}
