use amuri::assetmodel::AssetModel;
use amuri::errors::AmuriError;
use amuri::level::Level;
use amuri::parse::uri::parse_uri;
use amuri::scheme::Scheme;
use amuri::version::Version;

#[test]
fn can_parse_asset_uri_with_version_and_key() {
    let uri = parse_uri("asset://dev01/bob/model/hi/maya_model?version=current#main");
    let expect = AssetModel::from_strs(
        "asset",
        "dev01",
        "bob",
        "model",
        "hi",
        "maya_model",
        Some("current"),
        Some("main"),
        "false",
    );
    assert_eq!(uri, expect);
}

#[test]
fn can_parse_asset_uri_with_version_and_key_and_create() {
    let uri = parse_uri("asset://dev01/bob/model/hi/maya_model?version=current&create=true#main");
    let expect = AssetModel::from_strs(
        "asset",
        "dev01",
        "bob",
        "model",
        "hi",
        "maya_model",
        Some("current"),
        Some("main"),
        "true",
    );
    assert_eq!(uri, expect);
}

#[test]
fn can_parse_asset_uri_with_num_version_and_key() {
    let uri = parse_uri("asset://dev01/bob/model/hi/maya_model?version=1#main");
    let expect = AssetModel::from_strs(
        "asset",
        "dev01",
        "bob",
        "model",
        "hi",
        "maya_model",
        Some("1"),
        Some("main"),
        "false",
    );
    assert_eq!(uri, expect);
}

#[test]
fn can_parse_asset_uri_with_version_no_key() {
    let uri = parse_uri("asset://dev01/bob/model/hi/maya_model?version=current");
    let expect = AssetModel::from_strs(
        "asset",
        "dev01",
        "bob",
        "model",
        "hi",
        "maya_model",
        Some("current"),
        None,
        "false",
    );
    assert_eq!(uri, expect);
}

#[test]
fn can_parse_asset_uri_with_no_version_no_key() {
    let uri = parse_uri("asset://dev01/bob/model/hi/maya_model");
    let expect = AssetModel::from_strs(
        "asset",
        "dev01",
        "bob",
        "model",
        "hi",
        "maya_model",
        None,
        None,
        "false",
    );
    assert_eq!(uri, expect);
}

#[test]
fn can_handle_bad_scheme() {
    let uri = parse_uri("assetf://dev01/bob/model/hi/maya_model");
    let expect = Err(AmuriError::UriParsingError {
        cause: "Error((\"f://dev01/bob/model/hi/maya_model\", Tag))".to_string(),
    });
    assert_eq!(uri, expect);
}

#[test]
fn parses_the_documented_scenario_exactly() {
    let m = parse_uri("asset://dev01/bob/model/hi/maya_model?version=current#main").unwrap();
    assert_eq!(m.container_type, Scheme::Asset);
    assert_eq!(m.level, Level::show("dev01"));
    assert_eq!(m.name, "bob");
    assert_eq!(m.department, "model");
    assert_eq!(m.subcontext, "hi");
    assert_eq!(m.snapshot_type, "maya_model");
    assert_eq!(m.version, Some(Version::Current));
    assert_eq!(m.key, Some("main"));
    assert!(!m.create_missing);
}

#[test]
fn level_priority_in_a_locator() {
    let shot = parse_uri("instance://dev01.rd.9999/fred1/anim/hi/alembic_cache").unwrap();
    assert_eq!(shot.level, Level::shot("dev01", "rd", "9999"));
    let seq = parse_uri("instance://dev01.rd/fred1/anim/hi/alembic_cache").unwrap();
    assert_eq!(seq.level, Level::seq("dev01", "rd"));
    let show = parse_uri("instance://dev01/fred1/anim/hi/alembic_cache").unwrap();
    assert_eq!(show.level, Level::show("dev01"));
}

#[test]
fn trailing_underscore_is_reported() {
    assert_eq!(
        parse_uri("asset://dev01/bob_/model/hi/maya_model"),
        Err(AmuriError::UriUnexpectedUnderscoreParsingError {
            processed: "asset://dev01/bob".into(),
            remaining: "_/model/hi/maya_model".into(),
        })
    );
    assert_eq!(
        parse_uri("asset://dev01/bob/model/hi/maya_model_"),
        Err(AmuriError::UriUnexpectedUnderscoreParsingError {
            processed: "asset://dev01/bob/model/hi/maya_model".into(),
            remaining: "_".into(),
        })
    );
    assert_eq!(
        parse_uri("asset://dev01/bob/model/hi/maya_model#main__"),
        Err(AmuriError::UriUnexpectedUnderscoreParsingError {
            processed: "asset://dev01/bob/model/hi/maya_model#main_".into(),
            remaining: "_".into(),
        })
    );
}

#[test]
fn leading_digit_or_underscore_is_reported() {
    assert_eq!(
        parse_uri("asset://dev01/bob/1model/hi/maya_model"),
        Err(AmuriError::UriNonAlphaParsingError {
            problem: "1".into(),
            location: "asset://dev01/bob/1".into(),
        })
    );
    assert_eq!(
        parse_uri("asset://dev01/bob/model/_hi/maya_model"),
        Err(AmuriError::UriNonAlphaParsingError {
            problem: "_".into(),
            location: "asset://dev01/bob/model/_".into(),
        })
    );
    assert_eq!(
        parse_uri("asset://9dev01/bob/model/hi/maya_model"),
        Err(AmuriError::UriNonAlphaParsingError {
            problem: "9".into(),
            location: "asset://9".into(),
        })
    );
}

#[test]
fn other_grammar_failures_describe_the_rest() {
    assert_eq!(
        parse_uri("asset://dev01/bob/model/hi/maya_model/extra"),
        Err(AmuriError::UriParsingError {
            cause: "Error((\"/extra\", Eof))".into(),
        })
    );
    assert_eq!(
        parse_uri("asset://dev01/bob/model/hi/"),
        Err(AmuriError::UriParsingError {
            cause: "Error((\"\", Alpha))".into(),
        })
    );
    assert_eq!(
        parse_uri("asset://dev01/bob/model"),
        Err(AmuriError::UriParsingError {
            cause: "Error((\"\", Tag))".into(),
        })
    );
}

#[test]
fn version_settings_in_a_locator() {
    let m = parse_uri("plate://a/b/c/d/usd_model?version=3&version=next&create=true&create=no").unwrap();
    assert_eq!(m.version, Some(Version::Next));
    assert!(!m.create_missing);
    assert_eq!(
        parse_uri("plate://a/b/c/d/usd_model?version=x1&version=2"),
        Err(AmuriError::StrToIntError { target: "x1".into() })
    );
    let other = parse_uri("plate://a/b/c/d/usd_model?server=organic").unwrap();
    assert_eq!(other.version, None);
}

#[test]
fn canonical_text_parses_back_to_its_model() {
    let text = "render://dev01.rd.0010/bob/lighting/beauty/usd_scene?version=12#proxy";
    let m = parse_uri(text).unwrap();
    let expect = AssetModel::new(
        Scheme::Render,
        Level::shot("dev01", "rd", "0010"),
        "bob",
        "lighting",
        "beauty",
        "usd_scene",
        Some(Version::Number(12)),
        Some("proxy"),
        false,
    );
    assert_eq!(m, expect);
    let latest = parse_uri("plate://dev01.rd/bob/comp/main/alembic_model?version=latest").unwrap();
    assert_eq!(latest.version, Some(Version::Latest));
    assert_eq!(latest.key, None);
}

#[test]
fn trailing_underscore_in_level_parts_and_values() {
    assert_eq!(
        parse_uri("asset://dev01_/bob/model/hi/maya_model"),
        Err(AmuriError::UriUnexpectedUnderscoreParsingError {
            processed: "asset://dev01".into(),
            remaining: "_/bob/model/hi/maya_model".into(),
        })
    );
    assert_eq!(
        parse_uri("asset://dev01.rd_/bob/model/hi/maya_model"),
        Err(AmuriError::UriUnexpectedUnderscoreParsingError {
            processed: "asset://dev01.rd".into(),
            remaining: "_/bob/model/hi/maya_model".into(),
        })
    );
    assert_eq!(
        parse_uri("asset://dev01.rd.0010_/bob/model/hi/maya_model"),
        Err(AmuriError::UriUnexpectedUnderscoreParsingError {
            processed: "asset://dev01.rd.0010".into(),
            remaining: "_/bob/model/hi/maya_model".into(),
        })
    );
    assert_eq!(
        parse_uri("asset://dev01/bob/model/hi/maya_model?version=cur_#main"),
        Err(AmuriError::UriUnexpectedUnderscoreParsingError {
            processed: "asset://dev01/bob/model/hi/maya_model?version=cur".into(),
            remaining: "_#main".into(),
        })
    );
}

#[test]
fn leading_digit_in_keys_is_reported() {
    assert_eq!(
        parse_uri("asset://dev01/bob/model/hi/maya_model#1main"),
        Err(AmuriError::UriNonAlphaParsingError {
            problem: "1".into(),
            location: "asset://dev01/bob/model/hi/maya_model#1".into(),
        })
    );
    assert_eq!(
        parse_uri("asset://dev01/bob/model/hi/maya_model?_version=1"),
        Err(AmuriError::UriNonAlphaParsingError {
            problem: "_".into(),
            location: "asset://dev01/bob/model/hi/maya_model?_".into(),
        })
    );
}
