use amuri::assetmodel::{AssetModel, OwnedAssetModel};
use amuri::errors::AmuriError;
use amuri::level::{Level, LevelOwned};
use amuri::scheme::Scheme;
use amuri::version::Version;

#[test]
fn can_create_from_strs() {
    let am = AssetModel::from_strs(
        "asset",
        "dev01",
        "bob",
        "model",
        "hi",
        "alembic_model",
        Some("current"),
        Some("main"),
        "false",
    );
    assert!(am.is_ok());
}

#[test]
fn from_strs_reports_the_first_bad_part() {
    let bad_scheme = AssetModel::from_strs("assets", "_x", "b", "m", "h", "t", Some("x"), None, "");
    assert_eq!(bad_scheme, Err(AmuriError::ParseError("assets".into())));
    let bad_level = AssetModel::from_strs("asset", "_x", "b", "m", "h", "t", Some("x"), None, "");
    assert_eq!(bad_level, Err(AmuriError::LevelParsingFailure("_x".into())));
    let bad_version = AssetModel::from_strs("asset", "x", "b", "m", "h", "t", Some("x"), None, "");
    assert_eq!(bad_version, Err(AmuriError::StrToIntError { target: "x".into() }));
}

#[test]
fn from_strs_sets_create_only_for_true() {
    let yes = AssetModel::from_strs("render", "a.b.c", "b", "m", "h", "t", None, None, "true").unwrap();
    assert!(yes.create_missing);
    let no = AssetModel::from_strs("render", "a.b.c", "b", "m", "h", "t", None, None, "yes").unwrap();
    assert!(!no.create_missing);
    assert_eq!(yes.level, Level::shot("a", "b", "c"));
    assert_eq!(yes.container_type, Scheme::Render);
}

#[test]
fn owned_model_keeps_every_part() {
    let am = AssetModel::new(
        Scheme::Plate,
        Level::seq("dev01", "rd"),
        "bob",
        "model",
        "hi",
        "usd_scene",
        Some(Version::Number(7)),
        Some("proxy"),
        true,
    );
    let owned = OwnedAssetModel::from(am.clone());
    assert_eq!(owned, am.to_owned());
    assert_eq!(owned.level, LevelOwned::seq("dev01", "rd"));
    assert_eq!(owned.name, "bob");
    assert_eq!(owned.department, "model");
    assert_eq!(owned.subcontext, "hi");
    assert_eq!(owned.snapshot_type, "usd_scene");
    assert_eq!(owned.version, Some(Version::Number(7)));
    assert_eq!(owned.key, Some("proxy".to_string()));
    assert!(owned.create_missing);
}
