use amuri::assetmodel::{AssetModel, OwnedAssetModel};
use amuri::errors::AmuriError;
use amuri::level::Level;
use amuri::query::client::{get_latest, get_next, push_component, Client, DirListing, Step};
use amuri::scheme::Scheme;
use amuri::snapshot_type::SnapshotTypeMap;
use amuri::text::padded4;
use amuri::version::Version;

fn owned(snapshot_type: &str, version: Option<Version>, key: Option<&str>, create: bool) -> OwnedAssetModel {
    AssetModel::new(
        Scheme::Asset,
        Level::shot("dev01", "rd", "0010"),
        "bob",
        "model",
        "hi",
        snapshot_type,
        version,
        key,
        create,
    )
    .to_owned()
}

fn entries(names: &[&str]) -> DirListing {
    DirListing::Entries(names.iter().map(|n| n.to_string()).collect())
}

#[test]
fn unknown_snapshot_type_fails_before_any_listing() {
    let client = Client::new("/repo");
    let m = owned("houdini_scene", Some(Version::Latest), None, false);
    let table = SnapshotTypeMap::standard();
    assert!(matches!(
        client.begin(&m, &table),
        Err(AmuriError::UnknownSnapshotType(t)) if t == "houdini_scene"
    ));
    assert!(matches!(
        client.resolve(&m, &table, &DirListing::Missing),
        Err(AmuriError::UnknownSnapshotType(_))
    ));
}

#[test]
fn current_and_numbers_need_no_listing() {
    let client = Client::new("/repo/");
    let table = SnapshotTypeMap::standard();
    match client.begin(&owned("usd_scene", None, Some("proxy"), true), &table) {
        Ok(Step::Done(r)) => {
            assert_eq!(r.path, "/repo/dev01/rd/0010/bob/model/hi/usd_scene/current/proxy.usda");
            assert_eq!(r.create_dir, None);
        }
        _ => panic!("expected a finished resolution"),
    }
    match client.begin(&owned("alembic_cache", Some(Version::Number(12345)), None, false), &table) {
        Ok(Step::Done(r)) => {
            assert_eq!(r.path, "/repo/dev01/rd/0010/bob/model/hi/alembic_cache/12345/main.abc")
        }
        _ => panic!("expected a finished resolution"),
    }
}

#[test]
fn latest_and_next_errors() {
    let dir = "/repo/x";
    assert_eq!(get_latest(dir, &DirListing::Missing), Err(AmuriError::NonExtantPath(dir.into())));
    assert_eq!(get_latest(dir, &DirListing::NotADirectory), Err(AmuriError::NonExtantPath(dir.into())));
    assert_eq!(get_latest(dir, &entries(&[])), Err(AmuriError::EmptyDirectory(dir.into())));
    assert_eq!(get_latest(dir, &entries(&["current"])), Err(AmuriError::EmptyDirectory(dir.into())));
    assert_eq!(get_next(dir, &entries(&[])), Err(AmuriError::EmptyDirectory(dir.into())));
    assert_eq!(get_next(dir, &DirListing::NotADirectory), Err(AmuriError::NonExtantPath(dir.into())));
    assert_eq!(get_next(dir, &DirListing::Missing), Err(AmuriError::NonExtantPath(dir.into())));
    assert_eq!(
        get_next(dir, &entries(&["0001", "notes"])),
        Err(AmuriError::StrToIntError { target: "notes".into() })
    );
    assert_eq!(get_next(dir, &entries(&["0999"])), Ok("1000".to_string()));
    assert_eq!(get_next(dir, &entries(&["65535"])), Ok("65536".to_string()));
}

#[test]
fn latest_is_plain_string_order() {
    assert_eq!(get_latest("/d", &entries(&["0009", "0010", "010"])), Ok("010".to_string()));
    assert_eq!(get_latest("/d", &entries(&["9", "10"])), Ok("9".to_string()));
}

#[test]
fn resolving_twice_gives_the_same_path_whatever_the_listing_order() {
    let client = Client::new("/repo");
    let table = SnapshotTypeMap::standard();
    let m = owned("maya_model", Some(Version::Latest), None, false);
    let a = client.resolve(&m, &table, &entries(&["0001", "0003", "current", "0002"])).unwrap();
    let b = client.resolve(&m, &table, &entries(&["current", "0002", "0003", "0001"])).unwrap();
    assert_eq!(a.path, b.path);
    assert_eq!(a.path, "/repo/dev01/rd/0010/bob/model/hi/maya_model/0003/main.mb");
}

#[test]
fn next_falls_back_to_the_first_version() {
    let client = Client::new("/repo");
    let table = SnapshotTypeMap::standard();
    let m = owned("maya_model", Some(Version::Next), None, false);
    for listing in [DirListing::Missing, DirListing::NotADirectory, entries(&[]), entries(&["current"])] {
        let r = client.resolve(&m, &table, &listing).unwrap();
        assert_eq!(r.path, "/repo/dev01/rd/0010/bob/model/hi/maya_model/0001/main.mb");
        assert_eq!(r.create_dir, None);
    }
    assert_eq!(
        client.resolve(&m, &table, &entries(&["draft"])).map(|r| r.path),
        Err(AmuriError::StrToIntError { target: "draft".into() })
    );
}

#[test]
fn next_with_create_names_the_directory_to_make() {
    let client = Client::new("");
    let table = SnapshotTypeMap::standard();
    let m = owned("usd_model", Some(Version::Next), Some("main"), true);
    let r = client.resolve(&m, &table, &entries(&["0001", "0004", "current"])).unwrap();
    assert_eq!(r.path, "dev01/rd/0010/bob/model/hi/usd_model/0005/main.usd");
    assert_eq!(r.create_dir, Some("dev01/rd/0010/bob/model/hi/usd_model/0005".to_string()));
}

#[test]
fn alternate_tables_are_honoured() {
    let client = Client::new("/r");
    let table = SnapshotTypeMap::from_pairs(vec![
        ("nuke_script".to_string(), "nk".to_string()),
        ("nuke_script".to_string(), "ignored".to_string()),
    ]);
    assert_eq!(table.get("nuke_script"), Some("nk"));
    assert_eq!(table.get("maya_model"), None);
    let m = owned("nuke_script", None, None, false);
    let r = client.resolve(&m, &table, &DirListing::Missing).unwrap();
    assert_eq!(r.path, "/r/dev01/rd/0010/bob/model/hi/nuke_script/current/main.nk");
}

#[test]
fn standard_table_extensions() {
    let t = SnapshotTypeMap::standard();
    assert_eq!(t.get("maya_model"), Some("mb"));
    assert_eq!(t.get("alembic_model"), Some("abc"));
    assert_eq!(t.get("alembic_cache"), Some("abc"));
    assert_eq!(t.get("usd_model"), Some("usd"));
    assert_eq!(t.get("usd_scene"), Some("usda"));
    assert_eq!(t.get("usd"), None);
}

#[test]
fn path_components_join_with_one_slash() {
    let mut p = String::new();
    push_component(&mut p, "a");
    assert_eq!(p, "a");
    push_component(&mut p, "b");
    assert_eq!(p, "a/b");
    let mut q = "/root/".to_string();
    push_component(&mut q, "x");
    assert_eq!(q, "/root/x");
    assert_eq!(padded4(7), "0007");
    assert_eq!(padded4(42), "0042");
    assert_eq!(padded4(999), "0999");
    assert_eq!(padded4(1234), "1234");
}
