use amuri::assetmodel::AssetModel;
use amuri::errors::AmuriError;
use amuri::query::client::{get_latest, get_next, Client, DirListing, Step};
use amuri::snapshot_type::SnapshotTypeMap;

const ROOT: &str = "/home/jgerber/src/rust/amuri/tests/data";
const DIR: &str = "/home/jgerber/src/rust/amuri/tests/data/TESTSHOW/robot/model/hi/maya_model";

fn versions() -> DirListing {
    DirListing::Entries(vec![
        "0002".to_string(),
        "current".to_string(),
        "0004".to_string(),
        "0001".to_string(),
        "0003".to_string(),
    ])
}

fn model<'a>(version: Option<&'a str>, create: &'a str) -> AssetModel<'a> {
    AssetModel::from_strs(
        "asset", "TESTSHOW", "robot", "model", "hi", "maya_model", version, Some("main"), create,
    )
    .unwrap()
}

/// Runs a resolution against a listing of the version directory.
fn resolve(client: &Client, am: &AssetModel, listing: &DirListing) -> Result<(String, Option<String>), AmuriError> {
    let owned = am.to_owned();
    let table = SnapshotTypeMap::standard();
    match client.begin(&owned, &table)? {
        Step::Done(r) => Ok((r.path, r.create_dir)),
        Step::List(dir) => {
            assert_eq!(dir, DIR.replace(ROOT, client.get_root()));
            let r = client.resolve(&owned, &table, listing)?;
            Ok((r.path, r.create_dir))
        }
    }
}

#[test]
fn can_get_latest_fn() {
    let latest = get_latest(DIR, &versions());
    assert_eq!(latest, Ok("0004".to_string()));
}

#[test]
fn can_get_latest_from_client() {
    let client = Client::new(ROOT);
    let results = resolve(&client, &model(Some("latest"), "false"), &versions()).map(|r| r.0);
    assert_eq!(results, Ok("/home/jgerber/src/rust/amuri/tests/data/TESTSHOW/robot/model/hi/maya_model/0004/main.mb".to_string()));
}

#[test]
fn can_get_next_from_client() {
    let client = Client::new(ROOT);
    let results = resolve(&client, &model(Some("next"), "false"), &versions());
    assert_eq!(results, Ok(("/home/jgerber/src/rust/amuri/tests/data/TESTSHOW/robot/model/hi/maya_model/0005/main.mb".to_string(), None)));
}

#[test]
fn can_get_next_from_client_and_create_missing() {
    let client = Client::new("/tmp/amuri_tests");
    let results = resolve(&client, &model(Some("next"), "true"), &DirListing::Missing);
    let expected = "/tmp/amuri_tests/TESTSHOW/robot/model/hi/maya_model/0001/main.mb";
    let expected_path = "/tmp/amuri_tests/TESTSHOW/robot/model/hi/maya_model/0001";
    assert_eq!(results, Ok((expected.to_string(), Some(expected_path.to_string()))));
}

#[test]
fn can_get_version_from_client() {
    let client = Client::new(ROOT);
    let results = resolve(&client, &model(Some("4"), "false"), &DirListing::Missing).map(|r| r.0);
    assert_eq!(results, Ok("/home/jgerber/src/rust/amuri/tests/data/TESTSHOW/robot/model/hi/maya_model/0004/main.mb".to_string()));
}

#[test]
fn can_get_next_fn() {
    let next = get_next(DIR, &versions());
    assert_eq!(next, Ok("0005".to_string()));
}
