//! Asset management resource locator, a uri-ish string of the shape
//!
//! scheme://level/name/department/subcontext/snapshot_type?query#key
//!
//! for example `asset://dev01/thanos/model/hi/maya_model?version=current#main`.
//! The parser turns such a string into an `AssetModel`; the client turns a
//! model into the path of the file it names.
pub mod assetmodel;
pub mod errors;
pub mod level;
pub mod parse;
pub mod query;
pub mod scheme;
pub mod snapshot_type;
pub mod text;
pub mod traits;
pub mod version;
