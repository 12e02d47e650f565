//! The grammar, one parser per segment of the locator.
pub mod container_name;
pub mod hashkey;
pub mod level;
pub mod query;
pub mod render;
pub mod resource;
pub mod scheme;
pub mod uri;
pub mod utils;
