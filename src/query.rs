//! Resolution of a model into the path of a file.
pub mod client;
