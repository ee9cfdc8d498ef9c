//! Walking through folders, on disk and in the catalogue.
//!
//! Looking things up, sending, fetching and deleting are done outside. The types here hold where a
//! walk stands, take in what came of the last step, and say what the next one is.

pub mod delete;
pub mod download;
pub mod path;
pub mod size;
pub mod tree;
pub mod upload;
