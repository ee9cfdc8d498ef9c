//! Carrying files to the chat service and back.
//!
//! Reading, sending, fetching and recording are done outside. The types here hold what has
//! happened so far, take in what came of the last step, and say what the next one is.

pub mod download;
pub mod thumbnail;
pub mod upload;
