//! The catalogue of folders, files, parts and thumbnails, which a SQL database keeps.

pub mod models;
pub mod rows;
pub mod statements;
