//! Encrypted file storage on top of a chat service.

pub mod chunk;
pub mod crypto;
pub mod external;
pub mod gateway;
pub mod gui;
pub mod storage;
pub mod text;
pub mod transfer;
pub mod walk;
