//! The window: what it holds, what becomes of each message to it, and what it shows.
//!
//! Drawing, the catalogue, the chat service and the dialogs are outside. A message changes the state
//! and gives tasks to be done; what comes of a task makes the next message.

pub mod laws;
pub mod message;
pub mod screen;
pub mod size_text;
pub mod state;
pub mod tasks;
