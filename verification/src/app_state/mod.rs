//! The state of the client: who is online, what was said, what is unread.
pub mod model;
pub mod roster;
pub mod unread;
pub mod history;
pub mod target;
pub mod state;
pub mod laws;
pub mod size;
pub mod rows;
pub mod label;
