//! What the user interface shows, and what it does about what the user does.
pub mod conv_id;
pub mod conversation;
pub mod ui_state;
pub mod search;
pub mod shell;
pub mod transfer_view;
pub mod mirror;
pub mod listing;
