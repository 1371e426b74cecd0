//! The logic of an IP Messenger client for a local network.
pub mod addr_form;
pub mod addr_map;
pub mod app_state;
pub mod chars;
pub mod chat_shell;
pub mod config;
pub mod ipmsg_core;
pub mod laws;
pub mod letter_case;
pub mod logic;
pub mod machine;
pub mod net;
pub mod number;
