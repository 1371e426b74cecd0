//! What the client does for its user, feature by feature, told from its inputs and
//! its results.
pub mod arrivals;
pub mod conversations;
pub mod exchange;
pub mod folders;
pub mod messages;
pub mod names;
pub mod network;
pub mod numerals;
pub mod offers;
pub mod serving;
pub mod settings;
pub mod texts;
pub mod transfers;
pub mod window;
