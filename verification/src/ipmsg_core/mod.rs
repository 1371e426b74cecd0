pub mod cancel;
pub mod event;
pub mod file_table;
pub mod filename;
pub mod folder;
pub mod folder_sender;
pub mod inbound;
pub mod offer;
pub mod offering;
pub mod packet;
pub mod protocol;
pub mod serve;
pub mod service;
pub mod text;
pub mod transfer;
