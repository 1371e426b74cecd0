//! The constants of the IPMsg protocol.
use vstd::prelude::*;

verus! {

/// The UDP and TCP port of every client.
pub const PORT: u16 = 2425;

/// The protocol version that a packet states.
pub const VER: u32 = 1;

pub const IPMSG_NOOPERATION: u32 = 0x00;

pub const IPMSG_BR_ENTRY: u32 = 0x01;

pub const IPMSG_BR_EXIT: u32 = 0x02;

pub const IPMSG_ANSENTRY: u32 = 0x03;

pub const IPMSG_SENDMSG: u32 = 0x20;

pub const IPMSG_RECVMSG: u32 = 0x21;

pub const IPMSG_READMSG: u32 = 0x30;

pub const IPMSG_GETFILEDATA: u32 = 0x60;

pub const IPMSG_GETDIRFILES: u32 = 0x62;

/// The sender waits for an `IPMSG_RECVMSG`.
pub const IPMSG_SENDCHECKOPT: u32 = 0x0000_0100;

/// The message is sealed: opening it is to be reported.
pub const IPMSG_SECRETOPT: u32 = 0x0000_0200;

/// Files are attached to the message.
pub const IPMSG_FILEATTACHOPT: u32 = 0x0020_0000;

/// The message is encrypted.
pub const IPMSG_ENCRYPTOPT: u32 = 0x0040_0000;

pub const IPMSG_FILE_REGULAR: u32 = 0x1;

pub const IPMSG_FILE_DIR: u32 = 0x2;

/// Not a file: the end of the directory that was entered last.
pub const IPMSG_FILE_RETPARENT: u32 = 0x3;

pub const IPMSG_FILE_MTIME: u32 = 0x14;

pub const IPMSG_FILE_CREATETIME: u32 = 0x16;

} // verus!
