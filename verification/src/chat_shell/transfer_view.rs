//! How messages and their files are shown.
use crate::app_state::model::{duplicate_option, ChatMessage, FileInfo};
use crate::chars::to_chars;
use vstd::prelude::*;

verus! {

/// What a name is shown as where there is room for one character.
pub open spec fn initial_of(name: Seq<char>) -> char {
    if name.len() > 0 {
        name[0]
    } else {
        '?'
    }
}

/// What a name is shown as where there is room for one character.
pub fn avatar(name: &str) -> (r: char)
    ensures
        r == initial_of(name@),
{
    let name = to_chars(name);
    if name.len() > 0 {
        name[0]
    } else {
        '?'
    }
}

/// The mark at a message of the user.
#[derive(Debug, Clone, Copy, PartialEq, Eq, Structural)]
pub enum DeliveryMark {
    Nothing,
    /// It failed; it can be sent again.
    Failed,
    /// The peer has it.
    Delivered,
}

/// The mark at a message. That it failed is shown first.
pub fn delivery_mark(message: &ChatMessage) -> (r: DeliveryMark)
    ensures
        r == if message.failed {
            DeliveryMark::Failed
        } else if message.is_me && message.delivered {
            DeliveryMark::Delivered
        } else {
            DeliveryMark::Nothing
        },
{
    if message.failed {
        DeliveryMark::Failed
    } else if message.is_me && message.delivered {
        DeliveryMark::Delivered
    } else {
        DeliveryMark::Nothing
    }
}

/// The state of a transfer.
#[derive(Debug, Clone, Copy, PartialEq, Eq, Structural)]
pub enum TransferStatus {
    Canceled,
    SendFailed,
    Sent,
    Sending,
    /// The peer has not asked for it.
    Offered,
    ReceiveFailed,
    Saved,
    ReceivingFolder,
    /// So many bytes of so many have come in.
    ReceivingFile { received: u64, size: u64 },
    /// So many bytes have come in of a file whose size is not known.
    ReceivingBytes { received: u64 },
    /// The user has not asked for it.
    Waiting,
}

/// Something has come in, and nothing has ended the transfer.
pub open spec fn receiving(f: FileInfo) -> bool {
    !f.saved && !f.error && !f.canceled && (f.received > 0 || f.current_file is Some)
}

pub fn is_receiving(f: &FileInfo) -> (r: bool)
    ensures
        r == receiving(*f),
{
    !f.saved && !f.error && !f.canceled && (f.received > 0 || f.current_file.is_some())
}

/// The state of a transfer.
pub open spec fn status_of(f: FileInfo, is_me: bool) -> TransferStatus {
    if f.canceled {
        TransferStatus::Canceled
    } else if is_me {
        if f.error {
            TransferStatus::SendFailed
        } else if f.saved {
            TransferStatus::Sent
        } else if f.sending {
            TransferStatus::Sending
        } else {
            TransferStatus::Offered
        }
    } else if f.error {
        TransferStatus::ReceiveFailed
    } else if f.saved {
        TransferStatus::Saved
    } else if !receiving(f) {
        TransferStatus::Waiting
    } else if f.is_dir {
        TransferStatus::ReceivingFolder
    } else if f.size > 0 {
        TransferStatus::ReceivingFile { received: f.received, size: f.size }
    } else {
        TransferStatus::ReceivingBytes { received: f.received }
    }
}

/// The state of a transfer.
pub fn transfer_status(f: &FileInfo, is_me: bool) -> (r: TransferStatus)
    ensures
        r == status_of(*f, is_me),
{
    if is_me {
        if f.canceled {
            TransferStatus::Canceled
        } else if f.error {
            TransferStatus::SendFailed
        } else if f.saved {
            TransferStatus::Sent
        } else if f.sending {
            TransferStatus::Sending
        } else {
            TransferStatus::Offered
        }
    } else if f.canceled {
        TransferStatus::Canceled
    } else if f.error {
        TransferStatus::ReceiveFailed
    } else if f.saved {
        TransferStatus::Saved
    } else if is_receiving(f) {
        if f.is_dir {
            TransferStatus::ReceivingFolder
        } else if f.size > 0 {
            TransferStatus::ReceivingFile { received: f.received, size: f.size }
        } else {
            TransferStatus::ReceivingBytes { received: f.received }
        }
    } else {
        TransferStatus::Waiting
    }
}

/// The button beside the state of a transfer.
#[derive(Debug, Clone, Copy, PartialEq, Eq, Structural)]
pub enum TransferButton {
    Nothing,
    CancelReceiving,
    OpenInFolder,
}

/// The button beside the state of a transfer: what comes in can be stopped, and what
/// is on disk can be shown there.
pub fn transfer_button(f: &FileInfo, is_me: bool) -> (r: TransferButton)
    ensures
        r == if receiving(*f) && !is_me {
            TransferButton::CancelReceiving
        } else if f.local_path is Some && (is_me || f.saved) {
            TransferButton::OpenInFolder
        } else {
            TransferButton::Nothing
        },
{
    if is_receiving(f) && !is_me {
        TransferButton::CancelReceiving
    } else if f.local_path.is_some() && (is_me || f.saved) {
        TransferButton::OpenInFolder
    } else {
        TransferButton::Nothing
    }
}

/// What stands below the state of a transfer.
#[derive(Debug)]
pub enum TransferDetail {
    Nothing,
    /// The file of a folder that comes in, where it is known.
    CurrentFile(Option<String>),
    /// A bar; the size counts as 1 where it is not known.
    Progress { received: u64, total: u64 },
    ReceiveButton,
}

/// What stands below the state of a transfer that comes, or could come, in.
pub fn transfer_detail(f: &FileInfo, is_me: bool) -> (r: TransferDetail)
    ensures
        r == if is_me || f.saved {
            TransferDetail::Nothing
        } else if !receiving(*f) {
            TransferDetail::ReceiveButton
        } else if f.is_dir {
            TransferDetail::CurrentFile(f.current_file)
        } else {
            TransferDetail::Progress {
                received: f.received,
                total: if f.size == 0 {
                    1
                } else {
                    f.size
                },
            }
        },
{
    if is_me || f.saved {
        TransferDetail::Nothing
    } else if is_receiving(f) {
        if f.is_dir {
            TransferDetail::CurrentFile(duplicate_option(&f.current_file))
        } else {
            let total: u64 = if f.size == 0 {
                1
            } else {
                f.size
            };
            TransferDetail::Progress { received: f.received, total }
        }
    } else {
        TransferDetail::ReceiveButton
    }
}

/// How an offer is received.
#[derive(Debug, Clone, Copy, PartialEq, Eq, Structural)]
pub enum ReceivePlan {
    /// It has been received.
    Nothing,
    /// Into a directory that the user picks.
    Folder,
    /// Under a name that the user picks.
    File,
}

/// How an offer is received.
pub fn receive_attachment(f: &FileInfo) -> (r: ReceivePlan)
    ensures
        r == if f.saved {
            ReceivePlan::Nothing
        } else if f.is_dir {
            ReceivePlan::Folder
        } else {
            ReceivePlan::File
        },
{
    if f.saved {
        ReceivePlan::Nothing
    } else if f.is_dir {
        ReceivePlan::Folder
    } else {
        ReceivePlan::File
    }
}

/// What is shown in the file manager for a transfer: a path, and whether it is a
/// folder.
pub fn open_transfer_in_folder(f: &FileInfo) -> (r: Option<(String, bool)>)
    ensures
        r == match f.local_path {
            Some(path) => Some((path, f.is_dir)),
            None => None,
        },
{
    match &f.local_path {
        Some(path) => Some((path.clone(), f.is_dir)),
        None => None,
    }
}

} // verus!
