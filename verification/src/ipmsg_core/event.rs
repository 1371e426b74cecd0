//! What the protocol tells the rest of the client.
use crate::net::SocketAddr;
use vstd::prelude::*;

verus! {

#[derive(Debug, Clone)]
pub enum Event {
    Online { user: String, group: String, host: String, addr: SocketAddr },
    Offline { user: String, host: String, addr: SocketAddr },
    Message { from: SocketAddr, user: String, host: String, text: String },
    FileOffer {
        from: SocketAddr,
        user: String,
        host: String,
        packet_no: u32,
        file_id: u32,
        name: String,
        size: u64,
        is_dir: bool,
    },
    FileServed { to: SocketAddr, packet_no: u32, file_id: u32, is_dir: bool },
    FileServingStarted { to: SocketAddr, packet_no: u32, file_id: u32, is_dir: bool },
    /// A transfer to a peer broke off, other than by the user.
    FileServeFailed { to: SocketAddr, packet_no: u32, file_id: u32, is_dir: bool },
    /// A peer confirmed a message. `packet_no` is the number of the packet that went
    /// out to it.
    Delivered { from: SocketAddr, packet_no: u32 },
    Unknown { from: SocketAddr, raw: String },
}

/// An event, with its texts as sequences of characters.
#[verifier::ext_equal]
pub enum EventView {
    Online { user: Seq<char>, group: Seq<char>, host: Seq<char>, addr: SocketAddr },
    Offline { user: Seq<char>, host: Seq<char>, addr: SocketAddr },
    Message { from: SocketAddr, user: Seq<char>, host: Seq<char>, text: Seq<char> },
    FileOffer {
        from: SocketAddr,
        user: Seq<char>,
        host: Seq<char>,
        packet_no: u32,
        file_id: u32,
        name: Seq<char>,
        size: u64,
        is_dir: bool,
    },
    FileServed { to: SocketAddr, packet_no: u32, file_id: u32, is_dir: bool },
    FileServingStarted { to: SocketAddr, packet_no: u32, file_id: u32, is_dir: bool },
    FileServeFailed { to: SocketAddr, packet_no: u32, file_id: u32, is_dir: bool },
    Delivered { from: SocketAddr, packet_no: u32 },
    Unknown { from: SocketAddr, raw: Seq<char> },
}

impl View for Event {
    type V = EventView;

    open spec fn view(&self) -> EventView {
        match self {
            Event::Online { user, group, host, addr } => EventView::Online {
                user: user@,
                group: group@,
                host: host@,
                addr: *addr,
            },
            Event::Offline { user, host, addr } => EventView::Offline {
                user: user@,
                host: host@,
                addr: *addr,
            },
            Event::Message { from, user, host, text } => EventView::Message {
                from: *from,
                user: user@,
                host: host@,
                text: text@,
            },
            Event::FileOffer { from, user, host, packet_no, file_id, name, size, is_dir } =>
                EventView::FileOffer {
                    from: *from,
                    user: user@,
                    host: host@,
                    packet_no: *packet_no,
                    file_id: *file_id,
                    name: name@,
                    size: *size,
                    is_dir: *is_dir,
                },
            Event::FileServed { to, packet_no, file_id, is_dir } => EventView::FileServed {
                to: *to,
                packet_no: *packet_no,
                file_id: *file_id,
                is_dir: *is_dir,
            },
            Event::FileServingStarted { to, packet_no, file_id, is_dir } =>
                EventView::FileServingStarted {
                    to: *to,
                    packet_no: *packet_no,
                    file_id: *file_id,
                    is_dir: *is_dir,
                },
            Event::FileServeFailed { to, packet_no, file_id, is_dir } =>
                EventView::FileServeFailed {
                    to: *to,
                    packet_no: *packet_no,
                    file_id: *file_id,
                    is_dir: *is_dir,
                },
            Event::Delivered { from, packet_no } => EventView::Delivered {
                from: *from,
                packet_no: *packet_no,
            },
            Event::Unknown { from, raw } => EventView::Unknown { from: *from, raw: raw@ },
        }
    }
}

pub open spec fn event_views(v: Seq<Event>) -> Seq<EventView> {
    v.map_values(|e: Event| e@)
}

} // verus!
