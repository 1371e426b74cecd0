//! Which message an event is about, and what it changes there.
use crate::app_state::model::{ChatMessage, FileInfo};
use crate::net;
use crate::net::{normalize_addr, SocketAddr};
use vstd::prelude::*;

verus! {

/// How a message is told from others. The last one that fits is meant.
#[derive(Debug, Clone, Copy, PartialEq, Eq, Structural)]
pub enum Target {
    /// An offer of the user to this peer.
    Served { to: SocketAddr, packet_no: u32, file_id: u32 },
    /// A message of the user to this peer, sent in this packet.
    Confirmed { from: SocketAddr, packet_no: u32 },
    /// A message of the user without a file, sent in this packet.
    Awaiting { packet_no: u32 },
    /// An offer of the user to this peer, or of this peer to the user.
    Progress { from: SocketAddr, outgoing: Option<bool>, packet_no: u32, file_id: u32 },
    Id { id: u64 },
}

/// The file of a message was offered under these numbers.
pub open spec fn offered_as(m: ChatMessage, packet_no: u32, file_id: u32) -> bool {
    m.file matches Some(f) && f.packet_no == packet_no && f.file_id == file_id
}

impl Target {
    pub open spec fn hits(self, m: ChatMessage) -> bool {
        match self {
            Target::Served { to, packet_no, file_id } => {
                &&& m.is_me
                &&& net::normalized(m.to) == to
                &&& offered_as(m, packet_no, file_id)
            },
            Target::Confirmed { from, packet_no } => {
                &&& m.is_me
                &&& net::normalized(m.to) == from
                &&& m.packet_no == packet_no || (m.file matches Some(f) && f.packet_no
                    == packet_no)
            },
            Target::Awaiting { packet_no } => m.is_me && m.packet_no == packet_no && m.file is None,
            Target::Progress { from, outgoing, packet_no, file_id } => {
                &&& outgoing matches Some(o) ==> m.is_me == o
                &&& if m.is_me {
                    net::normalized(m.to) == from
                } else {
                    m.from == from
                }
                &&& offered_as(m, packet_no, file_id)
            },
            Target::Id { id } => m.id == id,
        }
    }

    fn is_hit(&self, m: &ChatMessage) -> (r: bool)
        ensures
            r == self.hits(*m),
    {
        match *self {
            Target::Served { to, packet_no, file_id } => m.is_me && normalize_addr(m.to) == to
                && is_offered_as(m, packet_no, file_id),
            Target::Confirmed { from, packet_no } => m.is_me && normalize_addr(m.to) == from && (
            m.packet_no == packet_no || match &m.file {
                Some(f) => f.packet_no == packet_no,
                None => false,
            }),
            Target::Awaiting { packet_no } => m.is_me && m.packet_no == packet_no
                && m.file.is_none(),
            Target::Progress { from, outgoing, packet_no, file_id } => {
                let wanted = match outgoing {
                    Some(o) => m.is_me == o,
                    None => true,
                };
                let peer = if m.is_me {
                    normalize_addr(m.to)
                } else {
                    m.from
                };
                wanted && peer == from && is_offered_as(m, packet_no, file_id)
            },
            Target::Id { id } => m.id == id,
        }
    }
}

fn is_offered_as(m: &ChatMessage, packet_no: u32, file_id: u32) -> (r: bool)
    ensures
        r == offered_as(*m, packet_no, file_id),
{
    match &m.file {
        Some(f) => f.packet_no == packet_no && f.file_id == file_id,
        None => false,
    }
}

/// The place of the last message that is hit.
pub open spec fn last_hit(messages: Seq<ChatMessage>, target: Target) -> Option<int>
    decreases messages.len(),
{
    if messages.len() == 0 {
        None
    } else if target.hits(messages.last()) {
        Some(messages.len() - 1)
    } else {
        last_hit(messages.drop_last(), target)
    }
}

/// Finds the last message that is hit.
pub fn find_last(messages: &Vec<ChatMessage>, target: Target) -> (r: Option<usize>)
    ensures
        match last_hit(messages@, target) {
            Some(i) => r is Some && r->0 == i && r->0 < messages@.len() && target.hits(
                messages@[i],
            ),
            None => r is None,
        },
{
    let mut i: usize = messages.len();
    assert(messages@.take(i as int) =~= messages@);
    while i > 0
        invariant
            i <= messages@.len(),
            last_hit(messages@, target) == last_hit(messages@.take(i as int), target),
        decreases i,
    {
        assert(messages@.take(i as int).last() == messages@[i - 1]);
        assert(messages@.take(i as int).drop_last() =~= messages@.take(i - 1));
        if target.is_hit(&messages[i - 1]) {
            return Some(i - 1);
        }
        i -= 1;
    }
    None
}

/// The place is that of a message, which is hit, and no later one is; and there is
/// one wherever a message is hit.
pub proof fn law_last_hit(messages: Seq<ChatMessage>, target: Target)
    ensures
        match last_hit(messages, target) {
            Some(i) => {
                &&& 0 <= i < messages.len()
                &&& target.hits(messages[i])
                &&& forall|k: int| i < k < messages.len() ==> !target.hits(#[trigger] messages[k])
            },
            None => forall|k: int| 0 <= k < messages.len() ==> !target.hits(#[trigger] messages[k]),
        },
    decreases messages.len(),
{
    if messages.len() > 0 {
        law_last_hit(messages.drop_last(), target);
        assert(forall|k: int|
            0 <= k < messages.len() - 1 ==> messages.drop_last()[k] == messages[k]);
    }
}

/// A message with another file.
pub open spec fn with_file(m: ChatMessage, f: FileInfo) -> ChatMessage {
    ChatMessage { file: Some(f), ..m }
}

/// The peer has the file.
pub open spec fn served(m: ChatMessage) -> ChatMessage {
    match m.file {
        Some(f) => with_file(
            m,
            FileInfo {
                sending: false,
                saved: true,
                error: false,
                canceled: false,
                received: f.size,
                ..f
            },
        ),
        None => m,
    }
}

/// The file is on its way to the peer.
pub open spec fn serving(m: ChatMessage) -> ChatMessage {
    match m.file {
        Some(f) => with_file(
            m,
            FileInfo { sending: true, saved: false, error: false, canceled: false, ..f },
        ),
        None => m,
    }
}

/// The transfer to the peer broke off.
pub open spec fn serve_failed(m: ChatMessage) -> ChatMessage {
    match m.file {
        Some(f) => with_file(m, FileInfo { sending: false, saved: false, error: true, ..f }),
        None => m,
    }
}

/// The peer confirmed the message, if late.
pub open spec fn confirmed(m: ChatMessage) -> ChatMessage {
    ChatMessage { delivered: true, failed: false, ..m }
}

/// A value, or what was there before.
pub open spec fn or_kept<T>(new: Option<T>, old: T) -> T {
    match new {
        Some(v) => v,
        None => old,
    }
}

/// The transfer has come this far.
pub open spec fn progressed(
    m: ChatMessage,
    progress: u64,
    file_name: Option<String>,
    local_path: Option<String>,
    saved: Option<bool>,
    error: Option<bool>,
    canceled: Option<bool>,
) -> ChatMessage {
    match m.file {
        Some(f) => with_file(
            m,
            FileInfo {
                received: progress,
                current_file: if file_name is Some {
                    file_name
                } else {
                    f.current_file
                },
                local_path: if local_path is Some {
                    local_path
                } else {
                    f.local_path
                },
                saved: or_kept(saved, f.saved),
                error: or_kept(error, f.error),
                canceled: or_kept(canceled, f.canceled),
                ..f
            },
        ),
        None => m,
    }
}

/// The message went out again, in another packet.
pub open spec fn resent(m: ChatMessage, packet_no: u32, file_id: u32, acked: bool) -> ChatMessage {
    ChatMessage {
        failed: false,
        delivered: acked,
        packet_no,
        file: match m.file {
            Some(f) => Some(FileInfo { packet_no, file_id, ..f }),
            None => None,
        },
        ..m
    }
}

} // verus!
