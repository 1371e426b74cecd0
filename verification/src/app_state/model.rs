//! Users, messages, and what changes about them.
use crate::ipmsg_core::event::Event;
use crate::net::SocketAddr;
use vstd::prelude::*;

verus! {

#[derive(Debug, Clone)]
pub struct OnlineUser {
    pub name: String,
    pub group: String,
    pub host: String,
    pub addr: SocketAddr,
}

/// A user, with their texts as sequences of characters.
#[verifier::ext_equal]
pub struct UserView {
    pub name: Seq<char>,
    pub group: Seq<char>,
    pub host: Seq<char>,
    pub addr: SocketAddr,
}

impl View for OnlineUser {
    type V = UserView;

    open spec fn view(&self) -> UserView {
        UserView { name: self.name@, group: self.group@, host: self.host@, addr: self.addr }
    }
}

impl OnlineUser {
    pub fn duplicate(&self) -> (r: OnlineUser)
        ensures
            r == *self,
    {
        OnlineUser {
            name: self.name.clone(),
            group: self.group.clone(),
            host: self.host.clone(),
            addr: self.addr,
        }
    }
}

pub open spec fn user_views(users: Seq<OnlineUser>) -> Seq<UserView> {
    users.map_values(|u: OnlineUser| u@)
}

/// A file or a folder that goes with a message, and how far its transfer is.
#[derive(Debug, Clone)]
pub struct FileInfo {
    pub packet_no: u32,
    pub file_id: u32,
    pub name: String,
    pub size: u64,
    pub saved: bool,
    pub received: u64,
    pub is_dir: bool,
    pub local_path: Option<String>,
    pub current_file: Option<String>,
    pub error: bool,
    pub canceled: bool,
    pub sending: bool,
}

pub fn duplicate_option(s: &Option<String>) -> (r: Option<String>)
    ensures
        r == *s,
{
    match s {
        Some(s) => Some(s.clone()),
        None => None,
    }
}

impl FileInfo {
    pub fn duplicate(&self) -> (r: FileInfo)
        ensures
            r == *self,
    {
        FileInfo {
            packet_no: self.packet_no,
            file_id: self.file_id,
            name: self.name.clone(),
            size: self.size,
            saved: self.saved,
            received: self.received,
            is_dir: self.is_dir,
            local_path: duplicate_option(&self.local_path),
            current_file: duplicate_option(&self.current_file),
            error: self.error,
            canceled: self.canceled,
            sending: self.sending,
        }
    }
}

#[derive(Debug, Clone)]
pub struct ChatMessage {
    pub from: SocketAddr,
    pub to: SocketAddr,
    pub is_me: bool,
    pub text: String,
    pub time: String,
    pub file: Option<FileInfo>,
    /// The message could not be handed to the network, or was not confirmed.
    pub failed: bool,
    /// The number of the packet that it went out in; 0 for messages that came in.
    pub packet_no: u32,
    /// The peer confirmed it.
    pub delivered: bool,
    /// What tells it from all other messages of this run.
    pub id: u64,
}

impl ChatMessage {
    pub fn duplicate(&self) -> (r: ChatMessage)
        ensures
            r == *self,
    {
        ChatMessage {
            from: self.from,
            to: self.to,
            is_me: self.is_me,
            text: self.text.clone(),
            time: self.time.clone(),
            file: match &self.file {
                Some(file) => Some(file.duplicate()),
                None => None,
            },
            failed: self.failed,
            packet_no: self.packet_no,
            delivered: self.delivered,
            id: self.id,
        }
    }
}

/// The peer of the conversation that a message belongs to.
pub open spec fn peer_of(m: ChatMessage) -> SocketAddr {
    if m.is_me {
        m.to
    } else {
        m.from
    }
}

/// The peer of the conversation that a message belongs to.
pub fn message_peer_addr(m: &ChatMessage) -> (r: SocketAddr)
    ensures
        r == peer_of(*m),
{
    if m.is_me {
        m.to
    } else {
        m.from
    }
}

/// What the state is told.
#[derive(Debug)]
pub enum StateCmd {
    InitSelf { user: String, group: String, host: String, addr: SocketAddr },
    ApplyEvent(Event),
    PushOutgoing(ChatMessage),
    /// The time in which the peer should have confirmed a message is over.
    AckTimeout { packet_no: u32 },
    UpdateProgress {
        from: SocketAddr,
        file_id: u32,
        packet_no: u32,
        target_outgoing: Option<bool>,
        progress: u64,
        file_name: Option<String>,
        local_path: Option<String>,
        saved: Option<bool>,
        error: Option<bool>,
        canceled: Option<bool>,
    },
    ClearUnread { addr: SocketAddr },
    /// More of a conversation is wanted: the last `limit` messages before that with
    /// the number `before_id`.
    LoadMore { addr: SocketAddr, before_id: u64, limit: usize },
    /// A message was sent again, with or without success.
    RetryFinished { id: u64, ok: bool, packet_no: u32, file_id: u32 },
    /// The settings were saved; texts may have another language now.
    SettingsSaved,
}

/// What the state tells the user interface.
#[derive(Debug)]
pub enum StateDelta {
    /// The last messages of every conversation, and of which there are more.
    Sync { messages: Vec<ChatMessage>, has_more: Vec<(SocketAddr, bool)> },
    UsersChanged { users: Vec<OnlineUser> },
    MessageAdded { message: ChatMessage },
    /// The message with the same `id` changed.
    MessageUpdated { message: ChatMessage },
    /// Earlier messages of a conversation, and whether there are more.
    MessagesLoaded { addr: SocketAddr, messages: Vec<ChatMessage>, has_more: bool },
    UnreadChanged { addr: SocketAddr, unread: u32 },
    SettingsChanged,
}

#[verifier::ext_equal]
pub enum DeltaView {
    Sync { messages: Seq<ChatMessage>, has_more: Seq<(SocketAddr, bool)> },
    UsersChanged { users: Seq<UserView> },
    MessageAdded { message: ChatMessage },
    MessageUpdated { message: ChatMessage },
    MessagesLoaded { addr: SocketAddr, messages: Seq<ChatMessage>, has_more: bool },
    UnreadChanged { addr: SocketAddr, unread: u32 },
    SettingsChanged,
}

impl View for StateDelta {
    type V = DeltaView;

    open spec fn view(&self) -> DeltaView {
        match self {
            StateDelta::Sync { messages, has_more } => DeltaView::Sync {
                messages: messages@,
                has_more: has_more@,
            },
            StateDelta::UsersChanged { users } => DeltaView::UsersChanged {
                users: user_views(users@),
            },
            StateDelta::MessageAdded { message } => DeltaView::MessageAdded { message: *message },
            StateDelta::MessageUpdated { message } => DeltaView::MessageUpdated {
                message: *message,
            },
            StateDelta::MessagesLoaded { addr, messages, has_more } => DeltaView::MessagesLoaded {
                addr: *addr,
                messages: messages@,
                has_more: *has_more,
            },
            StateDelta::UnreadChanged { addr, unread } => DeltaView::UnreadChanged {
                addr: *addr,
                unread: *unread,
            },
            StateDelta::SettingsChanged => DeltaView::SettingsChanged,
        }
    }
}

pub open spec fn delta_views(v: Seq<StateDelta>) -> Seq<DeltaView> {
    v.map_values(|d: StateDelta| d@)
}

} // verus!
