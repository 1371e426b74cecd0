//! The state of the client, and what each command changes in it.
use crate::addr_map::AddrMap;
use crate::app_state::history;
use crate::app_state::history::{first_sight, keep_last, revive, select};
use crate::app_state::model;
use crate::app_state::model::{
    duplicate_option, ChatMessage, FileInfo, OnlineUser, StateCmd, StateDelta,
};
use crate::app_state::roster;
use crate::app_state::roster::{find_user, has_user, insert_user, remove_user, sorted_users};
use crate::app_state::target;
use crate::app_state::target::{find_last, Target};
use crate::app_state::unread;
use crate::app_state::unread::{count_for, increment};
use crate::chars::{is_text, to_chars};
use crate::ipmsg_core::event::Event;
use crate::net;
use crate::net::{default_self_addr, normalize_addr, SocketAddr};
use std::collections::HashSet;
use vstd::prelude::*;

verus! {

broadcast use vstd::std_specs::hash::group_hash_axioms;

/// How many confirmations are remembered before all are forgotten.
pub const ACKED_PACKETS_MAX: usize = 4096;

/// How long a peer has to confirm a message, in seconds.
pub const ACK_TIMEOUT_SECS: u64 = 5;

/// The state of the client.
pub struct CoreState {
    /// The users who are online, in the order of their addresses.
    pub online_users: Vec<OnlineUser>,
    pub messages: Vec<ChatMessage>,
    pub unread_counts: AddrMap<u32>,
    pub self_addr: Option<SocketAddr>,
    /// The own name and host. Some clients send the header of a packet back as it
    /// came, so these tell whether a header can be trusted.
    pub self_name: String,
    pub self_host: String,
    /// The packets that were confirmed; a confirmation may come before the message
    /// that it is for.
    pub acked_packets: HashSet<u32>,
    /// The number of the next message.
    pub next_message_id: u64,
}

#[verifier::ext_equal]
pub struct StateView {
    pub users: Seq<model::UserView>,
    pub messages: Seq<ChatMessage>,
    pub unread: Map<SocketAddr, u32>,
    pub self_addr: Option<SocketAddr>,
    pub self_name: Seq<char>,
    pub self_host: Seq<char>,
    pub acked: Set<u32>,
    pub next_id: u64,
}

impl View for CoreState {
    type V = StateView;

    open spec fn view(&self) -> StateView {
        StateView {
            users: model::user_views(self.online_users@),
            messages: self.messages@,
            unread: self.unread_counts@,
            self_addr: self.self_addr,
            self_name: self.self_name@,
            self_host: self.self_host@,
            acked: self.acked_packets@,
            next_id: self.next_message_id,
        }
    }
}

/// Texts in the language of the user that go into messages.
#[derive(Debug, Clone)]
pub struct Labels {
    /// The time of a message that comes in.
    pub now: String,
    /// What is said of a file that is offered.
    pub offer: String,
}

/// What follows from a command.
#[derive(Debug)]
pub struct Outcome {
    /// What the user interface is told, in this order.
    pub deltas: Vec<StateDelta>,
    /// The packet whose confirmation is waited for.
    pub arm_ack: Option<u32>,
    /// The state changed.
    pub changed: bool,
    /// The messages are to be saved.
    pub persist: bool,
}

#[verifier::ext_equal]
pub struct OutcomeView {
    pub deltas: Seq<model::DeltaView>,
    pub arm_ack: Option<u32>,
    pub changed: bool,
    pub persist: bool,
}

impl View for Outcome {
    type V = OutcomeView;

    open spec fn view(&self) -> OutcomeView {
        OutcomeView {
            deltas: model::delta_views(self.deltas@),
            arm_ack: self.arm_ack,
            changed: self.changed,
            persist: self.persist,
        }
    }
}

/// Nothing follows.
pub open spec fn silence() -> OutcomeView {
    OutcomeView { deltas: Seq::empty(), arm_ack: None, changed: false, persist: false }
}

/// The state changed, the messages are to be saved, and the user interface is told.
pub open spec fn told(deltas: Seq<model::DeltaView>) -> OutcomeView {
    OutcomeView { deltas, arm_ack: None, changed: true, persist: true }
}

/// A number is remembered as confirmed.
pub open spec fn acked_with(acked: Set<u32>, packet_no: u32) -> Set<u32> {
    if packet_no == 0 {
        acked
    } else if acked.len() >= ACKED_PACKETS_MAX {
        Set::empty().insert(packet_no)
    } else {
        acked.insert(packet_no)
    }
}

/// The number after this one.
pub open spec fn next_id_after(id: u64) -> u64 {
    if id == u64::MAX {
        0
    } else {
        (id + 1) as u64
    }
}

impl StateView {
    /// Nothing has happened.
    pub open spec fn fresh() -> StateView {
        StateView {
            users: Seq::empty(),
            messages: Seq::empty(),
            unread: Map::empty(),
            self_addr: None,
            self_name: Seq::empty(),
            self_host: Seq::empty(),
            acked: Set::empty(),
            next_id: 1,
        }
    }

    /// The messages of an earlier run are there, under numbers of this one.
    pub open spec fn with_history(self, messages: Seq<ChatMessage>) -> StateView {
        StateView {
            messages: history::revived(messages, self.next_id),
            next_id: (self.next_id + messages.len()) as u64,
            ..self
        }
    }

    /// What holds between all commands.
    pub open spec fn sound(self) -> bool {
        &&& roster::in_order(self.users)
        &&& self.acked.finite()
    }

    /// A packet says that it comes from the user themselves.
    pub open spec fn echoes(self, user: Seq<char>, host: Seq<char>) -> bool {
        &&& self.self_name.len() > 0
        &&& user == self.self_name
        &&& self.self_host.len() > 0
        &&& host == self.self_host
    }

    pub open spec fn own_addr(self) -> SocketAddr {
        match self.self_addr {
            Some(addr) => addr,
            None => SocketAddr::V4 { ip: net::LOCALHOST, port: crate::ipmsg_core::protocol::PORT },
        }
    }

    pub open spec fn is_acked(self, packet_no: u32) -> bool {
        packet_no != 0 && self.acked.contains(packet_no)
    }

    /// After the client learned who it is.
    pub open spec fn past_init(
        self,
        user: Seq<char>,
        group: Seq<char>,
        host: Seq<char>,
        addr: SocketAddr,
    ) -> (StateView, OutcomeView) {
        let addr = net::normalized(addr);
        let me = model::UserView { name: user, group, host, addr };
        let users = roster::with_user(self.users, me);
        (
            StateView {
                users,
                self_addr: Some(addr),
                self_name: user,
                self_host: host,
                ..self
            },
            told(seq![model::DeltaView::UsersChanged { users }]),
        )
    }

    /// After somebody came online. The user themselves, and who sends back their
    /// header, is passed over.
    pub open spec fn past_online(
        self,
        user: Seq<char>,
        group: Seq<char>,
        host: Seq<char>,
        addr: SocketAddr,
    ) -> (StateView, OutcomeView) {
        let addr = net::normalized(addr);
        if self.self_addr == Some(addr) || self.echoes(user, host) {
            (self, silence())
        } else {
            let users = roster::with_user(
                self.users,
                model::UserView { name: user, group, host, addr },
            );
            (
                StateView { users, ..self },
                told(seq![model::DeltaView::UsersChanged { users }]),
            )
        }
    }

    /// After somebody went offline. The user themselves is passed over: their own leave
    /// may come back to them.
    pub open spec fn past_offline(self, addr: SocketAddr) -> (StateView, OutcomeView) {
        let addr = net::normalized(addr);
        if self.self_addr == Some(addr) {
            (self, silence())
        } else if roster::is_online(self.users, addr) {
            let users = roster::without_user(self.users, addr);
            (
                StateView { users, ..self },
                told(seq![model::DeltaView::UsersChanged { users }]),
            )
        } else {
            (self, silence())
        }
    }

    /// The message that comes in.
    pub open spec fn incoming(
        self,
        from: SocketAddr,
        text: String,
        now: String,
        file: Option<FileInfo>,
    ) -> ChatMessage {
        ChatMessage {
            from,
            to: self.own_addr(),
            is_me: false,
            text,
            time: now,
            file,
            failed: false,
            packet_no: 0,
            delivered: false,
            id: self.next_id,
        }
    }

    /// After a message came in: it is added, its sender comes online if they are not
    /// known and the header can be trusted, and one more message is unread.
    pub open spec fn past_incoming(
        self,
        from: SocketAddr,
        user: Seq<char>,
        host: Seq<char>,
        text: String,
        now: String,
        file: Option<FileInfo>,
    ) -> (StateView, OutcomeView) {
        let from = net::normalized(from);
        let message = self.incoming(from, text, now, file);
        let new = !self.echoes(user, host) && !roster::is_online(self.users, from);
        let sender = model::UserView { name: user, group: Seq::empty(), host, addr: from };
        let users = if new {
            roster::with_user(self.users, sender)
        } else {
            self.users
        };
        let count = (unread::count_of(self.unread, from) + 1) as u32;
        let added = seq![model::DeltaView::MessageAdded { message }];
        let joined = if new {
            seq![model::DeltaView::UsersChanged { users }]
        } else {
            Seq::empty()
        };
        let counted = seq![model::DeltaView::UnreadChanged { addr: from, unread: count }];
        (
            StateView {
                users,
                messages: self.messages.push(message),
                unread: self.unread.insert(from, count),
                next_id: next_id_after(self.next_id),
                ..self
            },
            told(added + joined + counted),
        )
    }

    /// After the last message that is hit became another.
    pub open spec fn past_update(self, at: int, m: ChatMessage) -> (StateView, OutcomeView) {
        (
            StateView { messages: self.messages.update(at, m), ..self },
            told(seq![model::DeltaView::MessageUpdated { message: m }]),
        )
    }

    pub open spec fn past_served(self, to: SocketAddr, packet_no: u32, file_id: u32) -> (
        StateView,
        OutcomeView,
    ) {
        let t = Target::Served { to: net::normalized(to), packet_no, file_id };
        match target::last_hit(self.messages, t) {
            Some(i) => self.past_update(i, target::served(self.messages[i])),
            None => (self, silence()),
        }
    }

    pub open spec fn past_serving(self, to: SocketAddr, packet_no: u32, file_id: u32) -> (
        StateView,
        OutcomeView,
    ) {
        let t = Target::Served { to: net::normalized(to), packet_no, file_id };
        match target::last_hit(self.messages, t) {
            Some(i) => self.past_update(i, target::serving(self.messages[i])),
            None => (self, silence()),
        }
    }

    /// After a transfer to a peer broke off. One that the user stopped stays so.
    pub open spec fn past_serve_failed(self, to: SocketAddr, packet_no: u32, file_id: u32) -> (
        StateView,
        OutcomeView,
    ) {
        let t = Target::Served { to: net::normalized(to), packet_no, file_id };
        match target::last_hit(self.messages, t) {
            Some(i) => if self.messages[i].file->0.canceled {
                (self, silence())
            } else {
                self.past_update(i, target::serve_failed(self.messages[i]))
            },
            None => (self, silence()),
        }
    }

    /// After a peer confirmed a packet. The confirmation is remembered, for it may
    /// come before the message is added.
    pub open spec fn past_delivered(self, from: SocketAddr, packet_no: u32) -> (
        StateView,
        OutcomeView,
    ) {
        let v = StateView { acked: acked_with(self.acked, packet_no), ..self };
        let t = Target::Confirmed { from: net::normalized(from), packet_no };
        match target::last_hit(self.messages, t) {
            Some(i) => v.past_update(i, target::confirmed(self.messages[i])),
            None => (v, silence()),
        }
    }

    pub open spec fn past_event(self, event: Event, labels: Labels) -> (StateView, OutcomeView) {
        match event {
            Event::Online { user, group, host, addr } => self.past_online(
                user@,
                group@,
                host@,
                addr,
            ),
            Event::Offline { addr, .. } => self.past_offline(addr),
            Event::Message { from, user, host, text } => self.past_incoming(
                from,
                user@,
                host@,
                text,
                labels.now,
                None,
            ),
            Event::FileOffer { from, user, host, packet_no, file_id, name, size, is_dir } =>
                self.past_incoming(
                from,
                user@,
                host@,
                labels.offer,
                labels.now,
                Some(offered_file(packet_no, file_id, name, size, is_dir)),
            ),
            Event::FileServed { to, packet_no, file_id, .. } => self.past_served(
                to,
                packet_no,
                file_id,
            ),
            Event::FileServingStarted { to, packet_no, file_id, .. } => self.past_serving(
                to,
                packet_no,
                file_id,
            ),
            Event::FileServeFailed { to, packet_no, file_id, .. } => self.past_serve_failed(
                to,
                packet_no,
                file_id,
            ),
            Event::Delivered { from, packet_no } => self.past_delivered(from, packet_no),
            Event::Unknown { .. } => (self, silence()),
        }
    }

    /// The message of the user as it is added.
    pub open spec fn outgoing(self, m: ChatMessage) -> ChatMessage {
        ChatMessage {
            id: self.next_id,
            delivered: m.delivered || self.is_acked(m.packet_no),
            ..m
        }
    }

    /// After the user sent a message. If it has no file, and was sent and not yet
    /// confirmed, its confirmation is waited for.
    pub open spec fn past_push(self, m: ChatMessage) -> (StateView, OutcomeView) {
        let message = self.outgoing(m);
        (
            StateView {
                messages: self.messages.push(message),
                next_id: next_id_after(self.next_id),
                ..self
            },
            OutcomeView {
                arm_ack: awaited(message),
                ..told(seq![model::DeltaView::MessageAdded { message }])
            },
        )
    }

    /// After the time for a confirmation is over. What was confirmed, or failed,
    /// stays as it is.
    pub open spec fn past_timeout(self, packet_no: u32) -> (StateView, OutcomeView) {
        match target::last_hit(self.messages, Target::Awaiting { packet_no }) {
            Some(i) => {
                let m = self.messages[i];
                if m.delivered || m.failed {
                    (self, silence())
                } else {
                    self.past_update(i, ChatMessage { failed: true, ..m })
                }
            },
            None => (self, silence()),
        }
    }

    /// After a transfer came further. It is saved only where it ended.
    pub open spec fn past_progress(
        self,
        t: Target,
        progress: u64,
        file_name: Option<String>,
        local_path: Option<String>,
        saved: Option<bool>,
        error: Option<bool>,
        canceled: Option<bool>,
    ) -> (StateView, OutcomeView) {
        match target::last_hit(self.messages, t) {
            Some(i) => {
                let (v, out) = self.past_update(
                    i,
                    target::progressed(
                        self.messages[i],
                        progress,
                        file_name,
                        local_path,
                        saved,
                        error,
                        canceled,
                    ),
                );
                let ended = saved == Some(true) || error == Some(true) || canceled == Some(true);
                (v, OutcomeView { persist: ended, ..out })
            },
            None => (self, silence()),
        }
    }

    pub open spec fn past_clear_unread(self, addr: SocketAddr) -> (StateView, OutcomeView) {
        let addr = net::normalized(addr);
        if self.unread.contains_key(addr) {
            (
                StateView { unread: self.unread.remove(addr), ..self },
                OutcomeView {
                    persist: false,
                    ..told(seq![model::DeltaView::UnreadChanged { addr, unread: 0 }])
                },
            )
        } else {
            (self, silence())
        }
    }

    /// After more of a conversation was wanted.
    pub open spec fn past_load_more(self, addr: SocketAddr, before_id: u64, limit: usize) -> (
        StateView,
        OutcomeView,
    ) {
        let addr = net::normalized(addr);
        let older = history::selected(self.messages, addr, Some(before_id));
        (
            self,
            OutcomeView {
                deltas: seq![
                    model::DeltaView::MessagesLoaded {
                        addr,
                        messages: history::last_of(older, limit as nat),
                        has_more: older.len() > limit,
                    },
                ],
                ..silence()
            },
        )
    }

    /// After a message was sent again.
    pub open spec fn past_retry(self, id: u64, ok: bool, packet_no: u32, file_id: u32) -> (
        StateView,
        OutcomeView,
    ) {
        match (ok, target::last_hit(self.messages, Target::Id { id })) {
            (true, Some(i)) => {
                let m = target::resent(
                    self.messages[i],
                    packet_no,
                    file_id,
                    self.is_acked(packet_no),
                );
                let (v, out) = self.past_update(i, m);
                (v, OutcomeView { arm_ack: awaited(m), ..out })
            },
            _ => (self, silence()),
        }
    }

    /// After a command.
    pub open spec fn past(self, cmd: StateCmd, labels: Labels) -> (StateView, OutcomeView) {
        match cmd {
            StateCmd::InitSelf { user, group, host, addr } => self.past_init(
                user@,
                group@,
                host@,
                addr,
            ),
            StateCmd::ApplyEvent(event) => self.past_event(event, labels),
            StateCmd::PushOutgoing(m) => self.past_push(m),
            StateCmd::AckTimeout { packet_no } => self.past_timeout(packet_no),
            StateCmd::UpdateProgress {
                from,
                file_id,
                packet_no,
                target_outgoing,
                progress,
                file_name,
                local_path,
                saved,
                error,
                canceled,
            } => self.past_progress(
                Target::Progress {
                    from: net::normalized(from),
                    outgoing: target_outgoing,
                    packet_no,
                    file_id,
                },
                progress,
                file_name,
                local_path,
                saved,
                error,
                canceled,
            ),
            StateCmd::ClearUnread { addr } => self.past_clear_unread(addr),
            StateCmd::LoadMore { addr, before_id, limit } => self.past_load_more(
                addr,
                before_id,
                limit,
            ),
            StateCmd::RetryFinished { id, ok, packet_no, file_id } => self.past_retry(
                id,
                ok,
                packet_no,
                file_id,
            ),
            StateCmd::SettingsSaved => (
                self,
                OutcomeView { deltas: seq![model::DeltaView::SettingsChanged], ..silence() },
            ),
        }
    }

    /// The counter of unread messages of a sender has room for one more.
    pub open spec fn can_count(self, from: SocketAddr) -> bool {
        unread::count_of(self.unread, net::normalized(from)) < u32::MAX
    }

    /// A command does not let a counter overflow.
    pub open spec fn admits(self, cmd: StateCmd) -> bool {
        match cmd {
            StateCmd::ApplyEvent(Event::Message { from, .. }) => self.can_count(from),
            StateCmd::ApplyEvent(Event::FileOffer { from, .. }) => self.can_count(from),
            _ => true,
        }
    }
}

/// A file that a peer offers, before anything was received.
pub open spec fn offered_file(
    packet_no: u32,
    file_id: u32,
    name: String,
    size: u64,
    is_dir: bool,
) -> FileInfo {
    FileInfo {
        packet_no,
        file_id,
        name,
        size,
        saved: false,
        received: 0,
        is_dir,
        local_path: None,
        current_file: None,
        error: false,
        canceled: false,
        sending: false,
    }
}

/// The packet whose confirmation a message of the user waits for.
pub open spec fn awaited(m: ChatMessage) -> Option<u32> {
    if m.packet_no != 0 && !m.delivered && m.file is None {
        Some(m.packet_no)
    } else {
        None
    }
}

/// Whether a packet says that it comes from the user themselves.
pub fn packet_header_echoes_self(state: &CoreState, user: &str, host: &str) -> (r: bool)
    ensures
        r == state@.echoes(user@, host@),
{
    let user = to_chars(user);
    let host = to_chars(host);
    let self_name = to_chars(state.self_name.as_str());
    let self_host = to_chars(state.self_host.as_str());
    self_name.len() > 0 && is_text(user.as_slice(), state.self_name.as_str()) && self_host.len() > 0
        && is_text(host.as_slice(), state.self_host.as_str())
}

fn quiet() -> (r: Outcome)
    ensures
        r@ == silence(),
{
    let deltas: Vec<StateDelta> = Vec::new();
    assert(model::delta_views(deltas@) =~= Seq::<model::DeltaView>::empty());
    Outcome { deltas, arm_ack: None, changed: false, persist: false }
}

fn tell(delta: StateDelta) -> (r: Outcome)
    ensures
        r@ == told(seq![delta@]),
{
    let deltas: Vec<StateDelta> = vec![delta];
    assert(model::delta_views(deltas@) =~= seq![delta@]);
    Outcome { deltas, arm_ack: None, changed: true, persist: true }
}

impl CoreState {
    /// What holds between all commands.
    pub open spec fn wf(self) -> bool {
        self@.sound() && self.unread_counts.wf()
    }

    pub fn new() -> (r: CoreState)
        ensures
            r.wf(),
            r@ == StateView::fresh(),
    {
        let r = CoreState {
            online_users: Vec::new(),
            messages: Vec::new(),
            unread_counts: AddrMap::new(),
            self_addr: None,
            self_name: String::new(),
            self_host: String::new(),
            acked_packets: HashSet::new(),
            next_message_id: 1,
        };
        assert(r@.users =~= Seq::<model::UserView>::empty());
        r
    }

    /// The user themselves, once they are known.
    pub fn get_self_addr_info(&self) -> (r: Option<OnlineUser>)
        ensures
            match self@.self_addr {
                Some(addr) => match roster::user_at(self@.users, addr) {
                    Some(u) => r is Some && r->0@ == u,
                    None => r is None,
                },
                None => r is None,
            },
    {
        match self.self_addr {
            Some(addr) => find_user(&self.online_users, addr),
            None => None,
        }
    }

    /// Takes in the messages of an earlier run, and says what is shown of them at
    /// first.
    pub fn load_history(&mut self, messages: Vec<ChatMessage>) -> (r: StateDelta)
        requires
            old(self).wf(),
            old(self)@.next_id + messages@.len() <= u64::MAX,
        ensures
            final(self).wf(),
            final(self)@ == old(self)@.with_history(messages@),
            r@ == (model::DeltaView::Sync {
                messages: history::windows(
                    final(self)@.messages,
                    history::peers_in(final(self)@.messages),
                ),
                has_more: history::overflowing(
                    final(self)@.messages,
                    history::peers_in(final(self)@.messages),
                ),
            }),
    {
        let count: u64 = messages.len() as u64;
        self.messages = revive(messages, self.next_message_id);
        self.next_message_id = self.next_message_id + count;
        let (shown, has_more) = first_sight(&self.messages);
        StateDelta::Sync { messages: shown, has_more }
    }

    fn users_changed(&self) -> (r: StateDelta)
        ensures
            r@ == (model::DeltaView::UsersChanged { users: self@.users }),
    {
        StateDelta::UsersChanged { users: sorted_users(&self.online_users) }
    }

    fn is_own(&self, addr: SocketAddr) -> (r: bool)
        ensures
            r == (self@.self_addr == Some(addr)),
    {
        match self.self_addr {
            Some(own) => own == addr,
            None => false,
        }
    }

    fn init_self(&mut self, user: String, group: String, host: String, addr: SocketAddr) -> (r:
        Outcome)
        requires
            old(self).wf(),
        ensures
            final(self).wf(),
            (final(self)@, r@) == old(self)@.past_init(user@, group@, host@, addr),
    {
        let addr = normalize_addr(addr);
        self.self_addr = Some(addr);
        self.self_name = user.clone();
        self.self_host = host.clone();
        let me = OnlineUser { name: user, group, host, addr };
        proof {
            roster::law_user_comes(self@.users, me@, addr);
        }
        insert_user(&mut self.online_users, me);
        tell(self.users_changed())
    }

    fn online(&mut self, user: String, group: String, host: String, addr: SocketAddr) -> (r:
        Outcome)
        requires
            old(self).wf(),
        ensures
            final(self).wf(),
            (final(self)@, r@) == old(self)@.past_online(user@, group@, host@, addr),
    {
        let addr = normalize_addr(addr);
        if self.is_own(addr) || packet_header_echoes_self(self, user.as_str(), host.as_str()) {
            return quiet();
        }
        let user = OnlineUser { name: user, group, host, addr };
        proof {
            roster::law_user_comes(self@.users, user@, addr);
        }
        insert_user(&mut self.online_users, user);
        tell(self.users_changed())
    }

    fn offline(&mut self, addr: SocketAddr) -> (r: Outcome)
        requires
            old(self).wf(),
        ensures
            final(self).wf(),
            (final(self)@, r@) == old(self)@.past_offline(addr),
    {
        let addr = normalize_addr(addr);
        if self.is_own(addr) {
            return quiet();
        }
        proof {
            roster::law_user_goes(self@.users, addr, addr);
            lemma_nobody_gone(self@.users, addr);
        }
        if remove_user(&mut self.online_users, addr) {
            tell(self.users_changed())
        } else {
            quiet()
        }
    }

    fn take_message_id(&mut self) -> (r: u64)
        ensures
            r == old(self)@.next_id,
            final(self)@ == (StateView { next_id: next_id_after(old(self)@.next_id), ..old(self)@ }),
            *final(self) == (CoreState {
                next_message_id: final(self).next_message_id,
                ..*old(self)
            }),
    {
        let id: u64 = self.next_message_id;
        self.next_message_id = id.wrapping_add(1);
        id
    }

    fn incoming(
        &mut self,
        from: SocketAddr,
        user: String,
        host: String,
        text: String,
        now: String,
        file: Option<FileInfo>,
    ) -> (r: Outcome)
        requires
            old(self).wf(),
            old(self)@.can_count(from),
        ensures
            final(self).wf(),
            (final(self)@, r@) == old(self)@.past_incoming(from, user@, host@, text, now, file),
    {
        let from = normalize_addr(from);
        let to = match self.self_addr {
            Some(addr) => addr,
            None => default_self_addr(),
        };
        let message = ChatMessage {
            from,
            to,
            is_me: false,
            text,
            time: now,
            file,
            failed: false,
            packet_no: 0,
            delivered: false,
            id: self.take_message_id(),
        };
        self.messages.push(message.duplicate());
        let mut deltas: Vec<StateDelta> = Vec::new();
        deltas.push(StateDelta::MessageAdded { message });
        if !packet_header_echoes_self(self, user.as_str(), host.as_str()) && !has_user(
            &self.online_users,
            from,
        ) {
            let sender = OnlineUser { name: user, group: String::new(), host, addr: from };
            proof {
                assert(sender@.group =~= Seq::<char>::empty());
                roster::law_user_comes(self@.users, sender@, from);
            }
            insert_user(&mut self.online_users, sender);
            deltas.push(self.users_changed());
        }
        let unread: u32 = increment(&mut self.unread_counts, from);
        deltas.push(StateDelta::UnreadChanged { addr: from, unread });
        let r = Outcome { deltas, arm_ack: None, changed: true, persist: true };
        proof {
            let expected = old(self)@.past_incoming(from, user@, host@, text, now, file);
            assert(r@.deltas =~= expected.1.deltas);
            assert(self@ =~= expected.0);
        }
        r
    }

    fn update(&mut self, at: usize, m: ChatMessage) -> (r: Outcome)
        requires
            old(self).wf(),
            at < old(self)@.messages.len(),
        ensures
            final(self).wf(),
            (final(self)@, r@) == old(self)@.past_update(at as int, m),
    {
        self.messages.set(at, m.duplicate());
        tell(StateDelta::MessageUpdated { message: m })
    }

    fn served(&mut self, to: SocketAddr, packet_no: u32, file_id: u32) -> (r: Outcome)
        requires
            old(self).wf(),
        ensures
            final(self).wf(),
            (final(self)@, r@) == old(self)@.past_served(to, packet_no, file_id),
    {
        let t = Target::Served { to: normalize_addr(to), packet_no, file_id };
        match find_last(&self.messages, t) {
            Some(i) => {
                let mut m = self.messages[i].duplicate();
                if let Some(file) = &mut m.file {
                    file.sending = false;
                    file.saved = true;
                    file.error = false;
                    file.canceled = false;
                    file.received = file.size;
                }
                self.update(i, m)
            },
            None => quiet(),
        }
    }

    fn serving(&mut self, to: SocketAddr, packet_no: u32, file_id: u32) -> (r: Outcome)
        requires
            old(self).wf(),
        ensures
            final(self).wf(),
            (final(self)@, r@) == old(self)@.past_serving(to, packet_no, file_id),
    {
        let t = Target::Served { to: normalize_addr(to), packet_no, file_id };
        match find_last(&self.messages, t) {
            Some(i) => {
                let mut m = self.messages[i].duplicate();
                if let Some(file) = &mut m.file {
                    file.sending = true;
                    file.saved = false;
                    file.error = false;
                    file.canceled = false;
                }
                self.update(i, m)
            },
            None => quiet(),
        }
    }

    fn serve_failed(&mut self, to: SocketAddr, packet_no: u32, file_id: u32) -> (r: Outcome)
        requires
            old(self).wf(),
        ensures
            final(self).wf(),
            (final(self)@, r@) == old(self)@.past_serve_failed(to, packet_no, file_id),
    {
        let t = Target::Served { to: normalize_addr(to), packet_no, file_id };
        match find_last(&self.messages, t) {
            Some(i) => {
                let mut m = self.messages[i].duplicate();
                if let Some(file) = &mut m.file {
                    if file.canceled {
                        return quiet();
                    }
                    file.sending = false;
                    file.saved = false;
                    file.error = true;
                }
                self.update(i, m)
            },
            None => quiet(),
        }
    }

    fn delivered(&mut self, from: SocketAddr, packet_no: u32) -> (r: Outcome)
        requires
            old(self).wf(),
        ensures
            final(self).wf(),
            (final(self)@, r@) == old(self)@.past_delivered(from, packet_no),
    {
        if packet_no != 0 {
            if self.acked_packets.len() >= ACKED_PACKETS_MAX {
                self.acked_packets.clear();
            }
            self.acked_packets.insert(packet_no);
        }
        assert(self@.acked =~= acked_with(old(self)@.acked, packet_no));
        let t = Target::Confirmed { from: normalize_addr(from), packet_no };
        match find_last(&self.messages, t) {
            Some(i) => {
                let mut m = self.messages[i].duplicate();
                m.delivered = true;
                m.failed = false;
                self.update(i, m)
            },
            None => quiet(),
        }
    }

    fn apply_event(&mut self, event: Event, labels: Labels) -> (r: Outcome)
        requires
            old(self).wf(),
            old(self)@.admits(StateCmd::ApplyEvent(event)),
        ensures
            final(self).wf(),
            (final(self)@, r@) == old(self)@.past_event(event, labels),
    {
        match event {
            Event::Online { user, group, host, addr } => self.online(user, group, host, addr),
            Event::Offline { addr, .. } => self.offline(addr),
            Event::Message { from, user, host, text } => self.incoming(
                from,
                user,
                host,
                text,
                labels.now,
                None,
            ),
            Event::FileOffer { from, user, host, packet_no, file_id, name, size, is_dir } => {
                let file = FileInfo {
                    packet_no,
                    file_id,
                    name,
                    size,
                    saved: false,
                    received: 0,
                    is_dir,
                    local_path: None,
                    current_file: None,
                    error: false,
                    canceled: false,
                    sending: false,
                };
                self.incoming(from, user, host, labels.offer, labels.now, Some(file))
            },
            Event::FileServed { to, packet_no, file_id, .. } => self.served(
                to,
                packet_no,
                file_id,
            ),
            Event::FileServingStarted { to, packet_no, file_id, .. } => self.serving(
                to,
                packet_no,
                file_id,
            ),
            Event::FileServeFailed { to, packet_no, file_id, .. } => self.serve_failed(
                to,
                packet_no,
                file_id,
            ),
            Event::Delivered { from, packet_no } => self.delivered(from, packet_no),
            Event::Unknown { .. } => quiet(),
        }
    }

    fn push_outgoing(&mut self, m: ChatMessage) -> (r: Outcome)
        requires
            old(self).wf(),
        ensures
            final(self).wf(),
            (final(self)@, r@) == old(self)@.past_push(m),
    {
        let mut m = m;
        m.id = self.take_message_id();
        if m.packet_no != 0 && self.acked_packets.contains(&m.packet_no) {
            m.delivered = true;
        }
        let arm_ack = if m.packet_no != 0 && !m.delivered && m.file.is_none() {
            Some(m.packet_no)
        } else {
            None
        };
        self.messages.push(m.duplicate());
        let mut r = tell(StateDelta::MessageAdded { message: m });
        r.arm_ack = arm_ack;
        r
    }

    fn ack_timeout(&mut self, packet_no: u32) -> (r: Outcome)
        requires
            old(self).wf(),
        ensures
            final(self).wf(),
            (final(self)@, r@) == old(self)@.past_timeout(packet_no),
    {
        match find_last(&self.messages, Target::Awaiting { packet_no }) {
            Some(i) => {
                let mut m = self.messages[i].duplicate();
                if m.delivered || m.failed {
                    return quiet();
                }
                m.failed = true;
                self.update(i, m)
            },
            None => quiet(),
        }
    }

    fn update_progress(
        &mut self,
        t: Target,
        progress: u64,
        file_name: Option<String>,
        local_path: Option<String>,
        saved: Option<bool>,
        error: Option<bool>,
        canceled: Option<bool>,
    ) -> (r: Outcome)
        requires
            old(self).wf(),
        ensures
            final(self).wf(),
            (final(self)@, r@) == old(self)@.past_progress(
                t,
                progress,
                file_name,
                local_path,
                saved,
                error,
                canceled,
            ),
    {
        match find_last(&self.messages, t) {
            Some(i) => {
                let mut m = self.messages[i].duplicate();
                if let Some(file) = &mut m.file {
                    file.received = progress;
                    if file_name.is_some() {
                        file.current_file = duplicate_option(&file_name);
                    }
                    if local_path.is_some() {
                        file.local_path = duplicate_option(&local_path);
                    }
                    if let Some(saved) = saved {
                        file.saved = saved;
                    }
                    if let Some(error) = error {
                        file.error = error;
                    }
                    if let Some(canceled) = canceled {
                        file.canceled = canceled;
                    }
                }
                let ended = is_true(saved) || is_true(error) || is_true(canceled);
                let mut r = self.update(i, m);
                r.persist = ended;
                r
            },
            None => quiet(),
        }
    }

    fn clear_unread(&mut self, addr: SocketAddr) -> (r: Outcome)
        requires
            old(self).wf(),
        ensures
            final(self).wf(),
            (final(self)@, r@) == old(self)@.past_clear_unread(addr),
    {
        let addr = normalize_addr(addr);
        if self.unread_counts.remove(addr) {
            let mut r = tell(StateDelta::UnreadChanged { addr, unread: 0 });
            r.persist = false;
            r
        } else {
            assert(self@.unread =~= old(self)@.unread);
            quiet()
        }
    }

    fn load_more(&self, addr: SocketAddr, before_id: u64, limit: usize) -> (r: Outcome)
        ensures
            (self@, r@) == self@.past_load_more(addr, before_id, limit),
    {
        let addr = normalize_addr(addr);
        let older = select(&self.messages, addr, Some(before_id));
        let has_more = older.len() > limit;
        let messages = keep_last(&older, limit);
        let mut r = tell(StateDelta::MessagesLoaded { addr, messages, has_more });
        r.changed = false;
        r.persist = false;
        r
    }

    fn retry_finished(&mut self, id: u64, ok: bool, packet_no: u32, file_id: u32) -> (r: Outcome)
        requires
            old(self).wf(),
        ensures
            final(self).wf(),
            (final(self)@, r@) == old(self)@.past_retry(id, ok, packet_no, file_id),
    {
        if !ok {
            return quiet();
        }
        match find_last(&self.messages, Target::Id { id }) {
            Some(i) => {
                let mut m = self.messages[i].duplicate();
                m.failed = false;
                m.delivered = packet_no != 0 && self.acked_packets.contains(&packet_no);
                m.packet_no = packet_no;
                if let Some(file) = &mut m.file {
                    file.packet_no = packet_no;
                    file.file_id = file_id;
                }
                let arm_ack = if packet_no != 0 && !m.delivered && m.file.is_none() {
                    Some(packet_no)
                } else {
                    None
                };
                let mut r = self.update(i, m);
                r.arm_ack = arm_ack;
                r
            },
            None => quiet(),
        }
    }

    /// Carries out a command, and says what follows from it.
    pub fn apply(&mut self, cmd: StateCmd, labels: Labels) -> (r: Outcome)
        requires
            old(self).wf(),
            old(self)@.admits(cmd),
        ensures
            final(self).wf(),
            (final(self)@, r@) == old(self)@.past(cmd, labels),
    {
        match cmd {
            StateCmd::InitSelf { user, group, host, addr } => self.init_self(
                user,
                group,
                host,
                addr,
            ),
            StateCmd::ApplyEvent(event) => self.apply_event(event, labels),
            StateCmd::PushOutgoing(m) => self.push_outgoing(m),
            StateCmd::AckTimeout { packet_no } => self.ack_timeout(packet_no),
            StateCmd::UpdateProgress {
                from,
                file_id,
                packet_no,
                target_outgoing,
                progress,
                file_name,
                local_path,
                saved,
                error,
                canceled,
            } => {
                let t = Target::Progress {
                    from: normalize_addr(from),
                    outgoing: target_outgoing,
                    packet_no,
                    file_id,
                };
                self.update_progress(t, progress, file_name, local_path, saved, error, canceled)
            },
            StateCmd::ClearUnread { addr } => self.clear_unread(addr),
            StateCmd::LoadMore { addr, before_id, limit } => self.load_more(
                addr,
                before_id,
                limit,
            ),
            StateCmd::RetryFinished { id, ok, packet_no, file_id } => self.retry_finished(
                id,
                ok,
                packet_no,
                file_id,
            ),
            StateCmd::SettingsSaved => {
                let mut r = tell(StateDelta::SettingsChanged);
                r.changed = false;
                r.persist = false;
                r
            },
        }
    }

    /// Whether a command lets no counter overflow.
    pub fn is_admitted(&self, cmd: &StateCmd) -> (r: bool)
        requires
            self.wf(),
        ensures
            r == self@.admits(*cmd),
    {
        match cmd {
            StateCmd::ApplyEvent(Event::Message { from, .. }) => count_for(
                &self.unread_counts,
                normalize_addr(*from),
            ) < u32::MAX,
            StateCmd::ApplyEvent(Event::FileOffer { from, .. }) => count_for(
                &self.unread_counts,
                normalize_addr(*from),
            ) < u32::MAX,
            _ => true,
        }
    }
}

fn is_true(b: Option<bool>) -> (r: bool)
    ensures
        r == (b == Some(true)),
{
    match b {
        Some(b) => b,
        None => false,
    }
}

/// Nobody is let go where nobody is there.
proof fn lemma_nobody_gone(users: Seq<model::UserView>, addr: SocketAddr)
    ensures
        !roster::is_online(users, addr) ==> roster::without_user(users, addr) == users,
    decreases users.len(),
{
    if users.len() > 0 && !roster::is_online(users, addr) {
        let init = users.drop_last();
        assert(users[users.len() - 1].addr != addr);
        if roster::is_online(init, addr) {
            let i = choose|i: int| 0 <= i < init.len() && (#[trigger] init[i]).addr == addr;
            assert(users[i].addr == addr);
        }
        lemma_nobody_gone(init, addr);
        assert(init.push(users.last()) =~= users);
    }
}

} // verus!
