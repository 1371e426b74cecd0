//! What the user interface knows: it is told by deltas, one after the other.
use crate::addr_map::AddrMap;
use crate::app_state::model;
use crate::app_state::model::{message_peer_addr, ChatMessage, OnlineUser, StateDelta};
use crate::app_state::unread;
use crate::app_state::unread::count_for;
use crate::chat_shell::conv_id::ConvId;
use crate::chat_shell::conversation;
use crate::chat_shell::conversation::{
    display_text, find_place, list_users, put_preview, sort_by_name, Conversation, DisplayText,
};
use crate::net::SocketAddr;
use vstd::prelude::*;

verus! {

/// The messages with a peer that the user interface has.
pub struct Thread {
    pub conv: ConvId,
    pub messages: Vec<ChatMessage>,
}

#[verifier::ext_equal]
pub struct ThreadView {
    pub conv: ConvId,
    pub messages: Seq<ChatMessage>,
}

impl View for Thread {
    type V = ThreadView;

    open spec fn view(&self) -> ThreadView {
        ThreadView { conv: self.conv, messages: self.messages@ }
    }
}

pub open spec fn thread_views(v: Seq<Thread>) -> Seq<ThreadView> {
    v.map_values(|t: Thread| t@)
}

/// The place of the thread with a peer.
pub open spec fn thread_place(threads: Seq<ThreadView>, conv: ConvId) -> Option<int>
    decreases threads.len(),
{
    if threads.len() == 0 {
        None
    } else if threads.last().conv == conv {
        Some(threads.len() - 1)
    } else {
        thread_place(threads.drop_last(), conv)
    }
}

/// The messages with a peer.
pub open spec fn thread_of(threads: Seq<ThreadView>, conv: ConvId) -> Seq<ChatMessage> {
    match thread_place(threads, conv) {
        Some(i) => threads[i].messages,
        None => Seq::empty(),
    }
}

/// The threads once the messages with a peer are these.
pub open spec fn with_thread(threads: Seq<ThreadView>, conv: ConvId, messages: Seq<ChatMessage>)
    -> Seq<ThreadView> {
    match thread_place(threads, conv) {
        Some(i) => threads.update(i, ThreadView { conv, messages }),
        None => threads.push(ThreadView { conv, messages }),
    }
}

/// The threads with one more message.
pub open spec fn with_message(threads: Seq<ThreadView>, m: ChatMessage) -> Seq<ThreadView> {
    let conv = ConvId::spec_of(model::peer_of(m));
    with_thread(threads, conv, thread_of(threads, conv).push(m))
}

/// The threads that messages make.
pub open spec fn grouped(messages: Seq<ChatMessage>) -> Seq<ThreadView>
    decreases messages.len(),
{
    if messages.len() == 0 {
        Seq::empty()
    } else {
        with_message(grouped(messages.drop_last()), messages.last())
    }
}

fn find_thread(threads: &Vec<Thread>, conv: ConvId) -> (r: Option<usize>)
    ensures
        match thread_place(thread_views(threads@), conv) {
            Some(i) => r is Some && r->0 == i && r->0 < threads@.len() && threads@[i].conv == conv,
            None => r is None,
        },
{
    let ghost all = thread_views(threads@);
    let mut i: usize = threads.len();
    assert(all.take(i as int) =~= all);
    while i > 0
        invariant
            i <= threads@.len(),
            all == thread_views(threads@),
            thread_place(all, conv) == thread_place(all.take(i as int), conv),
        decreases i,
    {
        assert(all.take(i as int).last() == threads@[i - 1]@);
        assert(all.take(i as int).drop_last() =~= all.take(i - 1));
        if threads[i - 1].conv == conv {
            return Some(i - 1);
        }
        i -= 1;
    }
    None
}

fn copy_messages(messages: &Vec<ChatMessage>) -> (r: Vec<ChatMessage>)
    ensures
        r@ == messages@,
{
    let mut r: Vec<ChatMessage> = Vec::new();
    let mut i: usize = 0;
    while i < messages.len()
        invariant
            i <= messages@.len(),
            r@ =~= messages@.take(i as int),
        decreases messages@.len() - i,
    {
        r.push(messages[i].duplicate());
        i += 1;
    }
    assert(messages@.take(i as int) =~= messages@);
    r
}

fn messages_in(threads: &Vec<Thread>, conv: ConvId) -> (r: Vec<ChatMessage>)
    ensures
        r@ == thread_of(thread_views(threads@), conv),
{
    match find_thread(threads, conv) {
        Some(i) => copy_messages(&threads[i].messages),
        None => Vec::new(),
    }
}

fn set_thread(threads: &mut Vec<Thread>, conv: ConvId, messages: Vec<ChatMessage>)
    ensures
        thread_views(final(threads)@) == with_thread(
            thread_views(old(threads)@),
            conv,
            messages@,
        ),
{
    match find_thread(threads, conv) {
        Some(i) => {
            threads.set(i, Thread { conv, messages });
        },
        None => {
            threads.push(Thread { conv, messages });
        },
    }
    assert(thread_views(threads@) =~= with_thread(
        thread_views(old(threads)@),
        conv,
        messages@,
    ));
}

fn add_message(threads: &mut Vec<Thread>, message: ChatMessage)
    ensures
        thread_views(final(threads)@) == with_message(thread_views(old(threads)@), message),
{
    let conv = ConvId::of(message_peer_addr(&message));
    let mut messages = messages_in(threads, conv);
    messages.push(message);
    set_thread(threads, conv, messages);
}

fn group(messages: &Vec<ChatMessage>) -> (r: Vec<Thread>)
    ensures
        thread_views(r@) == grouped(messages@),
{
    let mut r: Vec<Thread> = Vec::new();
    let mut i: usize = 0;
    assert(thread_views(r@) =~= grouped(messages@.take(0)));
    while i < messages.len()
        invariant
            i <= messages@.len(),
            thread_views(r@) == grouped(messages@.take(i as int)),
        decreases messages@.len() - i,
    {
        assert(messages@.take(i + 1).drop_last() =~= messages@.take(i as int));
        assert(messages@.take(i + 1).last() == messages@[i as int]);
        add_message(&mut r, messages[i].duplicate());
        i += 1;
    }
    assert(messages@.take(i as int) =~= messages@);
    r
}

/// The place of the first message with this number.
pub open spec fn place_of_id(messages: Seq<ChatMessage>, id: u64) -> Option<int>
    decreases messages.len(),
{
    if messages.len() == 0 {
        None
    } else {
        match place_of_id(messages.drop_last(), id) {
            Some(i) => Some(i),
            None => if messages.last().id == id {
                Some(messages.len() - 1)
            } else {
                None
            },
        }
    }
}

fn find_id(messages: &Vec<ChatMessage>, id: u64) -> (r: Option<usize>)
    ensures
        match place_of_id(messages@, id) {
            Some(i) => r is Some && r->0 == i && r->0 < messages@.len(),
            None => r is None,
        },
{
    let mut found: Option<usize> = None;
    let mut i: usize = 0;
    assert(messages@.take(0) =~= Seq::<ChatMessage>::empty());
    while i < messages.len()
        invariant
            i <= messages@.len(),
            match place_of_id(messages@.take(i as int), id) {
                Some(k) => found is Some && found->0 == k && found->0 < i,
                None => found is None,
            },
        decreases messages@.len() - i,
    {
        assert(messages@.take(i + 1).drop_last() =~= messages@.take(i as int));
        assert(messages@.take(i + 1).last() == messages@[i as int]);
        if found.is_none() && messages[i].id == id {
            found = Some(i);
        }
        i += 1;
    }
    assert(messages@.take(i as int) =~= messages@);
    found
}

/// The threads once a message is replaced by another with the same number.
pub open spec fn with_replaced(threads: Seq<ThreadView>, m: ChatMessage) -> Seq<ThreadView> {
    let conv = ConvId::spec_of(model::peer_of(m));
    let messages = thread_of(threads, conv);
    match place_of_id(messages, m.id) {
        Some(i) => with_thread(threads, conv, messages.update(i, m)),
        None => threads,
    }
}

/// Those messages whose number is not there yet.
pub open spec fn unknown_of(messages: Seq<ChatMessage>, known: Seq<ChatMessage>) -> Seq<
    ChatMessage,
> {
    messages.filter(|m: ChatMessage| place_of_id(known, m.id) is None)
}

fn drop_known(messages: &Vec<ChatMessage>, known: &Vec<ChatMessage>) -> (r: Vec<ChatMessage>)
    ensures
        r@ == unknown_of(messages@, known@),
{
    let mut r: Vec<ChatMessage> = Vec::new();
    let ghost keep = |m: ChatMessage| place_of_id(known@, m.id) is None;
    let mut i: usize = 0;
    assert(messages@.take(0).filter(keep) =~= r@) by {
        reveal(Seq::filter);
    }
    while i < messages.len()
        invariant
            i <= messages@.len(),
            keep == (|m: ChatMessage| place_of_id(known@, m.id) is None),
            r@ == messages@.take(i as int).filter(keep),
        decreases messages@.len() - i,
    {
        assert(messages@.take(i + 1).drop_last() =~= messages@.take(i as int));
        proof {
            reveal(Seq::filter);
        }
        if find_id(known, messages[i].id).is_none() {
            r.push(messages[i].duplicate());
        }
        i += 1;
    }
    assert(messages@.take(i as int) =~= messages@);
    r
}

/// The values of a list of pairs; the last one counts.
pub open spec fn flags_in(list: Seq<(SocketAddr, bool)>) -> Map<SocketAddr, bool>
    decreases list.len(),
{
    if list.len() == 0 {
        Map::empty()
    } else {
        flags_in(list.drop_last()).insert(list.last().0, list.last().1)
    }
}

fn read_flags(list: &Vec<(SocketAddr, bool)>) -> (r: AddrMap<bool>)
    ensures
        r.wf(),
        r@ == flags_in(list@),
{
    let mut r: AddrMap<bool> = AddrMap::new();
    let mut i: usize = 0;
    assert(list@.take(0) =~= Seq::<(SocketAddr, bool)>::empty());
    while i < list.len()
        invariant
            i <= list@.len(),
            r.wf(),
            r@ == flags_in(list@.take(i as int)),
        decreases list@.len() - i,
    {
        assert(list@.take(i + 1).drop_last() =~= list@.take(i as int));
        assert(list@.take(i + 1).last() == list@[i as int]);
        r.insert(list[i].0, list[i].1);
        i += 1;
    }
    assert(list@.take(i as int) =~= list@);
    r
}

/// What the user interface knows.
pub struct UiState {
    pub conversations: Vec<Conversation>,
    pub threads: Vec<Thread>,
    pub unread: AddrMap<u32>,
    pub users: Vec<OnlineUser>,
    /// Whether there are earlier messages of a conversation.
    pub has_more: AddrMap<bool>,
}

#[verifier::ext_equal]
pub struct UiView {
    pub conversations: Seq<conversation::ConversationView>,
    pub threads: Seq<ThreadView>,
    pub unread: Map<SocketAddr, u32>,
    pub users: Seq<model::UserView>,
    pub has_more: Map<SocketAddr, bool>,
}

impl View for UiState {
    type V = UiView;

    open spec fn view(&self) -> UiView {
        UiView {
            conversations: conversation::conversation_views(self.conversations@),
            threads: thread_views(self.threads@),
            unread: self.unread@,
            users: model::user_views(self.users@),
            has_more: self.has_more@,
        }
    }
}

/// What follows from a delta.
#[derive(Debug, Clone, Copy, PartialEq, Eq, Structural)]
pub enum UiEvent {
    /// A message came into a conversation.
    MessageAdded { conv: ConvId },
    /// So many earlier messages of a conversation were put in front.
    MessagesLoaded { conv: ConvId, count: usize },
    /// Texts may have another language now.
    SettingsChanged,
    Changed,
}

/// What is shown of the last message of a thread.
pub open spec fn preview_of(messages: Seq<ChatMessage>) -> conversation::DisplayView {
    if messages.len() > 0 {
        conversation::display_of(messages.last())
    } else {
        conversation::DisplayView::Text(Seq::empty())
    }
}

/// The list once something is shown of what was last said in each thread.
pub open spec fn with_previews(
    list: Seq<conversation::ConversationView>,
    threads: Seq<ThreadView>,
) -> Seq<conversation::ConversationView>
    decreases threads.len(),
{
    if threads.len() == 0 {
        list
    } else {
        conversation::with_preview(
            with_previews(list, threads.drop_last()),
            threads.last().conv,
            preview_of(threads.last().messages),
        )
    }
}

/// The list with the counts of unread messages.
pub open spec fn with_counts(
    list: Seq<conversation::ConversationView>,
    counts: Map<SocketAddr, u32>,
) -> Seq<conversation::ConversationView> {
    list.map_values(
        |c: conversation::ConversationView|
            conversation::ConversationView { unread: unread::count_of(counts, c.conv.spec_addr()), ..c },
    )
}

impl UiView {
    /// The list of conversations: one with each user and one for each thread, in the
    /// order of names.
    pub open spec fn listed(self) -> Seq<conversation::ConversationView> {
        conversation::by_name(
            with_counts(
                with_previews(conversation::users_listed(self.users), self.threads),
                self.unread,
            ),
        )
    }

    pub open spec fn relisted(self) -> UiView {
        UiView { conversations: self.listed(), ..self }
    }

    /// The count of unread messages is shown at a conversation.
    pub open spec fn with_count_shown(self, conv: ConvId, unread: u32) -> UiView {
        match conversation::place_of(self.conversations, conv) {
            Some(i) => UiView {
                conversations: self.conversations.update(
                    i,
                    conversation::ConversationView { unread, ..self.conversations[i] },
                ),
                ..self
            },
            None => self,
        }
    }

    /// After a delta.
    pub open spec fn past(self, delta: model::DeltaView) -> (UiView, UiEvent) {
        match delta {
            model::DeltaView::Sync { messages, has_more } => (
                UiView {
                    threads: grouped(messages),
                    has_more: flags_in(has_more),
                    ..self
                }.relisted(),
                UiEvent::Changed,
            ),
            model::DeltaView::UsersChanged { users } => (
                UiView { users, ..self }.relisted(),
                UiEvent::Changed,
            ),
            model::DeltaView::MessageAdded { message } => (
                UiView { threads: with_message(self.threads, message), ..self }.relisted(),
                UiEvent::MessageAdded { conv: ConvId::spec_of(model::peer_of(message)) },
            ),
            model::DeltaView::MessageUpdated { message } => (
                UiView { threads: with_replaced(self.threads, message), ..self },
                UiEvent::Changed,
            ),
            model::DeltaView::MessagesLoaded { addr, messages, has_more } => {
                let conv = ConvId::spec_of(addr);
                let known = thread_of(self.threads, conv);
                let older = unknown_of(messages, known);
                (
                    UiView {
                        threads: with_thread(self.threads, conv, older + known),
                        has_more: self.has_more.insert(addr, has_more),
                        ..self
                    },
                    UiEvent::MessagesLoaded { conv, count: older.len() as usize },
                )
            },
            model::DeltaView::UnreadChanged { addr, unread } => (
                UiView { unread: self.unread.insert(addr, unread), ..self }.with_count_shown(
                    ConvId::spec_of(addr),
                    unread,
                ),
                UiEvent::Changed,
            ),
            model::DeltaView::SettingsChanged => (self, UiEvent::SettingsChanged),
        }
    }
}

fn preview(messages: &Vec<ChatMessage>) -> (r: DisplayText)
    ensures
        r@ == preview_of(messages@),
{
    if messages.len() > 0 {
        display_text(&messages[messages.len() - 1])
    } else {
        DisplayText::Text(String::new())
    }
}

impl UiState {
    pub open spec fn wf(self) -> bool {
        self.unread.wf() && self.has_more.wf()
    }

    pub fn new() -> (r: UiState)
        ensures
            r.wf(),
            r@ == (UiView {
                conversations: Seq::empty(),
                threads: Seq::empty(),
                unread: Map::empty(),
                users: Seq::empty(),
                has_more: Map::empty(),
            }),
    {
        let r = UiState {
            conversations: Vec::new(),
            threads: Vec::new(),
            unread: AddrMap::new(),
            users: Vec::new(),
            has_more: AddrMap::new(),
        };
        assert(r@.conversations =~= Seq::<conversation::ConversationView>::empty());
        assert(r@.threads =~= Seq::<ThreadView>::empty());
        assert(r@.users =~= Seq::<model::UserView>::empty());
        r
    }

    /// Makes the list of conversations anew.
    fn rebuild_conversations(&mut self)
        requires
            old(self).wf(),
        ensures
            final(self).wf(),
            final(self)@ == old(self)@.relisted(),
    {
        let mut list = list_users(&self.users);
        let ghost start = conversation::conversation_views(list@);
        let ghost all = self@.threads;
        let mut i: usize = 0;
        assert(all.take(0) =~= Seq::<ThreadView>::empty());
        while i < self.threads.len()
            invariant
                i <= self.threads@.len(),
                all == thread_views(self.threads@),
                conversation::conversation_views(list@) == with_previews(
                    start,
                    all.take(i as int),
                ),
            decreases self.threads@.len() - i,
        {
            assert(all.take(i + 1).drop_last() =~= all.take(i as int));
            assert(all.take(i + 1).last() == self.threads@[i as int]@);
            put_preview(&mut list, self.threads[i].conv, preview(&self.threads[i].messages));
            i += 1;
        }
        assert(all.take(i as int) =~= all);
        let ghost previewed = conversation::conversation_views(list@);
        let mut counted: Vec<Conversation> = Vec::new();
        let mut k: usize = 0;
        assert(conversation::conversation_views(counted@) =~= with_counts(
            previewed.take(0),
            self@.unread,
        ));
        while k < list.len()
            invariant
                self.wf(),
                k <= list@.len(),
                previewed == conversation::conversation_views(list@),
                conversation::conversation_views(counted@) == with_counts(
                    previewed.take(k as int),
                    self@.unread,
                ),
            decreases list@.len() - k,
        {
            let mut c = list[k].duplicate();
            c.unread = count_for(&self.unread, c.conv.addr());
            let ghost before = counted@;
            counted.push(c);
            proof {
                assert(conversation::conversation_views(counted@)
                    =~= conversation::conversation_views(before).push(c@));
                assert(with_counts(previewed.take(k + 1), self@.unread) =~= with_counts(
                    previewed.take(k as int),
                    self@.unread,
                ).push(c@));
            }
            k += 1;
        }
        assert(previewed.take(k as int) =~= previewed);
        self.conversations = sort_by_name(&counted);
    }

    fn show_count(&mut self, conv: ConvId, unread: u32)
        requires
            old(self).wf(),
        ensures
            final(self).wf(),
            final(self)@ == old(self)@.with_count_shown(conv, unread),
    {
        if let Some(i) = find_place(&self.conversations, conv) {
            let mut c = self.conversations[i].duplicate();
            c.unread = unread;
            self.conversations.set(i, c);
        }
        assert(self@.conversations =~= old(self)@.with_count_shown(conv, unread).conversations);
    }

    /// Takes in a delta, and says what follows from it.
    pub fn apply(&mut self, delta: StateDelta) -> (r: UiEvent)
        requires
            old(self).wf(),
        ensures
            final(self).wf(),
            (final(self)@, r) == old(self)@.past(delta@),
    {
        match delta {
            StateDelta::Sync { messages, has_more } => {
                self.threads = group(&messages);
                self.has_more = read_flags(&has_more);
                self.rebuild_conversations();
                UiEvent::Changed
            },
            StateDelta::UsersChanged { users } => {
                self.users = users;
                self.rebuild_conversations();
                UiEvent::Changed
            },
            StateDelta::MessageAdded { message } => {
                let conv = ConvId::of(message_peer_addr(&message));
                add_message(&mut self.threads, message);
                self.rebuild_conversations();
                UiEvent::MessageAdded { conv }
            },
            StateDelta::MessageUpdated { message } => {
                let conv = ConvId::of(message_peer_addr(&message));
                let mut messages = messages_in(&self.threads, conv);
                if let Some(i) = find_id(&messages, message.id) {
                    messages.set(i, message);
                    set_thread(&mut self.threads, conv, messages);
                }
                UiEvent::Changed
            },
            StateDelta::MessagesLoaded { addr, messages, has_more } => {
                let conv = ConvId::of(addr);
                self.has_more.insert(addr, has_more);
                let mut known = messages_in(&self.threads, conv);
                let mut older = drop_known(&messages, &known);
                let count: usize = older.len();
                older.append(&mut known);
                set_thread(&mut self.threads, conv, older);
                UiEvent::MessagesLoaded { conv, count }
            },
            StateDelta::UnreadChanged { addr, unread } => {
                self.unread.insert(addr, unread);
                self.show_count(ConvId::of(addr), unread);
                UiEvent::Changed
            },
            StateDelta::SettingsChanged => UiEvent::SettingsChanged,
        }
    }

    pub fn conversations(&self) -> (r: &Vec<Conversation>)
        ensures
            conversation::conversation_views(r@) == self@.conversations,
    {
        &self.conversations
    }

    /// A conversation of the list.
    pub fn conversation(&self, conv: ConvId) -> (r: Option<&Conversation>)
        ensures
            match conversation::place_of(self@.conversations, conv) {
                Some(i) => r is Some && r->0@ == self@.conversations[i],
                None => r is None,
            },
    {
        match find_place(&self.conversations, conv) {
            Some(i) => Some(&self.conversations[i]),
            None => None,
        }
    }

    /// The messages of a conversation.
    pub fn messages_for(&self, conv: ConvId) -> (r: Vec<ChatMessage>)
        ensures
            r@ == thread_of(self@.threads, conv),
    {
        messages_in(&self.threads, conv)
    }

    /// Whether there are earlier messages of a conversation, and the number of the
    /// first one that is there.
    pub fn oldest_id_and_has_more(&self, conv: ConvId) -> (r: (bool, Option<u64>))
        requires
            self.wf(),
        ensures
            r.0 == (thread_place(self@.threads, conv) is Some && self@.has_more.contains_key(
                conv.spec_addr(),
            ) && self@.has_more[conv.spec_addr()]),
            r.1 == if thread_of(self@.threads, conv).len() > 0 {
                Some(thread_of(self@.threads, conv)[0].id)
            } else {
                None
            },
    {
        match find_thread(&self.threads, conv) {
            None => (false, None),
            Some(i) => {
                let has_more = match self.has_more.get(conv.addr()) {
                    Some(b) => *b,
                    None => false,
                };
                let messages = &self.threads[i].messages;
                let oldest = if messages.len() > 0 {
                    Some(messages[0].id)
                } else {
                    None
                };
                (has_more, oldest)
            },
        }
    }

    /// Shows no unread messages at a conversation; whether there were any.
    pub fn clear_count(&mut self, conv: ConvId) -> (r: bool)
        requires
            old(self).wf(),
        ensures
            final(self).wf(),
            final(self)@ == old(self)@.with_count_shown(conv, 0),
            r == match conversation::place_of(old(self)@.conversations, conv) {
                Some(i) => old(self)@.conversations[i].unread > 0,
                None => false,
            },
    {
        let r = match find_place(&self.conversations, conv) {
            Some(i) => self.conversations[i].unread > 0,
            None => false,
        };
        self.show_count(conv, 0);
        r
    }
}

} // verus!
