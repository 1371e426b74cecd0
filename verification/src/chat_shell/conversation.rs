//! The list of conversations.
use crate::app_state::model;
use crate::app_state::model::{ChatMessage, OnlineUser};
use crate::chars::{push_text, to_chars, to_text};
use crate::chat_shell::conv_id::ConvId;
use crate::net;
use crate::net::addr_to_string;
use vstd::prelude::*;

verus! {

/// A text that is shown, or what it is made of in the language of the user.
#[derive(Debug, Clone)]
pub enum DisplayText {
    Text(String),
    /// A folder with this name.
    Folder(String),
    /// A file with this name.
    File(String),
}

#[verifier::ext_equal]
pub enum DisplayView {
    Text(Seq<char>),
    Folder(Seq<char>),
    File(Seq<char>),
}

impl View for DisplayText {
    type V = DisplayView;

    open spec fn view(&self) -> DisplayView {
        match self {
            DisplayText::Text(s) => DisplayView::Text(s@),
            DisplayText::Folder(s) => DisplayView::Folder(s@),
            DisplayText::File(s) => DisplayView::File(s@),
        }
    }
}

impl DisplayText {
    pub fn duplicate(&self) -> (r: DisplayText)
        ensures
            r == *self,
    {
        match self {
            DisplayText::Text(s) => DisplayText::Text(s.clone()),
            DisplayText::Folder(s) => DisplayText::Folder(s.clone()),
            DisplayText::File(s) => DisplayText::File(s.clone()),
        }
    }
}

/// What is shown of a message: its text, or else its file.
pub open spec fn display_of(m: ChatMessage) -> DisplayView {
    if m.text@.len() > 0 {
        DisplayView::Text(m.text@)
    } else {
        match m.file {
            Some(f) => if f.is_dir {
                DisplayView::Folder(f.name@)
            } else {
                DisplayView::File(f.name@)
            },
            None => DisplayView::Text(Seq::empty()),
        }
    }
}

/// What is shown of a message: its text, or else its file.
pub fn display_text(message: &ChatMessage) -> (r: DisplayText)
    ensures
        r@ == display_of(*message),
{
    let text = to_chars(message.text.as_str());
    if text.len() > 0 {
        DisplayText::Text(message.text.clone())
    } else if let Some(file) = &message.file {
        if file.is_dir {
            DisplayText::Folder(file.name.clone())
        } else {
            DisplayText::File(file.name.clone())
        }
    } else {
        DisplayText::Text(String::new())
    }
}

/// An entry of the list of conversations.
#[derive(Debug, Clone)]
pub struct Conversation {
    pub conv: ConvId,
    /// The written form of the address.
    pub id: String,
    pub name: String,
    pub subtitle: DisplayText,
    pub unread: u32,
}

#[verifier::ext_equal]
pub struct ConversationView {
    pub conv: ConvId,
    pub id: Seq<char>,
    pub name: Seq<char>,
    pub subtitle: DisplayView,
    pub unread: u32,
}

impl View for Conversation {
    type V = ConversationView;

    open spec fn view(&self) -> ConversationView {
        ConversationView {
            conv: self.conv,
            id: self.id@,
            name: self.name@,
            subtitle: self.subtitle@,
            unread: self.unread,
        }
    }
}

impl Conversation {
    pub fn duplicate(&self) -> (r: Conversation)
        ensures
            r == *self,
    {
        Conversation {
            conv: self.conv,
            id: self.id.clone(),
            name: self.name.clone(),
            subtitle: self.subtitle.duplicate(),
            unread: self.unread,
        }
    }
}

pub open spec fn conversation_views(v: Seq<Conversation>) -> Seq<ConversationView> {
    v.map_values(|c: Conversation| c@)
}

/// The conversation with a user, before anything was said: below the name stands the
/// address, and the group or else the host.
pub open spec fn conversation_with(u: model::UserView) -> ConversationView {
    ConversationView {
        conv: ConvId::spec_of(u.addr),
        id: net::addr_text(u.addr),
        name: u.name,
        subtitle: DisplayView::Text(
            net::addr_text(u.addr) + " - "@ + if u.group.len() == 0 {
                u.host
            } else {
                u.group
            },
        ),
        unread: 0,
    }
}

/// The conversation with a peer of whom only the address is known.
pub open spec fn conversation_at(conv: ConvId, subtitle: DisplayView) -> ConversationView {
    ConversationView {
        conv,
        id: conv.text(),
        name: conv.text(),
        subtitle,
        unread: 0,
    }
}

/// The place of a conversation.
pub open spec fn place_of(list: Seq<ConversationView>, conv: ConvId) -> Option<int>
    decreases list.len(),
{
    if list.len() == 0 {
        None
    } else if list.last().conv == conv {
        Some(list.len() - 1)
    } else {
        place_of(list.drop_last(), conv)
    }
}

/// Finds the place of a conversation.
pub fn find_place(list: &Vec<Conversation>, conv: ConvId) -> (r: Option<usize>)
    ensures
        match place_of(conversation_views(list@), conv) {
            Some(i) => r is Some && r->0 == i && r->0 < list@.len() && list@[i].conv == conv,
            None => r is None,
        },
{
    let ghost all = conversation_views(list@);
    let mut i: usize = list.len();
    assert(all.take(i as int) =~= all);
    while i > 0
        invariant
            i <= list@.len(),
            all == conversation_views(list@),
            place_of(all, conv) == place_of(all.take(i as int), conv),
        decreases i,
    {
        assert(all.take(i as int).last() == list@[i - 1]@);
        assert(all.take(i as int).drop_last() =~= all.take(i - 1));
        if list[i - 1].conv == conv {
            return Some(i - 1);
        }
        i -= 1;
    }
    None
}

/// The list with a conversation, in place of the same one.
pub open spec fn with_conversation(list: Seq<ConversationView>, c: ConversationView) -> Seq<
    ConversationView,
> {
    match place_of(list, c.conv) {
        Some(i) => list.update(i, c),
        None => list.push(c),
    }
}

fn put_conversation(list: &mut Vec<Conversation>, c: Conversation)
    ensures
        conversation_views(final(list)@) == with_conversation(conversation_views(old(list)@), c@),
{
    match find_place(list, c.conv) {
        Some(i) => {
            list.set(i, c);
        },
        None => {
            list.push(c);
        },
    }
    assert(conversation_views(list@) =~= with_conversation(conversation_views(old(list)@), c@));
}

/// The conversations with these users.
pub open spec fn users_listed(users: Seq<model::UserView>) -> Seq<ConversationView>
    decreases users.len(),
{
    if users.len() == 0 {
        Seq::empty()
    } else {
        with_conversation(users_listed(users.drop_last()), conversation_with(users.last()))
    }
}

fn list_user(user: &OnlineUser) -> (r: Conversation)
    ensures
        r@ == conversation_with(user@),
{
    let id = addr_to_string(&user.addr);
    let mut subtitle: Vec<char> = Vec::new();
    push_text(&mut subtitle, id.as_str());
    push_text(&mut subtitle, " - ");
    let group = to_chars(user.group.as_str());
    if group.len() == 0 {
        push_text(&mut subtitle, user.host.as_str());
    } else {
        push_text(&mut subtitle, user.group.as_str());
    }
    assert(DisplayView::Text(subtitle@) =~= conversation_with(user@).subtitle);
    Conversation {
        conv: ConvId::of(user.addr),
        id,
        name: user.name.clone(),
        subtitle: DisplayText::Text(to_text(subtitle.as_slice())),
        unread: 0,
    }
}

/// Lists the conversations with these users.
pub fn list_users(users: &Vec<OnlineUser>) -> (r: Vec<Conversation>)
    ensures
        conversation_views(r@) == users_listed(model::user_views(users@)),
{
    let ghost all = model::user_views(users@);
    let mut r: Vec<Conversation> = Vec::new();
    let mut i: usize = 0;
    assert(conversation_views(r@) =~= users_listed(all.take(0)));
    while i < users.len()
        invariant
            i <= users@.len(),
            all == model::user_views(users@),
            conversation_views(r@) == users_listed(all.take(i as int)),
        decreases users@.len() - i,
    {
        assert(all.take(i + 1).drop_last() =~= all.take(i as int));
        assert(all.take(i + 1).last() == users@[i as int]@);
        put_conversation(&mut r, list_user(&users[i]));
        i += 1;
    }
    assert(all.take(i as int) =~= all);
    r
}

/// The list once something is shown of what was last said with a peer.
pub open spec fn with_preview(list: Seq<ConversationView>, conv: ConvId, preview: DisplayView)
    -> Seq<ConversationView> {
    match place_of(list, conv) {
        Some(i) => list.update(i, ConversationView { subtitle: preview, ..list[i] }),
        None => list.push(conversation_at(conv, preview)),
    }
}

/// Shows something of what was last said with a peer.
pub fn put_preview(list: &mut Vec<Conversation>, conv: ConvId, preview: DisplayText)
    ensures
        conversation_views(final(list)@) == with_preview(
            conversation_views(old(list)@),
            conv,
            preview@,
        ),
{
    match find_place(list, conv) {
        Some(i) => {
            let mut c = list[i].duplicate();
            c.subtitle = preview;
            list.set(i, c);
        },
        None => {
            let id = conv.to_text();
            list.push(
                Conversation { conv, name: id.clone(), id, subtitle: preview, unread: 0 },
            );
        },
    }
    assert(conversation_views(list@) =~= with_preview(
        conversation_views(old(list)@),
        conv,
        preview@,
    ));
}

/// A text stands before another in the order of their characters.
pub open spec fn text_before(a: Seq<char>, b: Seq<char>) -> bool
    decreases a.len(),
{
    if b.len() == 0 {
        false
    } else if a.len() == 0 {
        true
    } else {
        a[0] < b[0] || (a[0] == b[0] && text_before(a.skip(1), b.skip(1)))
    }
}

/// Whether a text stands before another in the order of their characters.
pub fn precedes(a: &str, b: &str) -> (r: bool)
    ensures
        r == text_before(a@, b@),
{
    let left = to_chars(a);
    let right = to_chars(b);
    let mut i: usize = 0;
    assert(a@.skip(0) =~= a@);
    assert(b@.skip(0) =~= b@);
    while i < left.len() && i < right.len()
        invariant
            left@ == a@,
            right@ == b@,
            i <= a@.len(),
            i <= b@.len(),
            text_before(a@, b@) == text_before(a@.skip(i as int), b@.skip(i as int)),
        decreases a@.len() - i,
    {
        assert(a@.skip(i as int).skip(1) =~= a@.skip(i + 1));
        assert(b@.skip(i as int).skip(1) =~= b@.skip(i + 1));
        if left[i] != right[i] {
            return left[i] < right[i];
        }
        i += 1;
    }
    i < right.len()
}

/// The list with a conversation behind all others that have a name not after its own.
pub open spec fn slotted(list: Seq<ConversationView>, c: ConversationView) -> Seq<ConversationView>
    decreases list.len(),
{
    if list.len() == 0 || !text_before(c.name, list.last().name) {
        list.push(c)
    } else {
        slotted(list.drop_last(), c).push(list.last())
    }
}

/// The list in the order of names.
pub open spec fn by_name(list: Seq<ConversationView>) -> Seq<ConversationView>
    decreases list.len(),
{
    if list.len() == 0 {
        Seq::empty()
    } else {
        slotted(by_name(list.drop_last()), list.last())
    }
}

fn slot_in(list: &mut Vec<Conversation>, c: Conversation)
    ensures
        conversation_views(final(list)@) == slotted(conversation_views(old(list)@), c@),
{
    let ghost all = conversation_views(list@);
    let mut i: usize = list.len();
    assert(all.take(i as int) =~= all);
    assert(all.skip(i as int) =~= Seq::<ConversationView>::empty());
    while i > 0 && precedes(c.name.as_str(), list[i - 1].name.as_str())
        invariant
            *list == *old(list),
            all == conversation_views(list@),
            i <= list@.len(),
            slotted(all, c@) == slotted(all.take(i as int), c@) + all.skip(i as int),
        decreases i,
    {
        assert(all.take(i as int).last() == list@[i - 1]@);
        assert(all.take(i as int).drop_last() =~= all.take(i - 1));
        assert(slotted(all.take(i - 1), c@).push(all[i - 1]) + all.skip(i as int) =~= slotted(
            all.take(i - 1),
            c@,
        ) + all.skip(i - 1));
        i -= 1;
    }
    if i > 0 {
        assert(all.take(i as int).last() == list@[i - 1]@);
    }
    list.insert(i, c);
    assert(conversation_views(list@) =~= all.take(i as int).push(c@) + all.skip(i as int));
}

/// Puts the list in the order of names.
pub fn sort_by_name(list: &Vec<Conversation>) -> (r: Vec<Conversation>)
    ensures
        conversation_views(r@) == by_name(conversation_views(list@)),
{
    let ghost all = conversation_views(list@);
    let mut r: Vec<Conversation> = Vec::new();
    let mut i: usize = 0;
    assert(conversation_views(r@) =~= by_name(all.take(0)));
    while i < list.len()
        invariant
            i <= list@.len(),
            all == conversation_views(list@),
            conversation_views(r@) == by_name(all.take(i as int)),
        decreases list@.len() - i,
    {
        assert(all.take(i + 1).drop_last() =~= all.take(i as int));
        assert(all.take(i + 1).last() == list@[i as int]@);
        slot_in(&mut r, list[i].duplicate());
        i += 1;
    }
    assert(all.take(i as int) =~= all);
    r
}

/// No name stands before the one in front of it.
pub open spec fn in_name_order(list: Seq<ConversationView>) -> bool {
    forall|i: int, j: int|
        0 <= i < j < list.len() ==> !text_before(
            (#[trigger] list[j]).name,
            (#[trigger] list[i]).name,
        )
}

/// The order of texts is total.
pub proof fn law_text_order(a: Seq<char>, b: Seq<char>, c: Seq<char>)
    ensures
        !text_before(a, a),
        a == b || text_before(a, b) || text_before(b, a),
        text_before(a, b) && text_before(b, c) ==> text_before(a, c),
        !text_before(b, a) && !text_before(c, b) ==> !text_before(c, a),
    decreases a.len() + b.len() + c.len(),
{
    if a.len() == 0 && b.len() == 0 {
        assert(a =~= b);
    }
    if a.len() > 0 && b.len() > 0 && c.len() > 0 {
        law_text_order(a.skip(1), b.skip(1), c.skip(1));
    } else if a.len() > 0 && b.len() > 0 {
        law_text_order(a.skip(1), b.skip(1), c);
    } else if a.len() > 0 && c.len() > 0 {
        law_text_order(a.skip(1), b, c.skip(1));
    } else if a.len() > 0 {
        law_text_order(a.skip(1), b, c);
    }
    if a.len() > 0 && b.len() > 0 && a[0] == b[0] && a.skip(1) == b.skip(1) {
        assert(a =~= seq![a[0]] + a.skip(1));
        assert(b =~= seq![b[0]] + b.skip(1));
    }
}

/// The list is in the order of names, and has the same conversations as before.
pub proof fn law_by_name(list: Seq<ConversationView>)
    ensures
        in_name_order(by_name(list)),
        by_name(list).to_multiset() =~= list.to_multiset(),
    decreases list.len(),
{
    broadcast use vstd::seq_lib::group_to_multiset_ensures;

    if list.len() > 0 {
        let init = list.drop_last();
        law_by_name(init);
        lemma_slotted(by_name(init), list.last());
        assert(init.push(list.last()) =~= list);
        assert(list.to_multiset() =~= init.to_multiset().insert(list.last()));
    }
}

proof fn lemma_slotted(list: Seq<ConversationView>, c: ConversationView)
    requires
        in_name_order(list),
    ensures
        in_name_order(slotted(list, c)),
        slotted(list, c).to_multiset() =~= list.to_multiset().insert(c),
        forall|i: int|
            0 <= i < slotted(list, c).len() ==> #[trigger] slotted(list, c)[i] == c
                || list.contains(slotted(list, c)[i]),
    decreases list.len(),
{
    broadcast use vstd::seq_lib::group_to_multiset_ensures;

    let r = slotted(list, c);
    if list.len() == 0 || !text_before(c.name, list.last().name) {
        assert forall|i: int, j: int| 0 <= i < j < r.len() implies !text_before(
            (#[trigger] r[j]).name,
            (#[trigger] r[i]).name,
        ) by {
            if j == list.len() {
                law_text_order(list[i].name, list.last().name, c.name);
                if i < list.len() - 1 {
                    assert(!text_before(list[list.len() - 1].name, list[i].name));
                }
            }
        }
        assert forall|i: int| 0 <= i < r.len() implies #[trigger] r[i] == c || list.contains(
            r[i],
        ) by {
            if i < list.len() {
                assert(r[i] == list[i]);
            }
        }
    } else {
        let init = list.drop_last();
        let last = list.last();
        assert(in_name_order(init)) by {
            assert(forall|i: int| 0 <= i < init.len() ==> init[i] == list[i]);
        }
        lemma_slotted(init, c);
        let s = slotted(init, c);
        assert forall|i: int, j: int| 0 <= i < j < r.len() implies !text_before(
            (#[trigger] r[j]).name,
            (#[trigger] r[i]).name,
        ) by {
            if j == s.len() {
                assert(r[i] == s[i]);
                if s[i] == c {
                    law_text_order(c.name, last.name, c.name);
                } else {
                    let k = init.index_of(s[i]);
                    assert(init[k] == list[k]);
                    assert(!text_before(list[list.len() - 1].name, list[k].name));
                }
            } else {
                assert(r[i] == s[i] && r[j] == s[j]);
            }
        }
        assert forall|i: int| 0 <= i < r.len() implies #[trigger] r[i] == c || list.contains(
            r[i],
        ) by {
            if i < s.len() {
                assert(r[i] == s[i]);
                if s[i] != c {
                    let k = init.index_of(s[i]);
                    assert(list[k] == s[i]);
                }
            } else {
                assert(list[list.len() - 1] == r[i]);
            }
        }
        assert(init.push(last) =~= list);
        assert(list.to_multiset() =~= init.to_multiset().insert(last));
    }
}

} // verus!
