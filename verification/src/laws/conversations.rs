//! The list of conversations, entry by entry.
use crate::app_state::model;
use crate::app_state::model::{ChatMessage, DeltaView, UserView};
use crate::app_state::unread;
use crate::chars;
use crate::chat_shell::conv_id::ConvId;
use crate::chat_shell::conversation;
use crate::chat_shell::conversation::{Conversation, ConversationView, DisplayText, DisplayView};
use crate::chat_shell::listing;
use crate::chat_shell::mirror;
use crate::chat_shell::search;
use crate::chat_shell::ui_state;
use crate::chat_shell::ui_state::{ThreadView, UiEvent, UiState, UiView};
use crate::letter_case;
use crate::net;
use crate::net::SocketAddr;
use vstd::prelude::*;

verus! {

/// No conversation stands in the list twice.
pub open spec fn each_once(list: Seq<ConversationView>) -> bool {
    forall|i: int, j: int|
        0 <= i < j < list.len() ==> (#[trigger] list[i]).conv != (#[trigger] list[j]).conv
}

/// The place of a conversation in the list is where it stands.
pub proof fn lemma_place(list: Seq<ConversationView>, conv: ConvId)
    ensures
        match conversation::place_of(list, conv) {
            Some(i) => 0 <= i < list.len() && list[i].conv == conv,
            None => forall|k: int| 0 <= k < list.len() ==> (#[trigger] list[k]).conv != conv,
        },
    decreases list.len(),
{
    if list.len() > 0 {
        lemma_place(list.drop_last(), conv);
        assert forall|k: int|
            0 <= k < list.len() && conversation::place_of(list, conv) is None implies (
        #[trigger] list[k]).conv != conv by {
            if k < list.len() - 1 {
                assert(list.drop_last()[k].conv != conv);
            }
        }
    }
}

proof fn lemma_put(list: Seq<ConversationView>, after: Seq<ConversationView>, c: ConversationView)
    requires
        each_once(list),
        match conversation::place_of(list, c.conv) {
            Some(i) => after == list.update(i, c),
            None => after == list.push(c),
        },
    ensures
        each_once(after),
        forall|k: int|
            0 <= k < after.len() && (#[trigger] after[k]).conv == c.conv ==> after[k] == c,
        forall|k: int|
            0 <= k < after.len() && (#[trigger] after[k]).conv != c.conv ==> k < list.len()
                && after[k] == list[k],
{
    lemma_place(list, c.conv);
}

/// The last user with this conversation.
pub open spec fn last_user(users: Seq<UserView>, j: int, conv: ConvId) -> bool {
    &&& 0 <= j < users.len()
    &&& ConvId::spec_of(users[j].addr) == conv
    &&& forall|i: int|
        j < i < users.len() ==> ConvId::spec_of((#[trigger] users[i]).addr) != conv
}

proof fn lemma_users(users: Seq<UserView>)
    ensures
        each_once(conversation::users_listed(users)),
        forall|k: int, j: int|
            #![trigger conversation::users_listed(users)[k], users[j]]
            0 <= k < conversation::users_listed(users).len() && last_user(
                users,
                j,
                conversation::users_listed(users)[k].conv,
            ) ==> conversation::users_listed(users)[k] == conversation::conversation_with(users[j]),
    decreases users.len(),
{
    if users.len() > 0 {
        let init = users.drop_last();
        lemma_users(init);
        let before = conversation::users_listed(init);
        let after = conversation::users_listed(users);
        let c = conversation::conversation_with(users.last());
        lemma_put(before, after, c);
        assert forall|k: int, j: int|
            #![trigger after[k], users[j]]
            0 <= k < after.len() && last_user(users, j, after[k].conv) implies after[k]
            == conversation::conversation_with(users[j]) by {
            let conv = after[k].conv;
            let n = users.len() - 1;
            if conv == c.conv {
                if j < n {
                    assert(ConvId::spec_of(users[n].addr) == conv);
                }
            } else {
                assert(j < n);
                assert(init[j] == users[j]);
                assert(last_user(init, j, conv)) by {
                    assert forall|i: int| j < i < init.len() implies ConvId::spec_of(
                        (#[trigger] init[i]).addr,
                    ) != conv by {
                        assert(users[i] == init[i]);
                    }
                }
                assert(before[k] == after[k]);
            }
        }
    }
}

proof fn lemma_thread(threads: Seq<ThreadView>, conv: ConvId)
    ensures
        ui_state::thread_place(threads, conv) is Some <==> listing::has_thread(threads, conv),
    decreases threads.len(),
{
    if threads.len() > 0 {
        let init = threads.drop_last();
        lemma_thread(init, conv);
        if threads.last().conv == conv {
            assert(threads[threads.len() - 1].conv == conv);
        } else {
            if listing::has_thread(init, conv) {
                let i = choose|i: int| 0 <= i < init.len() && (#[trigger] init[i]).conv == conv;
                assert(threads[i].conv == conv);
            }
            if listing::has_thread(threads, conv) {
                let i = choose|i: int|
                    0 <= i < threads.len() && (#[trigger] threads[i]).conv == conv;
                assert(init[i].conv == conv);
            }
        }
    }
}

/// What the previews make of an entry.
spec fn previewed(
    list: Seq<ConversationView>,
    threads: Seq<ThreadView>,
    e: ConversationView,
) -> bool {
    let conv = e.conv;
    &&& listing::has_thread(threads, conv) ==> e.subtitle == ui_state::preview_of(
        ui_state::thread_of(threads, conv),
    )
    &&& !listing::has_thread(threads, conv) ==> list.contains(e)
    &&& listing::lists(list, conv) ==> exists|j: int|
        0 <= j < list.len() && (#[trigger] list[j]).conv == conv && e == (ConversationView {
            subtitle: e.subtitle,
            ..list[j]
        })
    &&& !listing::lists(list, conv) ==> e.name == conv.text() && e.id == conv.text()
}

proof fn lemma_previews(list: Seq<ConversationView>, threads: Seq<ThreadView>)
    requires
        each_once(list),
    ensures
        each_once(ui_state::with_previews(list, threads)),
        forall|k: int|
            0 <= k < ui_state::with_previews(list, threads).len() ==> previewed(
                list,
                threads,
                #[trigger] ui_state::with_previews(list, threads)[k],
            ),
    decreases threads.len(),
{
    let after = ui_state::with_previews(list, threads);
    if threads.len() == 0 {
        assert forall|k: int| 0 <= k < after.len() implies previewed(
            list,
            threads,
            #[trigger] after[k],
        ) by {
            assert(list[k] == after[k]);
            assert(list.contains(after[k]));
            assert(list[k] == (ConversationView { subtitle: after[k].subtitle, ..list[k] }));
        }
    } else {
        let init = threads.drop_last();
        let last = threads.last();
        lemma_previews(list, init);
        let before = ui_state::with_previews(list, init);
        let preview = ui_state::preview_of(last.messages);
        lemma_place(before, last.conv);
        let place = conversation::place_of(before, last.conv);
        let c = match place {
            Some(i) => ConversationView { subtitle: preview, ..before[i] },
            None => conversation::conversation_at(last.conv, preview),
        };
        lemma_put(before, after, c);
        assert(threads[threads.len() - 1].conv == last.conv);
        assert forall|k: int| 0 <= k < after.len() implies previewed(
            list,
            threads,
            #[trigger] after[k],
        ) by {
            let e = after[k];
            let conv = e.conv;
            lemma_thread(threads, conv);
            lemma_thread(init, conv);
            if conv == last.conv {
                assert(e == c);
                match place {
                    Some(i) => {
                        assert(previewed(list, init, before[i]));
                        if listing::lists(list, conv) {
                            let j = choose|j: int|
                                0 <= j < list.len() && (#[trigger] list[j]).conv == conv
                                    && before[i] == (ConversationView {
                                    subtitle: before[i].subtitle,
                                    ..list[j]
                                });
                            assert(list[j].conv == conv && e == (ConversationView {
                                subtitle: e.subtitle,
                                ..list[j]
                            }));
                        }
                    },
                    None => {
                        if listing::lists(list, conv) {
                            lemma_kept(list, init, conv);
                            let x = choose|x: int|
                                0 <= x < before.len() && (#[trigger] before[x]).conv == conv;
                            assert(before[x].conv != conv);
                        }
                    },
                }
            } else {
                assert(e == before[k]);
                assert(previewed(list, init, before[k]));
                assert(ui_state::thread_place(threads, conv) == ui_state::thread_place(init, conv));
                lemma_place_in(init, conv);
                assert(ui_state::thread_of(threads, conv) == ui_state::thread_of(init, conv));
            }
        }
    }
}

proof fn lemma_place_in(threads: Seq<ThreadView>, conv: ConvId)
    ensures
        ui_state::thread_place(threads, conv) matches Some(i) ==> 0 <= i < threads.len()
            && threads[i].conv == conv,
    decreases threads.len(),
{
    if threads.len() > 0 {
        lemma_place_in(threads.drop_last(), conv);
    }
}

proof fn lemma_kept(list: Seq<ConversationView>, threads: Seq<ThreadView>, conv: ConvId)
    requires
        listing::lists(list, conv),
    ensures
        listing::lists(ui_state::with_previews(list, threads), conv),
    decreases threads.len(),
{
    if threads.len() > 0 {
        let init = threads.drop_last();
        lemma_kept(list, init, conv);
        let before = ui_state::with_previews(list, init);
        let after = ui_state::with_previews(list, threads);
        let i = choose|i: int| 0 <= i < before.len() && (#[trigger] before[i]).conv == conv;
        lemma_place(before, threads.last().conv);
        assert(after[i].conv == conv);
    }
}

/// An entry of the list shows who it is with, what was said last, and how much is unread: it
/// bears the name of the user if they are online, else their address; it shows the last
/// message that was exchanged, else the address and the group, or the host where there is
/// no group. No conversation is listed twice.
pub proof fn law_entry_shows(ui: UiView, k: int, j: int)
    requires
        0 <= k < ui.listed().len(),
    ensures
        ({
            let e = ui.listed()[k];
            let conv = e.conv;
            let written = net::addr_text(conv.spec_addr());
            let said = ui_state::thread_of(ui.threads, conv);
            let users = ui.users;
            &&& e.unread == if ui.unread.contains_key(conv.spec_addr()) {
                ui.unread[conv.spec_addr()]
            } else {
                0
            }
            &&& e.id == written
            &&& last_user(users, j, conv) ==> e.name == users[j].name
            &&& (forall|i: int|
                0 <= i < users.len() ==> ConvId::spec_of((#[trigger] users[i]).addr) != conv)
                ==> e.name == written
            &&& said.len() > 0 ==> e.subtitle == shown_of(said.last())
            &&& said.len() == 0 && listing::has_thread(ui.threads, conv) ==> e.subtitle
                == DisplayView::Text(Seq::empty())
            &&& last_user(users, j, conv) && !listing::has_thread(ui.threads, conv) ==> e.subtitle
                == DisplayView::Text(
                written + seq![' ', '-', ' '] + if users[j].group.len() == 0 {
                    users[j].host
                } else {
                    users[j].group
                },
            )
        }),
        each_once(ui.listed()),
{
    broadcast use vstd::seq_lib::group_to_multiset_ensures;

    reveal_strlit(" - ");
    assert(" - "@ =~= seq![' ', '-', ' ']);
    let users = conversation::users_listed(ui.users);
    let shown = ui_state::with_previews(users, ui.threads);
    let counted = ui_state::with_counts(shown, ui.unread);
    let sorted = ui.listed();
    lemma_users(ui.users);
    lemma_previews(users, ui.threads);
    conversation::law_by_name(counted);
    assert(each_once(counted)) by {
        assert forall|a: int, b: int| 0 <= a < b < counted.len() implies (#[trigger] counted[a]).conv
            != (#[trigger] counted[b]).conv by {
            assert(shown[a].conv != shown[b].conv);
        }
    }
    assert(counted.no_duplicates());
    counted.lemma_multiset_has_no_duplicates();
    let all = sorted.to_multiset();
    assert forall|x: ConversationView| all.contains(x) implies #[trigger] all.count(x) == 1 by {
        assert(counted.to_multiset().count(x) == 1);
    }
    sorted.lemma_multiset_has_no_duplicates_conv();
    assert(each_once(sorted)) by {
        assert forall|a: int, b: int| 0 <= a < b < sorted.len() implies (#[trigger] sorted[a]).conv
            != (#[trigger] sorted[b]).conv by {
            if sorted[a].conv == sorted[b].conv {
                assert(sorted.contains(sorted[a]) && sorted.contains(sorted[b]));
                assert(counted.to_multiset().count(sorted[a]) > 0);
                assert(counted.to_multiset().count(sorted[b]) > 0);
                let x = counted.index_of(sorted[a]);
                let y = counted.index_of(sorted[b]);
                assert(counted[x].conv == counted[y].conv);
                assert(x == y);
                assert(sorted[a] == sorted[b]);
            }
        }
    }
    let e = sorted[k];
    let conv = e.conv;
    assert(sorted.contains(e));
    assert(counted.to_multiset().count(e) > 0);
    let x = counted.index_of(e);
    assert(counted[x] == e);
    let d = shown[x];
    assert(e == (ConversationView { unread: unread::count_of(ui.unread, conv.spec_addr()), ..d }));
    assert(previewed(users, ui.threads, d));
    listing::law_list_of_conversations(ui, conv);
    lemma_users_convs(ui.users, conv);
    lemma_ids(ui.users);
    lemma_thread(ui.threads, conv);
    if listing::lists(users, conv) {
        let u = choose|u: int|
            0 <= u < users.len() && (#[trigger] users[u]).conv == conv && d == (ConversationView {
                subtitle: d.subtitle,
                ..users[u]
            });
        assert(users[u].id == users[u].conv.text());
        if last_user(ui.users, j, conv) {
            assert(users[u] == conversation::conversation_with(ui.users[j]));
            lemma_same_text(ui.users[j].addr);
            if !listing::has_thread(ui.threads, conv) {
                let y = users.index_of(d);
                assert(users[y] == d);
                assert(y == u);
            }
        }
    } else if last_user(ui.users, j, conv) {
        assert(listing::has_user(ui.users, conv));
    }
}

proof fn lemma_same_text(a: SocketAddr)
    ensures
        net::addr_text(ConvId::spec_of(a).spec_addr()) == net::addr_text(a),
{
}

proof fn lemma_ids(users: Seq<UserView>)
    ensures
        forall|k: int|
            0 <= k < conversation::users_listed(users).len() ==> (
            #[trigger] conversation::users_listed(users)[k]).id == conversation::users_listed(
                users,
            )[k].conv.text(),
    decreases users.len(),
{
    if users.len() > 0 {
        let init = users.drop_last();
        lemma_ids(init);
        lemma_users(init);
        let before = conversation::users_listed(init);
        let after = conversation::users_listed(users);
        let c = conversation::conversation_with(users.last());
        lemma_put(before, after, c);
        lemma_same_text(users.last().addr);
        assert forall|k: int| 0 <= k < after.len() implies (#[trigger] after[k]).id
            == after[k].conv.text() by {
            if after[k].conv != c.conv {
                assert(before[k] == after[k]);
            }
        }
    }
}

proof fn lemma_users_convs(users: Seq<UserView>, conv: ConvId)
    ensures
        listing::lists(conversation::users_listed(users), conv) <==> listing::has_user(users, conv),
    decreases users.len(),
{
    if users.len() > 0 {
        let init = users.drop_last();
        lemma_users_convs(init, conv);
        lemma_users(init);
        let before = conversation::users_listed(init);
        let after = conversation::users_listed(users);
        let c = conversation::conversation_with(users.last());
        lemma_place(before, c.conv);
        lemma_put(before, after, c);
        let n = users.len() - 1;
        if listing::has_user(init, conv) {
            let i = choose|i: int|
                0 <= i < init.len() && ConvId::spec_of((#[trigger] init[i]).addr) == conv;
            assert(ConvId::spec_of(users[i].addr) == conv);
            let x = choose|x: int| 0 <= x < before.len() && (#[trigger] before[x]).conv == conv;
            assert(after[x].conv == conv);
        }
        if c.conv == conv {
            assert(ConvId::spec_of(users[n].addr) == conv);
            match conversation::place_of(before, conv) {
                Some(i) => {
                    assert(after[i].conv == conv);
                },
                None => {
                    assert(after[before.len() as int].conv == conv);
                },
            }
        } else {
            if listing::has_user(users, conv) {
                let i = choose|i: int|
                    0 <= i < users.len() && ConvId::spec_of((#[trigger] users[i]).addr) == conv;
                assert(ConvId::spec_of(init[i].addr) == conv);
            }
            if listing::lists(after, conv) {
                let x = choose|x: int| 0 <= x < after.len() && (#[trigger] after[x]).conv == conv;
                assert(before[x].conv == conv);
            }
        }
    }
}

/// What a message is shown as in short: its text, or what it offers where it has none.
pub open spec fn shown_of(m: ChatMessage) -> DisplayView {
    if m.text@.len() == 0 && m.file is Some && m.file->0.is_dir {
        DisplayView::Folder(m.file->0.name@)
    } else if m.text@.len() == 0 && m.file is Some {
        DisplayView::File(m.file->0.name@)
    } else {
        DisplayView::Text(m.text@)
    }
}

/// A message is shown by its text; one without a text by the name of the file or the folder
/// that it offers.
pub proof fn law_message_in_short(m: &ChatMessage, r: DisplayText)
    requires
        call_ensures(conversation::display_text, (m,), r),
    ensures
        r@ == shown_of(*m),
{
    if m.text@.len() == 0 {
        assert(m.text@ =~= Seq::<char>::empty());
    }
}

/// The list is made anew where a user comes or goes and where a message is added, and counts
/// are shown as they are told; so it always shows what was said last.
pub proof fn law_list_kept_up(
    ui: UiView,
    users: Seq<UserView>,
    m: ChatMessage,
    addr: SocketAddr,
    n: u32,
    k: int,
)
    ensures
        ({
            let (w, e) = ui.past(DeltaView::UsersChanged { users });
            &&& w.users == users
            &&& w.conversations == w.listed()
            &&& w.threads == ui.threads && w.unread == ui.unread && w.has_more == ui.has_more
            &&& e == UiEvent::Changed
        }),
        ({
            let (w, e) = ui.past(DeltaView::MessageAdded { message: m });
            let conv = ConvId::spec_of(
                if m.is_me {
                    m.to
                } else {
                    m.from
                },
            );
            &&& ui_state::thread_of(w.threads, conv) == ui_state::thread_of(ui.threads, conv).push(
                m,
            )
            &&& w.conversations == w.listed()
            &&& w.users == ui.users && w.unread == ui.unread && w.has_more == ui.has_more
            &&& e == (UiEvent::MessageAdded { conv })
        }),
        ({
            let (w, e) = ui.past(DeltaView::UnreadChanged { addr, unread: n });
            &&& unread::count_of(w.unread, addr) == n
            &&& w.users == ui.users && w.threads == ui.threads && w.has_more == ui.has_more
            &&& w.conversations.len() == ui.conversations.len()
            &&& each_once(ui.conversations) && 0 <= k < ui.conversations.len() ==> w.conversations[k]
                == if ui.conversations[k].conv == ConvId::spec_of(addr) {
                ConversationView { unread: n, ..ui.conversations[k] }
            } else {
                ui.conversations[k]
            }
            &&& e == UiEvent::Changed
        }),
        ui.past(DeltaView::SettingsChanged) == (ui, UiEvent::SettingsChanged),
{
    let conv = ConvId::spec_of(
        if m.is_me {
            m.to
        } else {
            m.from
        },
    );
    mirror::law_thread_set(
        ui.threads,
        conv,
        ui_state::thread_of(ui.threads, conv).push(m),
        conv,
    );
    lemma_place(ui.conversations, ConvId::spec_of(addr));
}

/// A search finds what stands in the name or behind it, and an empty one finds everything;
/// neither case nor white space around what is searched matters.
pub proof fn law_search(
    wanted: &str,
    name: &str,
    subtitle: &str,
    r: bool,
    before: Seq<char>,
    after: Seq<char>,
    typed: &str,
    shown_name: &str,
    shown_subtitle: &str,
    s: bool,
)
    requires
        call_ensures(search::is_found_in, (wanted, name, subtitle), r),
        call_ensures(search::matches_search, (typed, shown_name, shown_subtitle), s),
    ensures
        wanted@.len() == 0 ==> r,
        name@ + seq![' '] + subtitle@ == before + wanted@ + after ==> r,
        r && wanted@.len() > 0 ==> exists|at: int|
            0 <= at && at + wanted@.len() <= name@.len() + 1 + subtitle@.len() && #[trigger] (
            name@ + seq![' '] + subtitle@).subrange(at, at + wanted@.len()) == wanted@,
        wanted@ == letter_case::lowercase(chars::trimmed(typed@)) && name@
            == letter_case::lowercase(shown_name@) && subtitle@ == letter_case::lowercase(
            shown_subtitle@,
        ) ==> r == s,
{
    let all = name@ + seq![' '] + subtitle@;
    assert(name@.push(' ') + subtitle@ =~= all);
    if all == before + wanted@ + after {
        assert(all.subrange(before.len() as int, (before.len() + wanted@.len()) as int) =~= wanted@);
        assert(chars::occurs_at(all, wanted@, before.len() as int));
    }
    if r && wanted@.len() > 0 {
        let at = choose|at: int| chars::occurs_at(all, wanted@, at);
        assert(all.subrange(at, at + wanted@.len()) == wanted@);
    }
}

/// A message that changed is changed where it is shown, and nothing else is; earlier messages
/// that come are put before those that are shown, except those that are shown already.
pub proof fn law_threads_kept_up(
    ui: UiView,
    m: ChatMessage,
    at: int,
    addr: SocketAddr,
    older: Seq<ChatMessage>,
    more: bool,
    other: ConvId,
)
    requires
        ({
            let shown = ui_state::thread_of(
                ui.threads,
                ConvId::spec_of(model::peer_of(m)),
            );
            &&& -1 <= at < shown.len()
            &&& at >= 0 ==> shown[at].id == m.id
            &&& forall|i: int|
                0 <= i < shown.len() && (i < at || at < 0) ==> (#[trigger] shown[i]).id != m.id
        }),
    ensures
        ({
            let conv = ConvId::spec_of(model::peer_of(m));
            let shown = ui_state::thread_of(ui.threads, conv);
            let (w, e) = ui.past(DeltaView::MessageUpdated { message: m });
            &&& at < 0 ==> w == ui
            &&& at >= 0 ==> ui_state::thread_of(w.threads, conv) == shown.update(at, m)
            &&& other != conv ==> ui_state::thread_of(w.threads, other) == ui_state::thread_of(
                ui.threads,
                other,
            )
            &&& w == (UiView { threads: w.threads, ..ui })
            &&& e == UiEvent::Changed
        }),
        ({
            let conv = ConvId::spec_of(addr);
            let shown = ui_state::thread_of(ui.threads, conv);
            let new = older.filter(
                |x: ChatMessage| !exists|i: int| 0 <= i < shown.len() && (#[trigger] shown[i]).id == x.id,
            );
            let (w, e) = ui.past(
                DeltaView::MessagesLoaded { addr, messages: older, has_more: more },
            );
            &&& ui_state::thread_of(w.threads, conv) == new + shown
            &&& other != conv ==> ui_state::thread_of(w.threads, other) == ui_state::thread_of(
                ui.threads,
                other,
            )
            &&& w.has_more == ui.has_more.insert(addr, more)
            &&& w.conversations == ui.conversations && w.users == ui.users && w.unread == ui.unread
            &&& e == (UiEvent::MessagesLoaded { conv, count: new.len() as usize })
        }),
{
    let conv = ConvId::spec_of(model::peer_of(m));
    let shown = ui_state::thread_of(ui.threads, conv);
    lemma_id_place(shown, m.id);
    if let Some(i) = ui_state::place_of_id(shown, m.id) {
        assert(shown[i].id == m.id);
        if at >= 0 && at < i {
            assert(shown[at].id != m.id);
        }
    } else if at >= 0 {
        assert(shown[at].id == m.id);
    }
    assert(ui_state::place_of_id(shown, m.id) == if at >= 0 {
        Some(at)
    } else {
        None
    });
    let w = ui.past(DeltaView::MessageUpdated { message: m }).0;
    mirror::law_thread_set(ui.threads, conv, shown.update(at, m), conv);
    assert(at >= 0 ==> ui_state::thread_of(w.threads, conv) == shown.update(at, m));
    assert(at < 0 ==> w == ui);
    mirror::law_thread_set(ui.threads, conv, shown.update(at, m), other);
    let there = ConvId::spec_of(addr);
    let known = ui_state::thread_of(ui.threads, there);
    let f = |x: ChatMessage| !exists|i: int| 0 <= i < known.len() && (#[trigger] known[i]).id == x.id;
    let g = |x: ChatMessage| ui_state::place_of_id(known, x.id) is None;
    assert forall|x: ChatMessage| #[trigger] f(x) == g(x) by {
        lemma_id_place(known, x.id);
    }
    lemma_same_filter(older, f, g);
    mirror::law_thread_set(ui.threads, there, older.filter(g) + known, other);
}

proof fn lemma_same_filter(
    s: Seq<ChatMessage>,
    f: spec_fn(ChatMessage) -> bool,
    g: spec_fn(ChatMessage) -> bool,
)
    requires
        forall|x: ChatMessage| #[trigger] f(x) == g(x),
    ensures
        s.filter(f) == s.filter(g),
    decreases s.len(),
{
    reveal(Seq::filter);
    if s.len() > 0 {
        lemma_same_filter(s.drop_last(), f, g);
    }
}

proof fn lemma_id_place(messages: Seq<ChatMessage>, id: u64)
    ensures
        match ui_state::place_of_id(messages, id) {
            Some(i) => 0 <= i < messages.len() && messages[i].id == id && forall|k: int|
                0 <= k < i ==> (#[trigger] messages[k]).id != id,
            None => forall|k: int| 0 <= k < messages.len() ==> (#[trigger] messages[k]).id != id,
        },
    decreases messages.len(),
{
    if messages.len() > 0 {
        let init = messages.drop_last();
        lemma_id_place(init, id);
        assert(forall|k: int| 0 <= k < init.len() ==> init[k] == #[trigger] messages[k]);
    }
}

/// The window is given what the interface holds: the list, the entry and the messages of a
/// conversation, the first of these, and whether there are earlier ones.
pub proof fn law_interface_asked(
    ui: &UiState,
    conv: ConvId,
    list: &Vec<Conversation>,
    entry: Option<&Conversation>,
    messages: Vec<ChatMessage>,
    oldest: (bool, Option<u64>),
    k: int,
)
    requires
        ui.wf(),
        call_ensures(UiState::conversations, (ui,), list),
        call_ensures(UiState::conversation, (ui, conv), entry),
        call_ensures(UiState::messages_for, (ui, conv), messages),
        call_ensures(UiState::oldest_id_and_has_more, (ui, conv), oldest),
        each_once(ui@.conversations),
    ensures
        list@.len() == ui@.conversations.len(),
        0 <= k < list@.len() ==> list@[k]@ == ui@.conversations[k],
        0 <= k < list@.len() && list@[k].conv == conv ==> entry is Some && entry->0@ == list@[k]@,
        entry is Some ==> entry->0.conv == conv,
        messages@ == ui_state::thread_of(ui@.threads, conv),
        messages@.len() > 0 ==> oldest.1 == Some(messages@[0].id),
        messages@.len() == 0 ==> oldest.1 is None,
        messages@.len() > 0 ==> (oldest.0 <==> ui@.has_more.contains_key(conv.spec_addr())
            && ui@.has_more[conv.spec_addr()]),
{
    let views = conversation::conversation_views(list@);
    assert(views.len() == list@.len());
    if 0 <= k < list@.len() {
        assert(views[k] == list@[k]@);
    }
    lemma_place(ui@.conversations, conv);
}

/// The interface starts empty, and takes over all that it is told at first.
pub proof fn law_interface_at_first(
    fresh: UiState,
    ui: UiView,
    messages: Seq<ChatMessage>,
    has_more: Seq<(SocketAddr, bool)>,
)
    requires
        call_ensures(UiState::new, (), fresh),
    ensures
        fresh@.conversations.len() == 0,
        fresh@.threads.len() == 0,
        fresh@.users.len() == 0,
        forall|a: SocketAddr| !#[trigger] fresh@.unread.contains_key(a),
        ({
            let (w, e) = ui.past(DeltaView::Sync { messages, has_more });
            &&& w.conversations == w.listed()
            &&& w.users == ui.users && w.unread == ui.unread
            &&& w.has_more == ui_state::flags_in(has_more)
            &&& e == UiEvent::Changed
        }),
{
}

} // verus!
