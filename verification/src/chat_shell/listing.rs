//! Whom the list of conversations names.
use crate::app_state::model;
use crate::chat_shell::conv_id::ConvId;
use crate::chat_shell::conversation;
use crate::chat_shell::conversation::ConversationView;
use crate::chat_shell::ui_state;
use crate::chat_shell::ui_state::{ThreadView, UiView};
use vstd::prelude::*;

verus! {

/// The list has a conversation.
pub open spec fn lists(list: Seq<ConversationView>, conv: ConvId) -> bool {
    exists|i: int| 0 <= i < list.len() && (#[trigger] list[i]).conv == conv
}

/// A user is online whose conversation it is.
pub open spec fn has_user(users: Seq<model::UserView>, conv: ConvId) -> bool {
    exists|i: int| 0 <= i < users.len() && ConvId::spec_of((#[trigger] users[i]).addr) == conv
}

/// There is a thread of a conversation.
pub open spec fn has_thread(threads: Seq<ThreadView>, conv: ConvId) -> bool {
    exists|i: int| 0 <= i < threads.len() && (#[trigger] threads[i]).conv == conv
}

proof fn lemma_place(list: Seq<ConversationView>, conv: ConvId)
    ensures
        match conversation::place_of(list, conv) {
            Some(i) => 0 <= i < list.len() && list[i].conv == conv,
            None => !lists(list, conv),
        },
    decreases list.len(),
{
    if list.len() > 0 {
        let init = list.drop_last();
        lemma_place(init, conv);
        if lists(list, conv) && list.last().conv != conv {
            let i = choose|i: int| 0 <= i < list.len() && (#[trigger] list[i]).conv == conv;
            assert(init[i].conv == conv);
        }
    }
}

/// Setting a conversation adds its peer, and no other.
proof fn lemma_set(
    list: Seq<ConversationView>,
    after: Seq<ConversationView>,
    c: ConversationView,
    conv: ConvId,
)
    requires
        match conversation::place_of(list, c.conv) {
            Some(i) => after == list.update(i, c),
            None => after == list.push(c),
        },
    ensures
        lists(after, conv) <==> lists(list, conv) || c.conv == conv,
{
    lemma_place(list, c.conv);
    if lists(list, conv) {
        let i = choose|i: int| 0 <= i < list.len() && (#[trigger] list[i]).conv == conv;
        assert(after[i].conv == conv);
    }
    if c.conv == conv {
        match conversation::place_of(list, c.conv) {
            Some(i) => {
                assert(after[i].conv == conv);
            },
            None => {
                assert(after[list.len() as int].conv == conv);
            },
        }
    }
    if lists(after, conv) && c.conv != conv {
        let i = choose|i: int| 0 <= i < after.len() && (#[trigger] after[i]).conv == conv;
        assert(list[i].conv == conv);
    }
}

proof fn lemma_users(users: Seq<model::UserView>, conv: ConvId)
    ensures
        lists(conversation::users_listed(users), conv) <==> has_user(users, conv),
    decreases users.len(),
{
    if users.len() > 0 {
        let init = users.drop_last();
        lemma_users(init, conv);
        let c = conversation::conversation_with(users.last());
        lemma_set(
            conversation::users_listed(init),
            conversation::users_listed(users),
            c,
            conv,
        );
        if has_user(init, conv) {
            let i = choose|i: int| 0 <= i < init.len() && ConvId::spec_of((#[trigger] init[i]).addr) == conv;
            assert(ConvId::spec_of(users[i].addr) == conv);
        }
        if ConvId::spec_of(users.last().addr) == conv {
            assert(ConvId::spec_of(users[users.len() - 1].addr) == conv);
        }
        if has_user(users, conv) && ConvId::spec_of(users.last().addr) != conv {
            let i = choose|i: int| 0 <= i < users.len() && ConvId::spec_of((#[trigger] users[i]).addr) == conv;
            assert(ConvId::spec_of(init[i].addr) == conv);
        }
    }
}

proof fn lemma_previews(list: Seq<ConversationView>, threads: Seq<ThreadView>, conv: ConvId)
    ensures
        lists(ui_state::with_previews(list, threads), conv) <==> lists(list, conv) || has_thread(
            threads,
            conv,
        ),
    decreases threads.len(),
{
    if threads.len() > 0 {
        let init = threads.drop_last();
        let last = threads.last();
        lemma_previews(list, init, conv);
        let before = ui_state::with_previews(list, init);
        let after = ui_state::with_previews(list, threads);
        let preview = ui_state::preview_of(last.messages);
        lemma_place(before, last.conv);
        let c = match conversation::place_of(before, last.conv) {
            Some(i) => ConversationView { subtitle: preview, ..before[i] },
            None => conversation::conversation_at(last.conv, preview),
        };
        lemma_set(before, after, c, conv);
        if has_thread(init, conv) {
            let i = choose|i: int| 0 <= i < init.len() && (#[trigger] init[i]).conv == conv;
            assert(threads[i].conv == conv);
        }
        if last.conv == conv {
            assert(threads[threads.len() - 1].conv == conv);
        }
        if has_thread(threads, conv) && last.conv != conv {
            let i = choose|i: int| 0 <= i < threads.len() && (#[trigger] threads[i]).conv == conv;
            assert(init[i].conv == conv);
        }
    }
}

/// The list has a conversation with each user and with each peer something was said
/// with, and with nobody else; it is in the order of names.
pub proof fn law_list_of_conversations(ui: UiView, conv: ConvId)
    ensures
        lists(ui.listed(), conv) <==> has_user(ui.users, conv) || has_thread(
            ui.threads,
            conv,
        ),
        conversation::in_name_order(ui.listed()),
{
    broadcast use vstd::seq_lib::group_to_multiset_ensures;

    let users = conversation::users_listed(ui.users);
    let previewed = ui_state::with_previews(users, ui.threads);
    let counted = ui_state::with_counts(previewed, ui.unread);
    let sorted = ui.listed();
    lemma_users(ui.users, conv);
    lemma_previews(users, ui.threads, conv);
    conversation::law_by_name(counted);
    if lists(previewed, conv) {
        let i = choose|i: int|
            0 <= i < previewed.len() && (#[trigger] previewed[i]).conv == conv;
        assert(counted[i].conv == conv);
        assert(counted.contains(counted[i]));
        assert(counted.to_multiset().count(counted[i]) > 0);
        assert(sorted.contains(counted[i]));
        let k = sorted.index_of(counted[i]);
        assert(sorted[k].conv == conv);
    }
    if lists(sorted, conv) {
        let i = choose|i: int| 0 <= i < sorted.len() && (#[trigger] sorted[i]).conv == conv;
        assert(sorted.contains(sorted[i]));
        assert(sorted.to_multiset().count(sorted[i]) > 0);
        assert(counted.contains(sorted[i]));
        let k = counted.index_of(sorted[i]);
        assert(previewed[k].conv == conv);
    }
}

} // verus!
