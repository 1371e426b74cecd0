//! The user interface shows what the state holds.
use crate::app_state::history;
use crate::app_state::laws;
use crate::app_state::model;
use crate::app_state::model::{ChatMessage, StateCmd};
use crate::app_state::state::{Labels, StateView};
use crate::app_state::target;
use crate::app_state::target::Target;
use crate::app_state::unread;
use crate::chat_shell::conv_id;
use crate::chat_shell::conv_id::ConvId;
use crate::chat_shell::ui_state;
use crate::chat_shell::ui_state::{ThreadView, UiView};
use crate::ipmsg_core::event::Event;
use crate::net;
use crate::net::SocketAddr;
use vstd::prelude::*;

verus! {

/// The user interface has the last messages of a conversation, and knows whether there
/// are more.
pub open spec fn shows_tail(v: StateView, ui: UiView, conv: ConvId) -> bool {
    let addr = conv.spec_addr();
    let all = history::selected(v.messages, addr, None);
    let shown = ui_state::thread_of(ui.threads, conv);
    &&& shown.len() <= all.len()
    &&& shown == history::last_of(all, shown.len())
    &&& (ui.has_more.contains_key(addr) && ui.has_more[addr]) == (shown.len() < all.len())
}

/// The peers of all messages have addresses without a flow label.
pub open spec fn all_plain(messages: Seq<ChatMessage>) -> bool {
    forall|i: int| 0 <= i < messages.len() ==> conv_id::plain(
        model::peer_of(#[trigger] messages[i]),
    )
}

/// The user interface shows what the state holds: of each conversation the last
/// messages, the users, and what is unread.
pub open spec fn mirrors(v: StateView, ui: UiView) -> bool {
    &&& forall|conv: ConvId| #[trigger] shows_tail(v, ui, conv)
    &&& ui.users == v.users
    &&& forall|addr: SocketAddr| #[trigger]
        unread::count_of(ui.unread, addr) == unread::count_of(v.unread, addr)
}

/// After deltas, one after the other.
pub open spec fn past_all(ui: UiView, deltas: Seq<model::DeltaView>) -> UiView
    decreases deltas.len(),
{
    if deltas.len() == 0 {
        ui
    } else {
        past_all(ui, deltas.drop_last()).past(deltas.last()).0
    }
}

proof fn lemma_thread_place(threads: Seq<ThreadView>, conv: ConvId)
    ensures
        ui_state::thread_place(threads, conv) matches Some(i) ==> 0 <= i < threads.len()
            && threads[i].conv == conv,
    decreases threads.len(),
{
    if threads.len() > 0 {
        lemma_thread_place(threads.drop_last(), conv);
    }
}

proof fn lemma_same_addrs(a: Seq<ThreadView>, b: Seq<ThreadView>, conv: ConvId)
    requires
        a.len() == b.len(),
        forall|i: int| 0 <= i < a.len() ==> (#[trigger] a[i]).conv == b[i].conv,
    ensures
        ui_state::thread_place(a, conv) == ui_state::thread_place(b, conv),
    decreases a.len(),
{
    if a.len() > 0 {
        assert(a[a.len() - 1].conv == b[b.len() - 1].conv);
        let x = a.drop_last();
        let y = b.drop_last();
        assert forall|i: int| 0 <= i < x.len() implies (#[trigger] x[i]).conv == y[i].conv by {
            assert(a[i].conv == b[i].conv);
        }
        lemma_same_addrs(x, y, conv);
    }
}

/// Setting one thread leaves the others.
pub proof fn law_thread_set(
    threads: Seq<ThreadView>,
    conv: ConvId,
    messages: Seq<ChatMessage>,
    other: ConvId,
)
    ensures
        ui_state::thread_of(ui_state::with_thread(threads, conv, messages), conv) == messages,
        other != conv ==> ui_state::thread_of(
            ui_state::with_thread(threads, conv, messages),
            other,
        ) == ui_state::thread_of(threads, other),
{
    let after = ui_state::with_thread(threads, conv, messages);
    lemma_thread_place(threads, conv);
    lemma_thread_place(threads, other);
    match ui_state::thread_place(threads, conv) {
        Some(i) => {
            lemma_same_addrs(threads, after, conv);
            lemma_same_addrs(threads, after, other);
        },
        None => {
            assert(after.drop_last() =~= threads);
        },
    }
}

proof fn lemma_selected_push(messages: Seq<ChatMessage>, m: ChatMessage, addr: SocketAddr)
    ensures
        history::selected(messages.push(m), addr, None) == if model::peer_of(m) == addr {
            history::selected(messages, addr, None).push(m)
        } else {
            history::selected(messages, addr, None)
        },
{
    reveal(Seq::filter);
    assert(messages.push(m).drop_last() =~= messages);
}

/// The threads that messages make are their conversations.
pub proof fn law_grouped(messages: Seq<ChatMessage>, conv: ConvId)
    requires
        all_plain(messages),
    ensures
        ui_state::thread_of(ui_state::grouped(messages), conv) == history::selected(
            messages,
            conv.spec_addr(),
            None,
        ),
    decreases messages.len(),
{
    let addr = conv.spec_addr();
    if messages.len() == 0 {
        reveal(Seq::filter);
        assert(history::selected(messages, addr, None) =~= Seq::<ChatMessage>::empty());
    } else {
        let init = messages.drop_last();
        let m = messages.last();
        let peer = ConvId::spec_of(model::peer_of(m));
        assert(forall|i: int| 0 <= i < init.len() ==> init[i] == messages[i]);
        assert(messages[messages.len() - 1] == m);
        law_grouped(init, conv);
        assert(init.push(m) =~= messages);
        lemma_selected_push(init, m, addr);
        let threads = ui_state::grouped(init);
        law_thread_set(
            threads,
            peer,
            ui_state::thread_of(threads, peer).push(m),
            conv,
        );
    }
}

proof fn lemma_selected_parts(a: Seq<ChatMessage>, b: Seq<ChatMessage>, addr: SocketAddr)
    ensures
        history::selected(a + b, addr, None) == history::selected(a, addr, None)
            + history::selected(b, addr, None),
    decreases b.len(),
{
    if b.len() == 0 {
        reveal(Seq::filter);
        assert(a + b =~= a);
        assert(history::selected(b, addr, None) =~= Seq::<ChatMessage>::empty());
        assert(history::selected(a, addr, None) + history::selected(b, addr, None)
            =~= history::selected(a, addr, None));
    } else {
        let init = b.drop_last();
        let m = b.last();
        lemma_selected_parts(a, init, addr);
        assert((a + init).push(m) =~= a + b);
        assert(init.push(m) =~= b);
        lemma_selected_push(a + init, m, addr);
        lemma_selected_push(init, m, addr);
        assert((history::selected(a, addr, None) + history::selected(init, addr, None)).push(m)
            =~= history::selected(a, addr, None) + history::selected(init, addr, None).push(m));
    }
}

/// All messages of a row belong to one conversation.
spec fn all_with(messages: Seq<ChatMessage>, peer: SocketAddr) -> bool {
    forall|i: int| 0 <= i < messages.len() ==> model::peer_of(#[trigger] messages[i]) == peer
}

proof fn lemma_selected_uniform(messages: Seq<ChatMessage>, peer: SocketAddr, addr: SocketAddr)
    requires
        all_with(messages, peer),
    ensures
        history::selected(messages, addr, None) == if peer == addr {
            messages
        } else {
            Seq::empty()
        },
    decreases messages.len(),
{
    if messages.len() == 0 {
        reveal(Seq::filter);
        assert(history::selected(messages, addr, None) =~= Seq::<ChatMessage>::empty());
        assert(messages =~= Seq::<ChatMessage>::empty());
    } else {
        let init = messages.drop_last();
        assert(all_with(init, peer)) by {
            assert(forall|i: int| 0 <= i < init.len() ==> init[i] == messages[i]);
        }
        lemma_selected_uniform(init, peer, addr);
        assert(init.push(messages.last()) =~= messages);
        assert(model::peer_of(messages[messages.len() - 1]) == peer);
        lemma_selected_push(init, messages.last(), addr);
    }
}

proof fn lemma_selected_with(messages: Seq<ChatMessage>, addr: SocketAddr)
    ensures
        all_with(history::selected(messages, addr, None), addr),
    decreases messages.len(),
{
    if messages.len() == 0 {
        reveal(Seq::filter);
    } else {
        let init = messages.drop_last();
        lemma_selected_with(init, addr);
        assert(init.push(messages.last()) =~= messages);
        lemma_selected_push(init, messages.last(), addr);
    }
}

/// What is shown at first of a conversation is the last of its messages.
pub proof fn lemma_windows(messages: Seq<ChatMessage>, peers: Seq<SocketAddr>, addr: SocketAddr)
    requires
        peers.no_duplicates(),
    ensures
        history::selected(history::windows(messages, peers), addr, None) == if peers.contains(
            addr,
        ) {
            history::last_of(
                history::selected(messages, addr, None),
                history::SYNC_WINDOW as nat,
            )
        } else {
            Seq::empty()
        },
    decreases peers.len(),
{
    if peers.len() == 0 {
        reveal(Seq::filter);
        assert(history::selected(history::windows(messages, peers), addr, None) =~= Seq::<
            ChatMessage,
        >::empty());
    } else {
        let init = peers.drop_last();
        let peer = peers.last();
        let window = history::last_of(
            history::selected(messages, peer, None),
            history::SYNC_WINDOW as nat,
        );
        assert(init.no_duplicates());
        lemma_windows(messages, init, addr);
        lemma_selected_parts(history::windows(messages, init), window, addr);
        lemma_selected_with(messages, peer);
        assert(all_with(window, peer));
        lemma_selected_uniform(window, peer, addr);
        assert(init.push(peer) =~= peers);
        if peer == addr {
            assert(peers[peers.len() - 1] == addr);
            assert(!init.contains(addr)) by {
                if init.contains(addr) {
                    let k = init.index_of(addr);
                    assert(peers[k] == peers[peers.len() - 1]);
                }
            }
            assert(Seq::<ChatMessage>::empty() + window =~= window);
        } else {
            assert(peers.contains(addr) <==> init.contains(addr)) by {
                if peers.contains(addr) {
                    let k = peers.index_of(addr);
                    assert(init[k] == addr);
                }
                if init.contains(addr) {
                    let k = init.index_of(addr);
                    assert(peers[k] == addr);
                }
            }
            let before = history::selected(history::windows(messages, init), addr, None);
            assert(before + Seq::<ChatMessage>::empty() =~= before);
        }
    }
}

/// The peers are those with whom there are messages, each once.
pub proof fn lemma_peers(messages: Seq<ChatMessage>, addr: SocketAddr)
    ensures
        history::peers_in(messages).no_duplicates(),
        history::peers_in(messages).contains(addr) <==> history::selected(
            messages,
            addr,
            None,
        ).len() > 0,
    decreases messages.len(),
{
    if messages.len() == 0 {
        reveal(Seq::filter);
    } else {
        let init = messages.drop_last();
        let peer = model::peer_of(messages.last());
        lemma_peers(init, addr);
        assert(init.push(messages.last()) =~= messages);
        lemma_selected_push(init, messages.last(), addr);
        let before = history::peers_in(init);
        let after = history::peers_in(messages);
        if !before.contains(peer) {
            assert(after == before.push(peer));
            assert(after[after.len() - 1] == peer);
            if before.contains(addr) {
                let k = before.index_of(addr);
                assert(after[k] == addr);
            }
            if after.contains(addr) && addr != peer {
                let k = after.index_of(addr);
                assert(before[k] == addr);
            }
        }
    }
}

/// It is known of which conversations there are more messages than are shown at first.
pub proof fn lemma_flags(messages: Seq<ChatMessage>, peers: Seq<SocketAddr>, addr: SocketAddr)
    requires
        peers.no_duplicates(),
    ensures
        ({
            let flags = ui_state::flags_in(history::overflowing(messages, peers));
            &&& flags.contains_key(addr) <==> peers.contains(addr)
            &&& peers.contains(addr) ==> flags[addr] == (history::selected(
                messages,
                addr,
                None,
            ).len() > history::SYNC_WINDOW)
        }),
    decreases peers.len(),
{
    let list = history::overflowing(messages, peers);
    if peers.len() > 0 {
        let init = peers.drop_last();
        assert(init.no_duplicates());
        lemma_flags(messages, init, addr);
        assert(list.drop_last() =~= history::overflowing(messages, init));
        if peers.contains(addr) {
            let k = peers.index_of(addr);
            if k < init.len() {
                assert(init[k] == addr);
            }
        }
        if init.contains(addr) {
            let k = init.index_of(addr);
            assert(peers[k] == addr);
        }
        assert(peers[peers.len() - 1] == peers.last());
    }
}

/// The messages of an earlier run have peers with plain addresses.
pub proof fn law_history_plain(messages: Seq<ChatMessage>, first_id: u64)
    ensures
        all_plain(history::revived(messages, first_id)),
{
}

proof fn lemma_peers_plain(messages: Seq<ChatMessage>)
    requires
        all_plain(messages),
    ensures
        forall|i: int|
            0 <= i < history::peers_in(messages).len() ==> conv_id::plain(
                #[trigger] history::peers_in(messages)[i],
            ),
    decreases messages.len(),
{
    if messages.len() > 0 {
        let init = messages.drop_last();
        assert(forall|i: int| 0 <= i < init.len() ==> init[i] == messages[i]);
        lemma_peers_plain(init);
        assert(conv_id::plain(model::peer_of(messages[messages.len() - 1])));
        let before = history::peers_in(init);
        let after = history::peers_in(messages);
        assert forall|i: int| 0 <= i < after.len() implies conv_id::plain(#[trigger] after[i]) by {
            if i < before.len() {
                assert(after[i] == before[i]);
            }
        }
    }
}

proof fn lemma_windows_plain(messages: Seq<ChatMessage>, peers: Seq<SocketAddr>)
    requires
        forall|i: int| 0 <= i < peers.len() ==> conv_id::plain(#[trigger] peers[i]),
    ensures
        all_plain(history::windows(messages, peers)),
    decreases peers.len(),
{
    if peers.len() > 0 {
        let init = peers.drop_last();
        let peer = peers.last();
        assert(forall|i: int| 0 <= i < init.len() ==> init[i] == peers[i]);
        lemma_windows_plain(messages, init);
        lemma_selected_with(messages, peer);
        assert(conv_id::plain(peers[peers.len() - 1]));
        let before = history::windows(messages, init);
        let window = history::last_of(
            history::selected(messages, peer, None),
            history::SYNC_WINDOW as nat,
        );
        let all = history::windows(messages, peers);
        assert(all_with(window, peer));
        assert forall|i: int| 0 <= i < all.len() implies conv_id::plain(
            model::peer_of(#[trigger] all[i]),
        ) by {
            if i < before.len() {
                assert(all[i] == before[i]);
            } else {
                assert(all[i] == window[i - before.len()]);
            }
        }
    }
}

/// What the user interface is told at first shows what the state holds.
pub proof fn law_first_sight(v: StateView, ui: UiView)
    requires
        all_plain(v.messages),
        ui.users == v.users,
        forall|addr: SocketAddr| #[trigger]
            unread::count_of(ui.unread, addr) == unread::count_of(v.unread, addr),
    ensures
        mirrors(
            v,
            ui.past(
                model::DeltaView::Sync {
                    messages: history::windows(v.messages, history::peers_in(v.messages)),
                    has_more: history::overflowing(v.messages, history::peers_in(v.messages)),
                },
            ).0,
        ),
{
    let peers = history::peers_in(v.messages);
    let shown = history::windows(v.messages, peers);
    let after = ui.past(
        model::DeltaView::Sync {
            messages: shown,
            has_more: history::overflowing(v.messages, peers),
        },
    ).0;
    assert forall|conv: ConvId| #[trigger] shows_tail(v, after, conv) by {
        let addr = conv.spec_addr();
        lemma_peers_plain(v.messages);
        lemma_windows_plain(v.messages, peers);
        law_grouped(shown, conv);
        lemma_peers(v.messages, addr);
        lemma_windows(v.messages, peers, addr);
        lemma_flags(v.messages, peers, addr);
        let all = history::selected(v.messages, addr, None);
        if !peers.contains(addr) {
            assert(all =~= Seq::<ChatMessage>::empty());
        }
    }
}

proof fn lemma_added(v: StateView, w: StateView, ui: UiView, m: ChatMessage)
    requires
        forall|conv: ConvId| #[trigger] shows_tail(v, ui, conv),
        w.messages == v.messages.push(m),
        conv_id::plain(model::peer_of(m)),
    ensures
        forall|conv: ConvId| #[trigger]
            shows_tail(w, ui.past(model::DeltaView::MessageAdded { message: m }).0, conv),
{
    let after = ui.past(model::DeltaView::MessageAdded { message: m }).0;
    let peer = model::peer_of(m);
    assert forall|conv: ConvId| #[trigger] shows_tail(w, after, conv) by {
        let addr = conv.spec_addr();
        assert(shows_tail(v, ui, conv));
        lemma_selected_push(v.messages, m, addr);
        let shown = ui_state::thread_of(ui.threads, conv);
        let at = ConvId::spec_of(peer);
        law_thread_set(ui.threads, at, ui_state::thread_of(ui.threads, at).push(m), conv);
        if addr == peer {
            let all = history::selected(v.messages, addr, None);
            assert(shown.push(m) =~= history::last_of(all.push(m), shown.len() + 1));
        }
    }
}

proof fn lemma_place_of_id(messages: Seq<ChatMessage>, id: u64)
    requires
        history::growing(messages),
    ensures
        match ui_state::place_of_id(messages, id) {
            Some(i) => 0 <= i < messages.len() && messages[i].id == id,
            None => forall|k: int| 0 <= k < messages.len() ==> (#[trigger] messages[k]).id != id,
        },
    decreases messages.len(),
{
    if messages.len() > 0 {
        let init = messages.drop_last();
        assert(history::growing(init)) by {
            assert(forall|i: int| 0 <= i < init.len() ==> init[i] == messages[i]);
        }
        lemma_place_of_id(init, id);
        assert(forall|i: int| 0 <= i < init.len() ==> init[i] == messages[i]);
    }
}

/// Where in its conversation a message stands.
proof fn lemma_selected_update(messages: Seq<ChatMessage>, i: int, m: ChatMessage, addr: SocketAddr)
    -> (j: int)
    requires
        0 <= i < messages.len(),
        model::peer_of(m) == model::peer_of(messages[i]),
    ensures
        ({
            let all = history::selected(messages, addr, None);
            let after = history::selected(messages.update(i, m), addr, None);
            if model::peer_of(m) == addr {
                0 <= j < all.len() && all[j] == messages[i] && after == all.update(j, m)
            } else {
                after == all
            }
        }),
    decreases messages.len(),
{
    let init = messages.drop_last();
    let last = messages.last();
    let all = history::selected(messages, addr, None);
    assert(init.push(last) =~= messages);
    lemma_selected_push(init, last, addr);
    if i == messages.len() - 1 {
        assert(init.push(m) =~= messages.update(i, m));
        lemma_selected_push(init, m, addr);
        let before = history::selected(init, addr, None);
        if model::peer_of(m) == addr {
            assert(before.push(last).update(before.len() as int, m) =~= before.push(m));
        }
        before.len() as int
    } else {
        let j = lemma_selected_update(init, i, m, addr);
        assert(init.update(i, m).push(last) =~= messages.update(i, m));
        lemma_selected_push(init.update(i, m), last, addr);
        if model::peer_of(m) == addr {
            let before = history::selected(init, addr, None);
            assert(before.update(j, m).push(last) =~= before.push(last).update(j, m));
        }
        j
    }
}

proof fn lemma_updated(v: StateView, w: StateView, ui: UiView, i: int, m: ChatMessage)
    requires
        laws::numbered(v),
        forall|conv: ConvId| #[trigger] shows_tail(v, ui, conv),
        0 <= i < v.messages.len(),
        w.messages == v.messages.update(i, m),
        m.id == v.messages[i].id,
        model::peer_of(m) == model::peer_of(v.messages[i]),
        conv_id::plain(model::peer_of(m)),
    ensures
        forall|conv: ConvId| #[trigger]
            shows_tail(w, ui.past(model::DeltaView::MessageUpdated { message: m }).0, conv),
{
    let after = ui.past(model::DeltaView::MessageUpdated { message: m }).0;
    let peer = model::peer_of(m);
    assert forall|conv: ConvId| #[trigger] shows_tail(w, after, conv) by {
        let addr = conv.spec_addr();
        assert(shows_tail(v, ui, conv));
        assert(shows_tail(v, ui, ConvId::spec_of(peer)));
        let j = lemma_selected_update(v.messages, i, m, addr);
        let at = ConvId::spec_of(peer);
        let shown = ui_state::thread_of(ui.threads, at);
        let place = ui_state::place_of_id(shown, m.id);
        if let Some(k) = place {
            law_thread_set(ui.threads, at, shown.update(k, m), conv);
        }
        if addr == peer {
            let all = history::selected(v.messages, addr, None);
            assert(history::growing(v.messages));
            history::lemma_selected(v.messages, addr, 0);
            let cut = all.len() - shown.len();
            assert forall|a: int, b: int| 0 <= a < b < shown.len() implies (#[trigger] shown[a]).id
                < (#[trigger] shown[b]).id by {
                assert(shown[a] == all[cut + a] && shown[b] == all[cut + b]);
            }
            lemma_place_of_id(shown, m.id);
            match place {
                Some(k) => {
                    assert(shown[k] == all[cut + k]);
                    if cut + k < j {
                        assert(all[cut + k].id < all[j].id);
                    }
                    if j < cut + k {
                        assert(all[j].id < all[cut + k].id);
                    }
                    assert(shown.update(k, m) =~= history::last_of(
                        all.update(j, m),
                        shown.len(),
                    ));
                },
                None => {
                    if j >= cut {
                        assert(shown[j - cut] == all[j]);
                    }
                    assert(shown =~= history::last_of(all.update(j, m), shown.len()));
                },
            }
        }
    }
}

proof fn lemma_unknown_all(messages: Seq<ChatMessage>, known: Seq<ChatMessage>)
    requires
        history::growing(known),
        forall|i: int, k: int|
            0 <= i < messages.len() && 0 <= k < known.len() ==> (#[trigger] messages[i]).id < (
            #[trigger] known[k]).id,
    ensures
        ui_state::unknown_of(messages, known) == messages,
    decreases messages.len(),
{
    reveal(Seq::filter);
    if messages.len() == 0 {
        assert(ui_state::unknown_of(messages, known) =~= messages);
    } else {
        let init = messages.drop_last();
        let last = messages.last();
        assert(forall|i: int| 0 <= i < init.len() ==> init[i] == messages[i]);
        lemma_unknown_all(init, known);
        lemma_place_of_id(known, last.id);
        if let Some(k) = ui_state::place_of_id(known, last.id) {
            assert(messages[messages.len() - 1].id < known[k].id);
        }
        assert(init.push(last) =~= messages);
    }
}

#[verifier::spinoff_prover]
#[verifier::rlimit(50)]
proof fn lemma_loaded(v: StateView, ui: UiView, peer: SocketAddr, limit: usize)
    requires
        laws::numbered(v),
        conv_id::plain(peer),
        forall|conv: ConvId| #[trigger] shows_tail(v, ui, conv),
        ui_state::thread_of(ui.threads, ConvId::spec_of(peer)).len() > 0,
    ensures
        ({
            let b = ui_state::thread_of(ui.threads, ConvId::spec_of(peer))[0].id;
            let older = history::selected(v.messages, peer, Some(b));
            let delta = model::DeltaView::MessagesLoaded {
                addr: peer,
                messages: history::last_of(older, limit as nat),
                has_more: older.len() > limit,
            };
            forall|conv: ConvId| #[trigger] shows_tail(v, ui.past(delta).0, conv)
        }),
{
    let shown = ui_state::thread_of(ui.threads, ConvId::spec_of(peer));
    let b = shown[0].id;
    let all = history::selected(v.messages, peer, None);
    let older = history::selected(v.messages, peer, Some(b));
    let loaded = history::last_of(older, limit as nat);
    let delta = model::DeltaView::MessagesLoaded {
        addr: peer,
        messages: loaded,
        has_more: older.len() > limit,
    };
    let after = ui.past(delta).0;
    assert(shows_tail(v, ui, ConvId::spec_of(peer)));
    assert(history::growing(v.messages));
    history::lemma_selected(v.messages, peer, b);
    let cut = all.len() - shown.len();
    assert(shown[0] == all[cut]);
    if older.len() > cut {
        assert(all[cut].id < b);
    }
    if older.len() < cut {
        assert(all[older.len() as int].id >= b);
        assert(all[older.len() as int].id < all[cut].id);
    }
    assert(older == all.take(cut));
    assert forall|i: int, k: int| 0 <= i < loaded.len() && 0 <= k < shown.len() implies (
    #[trigger] loaded[i]).id < (#[trigger] shown[k]).id by {
        let at = if older.len() <= limit {
            i
        } else {
            older.len() - limit + i
        };
        assert(loaded[i] == all[at]);
        assert(shown[k] == all[cut + k]);
        assert(all[at].id < all[cut + k].id);
    }
    assert(history::growing(shown)) by {
        assert forall|x: int, y: int| 0 <= x < y < shown.len() implies (#[trigger] shown[x]).id < (
        #[trigger] shown[y]).id by {
            assert(shown[x] == all[cut + x] && shown[y] == all[cut + y]);
        }
    }
    lemma_unknown_all(loaded, shown);
    assert forall|conv: ConvId| #[trigger] shows_tail(v, after, conv) by {
        let addr = conv.spec_addr();
        assert(shows_tail(v, ui, conv));
        law_thread_set(ui.threads, ConvId::spec_of(peer), loaded + shown, conv);
        if addr == peer {
            assert(loaded + shown =~= history::last_of(all, loaded.len() + shown.len()));
        }
    }
}

proof fn lemma_one(ui: UiView, a: model::DeltaView)
    ensures
        past_all(ui, seq![a]) == ui.past(a).0,
{
    assert(seq![a].drop_last() =~= Seq::<model::DeltaView>::empty());
    assert(past_all(ui, Seq::<model::DeltaView>::empty()) == ui);
}

proof fn lemma_two(ui: UiView, a: model::DeltaView, b: model::DeltaView)
    ensures
        past_all(ui, seq![a, b]) == ui.past(a).0.past(b).0,
{
    lemma_one(ui, a);
    assert(seq![a, b].drop_last() =~= seq![a]);
}

proof fn lemma_three(ui: UiView, a: model::DeltaView, b: model::DeltaView, c: model::DeltaView)
    ensures
        past_all(ui, seq![a, b, c]) == ui.past(a).0.past(b).0.past(c).0,
{
    lemma_two(ui, a, b);
    assert(seq![a, b, c].drop_last() =~= seq![a, b]);
}

/// The tails stay as they are where messages and threads do.
proof fn lemma_tails_stay(v: StateView, w: StateView, ui: UiView, after: UiView)
    requires
        forall|conv: ConvId| #[trigger] shows_tail(v, ui, conv),
        w.messages == v.messages,
        after.threads == ui.threads,
        after.has_more == ui.has_more,
    ensures
        forall|conv: ConvId| #[trigger] shows_tail(w, after, conv),
{
    assert forall|conv: ConvId| #[trigger] shows_tail(w, after, conv) by {
        let addr = conv.spec_addr();
        assert(shows_tail(v, ui, conv));
    }
}

proof fn lemma_plain_push(messages: Seq<ChatMessage>, m: ChatMessage)
    requires
        all_plain(messages),
        conv_id::plain(model::peer_of(m)),
    ensures
        all_plain(messages.push(m)),
{
}

proof fn lemma_plain_update(v: StateView, t: Target, m: ChatMessage)
    requires
        all_plain(v.messages),
        target::last_hit(v.messages, t) is Some,
        laws::same_message(v.messages[target::last_hit(v.messages, t)->0], m),
    ensures
        all_plain(v.messages.update(target::last_hit(v.messages, t)->0, m)),
{
    target::law_last_hit(v.messages, t);
    let at = target::last_hit(v.messages, t)->0;
    assert(conv_id::plain(model::peer_of(v.messages[at])));
}

proof fn lemma_plain_event(v: StateView, event: Event, labels: Labels)
    requires
        all_plain(v.messages),
    ensures
        all_plain(v.past_event(event, labels).0.messages),
{
    match event {
        Event::Message { from, text, .. } => {
            lemma_plain_push(
                v.messages,
                v.incoming(net::normalized(from), text, labels.now, None),
            );
        },
        Event::FileOffer { from, packet_no, file_id, name, size, is_dir, .. } => {
            let file = crate::app_state::state::offered_file(
                packet_no,
                file_id,
                name,
                size,
                is_dir,
            );
            lemma_plain_push(
                v.messages,
                v.incoming(net::normalized(from), labels.offer, labels.now, Some(file)),
            );
        },
        Event::FileServed { to, packet_no, file_id, .. } => {
            let t = Target::Served { to: net::normalized(to), packet_no, file_id };
            if let Some(i) = target::last_hit(v.messages, t) {
                lemma_plain_update(v, t, target::served(v.messages[i]));
            }
        },
        Event::FileServingStarted { to, packet_no, file_id, .. } => {
            let t = Target::Served { to: net::normalized(to), packet_no, file_id };
            if let Some(i) = target::last_hit(v.messages, t) {
                lemma_plain_update(v, t, target::serving(v.messages[i]));
            }
        },
        Event::FileServeFailed { to, packet_no, file_id, .. } => {
            let t = Target::Served { to: net::normalized(to), packet_no, file_id };
            if let Some(i) = target::last_hit(v.messages, t) {
                lemma_plain_update(v, t, target::serve_failed(v.messages[i]));
            }
        },
        Event::Delivered { from, packet_no } => {
            let t = Target::Confirmed { from: net::normalized(from), packet_no };
            if let Some(i) = target::last_hit(v.messages, t) {
                lemma_plain_update(v, t, target::confirmed(v.messages[i]));
            }
        },
        _ => {},
    }
}

proof fn lemma_plain_kept(v: StateView, cmd: StateCmd, labels: Labels)
    requires
        all_plain(v.messages),
        cmd matches StateCmd::PushOutgoing(m) ==> conv_id::plain(model::peer_of(m)),
    ensures
        all_plain(v.past(cmd, labels).0.messages),
{
    match cmd {
        StateCmd::ApplyEvent(event) => lemma_plain_event(v, event, labels),
        StateCmd::PushOutgoing(m) => lemma_plain_push(v.messages, v.outgoing(m)),
        StateCmd::AckTimeout { packet_no } => {
            let t = Target::Awaiting { packet_no };
            if let Some(i) = target::last_hit(v.messages, t) {
                lemma_plain_update(v, t, ChatMessage { failed: true, ..v.messages[i] });
            }
        },
        StateCmd::UpdateProgress {
            from,
            file_id,
            packet_no,
            target_outgoing,
            progress,
            file_name,
            local_path,
            saved,
            error,
            canceled,
        } => {
            let t = Target::Progress {
                from: net::normalized(from),
                outgoing: target_outgoing,
                packet_no,
                file_id,
            };
            if let Some(i) = target::last_hit(v.messages, t) {
                lemma_plain_update(
                    v,
                    t,
                    target::progressed(
                        v.messages[i],
                        progress,
                        file_name,
                        local_path,
                        saved,
                        error,
                        canceled,
                    ),
                );
            }
        },
        StateCmd::RetryFinished { id, ok, packet_no, file_id } => {
            let t = Target::Id { id };
            if let Some(i) = target::last_hit(v.messages, t) {
                lemma_plain_update(
                    v,
                    t,
                    target::resent(v.messages[i], packet_no, file_id, v.is_acked(packet_no)),
                );
            }
        },
        _ => {},
    }
}

proof fn lemma_mirrors_update(v: StateView, w: StateView, ui: UiView, t: Target, m: ChatMessage)
    requires
        laws::numbered(v),
        all_plain(v.messages),
        mirrors(v, ui),
        target::last_hit(v.messages, t) is Some,
        w.messages == v.messages.update(target::last_hit(v.messages, t)->0, m),
        w.users == v.users,
        w.unread == v.unread,
        laws::same_message(v.messages[target::last_hit(v.messages, t)->0], m),
    ensures
        mirrors(w, past_all(ui, seq![model::DeltaView::MessageUpdated { message: m }])),
{
    target::law_last_hit(v.messages, t);
    assert(conv_id::plain(model::peer_of(v.messages[target::last_hit(v.messages, t)->0])));
    lemma_updated(v, w, ui, target::last_hit(v.messages, t)->0, m);
    lemma_one(ui, model::DeltaView::MessageUpdated { message: m });
}

proof fn lemma_mirrors_users(v: StateView, w: StateView, ui: UiView)
    requires
        mirrors(v, ui),
        w.messages == v.messages,
        w.unread == v.unread,
    ensures
        mirrors(w, past_all(ui, seq![model::DeltaView::UsersChanged { users: w.users }])),
{
    let delta = model::DeltaView::UsersChanged { users: w.users };
    lemma_one(ui, delta);
    lemma_tails_stay(v, w, ui, ui.past(delta).0);
}

proof fn lemma_mirrors_incoming(
    v: StateView,
    ui: UiView,
    from: SocketAddr,
    user: Seq<char>,
    host: Seq<char>,
    text: String,
    now: String,
    file: Option<model::FileInfo>,
)
    requires
        mirrors(v, ui),
        v.can_count(from),
    ensures
        ({
            let (w, out) = v.past_incoming(from, user, host, text, now, file);
            mirrors(w, past_all(ui, out.deltas))
        }),
{
    let (w, out) = v.past_incoming(from, user, host, text, now, file);
    let m = w.messages.last();
    let addr = net::normalized(from);
    let count = w.unread[addr];
    let added = model::DeltaView::MessageAdded { message: m };
    let joined = model::DeltaView::UsersChanged { users: w.users };
    let counted = model::DeltaView::UnreadChanged { addr, unread: count };
    lemma_added(v, w, ui, m);
    let ui1 = ui.past(added).0;
    assert(unread::count_of(ui.unread, addr) == unread::count_of(v.unread, addr));
    if out.deltas.len() == 3 {
        assert(out.deltas =~= seq![added, joined, counted]);
        lemma_three(ui, added, joined, counted);
        let after = ui1.past(joined).0.past(counted).0;
        lemma_tails_stay(w, w, ui1, after);
        assert forall|a: SocketAddr| #[trigger]
            unread::count_of(after.unread, a) == unread::count_of(w.unread, a) by {
            assert(unread::count_of(ui.unread, a) == unread::count_of(v.unread, a));
        }
    } else {
        assert(out.deltas =~= seq![added, counted]);
        lemma_two(ui, added, counted);
        let after = ui1.past(counted).0;
        lemma_tails_stay(w, w, ui1, after);
        assert forall|a: SocketAddr| #[trigger]
            unread::count_of(after.unread, a) == unread::count_of(w.unread, a) by {
            assert(unread::count_of(ui.unread, a) == unread::count_of(v.unread, a));
        }
    }
}

proof fn lemma_mirrors_event(v: StateView, ui: UiView, event: Event, labels: Labels)
    requires
        laws::numbered(v),
        all_plain(v.messages),
        mirrors(v, ui),
        v.admits(StateCmd::ApplyEvent(event)),
    ensures
        mirrors(
            v.past_event(event, labels).0,
            past_all(ui, v.past_event(event, labels).1.deltas),
        ),
{
    let (w, out) = v.past_event(event, labels);
    match event {
        Event::Online { user, group, host, addr } => {
            lemma_mirrors_users(v, w, ui);
        },
        Event::Offline { addr, .. } => {
            lemma_mirrors_users(v, w, ui);
        },
        Event::Message { from, user, host, text } => {
            lemma_mirrors_incoming(v, ui, from, user@, host@, text, labels.now, None);
        },
        Event::FileOffer { from, user, host, packet_no, file_id, name, size, is_dir } => {
            lemma_mirrors_incoming(
                v,
                ui,
                from,
                user@,
                host@,
                labels.offer,
                labels.now,
                Some(
                    crate::app_state::state::offered_file(packet_no, file_id, name, size, is_dir),
                ),
            );
        },
        Event::FileServed { to, packet_no, file_id, .. } => {
            let t = Target::Served { to: net::normalized(to), packet_no, file_id };
            if let Some(i) = target::last_hit(v.messages, t) {
                lemma_mirrors_update(v, w, ui, t, target::served(v.messages[i]));
            }
        },
        Event::FileServingStarted { to, packet_no, file_id, .. } => {
            let t = Target::Served { to: net::normalized(to), packet_no, file_id };
            if let Some(i) = target::last_hit(v.messages, t) {
                lemma_mirrors_update(v, w, ui, t, target::serving(v.messages[i]));
            }
        },
        Event::FileServeFailed { to, packet_no, file_id, .. } => {
            let t = Target::Served { to: net::normalized(to), packet_no, file_id };
            if let Some(i) = target::last_hit(v.messages, t) {
                if !v.messages[i].file->0.canceled {
                    lemma_mirrors_update(v, w, ui, t, target::serve_failed(v.messages[i]));
                }
            }
        },
        Event::Delivered { from, packet_no } => {
            let t = Target::Confirmed { from: net::normalized(from), packet_no };
            match target::last_hit(v.messages, t) {
                Some(i) => lemma_mirrors_update(v, w, ui, t, target::confirmed(v.messages[i])),
                None => lemma_tails_stay(v, w, ui, ui),
            }
        },
        Event::Unknown { .. } => {},
    }
}

/// Whatever is done, the user interface goes on to show what the state holds, if it
/// did before: of each conversation the last messages, the users, and what is unread.
/// Earlier messages are asked for from the first one on that is shown, and the user
/// writes to addresses without a flow label, as all conversations have.
pub proof fn law_ui_follows_state(v: StateView, ui: UiView, cmd: StateCmd, labels: Labels)
    requires
        laws::numbered(v),
        all_plain(v.messages),
        mirrors(v, ui),
        v.admits(cmd),
        cmd matches StateCmd::LoadMore { addr, before_id, .. } ==> {
            let shown = ui_state::thread_of(
                ui.threads,
                ConvId::spec_of(net::normalized(addr)),
            );
            shown.len() > 0 && before_id == shown[0].id
        },
        cmd matches StateCmd::PushOutgoing(m) ==> conv_id::plain(model::peer_of(m)),
    ensures
        mirrors(v.past(cmd, labels).0, past_all(ui, v.past(cmd, labels).1.deltas)),
        all_plain(v.past(cmd, labels).0.messages),
{
    let (w, out) = v.past(cmd, labels);
    lemma_plain_kept(v, cmd, labels);
    match cmd {
        StateCmd::InitSelf { user, group, host, addr } => {
            lemma_mirrors_users(v, w, ui);
        },
        StateCmd::ApplyEvent(event) => lemma_mirrors_event(v, ui, event, labels),
        StateCmd::PushOutgoing(m) => {
            let message = v.outgoing(m);
            lemma_added(v, w, ui, message);
            lemma_one(ui, model::DeltaView::MessageAdded { message });
        },
        StateCmd::AckTimeout { packet_no } => {
            let t = Target::Awaiting { packet_no };
            if let Some(i) = target::last_hit(v.messages, t) {
                let m = v.messages[i];
                if !m.delivered && !m.failed {
                    lemma_mirrors_update(v, w, ui, t, ChatMessage { failed: true, ..m });
                }
            }
        },
        StateCmd::UpdateProgress {
            from,
            file_id,
            packet_no,
            target_outgoing,
            progress,
            file_name,
            local_path,
            saved,
            error,
            canceled,
        } => {
            let t = Target::Progress {
                from: net::normalized(from),
                outgoing: target_outgoing,
                packet_no,
                file_id,
            };
            if let Some(i) = target::last_hit(v.messages, t) {
                lemma_mirrors_update(
                    v,
                    w,
                    ui,
                    t,
                    target::progressed(
                        v.messages[i],
                        progress,
                        file_name,
                        local_path,
                        saved,
                        error,
                        canceled,
                    ),
                );
            }
        },
        StateCmd::ClearUnread { addr } => {
            let a = net::normalized(addr);
            if v.unread.contains_key(a) {
                let delta = model::DeltaView::UnreadChanged { addr: a, unread: 0 };
                lemma_one(ui, delta);
                let after = ui.past(delta).0;
                lemma_tails_stay(v, w, ui, after);
                assert forall|b: SocketAddr| #[trigger]
                    unread::count_of(after.unread, b) == unread::count_of(w.unread, b) by {
                    assert(unread::count_of(ui.unread, b) == unread::count_of(v.unread, b));
                }
            }
        },
        StateCmd::LoadMore { addr, before_id, limit } => {
            let a = net::normalized(addr);
            lemma_loaded(v, ui, a, limit);
            let older = history::selected(v.messages, a, Some(before_id));
            lemma_one(
                ui,
                model::DeltaView::MessagesLoaded {
                    addr: a,
                    messages: history::last_of(older, limit as nat),
                    has_more: older.len() > limit,
                },
            );
        },
        StateCmd::RetryFinished { id, ok, packet_no, file_id } => {
            let t = Target::Id { id };
            if ok {
                if let Some(i) = target::last_hit(v.messages, t) {
                    lemma_mirrors_update(
                        v,
                        w,
                        ui,
                        t,
                        target::resent(v.messages[i], packet_no, file_id, v.is_acked(packet_no)),
                    );
                }
            }
        },
        StateCmd::SettingsSaved => {
            lemma_one(ui, model::DeltaView::SettingsChanged);
        },
    }
}

/// No two messages have the same number.
pub open spec fn distinct_ids(messages: Seq<ChatMessage>) -> bool {
    forall|i: int, j: int|
        0 <= i < j < messages.len() ==> (#[trigger] messages[i]).id != (#[trigger] messages[j]).id
}

proof fn lemma_place_any(messages: Seq<ChatMessage>, id: u64)
    ensures
        ui_state::place_of_id(messages, id) is None ==> forall|k: int|
            0 <= k < messages.len() ==> (#[trigger] messages[k]).id != id,
    decreases messages.len(),
{
    if messages.len() > 0 {
        let init = messages.drop_last();
        lemma_place_any(init, id);
        assert(forall|k: int| 0 <= k < init.len() ==> init[k] == messages[k]);
    }
}

proof fn lemma_unknown_of(messages: Seq<ChatMessage>, known: Seq<ChatMessage>)
    requires
        distinct_ids(messages),
    ensures
        ({
            let fresh = ui_state::unknown_of(messages, known);
            &&& distinct_ids(fresh)
            &&& forall|i: int|
                0 <= i < fresh.len() ==> messages.contains(#[trigger] fresh[i])
                    && ui_state::place_of_id(known, fresh[i].id) is None
        }),
    decreases messages.len(),
{
    reveal(Seq::filter);
    if messages.len() > 0 {
        let init = messages.drop_last();
        let last = messages.last();
        assert(forall|i: int| 0 <= i < init.len() ==> init[i] == messages[i]);
        assert(distinct_ids(init));
        lemma_unknown_of(init, known);
        let before = ui_state::unknown_of(init, known);
        let fresh = ui_state::unknown_of(messages, known);
        assert forall|i: int| 0 <= i < fresh.len() implies messages.contains(#[trigger] fresh[i])
            && ui_state::place_of_id(known, fresh[i].id) is None by {
            if i < before.len() {
                assert(fresh[i] == before[i]);
                let k = init.index_of(before[i]);
                assert(messages[k] == fresh[i]);
            } else {
                assert(messages[messages.len() - 1] == fresh[i]);
            }
        }
        assert forall|i: int, j: int| 0 <= i < j < fresh.len() implies (#[trigger] fresh[i]).id != (
        #[trigger] fresh[j]).id by {
            assert(fresh[i] == before[i]);
            if j < before.len() {
                assert(fresh[j] == before[j]);
            } else {
                let k = init.index_of(before[i]);
                assert(messages[k].id != messages[messages.len() - 1].id);
            }
        }
    }
}

/// However often earlier messages come, none is shown twice.
pub proof fn law_no_message_twice(
    ui: UiView,
    addr: SocketAddr,
    messages: Seq<ChatMessage>,
    has_more: bool,
)
    requires
        distinct_ids(ui_state::thread_of(ui.threads, ConvId::spec_of(addr))),
        distinct_ids(messages),
    ensures
        distinct_ids(
            ui_state::thread_of(
                ui.past(model::DeltaView::MessagesLoaded { addr, messages, has_more }).0.threads,
                ConvId::spec_of(addr),
            ),
        ),
{
    let conv = ConvId::spec_of(addr);
    let known = ui_state::thread_of(ui.threads, conv);
    let fresh = ui_state::unknown_of(messages, known);
    lemma_unknown_of(messages, known);
    law_thread_set(ui.threads, conv, fresh + known, conv);
    let all = fresh + known;
    assert forall|i: int, j: int| 0 <= i < j < all.len() implies (#[trigger] all[i]).id != (
    #[trigger] all[j]).id by {
        if i < fresh.len() && j >= fresh.len() {
            lemma_place_any(known, fresh[i].id);
            assert(all[j] == known[j - fresh.len()]);
        } else if i >= fresh.len() {
            assert(all[i] == known[i - fresh.len()] && all[j] == known[j - fresh.len()]);
        }
    }
}

} // verus!
