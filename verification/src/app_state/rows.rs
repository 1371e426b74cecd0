//! What holds of the state over a whole row of commands.
use crate::app_state::laws;
use crate::app_state::model;
use crate::app_state::model::{ChatMessage, StateCmd};
use crate::app_state::state;
use crate::app_state::state::{Labels, StateView};
use crate::app_state::unread;
use crate::ipmsg_core::event::Event;
use crate::net;
use crate::net::SocketAddr;
use vstd::prelude::*;

verus! {

/// After a row of commands.
pub open spec fn past_row(v: StateView, cmds: Seq<(StateCmd, Labels)>) -> StateView
    decreases cmds.len(),
{
    if cmds.len() == 0 {
        v
    } else {
        past_row(v, cmds.drop_last()).past(cmds.last().0, cmds.last().1).0
    }
}

/// What the user interface is told over a row of commands.
pub open spec fn told_row(v: StateView, cmds: Seq<(StateCmd, Labels)>) -> Seq<model::DeltaView>
    decreases cmds.len(),
{
    if cmds.len() == 0 {
        Seq::empty()
    } else {
        told_row(v, cmds.drop_last()) + past_row(v, cmds.drop_last()).past(
            cmds.last().0,
            cmds.last().1,
        ).1.deltas
    }
}

/// The number of a message that is added.
pub open spec fn added_id(delta: model::DeltaView) -> Option<u64> {
    match delta {
        model::DeltaView::MessageAdded { message } => Some(message.id),
        _ => None,
    }
}

/// The messages that the user interface is told of have numbers within bounds, each
/// above those before it.
pub open spec fn added_growing(deltas: Seq<model::DeltaView>, low: u64, high: u64) -> bool {
    &&& forall|i: int|
        0 <= i < deltas.len() ==> (added_id(#[trigger] deltas[i]) matches Some(id) ==> low <= id
            < high)
    &&& forall|i: int, j: int|
        0 <= i < j < deltas.len() ==> (added_id(#[trigger] deltas[i]) matches Some(x) ==> (added_id(
            #[trigger] deltas[j],
        ) matches Some(y) ==> x < y))
}

/// One command adds one message at most, under the next number.
proof fn lemma_added_by(v: StateView, cmd: StateCmd, labels: Labels)
    requires
        v.next_id < u64::MAX,
    ensures
        ({
            let (w, out) = v.past(cmd, labels);
            &&& v.next_id <= w.next_id <= v.next_id + 1
            &&& forall|i: int|
                0 <= i < out.deltas.len() ==> (added_id(#[trigger] out.deltas[i]) matches Some(id)
                    ==> i == 0 && id == v.next_id && w.next_id == v.next_id + 1)
        }),
{
}

/// Over a whole row of commands no message is lost, the numbers of the messages stay
/// distinct and growing, and each message that is added has a number above those of all
/// before it.
pub proof fn law_numbers_over_row(v: StateView, cmds: Seq<(StateCmd, Labels)>)
    requires
        laws::numbered(v),
        v.next_id + cmds.len() <= u64::MAX,
    ensures
        ({
            let w = past_row(v, cmds);
            &&& laws::numbered(w)
            &&& laws::keeps_messages(v, w)
            &&& v.next_id <= w.next_id <= v.next_id + cmds.len()
            &&& added_growing(told_row(v, cmds), v.next_id, w.next_id)
        }),
    decreases cmds.len(),
{
    if cmds.len() > 0 {
        let init = cmds.drop_last();
        let (cmd, labels) = cmds.last();
        law_numbers_over_row(v, init);
        let u = past_row(v, init);
        let w = past_row(v, cmds);
        laws::law_messages_kept(u, cmd, labels);
        lemma_added_by(u, cmd, labels);
        assert forall|i: int| 0 <= i < v.messages.len() implies laws::same_message(
            v.messages[i],
            #[trigger] w.messages[i],
        ) by {
            assert(laws::same_message(v.messages[i], u.messages[i]));
            assert(laws::same_message(u.messages[i], w.messages[i]));
        }
        let before = told_row(v, init);
        let more = u.past(cmd, labels).1.deltas;
        let all = told_row(v, cmds);
        assert forall|i: int| 0 <= i < all.len() implies (added_id(
            #[trigger] all[i],
        ) matches Some(id) ==> v.next_id <= id < w.next_id) by {
            if i < before.len() {
                assert(all[i] == before[i]);
            } else {
                assert(all[i] == more[i - before.len()]);
            }
        }
        assert forall|i: int, j: int| 0 <= i < j < all.len() implies (added_id(
            #[trigger] all[i],
        ) matches Some(x) ==> (added_id(#[trigger] all[j]) matches Some(y) ==> x < y)) by {
            if j < before.len() {
                assert(all[i] == before[i] && all[j] == before[j]);
            } else {
                assert(all[j] == more[j - before.len()]);
                if i < before.len() {
                    assert(all[i] == before[i]);
                } else {
                    assert(all[i] == more[i - before.len()]);
                }
            }
        }
    }
}

/// Over a whole run: the messages of earlier runs are numbered from 1 on, whatever
/// numbers they had; each message that is added later has a number above all before it;
/// and no two messages ever have the same.
pub proof fn law_numbers_of_run(history: Seq<ChatMessage>, cmds: Seq<(StateCmd, Labels)>)
    requires
        1 + history.len() + cmds.len() <= u64::MAX,
    ensures
        ({
            let v = StateView::fresh().with_history(history);
            let w = past_row(v, cmds);
            &&& laws::numbered(w)
            &&& laws::keeps_messages(v, w)
            &&& forall|i: int|
                0 <= i < history.len() ==> (#[trigger] w.messages[i]).id == i + 1
            &&& added_growing(told_row(v, cmds), (history.len() + 1) as u64, w.next_id)
        }),
{
    let v = StateView::fresh().with_history(history);
    laws::law_history_numbered(history, StateView::fresh());
    law_numbers_over_row(v, cmds);
    let w = past_row(v, cmds);
    assert forall|i: int| 0 <= i < history.len() implies (#[trigger] w.messages[i]).id == i + 1 by {
        assert(laws::same_message(v.messages[i], w.messages[i]));
        assert(v.messages[i].id == 1 + i);
    }
}

/// Over a whole run the own entry is among the users, once the user is known.
pub proof fn law_own_entry_over_run(
    history: Seq<ChatMessage>,
    cmds: Seq<(StateCmd, Labels)>,
)
    ensures
        ({
            let w = past_row(StateView::fresh().with_history(history), cmds);
            w.sound() && laws::own_listed(w)
        }),
    decreases cmds.len(),
{
    if cmds.len() > 0 {
        let init = cmds.drop_last();
        law_own_entry_over_run(history, init);
        laws::law_own_entry_stays(
            past_row(StateView::fresh().with_history(history), init),
            cmds.last().0,
            cmds.last().1,
        );
    }
}

/// The sender of a message or an offer that comes in.
pub open spec fn sender_of(cmd: StateCmd) -> Option<SocketAddr> {
    match cmd {
        StateCmd::ApplyEvent(Event::Message { from, .. }) => Some(net::normalized(from)),
        StateCmd::ApplyEvent(Event::FileOffer { from, .. }) => Some(net::normalized(from)),
        _ => None,
    }
}

/// How many messages and offers came from a peer since the user last read them.
pub open spec fn unread_since(cmds: Seq<(StateCmd, Labels)>, a: SocketAddr) -> nat
    decreases cmds.len(),
{
    if cmds.len() == 0 {
        0
    } else {
        let before = unread_since(cmds.drop_last(), a);
        match cmds.last().0 {
            StateCmd::ClearUnread { addr } => if net::normalized(addr) == a {
                0
            } else {
                before
            },
            cmd => if sender_of(cmd) == Some(a) {
                before + 1
            } else {
                before
            },
        }
    }
}

/// The count of a peer that the user interface was told last, or `before` where it was
/// told none.
pub open spec fn last_told(deltas: Seq<model::DeltaView>, a: SocketAddr, before: u32) -> u32
    decreases deltas.len(),
{
    if deltas.len() == 0 {
        before
    } else {
        match deltas.last() {
            model::DeltaView::UnreadChanged { addr, unread } => if addr == a {
                unread
            } else {
                last_told(deltas.drop_last(), a, before)
            },
            _ => last_told(deltas.drop_last(), a, before),
        }
    }
}

proof fn lemma_last_told_parts(
    x: Seq<model::DeltaView>,
    y: Seq<model::DeltaView>,
    a: SocketAddr,
    before: u32,
)
    ensures
        last_told(x + y, a, before) == last_told(y, a, last_told(x, a, before)),
    decreases y.len(),
{
    if y.len() == 0 {
        assert(x + y =~= x);
    } else {
        lemma_last_told_parts(x, y.drop_last(), a, before);
        assert((x + y).drop_last() =~= x + y.drop_last());
        assert((x + y).last() == y.last());
    }
}

/// Nothing is told of counts.
spec fn no_counts(deltas: Seq<model::DeltaView>) -> bool {
    forall|i: int| 0 <= i < deltas.len() ==> !((#[trigger] deltas[i]) is UnreadChanged)
}

proof fn lemma_no_counts(deltas: Seq<model::DeltaView>, a: SocketAddr, before: u32)
    requires
        no_counts(deltas),
    ensures
        last_told(deltas, a, before) == before,
    decreases deltas.len(),
{
    if deltas.len() > 0 {
        assert(!(deltas[deltas.len() - 1] is UnreadChanged));
        let init = deltas.drop_last();
        assert(forall|i: int| 0 <= i < init.len() ==> init[i] == deltas[i]);
        lemma_no_counts(init, a, before);
    }
}

/// What one command does to the count of a peer, and tells of it.
proof fn lemma_count_step(v: StateView, cmd: StateCmd, labels: Labels, a: SocketAddr)
    requires
        v.admits(cmd),
        v.unread.contains_key(a) ==> v.unread[a] > 0,
    ensures
        ({
            let (w, out) = v.past(cmd, labels);
            let before = unread::count_of(v.unread, a);
            let after = unread::count_of(w.unread, a);
            &&& after == if cmd matches StateCmd::ClearUnread { addr } && net::normalized(addr)
                == a {
                0
            } else if sender_of(cmd) == Some(a) {
                before + 1
            } else {
                before as int
            }
            &&& last_told(out.deltas, a, before) == after
            &&& w.unread.contains_key(a) ==> w.unread[a] > 0
        }),
{
    let (w, out) = v.past(cmd, labels);
    let before = unread::count_of(v.unread, a);
    match cmd {
        StateCmd::ApplyEvent(Event::Message { .. }) => {
            let init = out.deltas.drop_last();
            assert(no_counts(init));
            lemma_no_counts(init, a, before);
        },
        StateCmd::ApplyEvent(Event::FileOffer { .. }) => {
            let init = out.deltas.drop_last();
            assert(no_counts(init));
            lemma_no_counts(init, a, before);
        },
        StateCmd::ClearUnread { addr } => {
            if v.unread.contains_key(net::normalized(addr)) {
                let init = out.deltas.drop_last();
                lemma_no_counts(init, a, before);
            }
        },
        _ => {
            assert(no_counts(out.deltas));
            lemma_no_counts(out.deltas, a, before);
        },
    }
}

/// Each command of a row lets no counter overflow where it comes.
pub open spec fn admits_row(v: StateView, cmds: Seq<(StateCmd, Labels)>) -> bool {
    forall|i: int|
        0 <= i < cmds.len() ==> past_row(v, cmds.take(i)).admits((#[trigger] cmds[i]).0)
}

/// The count of a peer is how many messages and offers came from it since the user last
/// read them, and that is what the user interface was told last. That they are read is
/// told exactly where there were any, so not twice in a row.
pub proof fn law_unread_over_row(
    v: StateView,
    cmds: Seq<(StateCmd, Labels)>,
    a: SocketAddr,
    addr: SocketAddr,
)
    requires
        v.unread == Map::<SocketAddr, u32>::empty(),
        admits_row(v, cmds),
        net::normalized(addr) == a,
    ensures
        ({
            let w = past_row(v, cmds);
            let since = unread_since(cmds, a);
            &&& since <= cmds.len()
            &&& unread::count_of(w.unread, a) == since
            &&& last_told(told_row(v, cmds), a, 0) == since
            &&& w.past_clear_unread(addr).1.deltas == if since > 0 {
                seq![model::DeltaView::UnreadChanged { addr: a, unread: 0 }]
            } else {
                Seq::empty()
            }
            &&& w.past_clear_unread(addr).0.past_clear_unread(addr).1 == state::silence()
        }),
{
    lemma_counts_over_row(v, cmds, a);
}

proof fn lemma_counts_over_row(v: StateView, cmds: Seq<(StateCmd, Labels)>, a: SocketAddr)
    requires
        v.unread == Map::<SocketAddr, u32>::empty(),
        admits_row(v, cmds),
    ensures
        ({
            let w = past_row(v, cmds);
            let since = unread_since(cmds, a);
            &&& since <= cmds.len()
            &&& unread::count_of(w.unread, a) == since
            &&& last_told(told_row(v, cmds), a, 0) == since
            &&& w.unread.contains_key(a) ==> w.unread[a] > 0
        }),
    decreases cmds.len(),
{
    if cmds.len() > 0 {
        let init = cmds.drop_last();
        let (cmd, labels) = cmds.last();
        assert(admits_row(v, init)) by {
            assert forall|i: int| 0 <= i < init.len() implies past_row(v, init.take(i)).admits(
                (#[trigger] init[i]).0,
            ) by {
                assert(init.take(i) =~= cmds.take(i));
                assert(cmds[i] == init[i]);
            }
        }
        lemma_counts_over_row(v, init, a);
        let u = past_row(v, init);
        assert(cmds.take(cmds.len() - 1) =~= init);
        assert(cmds[cmds.len() - 1] == cmds.last());
        assert(u.admits(cmd));
        lemma_count_step(u, cmd, labels, a);
        lemma_last_told_parts(told_row(v, init), u.past(cmd, labels).1.deltas, a, 0);
    }
}

} // verus!
