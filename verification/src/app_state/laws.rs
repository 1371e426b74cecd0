//! What holds of the state over several commands.
use crate::app_state::model;
use crate::app_state::model::{ChatMessage, FileInfo, StateCmd};
use crate::app_state::roster;
use crate::app_state::state;
use crate::app_state::state::{Labels, StateView};
use crate::app_state::target;
use crate::app_state::target::Target;
use crate::app_state::unread;
use crate::ipmsg_core::event::Event;
use crate::net;
use crate::net::SocketAddr;
use vstd::prelude::*;

verus! {

/// The numbers of the messages grow, and the next number is above them all. So no two
/// messages have the same number.
pub open spec fn numbered(v: StateView) -> bool {
    &&& forall|i: int, j: int|
        0 <= i < j < v.messages.len() ==> (#[trigger] v.messages[i]).id < (
        #[trigger] v.messages[j]).id
    &&& forall|i: int| 0 <= i < v.messages.len() ==> (#[trigger] v.messages[i]).id < v.next_id
}

/// What never changes about a message.
pub open spec fn same_message(a: ChatMessage, b: ChatMessage) -> bool {
    &&& a.id == b.id
    &&& a.from == b.from
    &&& a.to == b.to
    &&& a.is_me == b.is_me
    &&& a.text == b.text
    &&& a.time == b.time
    &&& a.file is Some <==> b.file is Some
}

/// No message is lost: what was there is there still, at the same place, and what is
/// new stands behind it.
pub open spec fn keeps_messages(before: StateView, after: StateView) -> bool {
    &&& before.messages.len() <= after.messages.len()
    &&& forall|i: int|
        0 <= i < before.messages.len() ==> same_message(
            before.messages[i],
            #[trigger] after.messages[i],
        )
}

proof fn lemma_update_keeps(v: StateView, t: Target, m: ChatMessage)
    requires
        target::last_hit(v.messages, t) is Some,
        same_message(v.messages[target::last_hit(v.messages, t)->0], m),
    ensures
        0 <= target::last_hit(v.messages, t)->0 < v.messages.len(),
        keeps_messages(v, v.past_update(target::last_hit(v.messages, t)->0, m).0),
        numbered(v) ==> numbered(v.past_update(target::last_hit(v.messages, t)->0, m).0),
{
    target::law_last_hit(v.messages, t);
}

proof fn lemma_event_keeps(v: StateView, event: Event, labels: Labels)
    requires
        numbered(v),
        v.next_id < u64::MAX,
    ensures
        numbered(v.past_event(event, labels).0),
        keeps_messages(v, v.past_event(event, labels).0),
{
    match event {
        Event::FileServed { to, packet_no, file_id, .. } => {
            let t = Target::Served { to: net::normalized(to), packet_no, file_id };
            if let Some(i) = target::last_hit(v.messages, t) {
                lemma_update_keeps(v, t, target::served(v.messages[i]));
            }
        },
        Event::FileServingStarted { to, packet_no, file_id, .. } => {
            let t = Target::Served { to: net::normalized(to), packet_no, file_id };
            if let Some(i) = target::last_hit(v.messages, t) {
                lemma_update_keeps(v, t, target::serving(v.messages[i]));
            }
        },
        Event::FileServeFailed { to, packet_no, file_id, .. } => {
            let t = Target::Served { to: net::normalized(to), packet_no, file_id };
            if let Some(i) = target::last_hit(v.messages, t) {
                lemma_update_keeps(v, t, target::serve_failed(v.messages[i]));
            }
        },
        Event::Delivered { from, packet_no } => {
            let t = Target::Confirmed { from: net::normalized(from), packet_no };
            if let Some(i) = target::last_hit(v.messages, t) {
                let w = StateView { acked: state::acked_with(v.acked, packet_no), ..v };
                lemma_update_keeps(w, t, target::confirmed(v.messages[i]));
            }
        },
        _ => {},
    }
}

/// Whatever is done, the numbers of the messages stay distinct and growing, and no
/// message is lost.
pub proof fn law_messages_kept(v: StateView, cmd: StateCmd, labels: Labels)
    requires
        numbered(v),
        v.next_id < u64::MAX,
    ensures
        numbered(v.past(cmd, labels).0),
        keeps_messages(v, v.past(cmd, labels).0),
{
    match cmd {
        StateCmd::ApplyEvent(event) => lemma_event_keeps(v, event, labels),
        StateCmd::AckTimeout { packet_no } => {
            let t = Target::Awaiting { packet_no };
            if let Some(i) = target::last_hit(v.messages, t) {
                lemma_update_keeps(v, t, ChatMessage { failed: true, ..v.messages[i] });
            }
        },
        StateCmd::UpdateProgress {
            from,
            file_id,
            packet_no,
            target_outgoing,
            progress,
            file_name,
            local_path,
            saved,
            error,
            canceled,
        } => {
            let t = Target::Progress {
                from: net::normalized(from),
                outgoing: target_outgoing,
                packet_no,
                file_id,
            };
            if let Some(i) = target::last_hit(v.messages, t) {
                lemma_update_keeps(
                    v,
                    t,
                    target::progressed(
                        v.messages[i],
                        progress,
                        file_name,
                        local_path,
                        saved,
                        error,
                        canceled,
                    ),
                );
            }
        },
        StateCmd::RetryFinished { id, ok, packet_no, file_id } => {
            let t = Target::Id { id };
            if let Some(i) = target::last_hit(v.messages, t) {
                lemma_update_keeps(
                    v,
                    t,
                    target::resent(v.messages[i], packet_no, file_id, v.is_acked(packet_no)),
                );
            }
        },
        _ => {},
    }
}

/// The messages of an earlier run get distinct and growing numbers, whatever numbers
/// they had.
pub proof fn law_history_numbered(messages: Seq<ChatMessage>, v: StateView)
    requires
        v.next_id + messages.len() <= u64::MAX,
    ensures
        numbered(v.with_history(messages)),
        forall|i: int|
            0 <= i < messages.len() ==> (#[trigger] v.with_history(messages).messages[i]).id
                == v.next_id + i,
{
}

/// A confirmation that comes before its message is added is not lost: the message is
/// delivered from the beginning, and nothing is waited for.
pub proof fn law_early_confirmation(
    v: StateView,
    from: SocketAddr,
    m: ChatMessage,
    packet_no: u32,
)
    requires
        packet_no != 0,
        m.packet_no == packet_no,
    ensures
        ({
            let confirmed = v.past_delivered(from, packet_no).0;
            let (w, out) = confirmed.past_push(m);
            w.messages.last().delivered && out.arm_ack is None
        }),
{
}

/// A confirmation that comes after its message was added reaches it, also if it comes
/// after the message was given up.
pub proof fn law_confirmation_reaches(
    v: StateView,
    m: ChatMessage,
    from: SocketAddr,
    packet_no: u32,
)
    requires
        m.is_me,
        m.packet_no == packet_no,
        net::normalized(m.to) == net::normalized(from),
    ensures
        ({
            let w = v.past_push(m).0;
            let last = w.past_delivered(from, packet_no).0.messages.last();
            last.delivered && !last.failed
        }),
        ({
            let w = v.past_push(m).0.past_timeout(packet_no).0;
            let last = w.past_delivered(from, packet_no).0.messages.last();
            last.delivered && !last.failed
        }),
{
    let pushed = v.past_push(m).0;
    assert(pushed.messages.drop_last() =~= v.messages);
    let t = Target::Confirmed { from: net::normalized(from), packet_no };
    assert(target::last_hit(pushed.messages, t) == Some(pushed.messages.len() - 1));
    target::law_last_hit(pushed.messages, Target::Awaiting { packet_no });
    let late = pushed.past_timeout(packet_no).0;
    assert(late.messages.len() == pushed.messages.len());
    assert(t.hits(late.messages.last()));
}

/// A message that is not confirmed in time fails; one that is confirmed never does.
pub proof fn law_unconfirmed_fails(v: StateView, m: ChatMessage)
    requires
        m.is_me,
        m.packet_no != 0,
        m.file is None,
        !m.failed,
    ensures
        ({
            let (w, out) = v.past_push(m);
            let last = w.past_timeout(m.packet_no).0.messages.last();
            &&& out.arm_ack is Some <==> !w.messages.last().delivered
            &&& out.arm_ack is Some ==> out.arm_ack == Some(m.packet_no)
            &&& last.failed <==> out.arm_ack is Some
        }),
{
    let w = v.past_push(m).0;
    assert(w.messages.drop_last() =~= v.messages);
    assert(target::last_hit(w.messages, Target::Awaiting { packet_no: m.packet_no }) == Some(
        w.messages.len() - 1,
    ));
}

/// The end of a waiting time changes nothing about messages that were delivered, and
/// nothing but one mark about any.
pub proof fn law_timeout_spares_delivered(v: StateView, packet_no: u32)
    ensures
        v.past_timeout(packet_no).0.messages.len() == v.messages.len(),
        forall|i: int|
            0 <= i < v.messages.len() ==> {
                let after = #[trigger] v.past_timeout(packet_no).0.messages[i];
                &&& v.messages[i].delivered ==> after == v.messages[i]
                &&& after == v.messages[i] || after == (ChatMessage {
                    failed: true,
                    ..v.messages[i]
                })
            },
{
    target::law_last_hit(v.messages, Target::Awaiting { packet_no });
}

/// A message that is sent again with success has not failed any more, goes under its
/// new number, and is waited for again; without success nothing changes.
pub proof fn law_retry(v: StateView, at: int, packet_no: u32, file_id: u32)
    requires
        numbered(v),
        0 <= at < v.messages.len(),
    ensures
        ({
            let id = v.messages[at].id;
            let (w, out) = v.past_retry(id, true, packet_no, file_id);
            &&& !w.messages[at].failed
            &&& w.messages[at].packet_no == packet_no
            &&& w.messages[at].file matches Some(f) ==> f.packet_no == packet_no && f.file_id
                == file_id
            &&& w.messages[at].delivered == v.is_acked(packet_no)
            &&& out.arm_ack == state::awaited(w.messages[at])
            &&& v.past_retry(id, false, packet_no, file_id) == (v, state::silence())
        }),
{
    target::law_last_hit(v.messages, Target::Id { id: v.messages[at].id });
}

/// Every message and every offer that comes in counts as unread for its sender alone,
/// until the user has read them.
pub proof fn law_unread(
    v: StateView,
    from: SocketAddr,
    user: Seq<char>,
    host: Seq<char>,
    text: String,
    now: String,
    file: Option<FileInfo>,
    other: SocketAddr,
)
    requires
        v.can_count(from),
    ensures
        ({
            let w = v.past_incoming(from, user, host, text, now, file).0;
            let a = net::normalized(from);
            let read = w.past_clear_unread(from).0;
            &&& unread::count_of(w.unread, a) == unread::count_of(v.unread, a) + 1
            &&& unread::count_of(read.unread, a) == 0
            &&& other != a ==> unread::count_of(w.unread, other) == unread::count_of(
                v.unread,
                other,
            ) && unread::count_of(read.unread, other) == unread::count_of(v.unread, other)
        }),
{
}

/// A header that the user's own client wrote brings nobody online: neither an
/// announcement nor a message or an offer that carries it.
pub proof fn law_echo_brings_nobody(
    v: StateView,
    from: SocketAddr,
    group: Seq<char>,
    text: String,
    now: String,
    file: Option<FileInfo>,
)
    requires
        v.self_name.len() > 0,
        v.self_host.len() > 0,
    ensures
        v.past_online(v.self_name, group, v.self_host, from).0.users == v.users,
        v.past_incoming(from, v.self_name, v.self_host, text, now, file).0.users == v.users,
{
}

/// As long as the client does not know who it is, no header is taken for its own.
pub proof fn law_unknown_self_echoes_nothing(v: StateView, user: Seq<char>, host: Seq<char>)
    requires
        v.self_name.len() == 0 || v.self_host.len() == 0,
    ensures
        !v.echoes(user, host),
{
}

/// Once the user is known, they are among the users, under their own name and host.
pub open spec fn own_listed(v: StateView) -> bool {
    v.self_addr matches Some(a) ==> (roster::user_at(v.users, a) matches Some(u) && u.name
        == v.self_name && u.host == v.self_host)
}

/// The own entry is always among the users, and in every list of users that the user
/// interface is told. Nothing but the user changes it: neither an announcement nor a
/// leave from their own address.
pub proof fn law_own_entry_stays(v: StateView, cmd: StateCmd, labels: Labels)
    requires
        v.sound(),
        own_listed(v),
    ensures
        ({
            let (w, out) = v.past(cmd, labels);
            &&& w.sound()
            &&& own_listed(w)
            &&& v.self_addr is Some ==> w.self_addr is Some
            &&& forall|i: int|
                0 <= i < out.deltas.len() ==> ((#[trigger] out.deltas[i]) matches
                model::DeltaView::UsersChanged { users } ==> users == w.users)
            &&& v.self_addr matches Some(a) ==> cmd is InitSelf || (w.self_addr == Some(a)
                && roster::user_at(w.users, a) == roster::user_at(v.users, a))
        }),
{
    match cmd {
        StateCmd::InitSelf { user, group, host, addr } => {
            let a = net::normalized(addr);
            let me = model::UserView { name: user@, group: group@, host: host@, addr: a };
            roster::law_user_comes(v.users, me, a);
        },
        StateCmd::ApplyEvent(event) => lemma_own_entry_event(v, event, labels),
        _ => {},
    }
}

proof fn lemma_own_entry_event(v: StateView, event: Event, labels: Labels)
    requires
        v.sound(),
        own_listed(v),
    ensures
        ({
            let (w, out) = v.past_event(event, labels);
            &&& w.sound()
            &&& w.self_addr == v.self_addr
            &&& w.self_name == v.self_name
            &&& w.self_host == v.self_host
            &&& v.self_addr matches Some(a) ==> roster::user_at(w.users, a) == roster::user_at(
                v.users,
                a,
            )
            &&& forall|i: int|
                0 <= i < out.deltas.len() ==> ((#[trigger] out.deltas[i]) matches
                model::DeltaView::UsersChanged { users } ==> users == w.users)
        }),
{
    let own = if v.self_addr is Some {
        v.self_addr->0
    } else {
        v.own_addr()
    };
    if v.self_addr is Some {
        lemma_found_is_online(v.users, own);
    }
    match event {
        Event::Online { user, group, host, addr } => {
            let a = net::normalized(addr);
            let u = model::UserView { name: user@, group: group@, host: host@, addr: a };
            roster::law_user_comes(v.users, u, own);
        },
        Event::Offline { addr, .. } => {
            roster::law_user_goes(v.users, net::normalized(addr), own);
        },
        Event::Message { from, user, host, .. } => {
            let a = net::normalized(from);
            let u = model::UserView { name: user@, group: Seq::empty(), host: host@, addr: a };
            roster::law_user_comes(v.users, u, own);
        },
        Event::FileOffer { from, user, host, .. } => {
            let a = net::normalized(from);
            let u = model::UserView { name: user@, group: Seq::empty(), host: host@, addr: a };
            roster::law_user_comes(v.users, u, own);
        },
        _ => {},
    }
}

/// Neither an announcement nor a leave from the own address does anything.
pub proof fn law_own_address_is_silent(
    v: StateView,
    user: Seq<char>,
    group: Seq<char>,
    host: Seq<char>,
    addr: SocketAddr,
)
    requires
        v.self_addr == Some(net::normalized(addr)),
    ensures
        v.past_online(user, group, host, addr) == (v, state::silence()),
        v.past_offline(addr) == (v, state::silence()),
{
}

/// A peer who announces themselves is online under the name they gave, and is gone
/// once they took leave.
pub proof fn law_online_offline(
    v: StateView,
    user: Seq<char>,
    group: Seq<char>,
    host: Seq<char>,
    addr: SocketAddr,
)
    requires
        v.sound(),
        v.self_addr != Some(net::normalized(addr)),
        !v.echoes(user, host),
    ensures
        ({
            let a = net::normalized(addr);
            let on = v.past_online(user, group, host, addr).0;
            let off = on.past_offline(addr).0;
            &&& roster::user_at(on.users, a) == Some(
                model::UserView { name: user, group, host, addr: a },
            )
            &&& roster::user_at(off.users, a) is None
        }),
{
    let a = net::normalized(addr);
    let u = model::UserView { name: user, group, host, addr: a };
    roster::law_user_comes(v.users, u, a);
    let on = roster::with_user(v.users, u);
    roster::law_user_goes(on, a, a);
    lemma_found_is_online(on, a);
}

proof fn lemma_found_is_online(users: Seq<model::UserView>, addr: SocketAddr)
    ensures
        roster::user_at(users, addr) is Some ==> roster::is_online(users, addr),
    decreases users.len(),
{
    if users.len() > 0 {
        lemma_found_is_online(users.drop_last(), addr);
        if users.last().addr == addr {
            assert(users[users.len() - 1].addr == addr);
        } else if roster::is_online(users.drop_last(), addr) {
            let i = choose|i: int|
                0 <= i < users.drop_last().len() && (#[trigger] users.drop_last()[i]).addr == addr;
            assert(users[i].addr == addr);
        }
    }
}

/// Whatever is done, never are more confirmations remembered than there is room for.
pub proof fn law_confirmations_bounded(v: StateView, cmd: StateCmd, labels: Labels)
    requires
        v.acked.finite(),
        v.acked.len() <= state::ACKED_PACKETS_MAX,
    ensures
        v.past(cmd, labels).0.acked.finite(),
        v.past(cmd, labels).0.acked.len() <= state::ACKED_PACKETS_MAX,
{
    match cmd {
        StateCmd::ApplyEvent(Event::Delivered { from, packet_no }) => {
            let acked = state::acked_with(v.acked, packet_no);
            if packet_no != 0 && v.acked.len() >= state::ACKED_PACKETS_MAX {
                assert(acked == Set::<u32>::empty().insert(packet_no));
                assert(acked.len() == 1);
            } else if packet_no != 0 {
                assert(acked.len() <= v.acked.len() + 1);
            }
        },
        _ => {},
    }
}

} // verus!
