//! Messages, confirmations and users, as the state keeps them.
use crate::app_state::history;
use crate::app_state::model;
use crate::app_state::model::{
    ChatMessage, DeltaView, FileInfo, OnlineUser, StateCmd, UserView,
};
use crate::app_state::roster;
use crate::app_state::state;
use crate::app_state::state::{CoreState, Labels, StateView};
use crate::app_state::target;
use crate::app_state::target::Target;
use crate::app_state::unread;
use crate::ipmsg_core::event::Event;
use crate::logic;
use crate::net;
use crate::net::SocketAddr;
use vstd::prelude::*;

verus! {

/// The address under which a host is known: its own, with the common port.
pub open spec fn at_port(addr: SocketAddr) -> SocketAddr {
    match addr {
        SocketAddr::V4 { ip, .. } => SocketAddr::V4 { ip, port: 2425 },
        SocketAddr::V6 { ip, .. } => SocketAddr::V6 { ip, port: 2425, flowinfo: 0, scope_id: 0 },
    }
}

/// The client knows who it is, and the packet says that it is of the same user and host.
pub open spec fn own_header(v: StateView, user: Seq<char>, host: Seq<char>) -> bool {
    &&& v.self_name.len() > 0
    &&& v.self_host.len() > 0
    &&& user == v.self_name
    &&& host == v.self_host
}

/// How many messages of a peer are unread.
pub open spec fn unread_of(v: StateView, addr: SocketAddr) -> int {
    if v.unread.contains_key(addr) {
        v.unread[addr] as int
    } else {
        0
    }
}

/// One message was added behind the others, nothing was changed about these, and nothing
/// about the user themselves or the confirmations.
pub open spec fn one_added(v: StateView, w: StateView, m: ChatMessage) -> bool {
    &&& w.messages == v.messages.push(m)
    &&& m.id == v.next_id
    &&& v.next_id < u64::MAX ==> w.next_id == v.next_id + 1
    &&& w.self_addr == v.self_addr
    &&& w.self_name == v.self_name
    &&& w.self_host == v.self_host
}

/// What came in from a peer is a message of theirs to the user.
pub open spec fn came_in(
    v: StateView,
    m: ChatMessage,
    from: SocketAddr,
    text: String,
    now: String,
) -> bool {
    &&& m.from == at_port(from)
    &&& v.self_addr is Some ==> m.to == v.self_addr->0
    &&& v.self_addr is None ==> m.to == (SocketAddr::V4 { ip: 0x7f00_0001, port: 2425 })
    &&& !m.is_me
    &&& m.text == text
    &&& m.time == now
    &&& !m.failed
    &&& !m.delivered
    &&& m.packet_no == 0
}

/// What follows where a message of this sender came in: the message, the sender if they are
/// new, the count.
pub open spec fn told_of_arrival(
    v: StateView,
    w: StateView,
    out: state::OutcomeView,
    from: SocketAddr,
    user: Seq<char>,
    host: Seq<char>,
) -> bool {
    let a = at_port(from);
    let count = DeltaView::UnreadChanged { addr: a, unread: (unread_of(v, a) + 1) as u32 };
    let added = DeltaView::MessageAdded { message: w.messages.last() };
    let known = exists|i: int| 0 <= i < v.users.len() && (#[trigger] v.users[i]).addr == a;
    &&& unread_of(w, a) == unread_of(v, a) + 1
    &&& forall|b: SocketAddr| b != a ==> #[trigger] unread_of(w, b) == unread_of(v, b)
    &&& w.acked == v.acked
    &&& known || own_header(v, user, host) ==> w.users == v.users && out.deltas == seq![
        added,
        count,
    ]
    &&& !known && !own_header(v, user, host) ==> {
        &&& out.deltas == seq![added, DeltaView::UsersChanged { users: w.users }, count]
        &&& roster::user_at(w.users, a) == Some(
            UserView { name: user, group: Seq::empty(), host, addr: a },
        )
        &&& forall|b: SocketAddr|
            b != a ==> #[trigger] roster::user_at(w.users, b) == roster::user_at(v.users, b)
    }
    &&& out.changed
    &&& out.persist
    &&& out.arm_ack is None
}

proof fn lemma_arrival(
    v: StateView,
    from: SocketAddr,
    user: Seq<char>,
    host: Seq<char>,
    text: String,
    now: String,
    file: Option<FileInfo>,
)
    requires
        v.sound(),
        v.can_count(from),
    ensures
        ({
            let (w, out) = v.past_incoming(from, user, host, text, now, file);
            &&& one_added(v, w, w.messages.last())
            &&& came_in(v, w.messages.last(), from, text, now)
            &&& w.messages.last().file == file
            &&& told_of_arrival(v, w, out, from, user, host)
        }),
{
    let (w, out) = v.past_incoming(from, user, host, text, now, file);
    let a = at_port(from);
    assert(net::normalized(from) == a);
    let u = UserView { name: user, group: Seq::empty(), host, addr: a };
    roster::law_user_comes(v.users, u, a);
    assert forall|b: SocketAddr| b != a && !v.echoes(user, host) && !roster::is_online(v.users, a)
        implies #[trigger] roster::user_at(w.users, b) == roster::user_at(v.users, b) by {
        roster::law_user_comes(v.users, u, b);
    }
    let added = DeltaView::MessageAdded { message: w.messages.last() };
    let count = DeltaView::UnreadChanged { addr: a, unread: (unread_of(v, a) + 1) as u32 };
    if v.echoes(user, host) || roster::is_online(v.users, a) {
        assert(out.deltas =~= seq![added, count]);
    } else {
        assert(out.deltas =~= seq![added, DeltaView::UsersChanged { users: w.users }, count]);
    }
}

/// A text message that comes in is added behind all others, as a message of its sender to
/// the user, with its text and the time; it counts as unread. Its sender comes online if
/// they are not known, unless the packet bears the user's own name and host.
pub proof fn law_message_comes_in(
    v: StateView,
    from: SocketAddr,
    user: String,
    host: String,
    text: String,
    labels: Labels,
)
    requires
        v.sound(),
        unread_of(v, at_port(from)) < u32::MAX,
    ensures
        ({
            let cmd = StateCmd::ApplyEvent(Event::Message { from, user, host, text });
            let (w, out) = v.past(cmd, labels);
            let m = w.messages.last();
            &&& v.admits(cmd)
            &&& one_added(v, w, m)
            &&& came_in(v, m, from, text, labels.now)
            &&& m.file is None
            &&& told_of_arrival(v, w, out, from, user@, host@)
        }),
{
    lemma_arrival(v, from, user@, host@, text, labels.now, None);
}

/// A file or a folder that is offered is added in the same way, with the words for it as
/// its text; nothing of it is received yet, and it bears the numbers, the name, the size
/// and the kind that were stated.
pub proof fn law_offer_comes_in(
    v: StateView,
    from: SocketAddr,
    user: String,
    host: String,
    packet_no: u32,
    file_id: u32,
    name: String,
    size: u64,
    is_dir: bool,
    labels: Labels,
)
    requires
        v.sound(),
        unread_of(v, at_port(from)) < u32::MAX,
    ensures
        ({
            let cmd = StateCmd::ApplyEvent(
                Event::FileOffer { from, user, host, packet_no, file_id, name, size, is_dir },
            );
            let (w, out) = v.past(cmd, labels);
            let m = w.messages.last();
            let f = m.file->0;
            &&& v.admits(cmd)
            &&& one_added(v, w, m)
            &&& came_in(v, m, from, labels.offer, labels.now)
            &&& m.file is Some
            &&& f.packet_no == packet_no
            &&& f.file_id == file_id
            &&& f.name == name
            &&& f.size == size
            &&& f.is_dir == is_dir
            &&& f.received == 0
            &&& f.local_path is None
            &&& f.current_file is None
            &&& !f.saved && !f.error && !f.canceled && !f.sending
            &&& told_of_arrival(v, w, out, from, user@, host@)
        }),
{
    lemma_arrival(
        v,
        from,
        user@,
        host@,
        labels.offer,
        labels.now,
        Some(state::offered_file(packet_no, file_id, name, size, is_dir)),
    );
}

/// Reading a conversation sets its count to zero and no other, and touches nothing else;
/// where nothing was counted, nothing happens.
pub proof fn law_reading_clears_count(v: StateView, addr: SocketAddr, labels: Labels)
    ensures
        ({
            let (w, out) = v.past(StateCmd::ClearUnread { addr }, labels);
            let a = at_port(addr);
            &&& unread_of(w, a) == 0
            &&& forall|b: SocketAddr| b != a ==> #[trigger] unread_of(w, b) == unread_of(v, b)
            &&& w == (StateView { unread: w.unread, ..v })
            &&& v.unread.contains_key(a) ==> out.deltas == seq![
                DeltaView::UnreadChanged { addr: a, unread: 0 },
            ] && out.changed && !out.persist
            &&& !v.unread.contains_key(a) ==> w == v && out == state::silence()
            &&& out.arm_ack is None
        }),
{
    assert(net::normalized(addr) == at_port(addr));
}

/// Who comes online is listed under the name, the group and the host that they gave, in
/// place of what was listed for their address before; nobody else's entry changes, nor any
/// message. The user interface is told the new list. The user's own address, and packets
/// with their own header, are passed over.
pub proof fn law_user_comes_online(
    v: StateView,
    user: String,
    group: String,
    host: String,
    addr: SocketAddr,
    labels: Labels,
)
    requires
        v.sound(),
    ensures
        ({
            let (w, out) = v.past(
                StateCmd::ApplyEvent(Event::Online { user, group, host, addr }),
                labels,
            );
            let a = at_port(addr);
            let own = v.self_addr == Some(a) || own_header(v, user@, host@);
            &&& own ==> w == v && out == state::silence()
            &&& !own ==> {
                &&& w == (StateView { users: w.users, ..v })
                &&& roster::user_at(w.users, a) == Some(
                    UserView { name: user@, group: group@, host: host@, addr: a },
                )
                &&& forall|b: SocketAddr|
                    b != a ==> #[trigger] roster::user_at(w.users, b) == roster::user_at(v.users, b)
                &&& out.deltas == seq![DeltaView::UsersChanged { users: w.users }]
                &&& out.changed && out.persist && out.arm_ack is None
            }
        }),
{
    let a = at_port(addr);
    assert(net::normalized(addr) == a);
    let u = UserView { name: user@, group: group@, host: host@, addr: a };
    roster::law_user_comes(v.users, u, a);
    let w = v.past(StateCmd::ApplyEvent(Event::Online { user, group, host, addr }), labels).0;
    assert forall|b: SocketAddr| b != a && !(v.self_addr == Some(a) || own_header(v, user@, host@))
        implies #[trigger] roster::user_at(w.users, b) == roster::user_at(v.users, b) by {
        roster::law_user_comes(v.users, u, b);
    }
}

/// Who takes leave is not listed any more, whatever name they give; nobody else's entry
/// changes, nor any message. Who was not listed, and the user themselves, changes nothing
/// by it.
pub proof fn law_user_goes_offline(
    v: StateView,
    user: String,
    host: String,
    addr: SocketAddr,
    labels: Labels,
)
    requires
        v.sound(),
    ensures
        ({
            let (w, out) = v.past(
                StateCmd::ApplyEvent(Event::Offline { user, host, addr }),
                labels,
            );
            let a = at_port(addr);
            let listed = exists|i: int| 0 <= i < v.users.len() && (#[trigger] v.users[i]).addr == a;
            &&& v.self_addr == Some(a) || !listed ==> w == v && out == state::silence()
            &&& v.self_addr != Some(a) && listed ==> {
                &&& w == (StateView { users: w.users, ..v })
                &&& roster::user_at(w.users, a) is None
                &&& forall|b: SocketAddr|
                    b != a ==> #[trigger] roster::user_at(w.users, b) == roster::user_at(v.users, b)
                &&& out.deltas == seq![DeltaView::UsersChanged { users: w.users }]
                &&& out.changed && out.persist && out.arm_ack is None
            }
        }),
{
    let a = at_port(addr);
    assert(net::normalized(addr) == a);
    roster::law_user_goes(v.users, a, a);
    let w = v.past(StateCmd::ApplyEvent(Event::Offline { user, host, addr }), labels).0;
    assert forall|b: SocketAddr| b != a && v.self_addr != Some(a) && roster::is_online(v.users, a)
        implies #[trigger] roster::user_at(w.users, b) == roster::user_at(v.users, b) by {
        roster::law_user_goes(v.users, a, b);
    }
}

/// Once the client knows who it is, the user is listed under their own name, and packets
/// with their header are known. No message changes by it.
pub proof fn law_client_knows_itself(
    v: StateView,
    user: String,
    group: String,
    host: String,
    addr: SocketAddr,
    labels: Labels,
)
    requires
        v.sound(),
    ensures
        ({
            let (w, out) = v.past(StateCmd::InitSelf { user, group, host, addr }, labels);
            let a = at_port(addr);
            &&& w.self_addr == Some(a)
            &&& w.self_name == user@
            &&& w.self_host == host@
            &&& roster::user_at(w.users, a) == Some(
                UserView { name: user@, group: group@, host: host@, addr: a },
            )
            &&& forall|b: SocketAddr|
                b != a ==> #[trigger] roster::user_at(w.users, b) == roster::user_at(v.users, b)
            &&& w.messages == v.messages
            &&& w.unread == v.unread
            &&& w.acked == v.acked
            &&& w.next_id == v.next_id
            &&& out.deltas == seq![DeltaView::UsersChanged { users: w.users }]
            &&& out.changed && out.persist && out.arm_ack is None
        }),
{
    let a = at_port(addr);
    assert(net::normalized(addr) == a);
    let u = UserView { name: user@, group: group@, host: host@, addr: a };
    roster::law_user_comes(v.users, u, a);
    let w = v.past(StateCmd::InitSelf { user, group, host, addr }, labels).0;
    assert forall|b: SocketAddr| b != a implies #[trigger] roster::user_at(w.users, b)
        == roster::user_at(v.users, b) by {
        roster::law_user_comes(v.users, u, b);
    }
}

/// A text that the user sends is added as their message to that peer. Where it went out its
/// packet is waited for, unless it was confirmed already, and then it is delivered at once.
/// Where it could not go out it has failed, and nothing is waited for.
pub proof fn law_text_sent(
    v: StateView,
    from: SocketAddr,
    to: SocketAddr,
    text: String,
    now: String,
    sent: Option<u32>,
    m: ChatMessage,
    labels: Labels,
)
    requires
        call_ensures(logic::text_message, (from, to, text, now, sent), m),
        sent is Some ==> sent->0 != 0,
    ensures
        ({
            let (w, out) = v.past(StateCmd::PushOutgoing(m), labels);
            let last = w.messages.last();
            &&& one_added(v, w, last)
            &&& w.unread == v.unread
            &&& w.users == v.users
            &&& w.acked == v.acked
            &&& last.is_me
            &&& last.from == from
            &&& last.to == to
            &&& last.text == text
            &&& last.time == now
            &&& last.file is None
            &&& sent is None ==> last.failed && !last.delivered && out.arm_ack is None
            &&& sent is Some ==> {
                &&& !last.failed
                &&& last.packet_no == sent->0
                &&& last.delivered <==> v.acked.contains(sent->0)
                &&& v.acked.contains(sent->0) ==> out.arm_ack is None
                &&& !v.acked.contains(sent->0) ==> out.arm_ack == Some(sent->0)
            }
            &&& out.deltas == seq![DeltaView::MessageAdded { message: last }]
            &&& out.changed && out.persist
        }),
{
}

/// A message of the user to the host of this peer, in this packet.
pub open spec fn went_out(m: ChatMessage, peer: SocketAddr, packet_no: u32) -> bool {
    &&& m.is_me
    &&& m.to.spec_ip() == peer.spec_ip()
    &&& m.packet_no == packet_no || (m.file is Some && m.file->0.packet_no == packet_no)
}

/// A confirmation marks the last message that went out to that host in that packet as
/// delivered, also if it was given up, and no other message; and it is remembered, for as
/// long as there is room for 4096 of them. Zero is the number of no packet.
pub proof fn law_confirmation_noted(
    v: StateView,
    from: SocketAddr,
    packet_no: u32,
    at: int,
    labels: Labels,
)
    requires
        0 <= at < v.messages.len() ==> went_out(v.messages[at], from, packet_no),
        forall|k: int|
            at < k < v.messages.len() && k >= 0 ==> !went_out(
                #[trigger] v.messages[k],
                from,
                packet_no,
            ),
        -1 <= at < v.messages.len(),
    ensures
        ({
            let (w, out) = v.past(
                StateCmd::ApplyEvent(Event::Delivered { from, packet_no }),
                labels,
            );
            &&& w == (StateView { messages: w.messages, acked: w.acked, ..v })
            &&& at < 0 ==> w.messages == v.messages && out == state::silence()
            &&& at >= 0 ==> {
                let m = ChatMessage { delivered: true, failed: false, ..v.messages[at] };
                &&& w.messages == v.messages.update(at, m)
                &&& out.deltas == seq![DeltaView::MessageUpdated { message: m }]
                &&& out.changed && out.persist && out.arm_ack is None
            }
            &&& packet_no == 0 ==> w.acked == v.acked
            &&& packet_no != 0 ==> w.acked.contains(packet_no)
            &&& forall|n: u32|
                n != packet_no ==> (#[trigger] w.acked.contains(n) <==> v.acked.contains(n) && (
                v.acked.len() < 4096 || packet_no == 0))
        }),
{
    let t = Target::Confirmed { from: net::normalized(from), packet_no };
    assert forall|k: int| 0 <= k < v.messages.len() implies (t.hits(#[trigger] v.messages[k])
        <==> went_out(v.messages[k], from, packet_no)) by {
        assert(net::normalized(v.messages[k].to) == net::normalized(from)
            <==> v.messages[k].to.spec_ip() == from.spec_ip());
    }
    target::law_last_hit(v.messages, t);
    if at >= 0 {
        assert(t.hits(v.messages[at]));
    }
    assert(target::last_hit(v.messages, t) == if at >= 0 {
        Some(at)
    } else {
        None
    });
}

/// When the time for a confirmation is over, the last text message that went out in that
/// packet has failed, if it was not delivered; nothing else changes, and a message with a
/// file never fails this way.
pub proof fn law_time_is_over(v: StateView, packet_no: u32, at: int, labels: Labels)
    requires
        -1 <= at < v.messages.len(),
        at >= 0 ==> v.messages[at].is_me && v.messages[at].packet_no == packet_no
            && v.messages[at].file is None,
        forall|k: int|
            at < k < v.messages.len() && k >= 0 ==> !((#[trigger] v.messages[k]).is_me
                && v.messages[k].packet_no == packet_no && v.messages[k].file is None),
    ensures
        ({
            let (w, out) = v.past(StateCmd::AckTimeout { packet_no }, labels);
            let m = v.messages[at];
            &&& at < 0 || m.delivered || m.failed ==> w == v && out == state::silence()
            &&& at >= 0 && !m.delivered && !m.failed ==> {
                let n = ChatMessage { failed: true, ..m };
                &&& w == (StateView { messages: v.messages.update(at, n), ..v })
                &&& out.deltas == seq![DeltaView::MessageUpdated { message: n }]
                &&& out.changed && out.persist && out.arm_ack is None
            }
        }),
{
    let t = Target::Awaiting { packet_no };
    target::law_last_hit(v.messages, t);
    assert(target::last_hit(v.messages, t) == if at >= 0 {
        Some(at)
    } else {
        None
    });
}

/// A message that was sent again with success goes under the new numbers from then on, is
/// not failed any more, and is delivered if its packet was confirmed already; what it says
/// and whom it is for stays, and no other message changes. A text is waited for again.
pub proof fn law_sent_again(
    v: StateView,
    at: int,
    sent: Option<u32>,
    cmd: StateCmd,
    labels: Labels,
)
    requires
        0 <= at < v.messages.len(),
        forall|k: int| at < k < v.messages.len() ==> (#[trigger] v.messages[k]).id
            != v.messages[at].id,
        call_ensures(logic::retried_text, (v.messages[at].id, sent), cmd),
        sent is Some ==> sent->0 != 0,
    ensures
        ({
            let (w, out) = v.past(cmd, labels);
            let m = v.messages[at];
            let n = w.messages[at];
            &&& sent is None ==> w == v && out == state::silence()
            &&& sent is Some ==> {
                &&& w == (StateView { messages: v.messages.update(at, n), ..v })
                &&& n.from == m.from && n.to == m.to && n.is_me == m.is_me && n.text == m.text
                    && n.time == m.time && n.id == m.id
                &&& n.file is Some <==> m.file is Some
                &&& n.packet_no == sent->0
                &&& !n.failed
                &&& n.delivered <==> v.acked.contains(sent->0)
                &&& out.deltas == seq![DeltaView::MessageUpdated { message: n }]
                &&& out.changed && out.persist
                &&& m.file is None && !v.acked.contains(sent->0) ==> out.arm_ack == sent
                &&& m.file is Some || v.acked.contains(sent->0) ==> out.arm_ack is None
            }
        }),
{
    target::law_last_hit(v.messages, Target::Id { id: v.messages[at].id });
}

/// An offer that was sent again goes under the numbers of the new offer, and keeps its name,
/// its size and its path; where nothing was sent, nothing changes.
pub proof fn law_offered_again(
    v: StateView,
    at: int,
    sent: Vec<crate::ipmsg_core::offering::SentFileMeta>,
    cmd: StateCmd,
    labels: Labels,
)
    requires
        0 <= at < v.messages.len(),
        v.messages[at].file is Some,
        forall|k: int| at < k < v.messages.len() ==> (#[trigger] v.messages[k]).id
            != v.messages[at].id,
        call_ensures(logic::retried_offer, (v.messages[at].id, &sent), cmd),
    ensures
        ({
            let (w, out) = v.past(cmd, labels);
            let m = v.messages[at];
            let n = w.messages[at];
            &&& sent@.len() == 0 ==> w == v && out == state::silence()
            &&& sent@.len() > 0 ==> {
                &&& w == (StateView { messages: v.messages.update(at, n), ..v })
                &&& n.packet_no == sent@[0].packet_no
                &&& n.file == Some(
                    FileInfo {
                        packet_no: sent@[0].packet_no,
                        file_id: sent@[0].file_id,
                        ..m.file->0
                    },
                )
                &&& !n.failed
                &&& n.to == m.to && n.from == m.from && n.is_me == m.is_me && n.text == m.text
                    && n.time == m.time && n.id == m.id
                &&& out.arm_ack is None
                &&& out.deltas == seq![DeltaView::MessageUpdated { message: n }]
            }
        }),
{
    target::law_last_hit(v.messages, Target::Id { id: v.messages[at].id });
}

/// More of a conversation is its last messages before the given number, in their order and
/// at most as many as asked for; and it is told whether there are still more. The state
/// stays as it is.
pub proof fn law_more_is_loaded(
    v: StateView,
    addr: SocketAddr,
    before_id: u64,
    limit: usize,
    labels: Labels,
)
    ensures
        ({
            let (w, out) = v.past(StateCmd::LoadMore { addr, before_id, limit }, labels);
            let a = at_port(addr);
            let older = v.messages.filter(
                |m: ChatMessage|
                    (if m.is_me {
                        m.to
                    } else {
                        m.from
                    }) == a && m.id < before_id,
            );
            let n = if older.len() < limit {
                older.len() as int
            } else {
                limit as int
            };
            &&& w == v
            &&& out.deltas == seq![
                DeltaView::MessagesLoaded {
                    addr: a,
                    messages: older.subrange(older.len() - n, older.len() as int),
                    has_more: older.len() > limit,
                },
            ]
            &&& !out.changed && !out.persist && out.arm_ack is None
        }),
{
    let a = at_port(addr);
    assert(net::normalized(addr) == a);
    let f = |m: ChatMessage|
        (if m.is_me {
            m.to
        } else {
            m.from
        }) == a && m.id < before_id;
    let before = Some(before_id);
    let g = |m: ChatMessage| model::peer_of(m) == a && (before matches Some(b) ==> m.id < b);
    lemma_same_filter(v.messages, f, g);
    let older = v.messages.filter(f);
    assert(history::selected(v.messages, a, before) == v.messages.filter(g));
    let n = if older.len() < limit {
        older.len() as int
    } else {
        limit as int
    };
    assert(history::last_of(older, limit as nat) =~= older.subrange(
        older.len() - n,
        older.len() as int,
    ));
}

proof fn lemma_same_filter(
    s: Seq<ChatMessage>,
    f: spec_fn(ChatMessage) -> bool,
    g: spec_fn(ChatMessage) -> bool,
)
    requires
        forall|m: ChatMessage| #[trigger] f(m) == g(m),
    ensures
        s.filter(f) == s.filter(g),
    decreases s.len(),
{
    reveal(Seq::filter);
    if s.len() > 0 {
        lemma_same_filter(s.drop_last(), f, g);
    }
}

/// What is no news to the state changes nothing: an unknown packet, and saved settings, of
/// which only the user interface is told.
pub proof fn law_no_news(v: StateView, from: SocketAddr, raw: String, labels: Labels)
    ensures
        v.past(StateCmd::ApplyEvent(Event::Unknown { from, raw }), labels) == (v, state::silence()),
        v.past(StateCmd::SettingsSaved, labels).0 == v,
        v.past(StateCmd::SettingsSaved, labels).1.deltas == seq![DeltaView::SettingsChanged],
        !v.past(StateCmd::SettingsSaved, labels).1.changed,
        !v.past(StateCmd::SettingsSaved, labels).1.persist,
{
}

/// Messages of an earlier run are the messages of this one, each in its place and with all
/// that was known of it, under addresses with the common port and under new numbers; at
/// first everybody is offline and nothing is unread.
pub proof fn law_history_taken_over(
    s: &mut CoreState,
    messages: Vec<ChatMessage>,
    r: model::StateDelta,
)
    requires
        old(s).wf(),
        old(s)@.next_id + messages@.len() <= u64::MAX,
        call_ensures(CoreState::load_history, (s, messages), r),
    ensures
        final(s)@.messages.len() == messages@.len(),
        forall|i: int|
            0 <= i < messages@.len() ==> #[trigger] final(s)@.messages[i] == (ChatMessage {
                id: (old(s)@.next_id + i) as u64,
                from: at_port(messages@[i].from),
                to: at_port(messages@[i].to),
                ..messages@[i]
            }),
        final(s)@ == (StateView {
            messages: final(s)@.messages,
            next_id: (old(s)@.next_id + messages@.len()) as u64,
            ..old(s)@
        }),
{
    assert forall|i: int| 0 <= i < messages@.len() implies #[trigger] final(s)@.messages[i] == (
    ChatMessage {
        id: (old(s)@.next_id + i) as u64,
        from: at_port(messages@[i].from),
        to: at_port(messages@[i].to),
        ..messages@[i]
    }) by {
        assert(net::normalized(messages@[i].from) == at_port(messages@[i].from));
        assert(net::normalized(messages@[i].to) == at_port(messages@[i].to));
    }
}

/// A client that starts holds nothing, and gives its first message the number 1.
pub proof fn law_fresh_state(s: CoreState)
    requires
        call_ensures(CoreState::new, (), s),
    ensures
        s.wf(),
        s@.messages.len() == 0,
        s@.users.len() == 0,
        s@.self_addr is None,
        s@.self_name.len() == 0,
        s@.self_host.len() == 0,
        s@.next_id == 1,
        forall|a: SocketAddr| #[trigger] unread_of(s@, a) == 0,
        forall|n: u32| !#[trigger] s@.acked.contains(n),
{
}

/// What is known of the user themselves is their own entry, once the client knows who it is.
pub proof fn law_own_entry_found(s: &CoreState, r: Option<OnlineUser>)
    requires
        call_ensures(CoreState::get_self_addr_info, (s,), r),
    ensures
        s@.self_addr is None ==> r is None,
        s@.self_addr is Some ==> (r is Some <==> roster::user_at(s@.users, s@.self_addr->0) is Some),
        r is Some ==> r->0@ == roster::user_at(s@.users, s@.self_addr->0)->0,
{
}

/// Every command can be carried out, except that a count of unread messages that is full
/// takes no further one.
pub proof fn law_commands_admitted(s: &CoreState, cmd: &StateCmd, r: bool)
    requires
        call_ensures(CoreState::is_admitted, (s, cmd), r),
    ensures
        !(*cmd matches StateCmd::ApplyEvent(Event::Message { .. })) && !(
        *cmd matches StateCmd::ApplyEvent(Event::FileOffer { .. })) ==> r,
        *cmd matches StateCmd::ApplyEvent(Event::Message { from, .. }) ==> (r <==> unread_of(
            s@,
            at_port(from),
        ) < u32::MAX),
        *cmd matches StateCmd::ApplyEvent(Event::FileOffer { from, .. }) ==> (r <==> unread_of(
            s@,
            at_port(from),
        ) < u32::MAX),
{
    if let StateCmd::ApplyEvent(Event::Message { from, .. }) = *cmd {
        assert(net::normalized(from) == at_port(from));
    }
    if let StateCmd::ApplyEvent(Event::FileOffer { from, .. }) = *cmd {
        assert(net::normalized(from) == at_port(from));
    }
}

/// The state that is told a command, and its answer, are those that the laws speak of; a peer
/// has five seconds to confirm a message.
pub proof fn law_commands_carried_out(
    s: &mut CoreState,
    cmd: StateCmd,
    labels: Labels,
    r: state::Outcome,
)
    requires
        old(s).wf(),
        old(s)@.admits(cmd),
        call_ensures(CoreState::apply, (s, cmd, labels), r),
    ensures
        final(s).wf(),
        final(s)@ == old(s)@.past(cmd, labels).0,
        r@ == old(s)@.past(cmd, labels).1,
        state::ACK_TIMEOUT_SECS == 5,
{
}

} // verus!
