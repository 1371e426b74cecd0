use ipmsg::app_state::label::{offer_label, OfferLabel};
use ipmsg::app_state::model::{ChatMessage, FileInfo, OnlineUser, StateCmd, StateDelta};
use ipmsg::app_state::state::{
    packet_header_echoes_self, CoreState, Labels, Outcome, ACKED_PACKETS_MAX,
};
use ipmsg::ipmsg_core::event::Event;
use ipmsg::net::{parse_ipv4, SocketAddr};

fn state_with_self(name: &str, host: &str) -> CoreState {
    let mut state = CoreState::new();
    state.self_name = name.to_string();
    state.self_host = host.to_string();
    state
}

/// A header that is sent back must not bring its sender online under the own name.
#[test]
fn echoed_packet_header_is_detected() {
    let state = state_with_self("台式机", "DESKTOP-ABC");
    assert!(packet_header_echoes_self(&state, "台式机", "DESKTOP-ABC"));
    // The same user name alone is no echo.
    assert!(!packet_header_echoes_self(&state, "台式机", "Android-Phone"));
    // The same host alone is no echo.
    assert!(!packet_header_echoes_self(&state, "LOMO", "DESKTOP-ABC"));
}

/// As long as the client does not know who it is, nothing is an echo.
#[test]
fn uninitialized_self_never_matches() {
    let state = CoreState::new();
    assert!(!packet_header_echoes_self(&state, "", ""));
    assert!(!packet_header_echoes_self(&state, "台式机", "DESKTOP-ABC"));
}

fn addr(ip: &str, port: u16) -> SocketAddr {
    SocketAddr::V4 { ip: parse_ipv4(ip).unwrap(), port }
}

fn labels() -> Labels {
    Labels { now: "now".to_string(), offer: "an offer".to_string() }
}

fn run(state: &mut CoreState, cmd: StateCmd) -> Outcome {
    assert!(state.is_admitted(&cmd));
    state.apply(cmd, labels())
}

fn event(state: &mut CoreState, event: Event) -> Outcome {
    run(state, StateCmd::ApplyEvent(event))
}

fn incoming(ip: &str, user: &str, text: &str) -> Event {
    Event::Message {
        from: addr(ip, 40000),
        user: user.to_string(),
        host: format!("{user}-host"),
        text: text.to_string(),
    }
}

fn online(ip: &str, user: &str) -> Event {
    Event::Online {
        user: user.to_string(),
        group: "g".to_string(),
        host: format!("{user}-host"),
        addr: addr(ip, 40000),
    }
}

fn outgoing(to: &str, packet_no: u32) -> ChatMessage {
    ChatMessage {
        from: addr("10.0.0.1", 2425),
        to: addr(to, 2425),
        is_me: true,
        text: "out".to_string(),
        time: "now".to_string(),
        file: None,
        failed: packet_no == 0,
        packet_no,
        delivered: false,
        id: 0,
    }
}

fn file(packet_no: u32, file_id: u32, size: u64) -> FileInfo {
    FileInfo {
        packet_no,
        file_id,
        name: "f".to_string(),
        size,
        saved: false,
        received: 0,
        is_dir: false,
        local_path: Some("/f".to_string()),
        current_file: None,
        error: false,
        canceled: false,
        sending: false,
    }
}

fn init(state: &mut CoreState) {
    run(
        state,
        StateCmd::InitSelf {
            user: "me".to_string(),
            group: "g".to_string(),
            host: "me-host".to_string(),
            addr: addr("10.0.0.1", 9),
        },
    );
}

fn names(users: &[OnlineUser]) -> Vec<&str> {
    users.iter().map(|u| u.name.as_str()).collect()
}

#[test]
fn users_come_and_go_in_order() {
    let mut s = CoreState::new();
    assert!(s.get_self_addr_info().is_none());
    init(&mut s);
    assert_eq!(s.get_self_addr_info().unwrap().name, "me");
    event(&mut s, online("10.0.0.9", "z"));
    let out = event(&mut s, online("10.0.0.3", "c"));
    assert!(out.changed && out.persist);
    match &out.deltas[0] {
        StateDelta::UsersChanged { users } => assert_eq!(names(users), ["me", "c", "z"]),
        d => panic!("{d:?}"),
    }
    let out = event(&mut s, online("10.0.0.3", "C"));
    assert_eq!(out.deltas.len(), 1);
    assert_eq!(names(&s.online_users), ["me", "C", "z"]);
    // The own address, and an echo, change nothing.
    assert!(event(&mut s, online("10.0.0.1", "other")).deltas.is_empty());
    assert!(event(&mut s, online("10.0.0.5", "me")).deltas.is_empty());
    let gone = Event::Offline {
        user: "C".to_string(),
        host: String::new(),
        addr: addr("10.0.0.3", 1),
    };
    assert_eq!(event(&mut s, gone.clone()).deltas.len(), 1);
    let again = event(&mut s, gone);
    assert!(again.deltas.is_empty() && !again.changed);
    assert_eq!(names(&s.online_users), ["me", "z"]);
}

#[test]
fn message_comes_in() {
    let mut s = CoreState::new();
    let out = event(&mut s, incoming("10.0.0.2", "bob", "hi"));
    assert_eq!(out.deltas.len(), 3);
    match &out.deltas[0] {
        StateDelta::MessageAdded { message } => {
            assert_eq!(message.from, addr("10.0.0.2", 2425));
            assert_eq!(message.to, addr("127.0.0.1", 2425));
            assert_eq!((message.text.as_str(), message.time.as_str()), ("hi", "now"));
            assert_eq!((message.id, message.is_me, message.packet_no), (1, false, 0));
        }
        d => panic!("{d:?}"),
    }
    assert!(matches!(&out.deltas[1], StateDelta::UsersChanged { users } if users.len() == 1));
    assert!(matches!(out.deltas[2], StateDelta::UnreadChanged { unread: 1, .. }));
    let out = event(&mut s, incoming("10.0.0.2", "bob", "again"));
    assert_eq!(out.deltas.len(), 2);
    assert!(matches!(out.deltas[1], StateDelta::UnreadChanged { unread: 2, .. }));
    let out = run(&mut s, StateCmd::ClearUnread { addr: addr("10.0.0.2", 1) });
    assert!(matches!(out.deltas[0], StateDelta::UnreadChanged { unread: 0, .. }));
    assert!(out.changed && !out.persist);
    let out = run(&mut s, StateCmd::ClearUnread { addr: addr("10.0.0.2", 1) });
    assert!(out.deltas.is_empty() && !out.changed);
}

#[test]
fn echoed_message_brings_nobody_online() {
    let mut s = CoreState::new();
    init(&mut s);
    let out = event(&mut s, incoming("10.0.0.7", "me", "boo"));
    assert_eq!(out.deltas.len(), 2);
    assert_eq!(names(&s.online_users), ["me"]);
}

#[test]
fn full_counter_is_noticed() {
    let mut s = CoreState::new();
    s.unread_counts.insert(addr("10.0.0.2", 2425), u32::MAX);
    assert!(!s.is_admitted(&StateCmd::ApplyEvent(incoming("10.0.0.2", "bob", "hi"))));
    assert!(s.is_admitted(&StateCmd::ApplyEvent(incoming("10.0.0.3", "bob", "hi"))));
}

#[test]
fn offer_comes_in() {
    let mut s = CoreState::new();
    let out = event(
        &mut s,
        Event::FileOffer {
            from: addr("10.0.0.2", 2425),
            user: "bob".to_string(),
            host: "h".to_string(),
            packet_no: 3,
            file_id: 4,
            name: "n".to_string(),
            size: 5,
            is_dir: true,
        },
    );
    assert_eq!(out.deltas.len(), 3);
    let m = &s.messages[0];
    assert_eq!(m.text, "an offer");
    let f = m.file.as_ref().unwrap();
    assert_eq!((f.packet_no, f.file_id, f.size, f.is_dir), (3, 4, 5, true));
    assert!(!f.saved && f.received == 0 && f.local_path.is_none());
}

#[test]
fn confirmation_before_the_message_counts() {
    let mut s = CoreState::new();
    event(&mut s, Event::Delivered { from: addr("10.0.0.2", 1), packet_no: 5 });
    let out = run(&mut s, StateCmd::PushOutgoing(outgoing("10.0.0.2", 5)));
    assert!(out.arm_ack.is_none());
    assert!(s.messages[0].delivered);
}

#[test]
fn confirmation_after_the_message_counts() {
    let mut s = CoreState::new();
    let out = run(&mut s, StateCmd::PushOutgoing(outgoing("10.0.0.2", 5)));
    assert_eq!(out.arm_ack, Some(5));
    let out = event(&mut s, Event::Delivered { from: addr("10.0.0.3", 1), packet_no: 5 });
    assert!(out.deltas.is_empty());
    let out = run(&mut s, StateCmd::AckTimeout { packet_no: 5 });
    assert!(matches!(&out.deltas[0], StateDelta::MessageUpdated { message } if message.failed));
    let out = event(&mut s, Event::Delivered { from: addr("10.0.0.2", 1), packet_no: 5 });
    assert!(out.changed && out.persist);
    assert!(s.messages[0].delivered && !s.messages[0].failed);
    let out = run(&mut s, StateCmd::AckTimeout { packet_no: 5 });
    assert!(out.deltas.is_empty());
    assert!(!s.messages[0].failed);
}

#[test]
fn files_are_not_waited_for() {
    let mut s = CoreState::new();
    let mut m = outgoing("10.0.0.2", 5);
    m.file = Some(file(5, 6, 7));
    assert_eq!(run(&mut s, StateCmd::PushOutgoing(m)).arm_ack, None);
    assert!(run(&mut s, StateCmd::AckTimeout { packet_no: 5 }).deltas.is_empty());
    event(&mut s, Event::Delivered { from: addr("10.0.0.2", 1), packet_no: 5 });
    assert!(s.messages[0].delivered);
}

#[test]
fn remembered_confirmations_are_bounded() {
    let mut s = CoreState::new();
    let from = addr("10.0.0.2", 1);
    event(&mut s, Event::Delivered { from, packet_no: 0 });
    assert_eq!(s.acked_packets.len(), 0);
    for n in 1..=ACKED_PACKETS_MAX as u32 {
        event(&mut s, Event::Delivered { from, packet_no: n });
    }
    assert_eq!(s.acked_packets.len(), ACKED_PACKETS_MAX);
    event(&mut s, Event::Delivered { from, packet_no: 9999 });
    assert_eq!(s.acked_packets.len(), 1);
}

#[test]
fn retry_revives_a_message() {
    let mut s = CoreState::new();
    run(&mut s, StateCmd::PushOutgoing(outgoing("10.0.0.2", 0)));
    assert!(s.messages[0].failed);
    let id = s.messages[0].id;
    let out = run(
        &mut s,
        StateCmd::RetryFinished { id, ok: false, packet_no: 0, file_id: 0 },
    );
    assert!(out.deltas.is_empty());
    let out = run(
        &mut s,
        StateCmd::RetryFinished { id, ok: true, packet_no: 8, file_id: 0 },
    );
    assert_eq!(out.arm_ack, Some(8));
    assert!(!s.messages[0].failed);
    assert_eq!(s.messages[0].packet_no, 8);
    let mut m = outgoing("10.0.0.2", 0);
    m.file = Some(file(0, 0, 7));
    run(&mut s, StateCmd::PushOutgoing(m));
    let id = s.messages[1].id;
    let out = run(
        &mut s,
        StateCmd::RetryFinished { id, ok: true, packet_no: 9, file_id: 10 },
    );
    assert_eq!(out.arm_ack, None);
    let f = s.messages[1].file.as_ref().unwrap();
    assert_eq!((f.packet_no, f.file_id), (9, 10));
}

#[test]
fn transfers_are_followed() {
    let mut s = CoreState::new();
    let mut m = outgoing("10.0.0.2", 5);
    m.file = Some(file(5, 6, 7));
    run(&mut s, StateCmd::PushOutgoing(m));
    let to = addr("10.0.0.2", 50000);
    event(&mut s, Event::FileServingStarted { to, packet_no: 5, file_id: 6, is_dir: false });
    assert!(s.messages[0].file.as_ref().unwrap().sending);
    event(&mut s, Event::FileServeFailed { to, packet_no: 5, file_id: 6, is_dir: false });
    let f = s.messages[0].file.as_ref().unwrap();
    assert!(f.error && !f.sending && !f.saved);
    event(&mut s, Event::FileServed { to, packet_no: 5, file_id: 6, is_dir: false });
    let f = s.messages[0].file.as_ref().unwrap();
    assert!(f.saved && !f.error && f.received == 7);
    let other = addr("10.0.0.3", 50000);
    let out = event(
        &mut s,
        Event::FileServed { to: other, packet_no: 5, file_id: 6, is_dir: false },
    );
    assert!(out.deltas.is_empty());
}

fn progress(from: &str, outgoing: Option<bool>, canceled: Option<bool>) -> StateCmd {
    StateCmd::UpdateProgress {
        from: addr(from, 1),
        file_id: 6,
        packet_no: 5,
        target_outgoing: outgoing,
        progress: 3,
        file_name: Some("inner".to_string()),
        local_path: None,
        saved: None,
        error: Some(false),
        canceled,
    }
}

#[test]
fn progress_is_noted() {
    let mut s = CoreState::new();
    let mut m = outgoing("10.0.0.2", 5);
    m.file = Some(file(5, 6, 7));
    run(&mut s, StateCmd::PushOutgoing(m));
    assert!(run(&mut s, progress("10.0.0.2", Some(false), None)).deltas.is_empty());
    assert!(run(&mut s, progress("10.0.0.9", None, None)).deltas.is_empty());
    let out = run(&mut s, progress("10.0.0.2", Some(true), None));
    assert!(out.changed && !out.persist);
    let f = s.messages[0].file.as_ref().unwrap();
    assert_eq!(f.received, 3);
    assert_eq!(f.current_file.as_deref(), Some("inner"));
    assert_eq!(f.local_path.as_deref(), Some("/f"));
    let out = run(&mut s, progress("10.0.0.2", None, Some(true)));
    assert!(out.persist);
    // What the user stopped stays so.
    let to = addr("10.0.0.2", 50000);
    let out = event(&mut s, Event::FileServeFailed { to, packet_no: 5, file_id: 6, is_dir: false });
    assert!(out.deltas.is_empty());
    assert!(s.messages[0].file.as_ref().unwrap().canceled);
}

fn said(peer: &str, n: usize) -> ChatMessage {
    let mut m = outgoing(peer, 1);
    m.text = n.to_string();
    m.id = 7;
    m
}

#[test]
fn history_is_windowed_and_loaded_on_demand() {
    let mut s = CoreState::new();
    let mut old = Vec::new();
    for n in 0..25 {
        old.push(said("10.0.0.2", n));
        if n < 3 {
            old.push(said("10.0.0.3", n));
        }
    }
    let (messages, has_more) = match s.load_history(old) {
        StateDelta::Sync { messages, has_more } => (messages, has_more),
        d => panic!("{d:?}"),
    };
    assert_eq!(messages.len(), 13);
    let ids: Vec<u64> = s.messages.iter().map(|m| m.id).collect();
    assert_eq!(ids, (1..=28).collect::<Vec<u64>>());
    assert_eq!(
        has_more,
        vec![(addr("10.0.0.2", 2425), true), (addr("10.0.0.3", 2425), false)]
    );
    assert_eq!(messages[0].text, "15");
    let load = |s: &mut CoreState, before_id: u64| {
        let out = run(
            s,
            StateCmd::LoadMore { addr: addr("10.0.0.2", 1), before_id, limit: 10 },
        );
        assert!(!out.changed && !out.persist);
        match out.deltas.into_iter().next() {
            Some(StateDelta::MessagesLoaded { messages, has_more, .. }) => (messages, has_more),
            d => panic!("{d:?}"),
        }
    };
    let (more, has_more) = load(&mut s, messages[0].id);
    assert_eq!(more.iter().map(|m| m.text.as_str()).collect::<Vec<_>>()[..2], ["5", "6"]);
    assert_eq!((more.len(), has_more), (10, true));
    let (more, has_more) = load(&mut s, more[0].id);
    assert_eq!((more.len(), has_more), (5, false));
    let (more, has_more) = load(&mut s, more[0].id);
    assert_eq!((more.len(), has_more), (0, false));
}

#[test]
fn saved_settings_are_told() {
    let mut s = CoreState::new();
    let out = run(&mut s, StateCmd::SettingsSaved);
    assert!(matches!(out.deltas[0], StateDelta::SettingsChanged));
    assert!(!out.changed && !out.persist);
    let unknown = Event::Unknown { from: addr("10.0.0.2", 1), raw: "x".to_string() };
    assert!(event(&mut s, unknown).deltas.is_empty());
}

#[test]
fn last_message_is_meant() {
    let mut s = CoreState::new();
    run(&mut s, StateCmd::PushOutgoing(outgoing("10.0.0.2", 5)));
    run(&mut s, StateCmd::PushOutgoing(outgoing("10.0.0.2", 5)));
    event(&mut s, Event::Delivered { from: addr("10.0.0.2", 1), packet_no: 5 });
    assert!(!s.messages[0].delivered && s.messages[1].delivered);
}

#[test]
fn own_entry_stays() {
    let mut s = CoreState::new();
    init(&mut s);
    let leave = Event::Offline {
        user: "me".to_string(),
        host: "me-host".to_string(),
        addr: addr("10.0.0.1", 2425),
    };
    let out = event(&mut s, leave);
    assert!(out.deltas.is_empty() && !out.changed);
    assert_eq!(names(&s.online_users), ["me"]);
    let out = event(&mut s, online("10.0.0.2", "bob"));
    assert!(matches!(&out.deltas[0], StateDelta::UsersChanged { users } if users[0].name == "me"));
    assert_eq!(s.get_self_addr_info().unwrap().name, "me");
}

#[test]
fn unread_counts_messages_and_offers() {
    let mut s = CoreState::new();
    let offer = || Event::FileOffer {
        from: addr("10.0.0.2", 7),
        user: "bob".to_string(),
        host: "h".to_string(),
        packet_no: 1,
        file_id: 2,
        name: "n".to_string(),
        size: 3,
        is_dir: false,
    };
    event(&mut s, incoming("10.0.0.2", "bob", "a"));
    let out = event(&mut s, offer());
    assert!(matches!(out.deltas.last(), Some(StateDelta::UnreadChanged { unread: 2, .. })));
    let clear = || StateCmd::ClearUnread { addr: addr("10.0.0.2", 9) };
    assert_eq!(run(&mut s, clear()).deltas.len(), 1);
    assert!(run(&mut s, clear()).deltas.is_empty());
    let out = event(&mut s, offer());
    assert!(matches!(out.deltas.last(), Some(StateDelta::UnreadChanged { unread: 1, .. })));
}

#[test]
fn numbers_grow_over_a_run() {
    let mut s = CoreState::new();
    s.load_history(vec![said("10.0.0.2", 0), said("10.0.0.2", 1)]);
    let mut m = outgoing("10.0.0.2", 5);
    m.id = 1;
    run(&mut s, StateCmd::PushOutgoing(m));
    event(&mut s, incoming("10.0.0.2", "bob", "a"));
    let ids: Vec<u64> = s.messages.iter().map(|m| m.id).collect();
    assert_eq!(ids, [1, 2, 3, 4]);
}

#[test]
fn offers_are_labelled() {
    let offer = |is_dir| {
        StateCmd::ApplyEvent(Event::FileOffer {
            from: addr("10.0.0.2", 7),
            user: "bob".to_string(),
            host: "h".to_string(),
            packet_no: 1,
            file_id: 2,
            name: "n".to_string(),
            size: 1536,
            is_dir,
        })
    };
    assert!(matches!(offer_label(&offer(true)), Some(OfferLabel::Folder { name }) if name == "n"));
    assert!(matches!(
        offer_label(&offer(false)),
        Some(OfferLabel::File { name, size }) if name == "n" && size == "1.5 KB"
    ));
    assert!(offer_label(&StateCmd::SettingsSaved).is_none());
}
