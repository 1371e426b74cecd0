use ipmsg::app_state::model::{ChatMessage, FileInfo, OnlineUser, StateCmd, StateDelta};
use ipmsg::app_state::state::{CoreState, Labels};
use ipmsg::chat_shell::conv_id::ConvId;
use ipmsg::chat_shell::conversation::{display_text, precedes, DisplayText};
use ipmsg::chat_shell::search::matches_search;
use ipmsg::chat_shell::shell::{retry_message, ShellAction, ShellState};
use ipmsg::chat_shell::transfer_view::{
    avatar, delivery_mark, open_transfer_in_folder, receive_attachment, transfer_button,
    transfer_detail, transfer_status, DeliveryMark, ReceivePlan, TransferButton, TransferDetail,
    TransferStatus,
};
use ipmsg::chat_shell::ui_state::{UiEvent, UiState};
use ipmsg::net::SocketAddr;

fn addr(n: u32) -> SocketAddr {
    SocketAddr::V4 { ip: 0x0a00_0000 + n, port: 2425 }
}

fn conv(n: u32) -> ConvId {
    ConvId::of(addr(n))
}

fn user(n: u32, name: &str, group: &str) -> OnlineUser {
    OnlineUser {
        name: name.to_string(),
        group: group.to_string(),
        host: "host".to_string(),
        addr: addr(n),
    }
}

fn message(peer: u32, id: u64, text: &str) -> ChatMessage {
    ChatMessage {
        from: addr(peer),
        to: addr(1),
        is_me: false,
        text: text.to_string(),
        time: String::new(),
        file: None,
        failed: false,
        packet_no: 0,
        delivered: false,
        id,
    }
}

fn file() -> FileInfo {
    FileInfo {
        packet_no: 1,
        file_id: 2,
        name: "n".to_string(),
        size: 10,
        saved: false,
        received: 0,
        is_dir: false,
        local_path: None,
        current_file: None,
        error: false,
        canceled: false,
        sending: false,
    }
}

fn shown(text: &DisplayText) -> String {
    match text {
        DisplayText::Text(s) => s.clone(),
        DisplayText::Folder(s) => format!("<dir {s}>"),
        DisplayText::File(s) => format!("<file {s}>"),
    }
}

fn list(ui: &UiState) -> Vec<(String, String, u32)> {
    ui.conversations()
        .iter()
        .map(|c| (c.name.clone(), shown(&c.subtitle), c.unread))
        .collect()
}

#[test]
fn conversations_are_listed_by_name() {
    let mut ui = UiState::new();
    ui.apply(StateDelta::UsersChanged {
        users: vec![user(3, "b", ""), user(2, "a", "grp"), user(4, "a", "")],
    });
    assert_eq!(
        list(&ui),
        vec![
            ("a".to_string(), "10.0.0.2:2425 - grp".to_string(), 0),
            ("a".to_string(), "10.0.0.4:2425 - host".to_string(), 0),
            ("b".to_string(), "10.0.0.3:2425 - host".to_string(), 0),
        ]
    );
    assert_eq!(
        ui.apply(StateDelta::MessageAdded { message: message(9, 1, "hello") }),
        UiEvent::MessageAdded { conv: conv(9) }
    );
    ui.apply(StateDelta::MessageAdded { message: message(3, 2, "to b") });
    assert_eq!(
        ui.apply(StateDelta::UnreadChanged { addr: addr(3), unread: 4 }),
        UiEvent::Changed
    );
    assert_eq!(
        list(&ui),
        vec![
            ("10.0.0.9:2425".to_string(), "hello".to_string(), 0),
            ("a".to_string(), "10.0.0.2:2425 - grp".to_string(), 0),
            ("a".to_string(), "10.0.0.4:2425 - host".to_string(), 0),
            ("b".to_string(), "to b".to_string(), 4),
        ]
    );
    assert_eq!(ui.conversation(conv(3)).unwrap().id, "10.0.0.3:2425");
    assert!(ui.conversation(conv(77)).is_none());
    assert!(ui.clear_count(conv(3)));
    assert!(!ui.clear_count(conv(3)));
    assert_eq!(ui.apply(StateDelta::SettingsChanged), UiEvent::SettingsChanged);
}

#[test]
fn texts_are_ordered_by_characters() {
    for (a, b) in [("", "a"), ("a", "b"), ("a", "aa"), ("Z", "a"), ("z", "中"), ("中", "\u{1f600}")] {
        assert!(precedes(a, b) && a < b);
        assert!(!precedes(b, a) && !precedes(a, a));
    }
}

#[test]
fn messages_are_replaced_by_number() {
    let mut ui = UiState::new();
    ui.apply(StateDelta::MessageAdded { message: message(2, 1, "one") });
    ui.apply(StateDelta::MessageAdded { message: message(2, 2, "two") });
    ui.apply(StateDelta::MessageUpdated { message: message(2, 1, "ONE") });
    ui.apply(StateDelta::MessageUpdated { message: message(2, 9, "none") });
    let texts: Vec<String> = ui.messages_for(conv(2)).iter().map(|m| m.text.clone()).collect();
    assert_eq!(texts, ["ONE", "two"]);
    assert!(ui.messages_for(conv(3)).is_empty());
}

#[test]
fn earlier_messages_are_put_in_front_once() {
    let mut ui = UiState::new();
    ui.apply(StateDelta::Sync {
        messages: vec![message(2, 5, "five"), message(3, 6, "six")],
        has_more: vec![(addr(2), true), (addr(3), false)],
    });
    assert_eq!(ui.oldest_id_and_has_more(conv(2)), (true, Some(5)));
    assert_eq!(ui.oldest_id_and_has_more(conv(3)), (false, Some(6)));
    assert_eq!(ui.oldest_id_and_has_more(conv(4)), (false, None));
    let load = |ui: &mut UiState| {
        ui.apply(StateDelta::MessagesLoaded {
            addr: addr(2),
            messages: vec![message(2, 3, "three"), message(2, 4, "four")],
            has_more: false,
        })
    };
    assert_eq!(load(&mut ui), UiEvent::MessagesLoaded { conv: conv(2), count: 2 });
    assert_eq!(load(&mut ui), UiEvent::MessagesLoaded { conv: conv(2), count: 0 });
    let ids: Vec<u64> = ui.messages_for(conv(2)).iter().map(|m| m.id).collect();
    assert_eq!(ids, [3, 4, 5]);
    assert_eq!(ui.oldest_id_and_has_more(conv(2)), (false, Some(3)));
}

#[test]
fn interface_follows_the_state() {
    let mut state = CoreState::new();
    let mut ui = UiState::new();
    let old: Vec<ChatMessage> = (0..15).map(|n| message(2, 0, &n.to_string())).collect();
    let sync = state.load_history(old);
    ui.apply(sync);
    assert_eq!(ui.messages_for(conv(2)).len(), 10);
    let (has_more, oldest) = ui.oldest_id_and_has_more(conv(2));
    assert!(has_more);
    let labels = Labels { now: String::new(), offer: String::new() };
    let cmd = StateCmd::LoadMore { addr: addr(2), before_id: oldest.unwrap(), limit: 10 };
    for delta in state.apply(cmd, labels).deltas {
        ui.apply(delta);
    }
    let ui_ids: Vec<u64> = ui.messages_for(conv(2)).iter().map(|m| m.id).collect();
    let ids: Vec<u64> = state.messages.iter().map(|m| m.id).collect();
    assert_eq!(ui_ids, ids);
    assert!(!ui.oldest_id_and_has_more(conv(2)).0);
}

#[test]
fn messages_are_previewed() {
    let mut m = message(2, 1, "text");
    assert_eq!(shown(&display_text(&m)), "text");
    m.text = String::new();
    assert_eq!(shown(&display_text(&m)), "");
    m.file = Some(file());
    assert_eq!(shown(&display_text(&m)), "<file n>");
    m.file.as_mut().unwrap().is_dir = true;
    assert_eq!(shown(&display_text(&m)), "<dir n>");
}

#[test]
fn search_heeds_neither_case_nor_space() {
    assert!(matches_search("", "Bob", "x"));
    assert!(matches_search("  BO ", "Bob", "x"));
    assert!(matches_search("b x", "Bob", "X"));
    assert!(matches_search("ä", "Ärger", ""));
    assert!(matches_search("10.0", "Bob", "10.0.0.2:2425 - g"));
    assert!(!matches_search("eve", "Bob", "x"));
}

#[test]
fn marks_and_initials() {
    let mut m = message(2, 1, "t");
    m.is_me = true;
    assert_eq!(delivery_mark(&m), DeliveryMark::Nothing);
    m.delivered = true;
    assert_eq!(delivery_mark(&m), DeliveryMark::Delivered);
    m.failed = true;
    assert_eq!(delivery_mark(&m), DeliveryMark::Failed);
    assert_eq!(avatar("王五"), '王');
    assert_eq!(avatar(""), '?');
}

#[test]
fn outgoing_transfers_are_shown() {
    let mut f = file();
    assert_eq!(transfer_status(&f, true), TransferStatus::Offered);
    f.sending = true;
    assert_eq!(transfer_status(&f, true), TransferStatus::Sending);
    f.saved = true;
    assert_eq!(transfer_status(&f, true), TransferStatus::Sent);
    f.error = true;
    assert_eq!(transfer_status(&f, true), TransferStatus::SendFailed);
    f.canceled = true;
    assert_eq!(transfer_status(&f, true), TransferStatus::Canceled);
    assert_eq!(transfer_button(&f, true), TransferButton::Nothing);
    f.local_path = Some("/p".to_string());
    assert_eq!(transfer_button(&f, true), TransferButton::OpenInFolder);
    assert!(matches!(transfer_detail(&f, true), TransferDetail::Nothing));
    assert_eq!(open_transfer_in_folder(&f), Some(("/p".to_string(), false)));
    assert_eq!(open_transfer_in_folder(&file()), None);
}

#[test]
fn incoming_transfers_are_shown() {
    let mut f = file();
    assert_eq!(transfer_status(&f, false), TransferStatus::Waiting);
    assert!(matches!(transfer_detail(&f, false), TransferDetail::ReceiveButton));
    assert_eq!(receive_attachment(&f), ReceivePlan::File);
    f.received = 4;
    assert_eq!(
        transfer_status(&f, false),
        TransferStatus::ReceivingFile { received: 4, size: 10 }
    );
    assert_eq!(transfer_button(&f, false), TransferButton::CancelReceiving);
    assert!(matches!(
        transfer_detail(&f, false),
        TransferDetail::Progress { received: 4, total: 10 }
    ));
    f.size = 0;
    assert_eq!(transfer_status(&f, false), TransferStatus::ReceivingBytes { received: 4 });
    assert!(matches!(
        transfer_detail(&f, false),
        TransferDetail::Progress { received: 4, total: 1 }
    ));
    f.is_dir = true;
    f.received = 0;
    f.current_file = Some("c".to_string());
    assert_eq!(transfer_status(&f, false), TransferStatus::ReceivingFolder);
    assert!(matches!(
        transfer_detail(&f, false),
        TransferDetail::CurrentFile(Some(ref c)) if c == "c"
    ));
    assert_eq!(receive_attachment(&f), ReceivePlan::Folder);
    f.error = true;
    assert_eq!(transfer_status(&f, false), TransferStatus::ReceiveFailed);
    f.error = false;
    f.saved = true;
    assert_eq!(transfer_status(&f, false), TransferStatus::Saved);
    assert_eq!(receive_attachment(&f), ReceivePlan::Nothing);
}

#[test]
fn first_conversation_is_selected() {
    let mut ui = UiState::new();
    let mut shell = ShellState::new();
    shell.begin_frame(&ui, true);
    assert_eq!(shell.selected, None);
    ui.apply(StateDelta::MessageAdded { message: message(2, 1, "x") });
    shell.begin_frame(&ui, true);
    assert_eq!(shell.selected, Some(conv(2)));
    assert_eq!(shell.end_frame(), (true, true));
    assert_eq!(shell.end_frame(), (true, false));
    assert_eq!(shell.end_frame(), (false, false));
}

#[test]
fn read_messages_are_cleared() {
    let mut ui = UiState::new();
    let mut shell = ShellState::new();
    ui.apply(StateDelta::MessageAdded { message: message(2, 1, "x") });
    ui.apply(StateDelta::UnreadChanged { addr: addr(2), unread: 1 });
    shell.selected = Some(conv(2));
    shell.stick_to_bottom = false;
    assert!(shell.clear_selected_unread_if_needed(&mut ui).is_none());
    shell.stick_to_bottom = true;
    assert!(matches!(
        shell.clear_selected_unread_if_needed(&mut ui),
        Some(StateCmd::ClearUnread { addr: a }) if a == addr(2)
    ));
    assert!(shell.clear_selected_unread_if_needed(&mut ui).is_none());
}

#[test]
fn earlier_messages_are_asked_for_once() {
    let mut ui = UiState::new();
    let mut shell = ShellState::new();
    ui.apply(StateDelta::Sync {
        messages: vec![message(2, 5, "five")],
        has_more: vec![(addr(2), true)],
    });
    assert!(shell.maybe_load_more_history(&ui, true, 3).is_none());
    shell.selected = Some(conv(2));
    assert!(shell.maybe_load_more_history(&ui, false, 3).is_none());
    assert!(matches!(
        shell.maybe_load_more_history(&ui, true, 3),
        Some(StateCmd::LoadMore { before_id: 5, limit: 10, .. })
    ));
    assert!(shell.maybe_load_more_history(&ui, true, 3).is_none());
    shell.stick_to_bottom = false;
    let loaded = UiEvent::MessagesLoaded { conv: conv(2), count: 2 };
    assert_eq!(shell.on_ui_event(loaded), ShellAction::ScrollToItem(5));
    assert!(!shell.loading_more);
    shell.stick_to_bottom = true;
    assert_eq!(shell.on_ui_event(loaded), ShellAction::ScrollToBottom);
    assert_eq!(
        shell.on_ui_event(UiEvent::MessagesLoaded { conv: conv(3), count: 2 }),
        ShellAction::Nothing
    );
    assert_eq!(shell.on_ui_event(UiEvent::SettingsChanged), ShellAction::RefreshTexts);
    assert_eq!(
        shell.on_ui_event(UiEvent::MessageAdded { conv: conv(2) }),
        ShellAction::Nothing
    );
    assert_eq!(shell.pending_scroll_frames, 2);
    assert_eq!(shell.on_ui_event(UiEvent::Changed), ShellAction::Nothing);
}

#[test]
fn typed_text_is_sent() {
    let mut ui = UiState::new();
    let mut shell = ShellState::new();
    shell.compose_text = "  hi  ".to_string();
    assert!(shell.send_current_message().is_none());
    assert!(matches!(
        shell.select_conversation(&mut ui, conv(2)),
        StateCmd::ClearUnread { .. }
    ));
    assert_eq!(shell.send_current_message(), Some((addr(2), "hi".to_string())));
    assert_eq!(shell.compose_text, "");
    shell.compose_text = " \t".to_string();
    assert!(shell.send_current_message().is_none());
}

#[test]
fn failed_messages_are_sent_again() {
    let mut m = message(2, 7, "t");
    m.is_me = true;
    m.to = addr(8);
    assert!(retry_message(&m).is_none());
    m.failed = true;
    let r = retry_message(&m).unwrap();
    assert_eq!((r.id, r.to, r.file), (7, addr(8), None));
    assert_eq!(shown(&r.text), "t");
    let mut f = file();
    f.local_path = Some("/p".to_string());
    m.file = Some(f);
    assert_eq!(retry_message(&m).unwrap().file, Some(("/p".to_string(), false)));
}

#[test]
fn flow_label_makes_no_other_conversation() {
    let six = |flowinfo: u32, scope_id: u32| SocketAddr::V6 { ip: 7, port: 2425, flowinfo, scope_id };
    assert_eq!(ConvId::of(six(1, 0)), ConvId::of(six(2, 0)));
    assert_ne!(ConvId::of(six(1, 0)), ConvId::of(six(1, 3)));
    assert_eq!(ConvId::of(six(9, 3)).to_text(), "[::7%3]:2425");
    assert_eq!(ConvId::of(six(9, 3)).addr(), six(0, 3));
    let mut ui = UiState::new();
    let mut one = message(2, 1, "one");
    one.from = six(1, 0);
    let mut two = message(2, 2, "two");
    two.from = six(2, 0);
    ui.apply(StateDelta::MessageAdded { message: one });
    assert_eq!(
        ui.apply(StateDelta::MessageAdded { message: two }),
        UiEvent::MessageAdded { conv: ConvId::of(six(0, 0)) }
    );
    assert_eq!(ui.conversations().len(), 1);
    assert_eq!(ui.messages_for(ConvId::of(six(5, 0))).len(), 2);
    let mut user_six = user(2, "six", "");
    user_six.addr = six(4, 0);
    ui.apply(StateDelta::UsersChanged { users: vec![user_six] });
    assert_eq!(list(&ui), vec![("six".to_string(), "two".to_string(), 0)]);
    // The count is looked up under the address that the written form states.
    ui.apply(StateDelta::UnreadChanged { addr: six(0, 0), unread: 3 });
    assert_eq!(ui.conversations()[0].unread, 3);
}
