//! What the actions of the user come to.
use crate::addr_form;
use crate::app_state::model::{ChatMessage, FileInfo, OnlineUser, StateCmd};
use crate::chars;
use crate::chars::{is_text, push_text, to_chars, to_text, trim};
use crate::config;
use crate::config::{
    changed_config, load_config, text_encoding_of, AppConfig, LanguageEncoding, Platform,
    UiLanguage,
};
use crate::ipmsg_core::event::Event;
use crate::ipmsg_core::offering::SentFileMeta;
use crate::ipmsg_core::service;
use crate::ipmsg_core::service::{
    send_broadcast_entry, set_text_encoding, set_user_info, Datagram, Service,
};
use crate::ipmsg_core::text::TextEncoding;
use crate::net;
use crate::net::{addr_to_string, SocketAddr};
use crate::number;
use crate::number::push_decimal;
use vstd::prelude::*;

verus! {

/// There is nothing in a text but white space.
pub open spec fn blank(text: Seq<char>) -> bool {
    chars::trimmed(text).len() == 0
}

/// Whether there is nothing in a text but white space.
pub fn is_blank(text: &str) -> (r: bool)
    ensures
        r == blank(text@),
{
    let text = to_chars(text);
    trim(text.as_slice()).len() == 0
}

/// What tells a download from others.
pub open spec fn key_text(from: SocketAddr, packet_no: u32, file_id: u32) -> Seq<char> {
    net::addr_text(from).push('-') + number::decimal(packet_no as nat).push('-') + number::decimal(
        file_id as nat,
    )
}

/// What tells a download from others.
pub fn download_key(from: SocketAddr, packet_no: u32, file_id: u32) -> (r: String)
    ensures
        r@ == key_text(from, packet_no, file_id),
{
    let mut s: Vec<char> = Vec::new();
    push_text(&mut s, addr_to_string(&from).as_str());
    s.push('-');
    push_decimal(&mut s, packet_no as u64);
    s.push('-');
    push_decimal(&mut s, file_id as u64);
    assert(s@ =~= key_text(from, packet_no, file_id));
    to_text(s.as_slice())
}

/// Two downloads have the same key exactly where they are of the same offer of the same
/// peer; a flow label does not tell peers apart.
pub proof fn law_download_keys_differ(
    from: SocketAddr,
    packet_no: u32,
    file_id: u32,
    other: SocketAddr,
    other_packet_no: u32,
    other_file_id: u32,
)
    ensures
        key_text(from, packet_no, file_id) == key_text(other, other_packet_no, other_file_id)
            <==> addr_form::same_but_flow_label(from, other) && packet_no == other_packet_no
            && file_id == other_file_id,
{
    addr_form::law_addr_text_tells(from, other);
    addr_form::lemma_no_dash(from);
    addr_form::lemma_no_dash(other);
    lemma_key_parts(from, packet_no, file_id);
    lemma_key_parts(other, other_packet_no, other_file_id);
    let a = seq![
        net::addr_text(from),
        number::decimal(packet_no as nat),
        number::decimal(file_id as nat),
    ];
    let b = seq![
        net::addr_text(other),
        number::decimal(other_packet_no as nat),
        number::decimal(other_file_id as nat),
    ];
    if a == b {
        assert(a[0] == b[0] && a[1] == b[1] && a[2] == b[2]);
        number::law_number_round_trip(packet_no as nat, 10);
        number::law_number_round_trip(other_packet_no as nat, 10);
        number::law_number_round_trip(file_id as nat, 10);
        number::law_number_round_trip(other_file_id as nat, 10);
    }
}

proof fn lemma_key_parts(from: SocketAddr, packet_no: u32, file_id: u32)
    requires
        !net::addr_text(from).contains('-'),
    ensures
        chars::pieces(key_text(from, packet_no, file_id), '-') == seq![
            net::addr_text(from),
            number::decimal(packet_no as nat),
            number::decimal(file_id as nat),
        ],
{
    let a = net::addr_text(from);
    let p = number::decimal(packet_no as nat);
    let f = number::decimal(file_id as nat);
    number::lemma_digits_plain(packet_no as nat, 10);
    number::lemma_digits_plain(file_id as nat, 10);
    assert(!p.contains('-')) by {
        if p.contains('-') {
            assert(p[p.index_of('-')] == '-');
        }
    }
    assert(!f.contains('-')) by {
        if f.contains('-') {
            assert(f[f.index_of('-')] == '-');
        }
    }
    let rest = p.push('-') + f;
    assert(key_text(from, packet_no, file_id) =~= a.push('-') + rest);
    chars::lemma_pieces_joined(p, f, '-');
    chars::lemma_pieces_joined(a, rest, '-');
    chars::lemma_pieces_plain(a, '-');
    chars::lemma_pieces_plain(p, '-');
    chars::lemma_pieces_plain(f, '-');
    assert(chars::pieces(key_text(from, packet_no, file_id), '-') =~= seq![a, p, f]);
}

/// The message that the user sees of a text they sent, or could not send. `sent` is
/// the number of its packet.
pub fn text_message(from: SocketAddr, to: SocketAddr, text: String, now: String, sent: Option<u32>)
    -> (r: ChatMessage)
    ensures
        r == (ChatMessage {
            from,
            to,
            is_me: true,
            text,
            time: now,
            file: None,
            failed: sent is None,
            packet_no: match sent {
                Some(n) => n,
                None => 0,
            },
            delivered: false,
            id: 0,
        }),
{
    ChatMessage {
        from,
        to,
        is_me: true,
        text,
        time: now,
        file: None,
        failed: sent.is_none(),
        packet_no: match sent {
            Some(n) => n,
            None => 0,
        },
        delivered: false,
        id: 0,
    }
}

/// A file or a folder that the user offered.
pub open spec fn own_file(
    packet_no: u32,
    file_id: u32,
    name: String,
    size: u64,
    is_dir: bool,
    path: String,
) -> FileInfo {
    FileInfo {
        packet_no,
        file_id,
        name,
        size,
        saved: false,
        received: 0,
        is_dir,
        local_path: Some(path),
        current_file: None,
        error: false,
        canceled: false,
        sending: false,
    }
}

fn make_own_file(
    packet_no: u32,
    file_id: u32,
    name: String,
    size: u64,
    is_dir: bool,
    path: String,
) -> (r: FileInfo)
    ensures
        r == own_file(packet_no, file_id, name, size, is_dir, path),
{
    FileInfo {
        packet_no,
        file_id,
        name,
        size,
        saved: false,
        received: 0,
        is_dir,
        local_path: Some(path),
        current_file: None,
        error: false,
        canceled: false,
        sending: false,
    }
}

/// The message that the user sees of an offer they made. `text` is empty for a file.
pub fn offer_message(
    from: SocketAddr,
    to: SocketAddr,
    item: SentFileMeta,
    text: String,
    now: String,
) -> (r: ChatMessage)
    ensures
        r == (ChatMessage {
            from,
            to,
            is_me: true,
            text,
            time: now,
            file: Some(
                own_file(
                    item.packet_no,
                    item.file_id,
                    item.name,
                    item.size,
                    item.is_dir,
                    item.path,
                ),
            ),
            failed: false,
            packet_no: item.packet_no,
            delivered: false,
            id: 0,
        }),
{
    let packet_no: u32 = item.packet_no;
    let file = make_own_file(
        packet_no,
        item.file_id,
        item.name,
        item.size,
        item.is_dir,
        item.path,
    );
    ChatMessage {
        from,
        to,
        is_me: true,
        text,
        time: now,
        file: Some(file),
        failed: false,
        packet_no,
        delivered: false,
        id: 0,
    }
}

/// The message that the user sees of an offer that could not be made. It keeps the
/// path, by which it can be tried again.
pub fn failed_offer_message(
    from: SocketAddr,
    to: SocketAddr,
    name: String,
    size: u64,
    is_dir: bool,
    path: String,
    now: String,
) -> (r: ChatMessage)
    ensures
        r.text@ == Seq::<char>::empty(),
        r == (ChatMessage {
            from,
            to,
            is_me: true,
            text: r.text,
            time: now,
            file: Some(own_file(0, 0, name, size, is_dir, path)),
            failed: true,
            packet_no: 0,
            delivered: false,
            id: 0,
        }),
{
    ChatMessage {
        from,
        to,
        is_me: true,
        text: String::new(),
        time: now,
        file: Some(make_own_file(0, 0, name, size, is_dir, path)),
        failed: true,
        packet_no: 0,
        delivered: false,
        id: 0,
    }
}

/// What is known of a local file whose offer failed: its name, or else its path; its
/// size, and whether it is a folder, as far as that can be found out.
pub fn file_meta(path: String, name: Option<String>, meta: Option<(bool, u64)>) -> (r: (
    String,
    u64,
    bool,
))
    ensures
        r.0 == match name {
            Some(name) => name,
            None => path,
        },
        r.1 == match meta {
            Some((_, size)) => size,
            None => 0,
        },
        r.2 == match meta {
            Some((is_dir, _)) => is_dir,
            None => false,
        },
{
    let name = match name {
        Some(name) => name,
        None => path,
    };
    match meta {
        Some((is_dir, size)) => (name, size, is_dir),
        None => (name, 0, false),
    }
}

/// What a text that was sent again comes to.
pub fn retried_text(id: u64, sent: Option<u32>) -> (r: StateCmd)
    ensures
        r == (StateCmd::RetryFinished {
            id,
            ok: sent is Some,
            packet_no: match sent {
                Some(n) => n,
                None => 0,
            },
            file_id: 0,
        }),
{
    match sent {
        Some(packet_no) => StateCmd::RetryFinished { id, ok: true, packet_no, file_id: 0 },
        None => StateCmd::RetryFinished { id, ok: false, packet_no: 0, file_id: 0 },
    }
}

/// What an offer that was made again comes to: the first of the offers made counts.
pub fn retried_offer(id: u64, sent: &Vec<SentFileMeta>) -> (r: StateCmd)
    ensures
        r == if sent@.len() > 0 {
            StateCmd::RetryFinished {
                id,
                ok: true,
                packet_no: sent@[0].packet_no,
                file_id: sent@[0].file_id,
            }
        } else {
            StateCmd::RetryFinished { id, ok: false, packet_no: 0, file_id: 0 }
        },
{
    if sent.len() > 0 {
        StateCmd::RetryFinished {
            id,
            ok: true,
            packet_no: sent[0].packet_no,
            file_id: sent[0].file_id,
        }
    } else {
        StateCmd::RetryFinished { id, ok: false, packet_no: 0, file_id: 0 }
    }
}

/// What comes from the protocol.
#[derive(Debug)]
pub enum PumpInput {
    Event(Event),
    /// So many events were lost.
    Lagged(u64),
    /// No more events will come.
    Closed,
}

/// What is done about what comes from the protocol.
#[derive(Debug)]
pub enum PumpStep {
    Apply(StateCmd),
    /// Nothing, but go on.
    GoOn,
    Stop,
}

/// Passes on what comes from the protocol. That events were lost is no reason to stop.
pub fn pump(input: PumpInput) -> (r: PumpStep)
    ensures
        r == match input {
            PumpInput::Event(event) => PumpStep::Apply(StateCmd::ApplyEvent(event)),
            PumpInput::Lagged(_) => PumpStep::GoOn,
            PumpInput::Closed => PumpStep::Stop,
        },
{
    match input {
        PumpInput::Event(event) => PumpStep::Apply(StateCmd::ApplyEvent(event)),
        PumpInput::Lagged(_) => PumpStep::GoOn,
        PumpInput::Closed => PumpStep::Stop,
    }
}

/// How often the progress of a transfer is told, in milliseconds.
pub const PROGRESS_INTERVAL: u64 = 100;

/// Whether the progress of a file is told: now and then, and at its end.
pub fn tells_file_progress(elapsed_millis: u64, progress: u64, size: u64) -> (r: bool)
    ensures
        r == (elapsed_millis >= PROGRESS_INTERVAL || progress == size),
{
    elapsed_millis >= PROGRESS_INTERVAL || progress == size
}

/// Whether the progress of a folder is told: now and then, and with each new file.
pub fn tells_folder_progress(elapsed_millis: u64, current_file: &str, last_file: &str) -> (r: bool)
    ensures
        r == (elapsed_millis >= PROGRESS_INTERVAL || current_file@ != last_file@),
{
    let current = to_chars(current_file);
    elapsed_millis >= PROGRESS_INTERVAL || !is_text(current.as_slice(), last_file)
}

/// What is told of a download that is under way.
pub fn download_progress(
    from: SocketAddr,
    packet_no: u32,
    file_id: u32,
    progress: u64,
    file_name: Option<String>,
) -> (r: StateCmd)
    ensures
        r == (StateCmd::UpdateProgress {
            from,
            file_id,
            packet_no,
            target_outgoing: Some(false),
            progress,
            file_name,
            local_path: None,
            saved: None,
            error: Some(false),
            canceled: None,
        }),
{
    StateCmd::UpdateProgress {
        from,
        file_id,
        packet_no,
        target_outgoing: Some(false),
        progress,
        file_name,
        local_path: None,
        saved: None,
        error: Some(false),
        canceled: None,
    }
}

/// What is told of a download that succeeded. `progress` is the size of a file, and 0
/// for a folder.
pub fn download_done(
    from: SocketAddr,
    packet_no: u32,
    file_id: u32,
    progress: u64,
    save_path: String,
) -> (r: StateCmd)
    ensures
        r == (StateCmd::UpdateProgress {
            from,
            file_id,
            packet_no,
            target_outgoing: Some(false),
            progress,
            file_name: None,
            local_path: Some(save_path),
            saved: Some(true),
            error: Some(false),
            canceled: Some(false),
        }),
{
    StateCmd::UpdateProgress {
        from,
        file_id,
        packet_no,
        target_outgoing: Some(false),
        progress,
        file_name: None,
        local_path: Some(save_path),
        saved: Some(true),
        error: Some(false),
        canceled: Some(false),
    }
}

/// What is told of a download that failed.
pub fn download_failed(from: SocketAddr, packet_no: u32, file_id: u32) -> (r: StateCmd)
    ensures
        r == (StateCmd::UpdateProgress {
            from,
            file_id,
            packet_no,
            target_outgoing: Some(false),
            progress: 0,
            file_name: None,
            local_path: None,
            saved: Some(false),
            error: Some(true),
            canceled: None,
        }),
{
    StateCmd::UpdateProgress {
        from,
        file_id,
        packet_no,
        target_outgoing: Some(false),
        progress: 0,
        file_name: None,
        local_path: None,
        saved: Some(false),
        error: Some(true),
        canceled: None,
    }
}

/// What is told of a transfer that the user stopped: an upload or a download.
pub fn transfer_canceled(peer: SocketAddr, packet_no: u32, file_id: u32, upload: bool) -> (r:
    StateCmd)
    ensures
        r == (StateCmd::UpdateProgress {
            from: peer,
            file_id,
            packet_no,
            target_outgoing: Some(upload),
            progress: 0,
            file_name: None,
            local_path: None,
            saved: Some(false),
            error: Some(false),
            canceled: Some(true),
        }),
{
    StateCmd::UpdateProgress {
        from: peer,
        file_id,
        packet_no,
        target_outgoing: Some(upload),
        progress: 0,
        file_name: None,
        local_path: None,
        saved: Some(false),
        error: Some(false),
        canceled: Some(true),
    }
}

/// How a file is shown in the file manager.
#[derive(Debug, Clone, Copy, PartialEq, Eq, Structural)]
pub enum OpenPlan {
    Nothing,
    /// The path itself is opened.
    Open,
    /// The directory that the path lies in is opened.
    OpenParent,
    /// The path is shown, selected, in its directory.
    Reveal,
}

/// Plans how a file is shown in the file manager. `on_disk_dir` and `on_disk_file` say
/// what the path is on disk.
pub fn plan_open(
    platform: Platform,
    path: &str,
    is_dir: bool,
    on_disk_dir: bool,
    on_disk_file: bool,
) -> (r: OpenPlan)
    ensures
        r == if blank(path@) {
            OpenPlan::Nothing
        } else {
            match (platform, is_dir) {
                (Platform::Windows, true) => if on_disk_dir {
                    OpenPlan::Open
                } else {
                    OpenPlan::OpenParent
                },
                (Platform::Windows, false) => if on_disk_file {
                    OpenPlan::Reveal
                } else {
                    OpenPlan::OpenParent
                },
                (Platform::MacOs, true) => OpenPlan::Open,
                (Platform::MacOs, false) => OpenPlan::Reveal,
                (Platform::Other, true) => OpenPlan::Open,
                (Platform::Other, false) => OpenPlan::OpenParent,
            }
        },
{
    if is_blank(path) {
        return OpenPlan::Nothing;
    }
    match platform {
        Platform::Windows => if is_dir {
            if on_disk_dir {
                OpenPlan::Open
            } else {
                OpenPlan::OpenParent
            }
        } else if on_disk_file {
            OpenPlan::Reveal
        } else {
            OpenPlan::OpenParent
        },
        Platform::MacOs => if is_dir {
            OpenPlan::Open
        } else {
            OpenPlan::Reveal
        },
        Platform::Other => if is_dir {
            OpenPlan::Open
        } else {
            OpenPlan::OpenParent
        },
    }
}

/// The settings that count, and whether they are to be saved in their place.
pub fn get_config(current: Option<AppConfig>, legacy: Option<AppConfig>) -> (r: (AppConfig, bool))
    ensures
        match (current, legacy) {
            (Some(config), _) => r == (config, false),
            (None, Some(config)) => r == (config, true),
            (None, None) => {
                &&& r.1
                &&& r.0.user.group@ == "自己"@
                &&& r.0.language == LanguageEncoding::Gb18030
                &&& exists|locale: Option<Seq<char>>|
                    r.0.ui_language == #[trigger] config::locale_language(locale)
            },
        },
{
    load_config(current, legacy)
}

/// The name and the group that the user entered, without the white space around them;
/// `None` where there is no name.
pub fn entered_names(username: &str, group: &str) -> (r: Option<(String, String)>)
    ensures
        match r {
            Some((name, group_name)) => {
                &&& !blank(username@)
                &&& name@ == chars::trimmed(username@)
                &&& group_name@ == chars::trimmed(group@)
            },
            None => blank(username@),
        },
{
    let username = to_chars(username);
    let username = trim(username.as_slice());
    if username.len() == 0 {
        return None;
    }
    let group = to_chars(group);
    let group = trim(group.as_slice());
    Some((to_text(username.as_slice()), to_text(group.as_slice())))
}

/// The settings to save where the user changed theirs.
pub fn settings_to_save(
    current: AppConfig,
    username: &str,
    group: &str,
    language: LanguageEncoding,
    ui_language: UiLanguage,
) -> (r: AppConfig)
    ensures
        r.user.username@ == username@,
        r.user.group@ == group@,
        r.language == language,
        r.ui_language == ui_language,
{
    changed_config(current, username.to_owned(), group.to_owned(), language, ui_language)
}

/// Carries out settings once it was tried to save them. Where that failed, nothing is
/// done; else others are told of the name, and the state is told who the user is.
pub fn save_settings(
    service: &mut Service,
    saved: Result<(), String>,
    me: Option<OnlineUser>,
    username: String,
    group: String,
    language: LanguageEncoding,
) -> (r: Result<(Datagram, Vec<StateCmd>), String>)
    requires
        old(service).wf(),
        username@.len() <= service::MAX_NAME,
        group@.len() <= service::MAX_NAME,
    ensures
        final(service).wf(),
        match saved {
            Err(e) => r == Err::<(Datagram, Vec<StateCmd>), String>(e) && *final(service) == *old(
                service,
            ),
            Ok(()) => {
                &&& final(service).text_encoding == match language {
                    LanguageEncoding::Utf8 => TextEncoding::Utf8,
                    LanguageEncoding::Gb18030 => TextEncoding::Gb18030,
                }
                &&& final(service).user.username@ == username@
                &&& final(service).user.group@ == group@
                &&& final(service).user.hostname == old(service).user.hostname
                &&& *final(service) == (Service {
                    text_encoding: final(service).text_encoding,
                    user: final(service).user,
                    ..old(service).advanced()
                })
                &&& r is Ok
                &&& (r->Ok_0).0.to == old(service).net.broadcast_addr()
                &&& (r->Ok_0).0.bytes@ == announced(*old(service), *final(service)).next_bytes(
                    crate::ipmsg_core::protocol::IPMSG_BR_ENTRY,
                    announced(*old(service), *final(service)).user_extra(),
                )
                &&& (r->Ok_0).1@ == match me {
                    Some(me) => seq![
                        StateCmd::InitSelf { user: username, group, host: me.host, addr: me.addr },
                        StateCmd::SettingsSaved,
                    ],
                    None => seq![StateCmd::SettingsSaved],
                }
            },
        },
{
    if let Err(e) = saved {
        return Err(e);
    }
    set_text_encoding(service, text_encoding_of(language));
    set_user_info(service, username.as_str(), group.as_str());
    let announcement = send_broadcast_entry(service);
    let mut cmds: Vec<StateCmd> = Vec::new();
    if let Some(me) = me {
        cmds.push(StateCmd::InitSelf { user: username, group, host: me.host, addr: me.addr });
    }
    cmds.push(StateCmd::SettingsSaved);
    Ok((announcement, cmds))
}

/// The state that an announcement was made in: what is set now, with the packet number
/// from before.
pub open spec fn announced(before: Service, after: Service) -> Service {
    Service { packet_no_seq: before.packet_no_seq, ..after }
}

} // verus!
