//! Settings: what holds at first, what the user changes, and where it is kept.
use crate::app_state::model::{OnlineUser, StateCmd};
use crate::chars;
use crate::config;
use crate::config::{
    AppConfig, Environment, LanguageEncoding, PathBase, PathPlan, Platform, UiLanguage,
};
use crate::ipmsg_core::event::Event;
use crate::ipmsg_core::inbound;
use crate::ipmsg_core::packet;
use crate::ipmsg_core::service;
use crate::ipmsg_core::service::{Datagram, Service, UserInfo};
use crate::ipmsg_core::text::TextEncoding;
use crate::laws::exchange;
use crate::laws::offers;
use crate::laws::texts;
use crate::letter_case;
use crate::logic;
use crate::logic::{OpenPlan, PumpInput, PumpStep};
use crate::machine;
use crate::net::SocketAddr;
use vstd::prelude::*;

verus! {

/// At first texts are sent in GB18030, the user is in the group of their own, and the
/// language is the one that was found. Each encoding that can be set is the one that is
/// used.
pub proof fn law_first_settings(
    username: String,
    language: UiLanguage,
    r: AppConfig,
    d: LanguageEncoding,
    gb: TextEncoding,
    utf: TextEncoding,
)
    requires
        call_ensures(config::initial_config, (username, language), r),
        call_ensures(LanguageEncoding::default, (), d),
        call_ensures(config::text_encoding_of, (LanguageEncoding::Gb18030,), gb),
        call_ensures(config::text_encoding_of, (LanguageEncoding::Utf8,), utf),
    ensures
        r.user.username == username,
        r.user.group@ == seq!['自', '己'],
        r.ui_language == language,
        r.language == LanguageEncoding::Gb18030,
        d == r.language,
        gb == TextEncoding::Gb18030,
        utf == TextEncoding::Utf8,
{
    reveal_strlit("自己");
    assert("自己"@ =~= seq!['自', '己']);
}

/// The language is Chinese where the locale begins with `zh`, in letters of either case, and
/// English elsewhere and where there is none.
pub proof fn law_language_found(
    locale: String,
    lowered: &str,
    r: UiLanguage,
    s: UiLanguage,
    zh: &'static str,
    en: &'static str,
)
    requires
        lowered@ == letter_case::lowercase(locale@),
        call_ensures(config::language_of_locale, (Some(locale),), r),
        call_ensures(config::choose_language, (lowered,), s),
        call_ensures(UiLanguage::as_locale, (UiLanguage::ZhCn,), zh),
        call_ensures(UiLanguage::as_locale, (UiLanguage::En,), en),
    ensures
        r == s,
        lowered@.len() >= 2 && lowered@[0] == 'z' && lowered@[1] == 'h' ==> s == UiLanguage::ZhCn,
        !(lowered@.len() >= 2 && lowered@[0] == 'z' && lowered@[1] == 'h') ==> s == UiLanguage::En,
        zh@ == seq!['z', 'h', '-', 'C', 'N'],
        en@ == seq!['e', 'n'],
{
    reveal_strlit("zh");
    reveal_strlit("zh-CN");
    reveal_strlit("en");
    assert("zh-CN"@ =~= seq!['z', 'h', '-', 'C', 'N']);
    assert("en"@ =~= seq!['e', 'n']);
    let t = lowered@;
    if t.len() >= 2 && t[0] == 'z' && t[1] == 'h' {
        assert("zh"@ =~= t.subrange(0, 2));
    } else if "zh"@.is_prefix_of(t) {
        assert(t[0] == "zh"@[0] && t[1] == "zh"@[1]);
    }
}

/// Settings are taken from where they are kept now; else from where they were kept in
/// earlier times; else they are the first ones. In the last two cases they are to be saved.
pub proof fn law_settings_found(
    current: Option<AppConfig>,
    legacy: Option<AppConfig>,
    initial: AppConfig,
    r: (AppConfig, bool),
    loaded: (AppConfig, bool),
    got: (AppConfig, bool),
)
    requires
        call_ensures(config::choose_config, (current, legacy, initial), r),
        call_ensures(config::load_config, (current, legacy), loaded),
        call_ensures(logic::get_config, (current, legacy), got),
    ensures
        current is Some ==> r == (current->0, false) && loaded == r && got == r,
        current is None && legacy is Some ==> r == (legacy->0, true) && loaded == r && got == r,
        current is None && legacy is None ==> r == (initial, true) && loaded.1 && got.1
            && loaded.0.language == LanguageEncoding::Gb18030 && got.0.language
            == LanguageEncoding::Gb18030,
{
}

/// The path begins there and goes through these directories.
pub open spec fn leads(p: PathPlan, base: PathBase, components: Seq<Seq<char>>) -> bool {
    &&& p.base == base
    &&& p.components@.len() == components.len()
    &&& forall|i: int| 0 <= i < components.len() ==> (#[trigger] p.components@[i])@ == components[i]
}

/// Settings and history are kept in one directory, which is the user's own on each kind of
/// system, and the current one where the environment does not name that.
pub proof fn law_where_settings_are(
    platform: Platform,
    env: Environment,
    dir: PathPlan,
    file: PathPlan,
    history: PathPlan,
)
    requires
        call_ensures(config::app_config_dir, (platform, env), dir),
        call_ensures(config::get_config_path, (platform, env), file),
        call_ensures(config::history_path, (platform, env), history),
    ensures
        platform == Platform::Windows && env.appdata ==> leads(
            dir,
            PathBase::AppData,
            seq!["gpui-ipmsg"@],
        ),
        platform == Platform::MacOs && env.home ==> leads(
            dir,
            PathBase::Home,
            seq!["Library"@, "Application Support"@, "gpui-ipmsg"@],
        ),
        platform == Platform::Other && env.xdg_config_home ==> leads(
            dir,
            PathBase::XdgConfigHome,
            seq!["gpui-ipmsg"@],
        ),
        platform == Platform::Other && !env.xdg_config_home && env.home ==> leads(
            dir,
            PathBase::Home,
            seq![".config"@, "gpui-ipmsg"@],
        ),
        platform == Platform::Windows && !env.appdata || platform == Platform::MacOs && !env.home
            || platform == Platform::Other && !env.xdg_config_home && !env.home ==> leads(
            dir,
            PathBase::CurrentDir,
            seq!["gpui-ipmsg"@],
        ),
        file.base == dir.base,
        history.base == dir.base,
        file.components@.len() == dir.components@.len() + 1,
        history.components@.len() == dir.components@.len() + 1,
        forall|i: int|
            0 <= i < dir.components@.len() ==> (#[trigger] file.components@[i])@
                == dir.components@[i]@,
        forall|i: int|
            0 <= i < dir.components@.len() ==> (#[trigger] history.components@[i])@
                == dir.components@[i]@,
        file.components@.last()@ == "config.toml"@,
        history.components@.last()@ == "history.json"@,
{
    let d = dir@.components;
    assert(forall|i: int| 0 <= i < dir.components@.len() ==> d[i] == (#[trigger] dir.components@[i])@);
    assert(forall|i: int|
        0 <= i < file.components@.len() ==> file@.components[i] == (#[trigger] file.components@[i])@);
    assert(forall|i: int|
        0 <= i < history.components@.len() ==> history@.components[i] == (
        #[trigger] history.components@[i])@);
    assert(file@.components == d.push("config.toml"@));
    assert(history@.components == d.push("history.json"@));
    assert(file@.components.len() == file.components@.len());
    assert(history@.components.len() == history.components@.len());
    assert(d.len() == dir.components@.len());
}

/// In earlier times both were kept in the current directory.
pub proof fn law_where_settings_were(file: PathPlan, history: PathPlan)
    requires
        call_ensures(config::legacy_config_path, (), file),
        call_ensures(config::legacy_history_path, (), history),
    ensures
        leads(file, PathBase::CurrentDir, seq!["config.toml"@]),
        leads(history, PathBase::CurrentDir, seq!["history.json"@]),
{
    assert(file@.components.len() == file.components@.len());
    assert(history@.components.len() == history.components@.len());
    assert(file@.components[0] == file.components@[0]@);
    assert(history@.components[0] == history.components@[0]@);
}

/// What the user enters is taken without the white space around it; a user must have a
/// name, but need not have a group.
pub proof fn law_names_entered(username: &str, group: &str, r: Option<(String, String)>)
    requires
        call_ensures(logic::entered_names, (username, group), r),
    ensures
        r is None <==> texts::all_white(username@),
        r is Some ==> (r->0).0@ == chars::trimmed(username@) && (r->0).1@ == chars::trimmed(group@),
{
    lemma_blank(username@);
}

proof fn lemma_blank(s: Seq<char>)
    ensures
        logic::blank(s) <==> texts::all_white(s),
{
    let none = Seq::<char>::empty();
    if texts::all_white(s) {
        texts::law_trimming(s, none, none);
        assert(s + none + none =~= s);
    } else {
        lemma_start_of(s);
    }
}

proof fn lemma_start_of(s: Seq<char>)
    requires
        !texts::all_white(s),
    ensures
        chars::trimmed(s).len() > 0,
    decreases s.len(),
{
    let i = choose|i: int| 0 <= i < s.len() && !chars::white(#[trigger] s[i]);
    if chars::white(s[0]) {
        assert(!chars::white(s.drop_first()[i - 1]));
        lemma_start_of(s.drop_first());
    } else {
        lemma_end_of(s);
    }
}

proof fn lemma_end_of(s: Seq<char>)
    requires
        s.len() > 0,
        !chars::white(s[0]),
    ensures
        chars::trim_end(s).len() > 0,
        chars::trim_start(s) == s,
    decreases s.len(),
{
    if chars::white(s.last()) {
        assert(s.drop_last().len() > 0);
        lemma_end_of(s.drop_last());
    }
}

/// A text is blank where it holds nothing but white space.
pub proof fn law_blank_texts(s: &str, r: bool)
    requires
        call_ensures(logic::is_blank, (s,), r),
    ensures
        r <==> texts::all_white(s@),
{
    lemma_blank(s@);
}

/// What the user sets is what is saved: the names, the encoding and the language.
pub proof fn law_settings_saved_as_set(
    current: AppConfig,
    username: &str,
    group: &str,
    language: LanguageEncoding,
    ui_language: UiLanguage,
    r: AppConfig,
    name: String,
    group_name: String,
    c: AppConfig,
)
    requires
        call_ensures(
            logic::settings_to_save,
            (current, username, group, language, ui_language),
            r,
        ),
        call_ensures(
            config::changed_config,
            (current, name, group_name, language, ui_language),
            c,
        ),
    ensures
        r.user.username@ == username@,
        r.user.group@ == group@,
        r.language == language,
        r.ui_language == ui_language,
        c.user.username == name,
        c.user.group == group_name,
        c.language == language,
        c.ui_language == ui_language,
{
}

/// Once the settings are saved the client goes by the new name and the new encoding, and
/// announces itself under them, and the user's own entry follows; where they could not be
/// saved, nothing changes.
pub proof fn law_settings_take_effect(
    service: &mut Service,
    saved: Result<(), String>,
    me: Option<OnlineUser>,
    username: String,
    group: String,
    language: LanguageEncoding,
    r: Result<(Datagram, Vec<StateCmd>), String>,
    receiver: Service,
    from: SocketAddr,
)
    requires
        old(service).wf(),
        call_ensures(logic::save_settings, (service, saved, me, username, group, language), r),
        receiver.net.allows(from),
        !username@.contains('\0') && !username@.contains(':') && !group@.contains('\0'),
        !old(service).user.hostname@.contains(':'),
        packet::clean_name(username@).len() > 0,
        r is Ok ==> offers::reads_back(
            receiver,
            final(service).text_encoding,
            (r->Ok_0).0.bytes@,
        ),
    ensures
        r is Ok <==> saved is Ok,
        saved is Err ==> r->Err_0 == saved->Err_0 && *final(service) == *old(service),
        saved is Ok ==> {
            let datagram = (r->Ok_0).0;
            let cmds = (r->Ok_0).1@;
            &&& final(service).user.username@ == username@
            &&& final(service).user.group@ == group@
            &&& final(service).user.hostname == old(service).user.hostname
            &&& language == LanguageEncoding::Utf8 ==> final(service).text_encoding
                == TextEncoding::Utf8
            &&& language == LanguageEncoding::Gb18030 ==> final(service).text_encoding
                == TextEncoding::Gb18030
            &&& final(service).files == old(service).files
            &&& datagram.to == old(service).net.broadcast_addr()
            &&& exchange::brings_online(receiver, datagram.bytes@, from, *final(service))
            &&& me is None ==> cmds == seq![StateCmd::SettingsSaved]
            &&& me is Some ==> cmds.len() == 2 && cmds[0] == (StateCmd::InitSelf {
                user: username,
                group,
                host: me->0.host,
                addr: me->0.addr,
            }) && cmds[1] == StateCmd::SettingsSaved
        },
{
    if saved is Ok {
        let sender = logic::announced(*old(service), *final(service));
        let extra = sender.user_extra();
        let p = sender.next_packet(1, extra);
        packet::law_packet_text_round_trip(p);
        let data = (r->Ok_0).0.bytes@;
        assert(crate::ipmsg_core::text::encoded(sender.text_encoding, packet::packet_text(p))
            == data);
        assert(inbound::carries(sender, receiver, 1, extra, data));
        inbound::law_announcement_arrives(sender, receiver, data, from);
    }
}

/// A machine without a name is called `host`, and its user belongs to no group at first.
pub proof fn law_user_of_machine(
    username: String,
    hostname: Option<String>,
    r: UserInfo,
    own: String,
)
    requires
        call_ensures(service::user_info_from, (username, hostname), r),
        call_ensures(machine::host_name_or_empty, (hostname,), own),
    ensures
        r.username == username,
        r.group@.len() == 0,
        hostname is Some ==> r.hostname@ == hostname->0@ && own@ == hostname->0@,
        hostname is None ==> r.hostname@ == seq!['h', 'o', 's', 't'] && own@.len() == 0,
{
    reveal_strlit("host");
    assert("host"@ =~= seq!['h', 'o', 's', 't']);
}

/// What the protocol tells is handed to the state as it is; lost events are no reason to
/// stop, the end of events is.
pub proof fn law_events_passed_on(event: Event, n: u64, a: PumpStep, b: PumpStep, c: PumpStep)
    requires
        call_ensures(logic::pump, (PumpInput::Event(event),), a),
        call_ensures(logic::pump, (PumpInput::Lagged(n),), b),
        call_ensures(logic::pump, (PumpInput::Closed,), c),
    ensures
        a == PumpStep::Apply(StateCmd::ApplyEvent(event)),
        b == PumpStep::GoOn,
        c == PumpStep::Stop,
{
}

/// Progress is told at most every tenth of a second, but always once a file is complete and
/// whenever the next file of a folder begins.
pub proof fn law_progress_told(
    elapsed: u64,
    progress: u64,
    size: u64,
    now: &str,
    before: &str,
    file: bool,
    folder: bool,
)
    requires
        call_ensures(logic::tells_file_progress, (elapsed, progress, size), file),
        call_ensures(logic::tells_folder_progress, (elapsed, now, before), folder),
    ensures
        elapsed >= 100 ==> file && folder,
        progress == size ==> file,
        now@ != before@ ==> folder,
        elapsed < 100 && progress != size ==> !file,
        elapsed < 100 && now@ == before@ ==> !folder,
{
}

/// A file to be sent is known by its name, or by its path where it has none; what cannot be
/// looked at counts as an empty file.
pub proof fn law_file_described(
    path: String,
    name: Option<String>,
    meta: Option<(bool, u64)>,
    r: (String, u64, bool),
)
    requires
        call_ensures(logic::file_meta, (path, name, meta), r),
    ensures
        name is Some ==> r.0 == name->0,
        name is None ==> r.0 == path,
        meta is Some ==> r.1 == (meta->0).1 && r.2 == (meta->0).0,
        meta is None ==> r.1 == 0 && !r.2,
{
}

/// A path is shown in the file manager of the system: a folder is opened, a file is shown in
/// its folder, and where it is gone the folder around it is opened. Nothing is done about a
/// blank path.
pub proof fn law_shown_in_file_manager(
    platform: Platform,
    path: &str,
    is_dir: bool,
    dir_there: bool,
    file_there: bool,
    r: OpenPlan,
)
    requires
        call_ensures(logic::plan_open, (platform, path, is_dir, dir_there, file_there), r),
    ensures
        r == OpenPlan::Nothing <==> texts::all_white(path@),
        !texts::all_white(path@) && is_dir && platform != Platform::Windows ==> r == OpenPlan::Open,
        !texts::all_white(path@) && is_dir && platform == Platform::Windows ==> r == if dir_there {
            OpenPlan::Open
        } else {
            OpenPlan::OpenParent
        },
        !texts::all_white(path@) && !is_dir && platform == Platform::MacOs ==> r
            == OpenPlan::Reveal,
        !texts::all_white(path@) && !is_dir && platform == Platform::Windows ==> r
            == if file_there {
            OpenPlan::Reveal
        } else {
            OpenPlan::OpenParent
        },
        !texts::all_white(path@) && !is_dir && platform == Platform::Other ==> r
            == OpenPlan::OpenParent,
{
    lemma_blank(path@);
}

} // verus!
