use ipmsg::app_state::model::{OnlineUser, StateCmd};
use ipmsg::config::{
    app_config_dir, choose_config, choose_language, detect_system_ui_language, get_config_path,
    history_path, initial_config, language_of_locale, legacy_config_path, legacy_history_path,
    load_config, text_encoding_of, AppConfig, Environment, LanguageEncoding, PathBase, PathPlan,
    Platform, UiLanguage,
};
use ipmsg::ipmsg_core::event::Event;
use ipmsg::ipmsg_core::offering::SentFileMeta;
use ipmsg::ipmsg_core::packet::parse_packet;
use ipmsg::ipmsg_core::service::{Service, UserInfo};
use ipmsg::ipmsg_core::text::TextEncoding;
use ipmsg::logic::{
    download_done, download_failed, download_key, download_progress, entered_names,
    failed_offer_message, file_meta, get_config, is_blank, offer_message, plan_open, pump,
    retried_offer, retried_text, save_settings, settings_to_save, tells_file_progress,
    tells_folder_progress, text_message, transfer_canceled, OpenPlan, PumpInput, PumpStep,
};
use ipmsg::machine::{host_name_or_empty, own_host_name};
use ipmsg::net::{NetSettings, SocketAddr};

fn addr(n: u32) -> SocketAddr {
    SocketAddr::V4 { ip: 0x0a00_0000 + n, port: 2425 }
}

fn env(appdata: bool, home: bool, xdg_config_home: bool) -> Environment {
    Environment { appdata, home, xdg_config_home }
}

fn path(p: PathPlan) -> (PathBase, String) {
    (p.base, p.components.join("/"))
}

#[test]
fn settings_are_kept_where_the_platform_keeps_them() {
    let all = env(true, true, true);
    let none = env(false, false, false);
    let dir = |p, e| path(app_config_dir(p, e));
    assert_eq!(dir(Platform::Windows, all), (PathBase::AppData, "gpui-ipmsg".to_string()));
    assert_eq!(
        dir(Platform::MacOs, all),
        (PathBase::Home, "Library/Application Support/gpui-ipmsg".to_string())
    );
    assert_eq!(dir(Platform::Other, all), (PathBase::XdgConfigHome, "gpui-ipmsg".to_string()));
    assert_eq!(
        dir(Platform::Other, env(true, true, false)),
        (PathBase::Home, ".config/gpui-ipmsg".to_string())
    );
    for p in [Platform::Windows, Platform::MacOs, Platform::Other] {
        assert_eq!(dir(p, none), (PathBase::CurrentDir, "gpui-ipmsg".to_string()));
    }
    assert_eq!(dir(Platform::Windows, env(false, true, true)).0, PathBase::CurrentDir);
    assert_eq!(path(get_config_path(Platform::Other, all)).1, "gpui-ipmsg/config.toml");
    assert_eq!(path(history_path(Platform::Other, all)).1, "gpui-ipmsg/history.json");
    assert_eq!(path(legacy_config_path()), (PathBase::CurrentDir, "config.toml".to_string()));
    assert_eq!(path(legacy_history_path()), (PathBase::CurrentDir, "history.json".to_string()));
}

fn config(name: &str) -> AppConfig {
    initial_config(name.to_string(), UiLanguage::En)
}

#[test]
fn settings_in_their_place_come_first() {
    let (c, save) = load_config(Some(config("new")), Some(config("old")));
    assert_eq!((c.user.username.as_str(), save), ("new", false));
    let (c, save) = load_config(None, Some(config("old")));
    assert_eq!((c.user.username.as_str(), save), ("old", true));
    let (c, save) = get_config(None, None);
    assert_eq!((c.user.group.as_str(), save), ("自己", true));
    assert_eq!(c.language, LanguageEncoding::Gb18030);
    assert_eq!(c.user.username, whoami::username());
    assert_eq!(c.ui_language, detect_system_ui_language());
    let (c, save) = choose_config(None, None, config("initial"));
    assert_eq!((c.user.username.as_str(), save), ("initial", true));
}

#[test]
fn languages() {
    assert_eq!(UiLanguage::ZhCn.as_locale(), "zh-CN");
    assert_eq!(UiLanguage::En.as_locale(), "en");
    assert_eq!(language_of_locale(Some("ZH_tw.UTF-8".to_string())), UiLanguage::ZhCn);
    assert_eq!(language_of_locale(Some("en-US".to_string())), UiLanguage::En);
    assert_eq!(language_of_locale(None), UiLanguage::En);
    assert_eq!(choose_language("zh-cn"), UiLanguage::ZhCn);
    assert_eq!(choose_language("ZH"), UiLanguage::En);
    assert_eq!(detect_system_ui_language(), language_of_locale(sys_locale::get_locale()));
    assert_eq!(UiLanguage::default(), detect_system_ui_language());
    assert_eq!(LanguageEncoding::default(), LanguageEncoding::Gb18030);
    assert_eq!(text_encoding_of(LanguageEncoding::Utf8), TextEncoding::Utf8);
    assert_eq!(text_encoding_of(LanguageEncoding::Gb18030), TextEncoding::Gb18030);
}

#[test]
fn host_names() {
    assert_eq!(host_name_or_empty(None), "");
    assert_eq!(host_name_or_empty(Some("h".to_string())), "h");
    assert_eq!(own_host_name(), hostname::get().unwrap().to_string_lossy());
}

#[test]
fn blank_texts() {
    assert!(is_blank(""));
    assert!(is_blank(" \t\u{3000}\n"));
    assert!(!is_blank(" x "));
}

#[test]
fn downloads_are_told_apart() {
    assert_eq!(download_key(addr(2), 3, 4), "10.0.0.2:2425-3-4");
    assert_ne!(download_key(addr(2), 34, 5), download_key(addr(2), 3, 45));
    let six = |ip, flowinfo| SocketAddr::V6 { ip, port: 1, flowinfo, scope_id: 0 };
    assert_eq!(download_key(six(1, 2), 3, 4), download_key(six(1, 5), 3, 4));
    assert_ne!(download_key(six(1, 2), 3, 4), download_key(six(1 << 64, 2), 3, 4));
}

#[test]
fn own_messages() {
    let m = text_message(addr(1), addr(2), "t".to_string(), "now".to_string(), Some(9));
    assert!(m.is_me && !m.failed && !m.delivered);
    assert_eq!((m.packet_no, m.id, m.text.as_str()), (9, 0, "t"));
    let m = text_message(addr(1), addr(2), "t".to_string(), "now".to_string(), None);
    assert!(m.failed);
    assert_eq!(m.packet_no, 0);
    let item = SentFileMeta {
        packet_no: 5,
        file_id: 6,
        path: "/p".to_string(),
        name: "p".to_string(),
        size: 7,
        is_dir: true,
    };
    let m = offer_message(addr(1), addr(2), item, String::new(), "now".to_string());
    let f = m.file.as_ref().unwrap();
    assert_eq!((m.packet_no, f.packet_no, f.file_id, f.size), (5, 5, 6, 7));
    assert!(f.is_dir && !m.failed);
    assert_eq!(f.local_path.as_deref(), Some("/p"));
    let m = failed_offer_message(
        addr(1),
        addr(2),
        "n".to_string(),
        3,
        false,
        "/n".to_string(),
        "now".to_string(),
    );
    assert!(m.failed && m.text.is_empty());
    assert_eq!(m.file.unwrap().local_path.as_deref(), Some("/n"));
    assert_eq!(
        file_meta("/a/b".to_string(), Some("b".to_string()), Some((true, 9))),
        ("b".to_string(), 9, true)
    );
    assert_eq!(file_meta("/".to_string(), None, None), ("/".to_string(), 0, false));
}

#[test]
fn retries() {
    assert!(matches!(
        retried_text(1, Some(5)),
        StateCmd::RetryFinished { id: 1, ok: true, packet_no: 5, file_id: 0 }
    ));
    assert!(matches!(retried_text(1, None), StateCmd::RetryFinished { ok: false, .. }));
    assert!(matches!(
        retried_offer(1, &Vec::new()),
        StateCmd::RetryFinished { ok: false, packet_no: 0, .. }
    ));
    let item = SentFileMeta {
        packet_no: 5,
        file_id: 6,
        path: "/p".to_string(),
        name: "p".to_string(),
        size: 7,
        is_dir: false,
    };
    assert!(matches!(
        retried_offer(1, &vec![item]),
        StateCmd::RetryFinished { id: 1, ok: true, packet_no: 5, file_id: 6 }
    ));
}

#[test]
fn progress_is_told_now_and_then() {
    assert!(!tells_file_progress(99, 1, 2));
    assert!(tells_file_progress(100, 1, 2));
    assert!(tells_file_progress(0, 2, 2));
    assert!(!tells_folder_progress(99, "a", "a"));
    assert!(tells_folder_progress(100, "a", "a"));
    assert!(tells_folder_progress(0, "b", "a"));
    assert!(matches!(
        download_progress(addr(2), 3, 4, 5, None),
        StateCmd::UpdateProgress {
            target_outgoing: Some(false),
            progress: 5,
            saved: None,
            error: Some(false),
            canceled: None,
            ..
        }
    ));
    assert!(matches!(
        download_done(addr(2), 3, 4, 5, "/p".to_string()),
        StateCmd::UpdateProgress { local_path: Some(_), saved: Some(true), .. }
    ));
    assert!(matches!(
        download_failed(addr(2), 3, 4),
        StateCmd::UpdateProgress { saved: Some(false), error: Some(true), canceled: None, .. }
    ));
    assert!(matches!(
        transfer_canceled(addr(2), 3, 4, true),
        StateCmd::UpdateProgress { target_outgoing: Some(true), canceled: Some(true), .. }
    ));
}

#[test]
fn lost_events_do_not_stop_the_pump() {
    assert!(matches!(pump(PumpInput::Lagged(7)), PumpStep::GoOn));
    assert!(matches!(pump(PumpInput::Closed), PumpStep::Stop));
    let event = Event::Delivered { from: addr(2), packet_no: 3 };
    assert!(matches!(
        pump(PumpInput::Event(event)),
        PumpStep::Apply(StateCmd::ApplyEvent(Event::Delivered { packet_no: 3, .. }))
    ));
}

#[test]
fn files_are_shown_in_the_file_manager() {
    let plan = |p, is_dir, dir, file| plan_open(p, "/x", is_dir, dir, file);
    assert_eq!(plan_open(Platform::Other, "  ", true, true, false), OpenPlan::Nothing);
    assert_eq!(plan(Platform::Windows, true, true, false), OpenPlan::Open);
    assert_eq!(plan(Platform::Windows, true, false, true), OpenPlan::OpenParent);
    assert_eq!(plan(Platform::Windows, false, false, true), OpenPlan::Reveal);
    assert_eq!(plan(Platform::Windows, false, false, false), OpenPlan::OpenParent);
    assert_eq!(plan(Platform::MacOs, true, false, false), OpenPlan::Open);
    assert_eq!(plan(Platform::MacOs, false, false, false), OpenPlan::Reveal);
    assert_eq!(plan(Platform::Other, true, false, false), OpenPlan::Open);
    assert_eq!(plan(Platform::Other, false, false, false), OpenPlan::OpenParent);
}

#[test]
fn entered_settings_are_carried_out() {
    assert_eq!(entered_names("  ", "g"), None);
    assert_eq!(entered_names(" n ", " g "), Some(("n".to_string(), "g".to_string())));
    let c = settings_to_save(config("old"), "n", "g", LanguageEncoding::Utf8, UiLanguage::ZhCn);
    assert_eq!((c.user.username.as_str(), c.user.group.as_str()), ("n", "g"));
    assert_eq!((c.language, c.ui_language), (LanguageEncoding::Utf8, UiLanguage::ZhCn));
    let user = UserInfo {
        username: "old".to_string(),
        hostname: "h".to_string(),
        group: String::new(),
    };
    let net = NetSettings { prefix: None, broadcast: None, detected: None };
    let mut service = Service::new(TextEncoding::Gb18030, user, 1, net);
    let me = OnlineUser {
        name: "old".to_string(),
        group: String::new(),
        host: "h".to_string(),
        addr: addr(1),
    };
    let failed = save_settings(
        &mut service,
        Err("disk full".to_string()),
        Some(me.clone()),
        "新".to_string(),
        "g".to_string(),
        LanguageEncoding::Utf8,
    );
    assert_eq!(failed.unwrap_err(), "disk full");
    assert_eq!(service.user.username, "old");
    let (d, cmds) = save_settings(
        &mut service,
        Ok(()),
        Some(me),
        "新".to_string(),
        "g".to_string(),
        LanguageEncoding::Utf8,
    )
    .unwrap();
    let p = parse_packet(TextEncoding::Utf8, &d.bytes).unwrap();
    assert_eq!((p.username.as_str(), p.command), ("新", 1));
    assert_eq!(cmds.len(), 2);
    assert!(matches!(&cmds[0], StateCmd::InitSelf { user, host, .. } if user == "新" && host == "h"));
    assert!(matches!(&cmds[1], StateCmd::SettingsSaved));
    let (_, cmds) = save_settings(
        &mut service,
        Ok(()),
        None,
        "n".to_string(),
        "g".to_string(),
        LanguageEncoding::Utf8,
    )
    .unwrap();
    assert_eq!(cmds.len(), 1);
}
