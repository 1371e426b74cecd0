//! The settings of the user, and where they are kept.
use crate::chars::{starts_with, to_chars};
use crate::ipmsg_core::text::TextEncoding;
use crate::letter_case;
use crate::letter_case::to_lowercase;
use crate::machine::{machine_username, system_locale};
use vstd::prelude::*;

verus! {

/// The encoding of texts on the wire.
#[derive(Debug, Clone, Copy, PartialEq, Eq, Structural)]
pub enum LanguageEncoding {
    Utf8,
    Gb18030,
}

impl Default for LanguageEncoding {
    fn default() -> (r: LanguageEncoding)
        ensures
            r == LanguageEncoding::Gb18030,
    {
        LanguageEncoding::Gb18030
    }
}

/// The encoding that a setting stands for.
pub fn text_encoding_of(language: LanguageEncoding) -> (r: TextEncoding)
    ensures
        r == match language {
            LanguageEncoding::Utf8 => TextEncoding::Utf8,
            LanguageEncoding::Gb18030 => TextEncoding::Gb18030,
        },
{
    match language {
        LanguageEncoding::Utf8 => TextEncoding::Utf8,
        LanguageEncoding::Gb18030 => TextEncoding::Gb18030,
    }
}

/// The language of the user interface.
#[derive(Debug, Clone, Copy, PartialEq, Eq, Structural)]
pub enum UiLanguage {
    ZhCn,
    En,
}

impl UiLanguage {
    /// The name of the language among the locales.
    pub fn as_locale(self) -> (r: &'static str)
        ensures
            r@ == match self {
                UiLanguage::ZhCn => "zh-CN"@,
                UiLanguage::En => "en"@,
            },
    {
        match self {
            UiLanguage::ZhCn => "zh-CN",
            UiLanguage::En => "en",
        }
    }
}

/// The language for a locale in lower case: Chinese for every Chinese one, else
/// English.
pub open spec fn language_for(locale: Seq<char>) -> UiLanguage {
    if "zh"@.is_prefix_of(locale) {
        UiLanguage::ZhCn
    } else {
        UiLanguage::En
    }
}

/// The language for a locale in lower case.
pub fn choose_language(locale: &str) -> (r: UiLanguage)
    ensures
        r == language_for(locale@),
{
    let locale = to_chars(locale);
    let zh = to_chars("zh");
    if starts_with(locale.as_slice(), zh.as_slice()) {
        UiLanguage::ZhCn
    } else {
        UiLanguage::En
    }
}

/// The language for the locale that a machine states, or for none.
pub open spec fn locale_language(locale: Option<Seq<char>>) -> UiLanguage {
    match locale {
        Some(locale) => language_for(letter_case::lowercase(locale)),
        None => language_for(letter_case::lowercase(Seq::empty())),
    }
}

/// The language for the locale that a machine states, or for none.
pub fn language_of_locale(locale: Option<String>) -> (r: UiLanguage)
    ensures
        r == locale_language(
            match locale {
                Some(locale) => Some(locale@),
                None => None,
            },
        ),
{
    let locale = match locale {
        Some(locale) => locale,
        None => String::new(),
    };
    assert(locale@.len() == 0 ==> locale@ =~= Seq::<char>::empty());
    choose_language(to_lowercase(locale.as_str()).as_str())
}

/// The language of this machine: that for the locale it states.
pub fn detect_system_ui_language() -> (r: UiLanguage)
    ensures
        exists|locale: Option<Seq<char>>| r == #[trigger] locale_language(locale),
{
    let locale = system_locale();
    let ghost stated: Option<Seq<char>> = if locale is Some {
        Some(locale->0@)
    } else {
        None
    };
    let r = language_of_locale(locale);
    assert(r == locale_language(stated));
    r
}

impl Default for UiLanguage {
    /// The language of this machine.
    fn default() -> (r: UiLanguage)
        ensures
            exists|locale: Option<Seq<char>>| r == #[trigger] locale_language(locale),
    {
        detect_system_ui_language()
    }
}

/// By what name and group the user is known.
#[derive(Debug, Clone)]
pub struct UserConfig {
    pub username: String,
    pub group: String,
}

/// The settings of the user.
#[derive(Debug, Clone)]
pub struct AppConfig {
    pub user: UserConfig,
    pub language: LanguageEncoding,
    pub ui_language: UiLanguage,
}

/// The settings of a user who has set nothing.
pub fn initial_config(username: String, ui_language: UiLanguage) -> (r: AppConfig)
    ensures
        r.user.username == username,
        r.user.group@ == "自己"@,
        r.language == LanguageEncoding::Gb18030,
        r.ui_language == ui_language,
{
    AppConfig {
        user: UserConfig { username, group: "自己".to_owned() },
        language: LanguageEncoding::Gb18030,
        ui_language,
    }
}

impl Default for AppConfig {
    /// The settings of a user of this machine who has set nothing.
    fn default() -> (r: AppConfig)
        ensures
            r.user.group@ == "自己"@,
            r.language == LanguageEncoding::Gb18030,
            exists|locale: Option<Seq<char>>| r.ui_language == #[trigger] locale_language(locale),
    {
        initial_config(machine_username(), detect_system_ui_language())
    }
}

/// The kinds of operating systems that keep settings in different places.
#[derive(Debug, Clone, Copy, PartialEq, Eq, Structural)]
pub enum Platform {
    Windows,
    MacOs,
    Other,
}

/// Which directories the environment names.
#[derive(Debug, Clone, Copy, PartialEq, Eq, Structural)]
pub struct Environment {
    pub appdata: bool,
    pub home: bool,
    pub xdg_config_home: bool,
}

/// Where a path begins.
#[derive(Debug, Clone, Copy, PartialEq, Eq, Structural)]
pub enum PathBase {
    AppData,
    Home,
    XdgConfigHome,
    CurrentDir,
}

/// A path: where it begins, and its components.
#[derive(Debug, Clone)]
pub struct PathPlan {
    pub base: PathBase,
    pub components: Vec<&'static str>,
}

#[verifier::ext_equal]
pub struct PathView {
    pub base: PathBase,
    pub components: Seq<Seq<char>>,
}

impl View for PathPlan {
    type V = PathView;

    open spec fn view(&self) -> PathView {
        PathView {
            base: self.base,
            components: self.components@.map_values(|c: &'static str| c@),
        }
    }
}

/// The directory of the settings: where the platform keeps them, or the current
/// directory where the environment does not tell.
pub open spec fn config_dir(platform: Platform, env: Environment) -> PathView {
    match platform {
        Platform::Windows if env.appdata => PathView {
            base: PathBase::AppData,
            components: seq!["gpui-ipmsg"@],
        },
        Platform::MacOs if env.home => PathView {
            base: PathBase::Home,
            components: seq!["Library"@, "Application Support"@, "gpui-ipmsg"@],
        },
        Platform::Other if env.xdg_config_home => PathView {
            base: PathBase::XdgConfigHome,
            components: seq!["gpui-ipmsg"@],
        },
        Platform::Other if env.home => PathView {
            base: PathBase::Home,
            components: seq![".config"@, "gpui-ipmsg"@],
        },
        _ => PathView { base: PathBase::CurrentDir, components: seq!["gpui-ipmsg"@] },
    }
}

/// A path with one more component.
pub open spec fn joined(path: PathView, component: Seq<char>) -> PathView {
    PathView { components: path.components.push(component), ..path }
}

/// The directory of the settings.
pub fn app_config_dir(platform: Platform, env: Environment) -> (r: PathPlan)
    ensures
        r@ == config_dir(platform, env),
{
    let r = match platform {
        Platform::Windows if env.appdata => PathPlan {
            base: PathBase::AppData,
            components: vec!["gpui-ipmsg"],
        },
        Platform::MacOs if env.home => PathPlan {
            base: PathBase::Home,
            components: vec!["Library", "Application Support", "gpui-ipmsg"],
        },
        Platform::Other if env.xdg_config_home => PathPlan {
            base: PathBase::XdgConfigHome,
            components: vec!["gpui-ipmsg"],
        },
        Platform::Other if env.home => PathPlan {
            base: PathBase::Home,
            components: vec![".config", "gpui-ipmsg"],
        },
        _ => PathPlan { base: PathBase::CurrentDir, components: vec!["gpui-ipmsg"] },
    };
    assert(r@ =~= config_dir(platform, env));
    r
}

fn join(path: PathPlan, component: &'static str) -> (r: PathPlan)
    ensures
        r@ == joined(path@, component@),
{
    let mut r = path;
    r.components.push(component);
    assert(r@ =~= joined(path@, component@));
    r
}

fn in_current_dir(component: &'static str) -> (r: PathPlan)
    ensures
        r@ == (PathView { base: PathBase::CurrentDir, components: seq![component@] }),
{
    let r = PathPlan { base: PathBase::CurrentDir, components: vec![component] };
    assert(r@.components =~= seq![component@]);
    r
}

/// The file of the settings.
pub fn get_config_path(platform: Platform, env: Environment) -> (r: PathPlan)
    ensures
        r@ == joined(config_dir(platform, env), "config.toml"@),
{
    join(app_config_dir(platform, env), "config.toml")
}

/// The file of the messages.
pub fn history_path(platform: Platform, env: Environment) -> (r: PathPlan)
    ensures
        r@ == joined(config_dir(platform, env), "history.json"@),
{
    join(app_config_dir(platform, env), "history.json")
}

/// Where the settings were kept once.
pub fn legacy_config_path() -> (r: PathPlan)
    ensures
        r@ == (PathView { base: PathBase::CurrentDir, components: seq!["config.toml"@] }),
{
    in_current_dir("config.toml")
}

/// Where the messages were kept once.
pub fn legacy_history_path() -> (r: PathPlan)
    ensures
        r@ == (PathView { base: PathBase::CurrentDir, components: seq!["history.json"@] }),
{
    in_current_dir("history.json")
}

/// Of the settings that were found, those that count, and whether they are to be
/// saved in their place: those in their place, else those where they were kept once,
/// else the initial ones.
pub fn choose_config(current: Option<AppConfig>, legacy: Option<AppConfig>, initial: AppConfig)
    -> (r: (AppConfig, bool))
    ensures
        r == match (current, legacy) {
            (Some(config), _) => (config, false),
            (None, Some(config)) => (config, true),
            (None, None) => (initial, true),
        },
{
    match (current, legacy) {
        (Some(config), _) => (config, false),
        (None, Some(config)) => (config, true),
        (None, None) => (initial, true),
    }
}

/// The settings that count, and whether they are to be saved in their place.
pub fn load_config(current: Option<AppConfig>, legacy: Option<AppConfig>) -> (r: (AppConfig, bool))
    ensures
        match (current, legacy) {
            (Some(config), _) => r == (config, false),
            (None, Some(config)) => r == (config, true),
            (None, None) => {
                &&& r.1
                &&& r.0.user.group@ == "自己"@
                &&& r.0.language == LanguageEncoding::Gb18030
                &&& exists|locale: Option<Seq<char>>|
                    r.0.ui_language == #[trigger] locale_language(locale)
            },
        },
{
    match (current, legacy) {
        (Some(config), _) => (config, false),
        (None, Some(config)) => (config, true),
        (None, None) => choose_config(None, None, AppConfig::default()),
    }
}

/// The settings with what the user has changed.
pub fn changed_config(
    current: AppConfig,
    username: String,
    group: String,
    language: LanguageEncoding,
    ui_language: UiLanguage,
) -> (r: AppConfig)
    ensures
        r == (AppConfig { user: UserConfig { username, group }, language, ui_language }),
{
    let mut r = current;
    r.user.username = username;
    r.user.group = group;
    r.language = language;
    r.ui_language = ui_language;
    r
}

} // verus!
