//! User preferences stored in `config.toml`, and the state of the
//! preferences window.
use vstd::prelude::*;

use crate::text::{chars_of, eq_ignore_ascii_case_at, eq_ignore_case, string_of, trim, trim_bounds};
use crate::toml_value::{
    opt_str_view, spec_toml_parse, toml_member, toml_member_of, toml_parse, toml_text, toml_text_of,
    TomlValue, TomlView,
};

verus! {

/// Theme used when none is configured.
pub const DEFAULT_THEME_ID: &'static str = "velotype";

/// Language used when none is configured or detected.
pub const DEFAULT_LANGUAGE_ID: &'static str = "en-US";

/// Which document the application opens at start-up.
#[derive(Clone, Copy, Debug, PartialEq, Eq, Structural)]
pub enum StartupOpenPreference {
    NewFile,
    LastOpenedFile,
}

/// The text a start-up choice is stored as.
pub open spec fn startup_text(p: StartupOpenPreference) -> Seq<char> {
    match p {
        StartupOpenPreference::NewFile => "new_file"@,
        StartupOpenPreference::LastOpenedFile => "last_opened_file"@,
    }
}

/// The start-up choice stored as `value`: `last_opened_file` means the last
/// opened file, anything else a new file.
pub open spec fn startup_from_text(value: Seq<char>) -> StartupOpenPreference {
    if value == "last_opened_file"@ {
        StartupOpenPreference::LastOpenedFile
    } else {
        StartupOpenPreference::NewFile
    }
}

impl StartupOpenPreference {
    /// The text this choice is stored as.
    pub fn as_str(self) -> (res: &'static str)
        ensures
            res@ == startup_text(self),
    {
        match self {
            StartupOpenPreference::NewFile => "new_file",
            StartupOpenPreference::LastOpenedFile => "last_opened_file",
        }
    }

    /// The choice stored as `value`; unknown values mean a new file.
    pub fn from_str(value: &str) -> (res: Self)
        ensures
            res == startup_from_text(value@),
    {
        if crate::text::text_equals(value, "last_opened_file") {
            StartupOpenPreference::LastOpenedFile
        } else {
            StartupOpenPreference::NewFile
        }
    }
}

/// A stored choice reads back as itself.
pub proof fn law_startup_round_trip(p: StartupOpenPreference)
    ensures
        startup_from_text(startup_text(p)) == p,
{
    reveal_strlit("new_file");
    reveal_strlit("last_opened_file");
    if p == StartupOpenPreference::NewFile {
        assert("new_file"@.len() != "last_opened_file"@.len());
    }
}

/// User preferences persisted under the application's configuration directory.
#[derive(Debug, PartialEq, Eq)]
pub struct AppPreferences {
    pub startup_open: StartupOpenPreference,
    pub default_language_id: String,
    pub default_theme_id: String,
}

impl Default for AppPreferences {
    fn default() -> (res: Self)
        ensures
            res.startup_open == StartupOpenPreference::NewFile,
            res.default_language_id@ == DEFAULT_LANGUAGE_ID@,
            res.default_theme_id@ == DEFAULT_THEME_ID@,
    {
        AppPreferences {
            startup_open: StartupOpenPreference::NewFile,
            default_language_id: DEFAULT_LANGUAGE_ID.to_owned(),
            default_theme_id: DEFAULT_THEME_ID.to_owned(),
        }
    }
}

/// The start-up choice stored as `value`, a new file when it is missing.
pub open spec fn startup_choice(value: Option<Seq<char>>) -> StartupOpenPreference {
    match value {
        Some(v) => startup_from_text(v),
        None => StartupOpenPreference::NewFile,
    }
}

/// A configured identifier: the trimmed value when it is not blank,
/// otherwise the fallback.
pub open spec fn configured_id(value: Option<Seq<char>>, fallback: Seq<char>) -> Seq<char> {
    match value {
        Some(v) => if trim(v).len() > 0 {
            trim(v)
        } else {
            fallback
        },
        None => fallback,
    }
}

/// The trimmed value, or the fallback when the value is missing or blank.
pub fn configured_id_or(value: Option<&str>, fallback: &str) -> (res: String)
    ensures
        res@ == configured_id(
            match value {
                Some(v) => Some(v@),
                None => None,
            },
            fallback@,
        ),
{
    match value {
        Some(v) => {
            let chars = chars_of(v);
            let (a, b) = trim_bounds(&chars, 0, chars.len());
            proof {
                assert(chars@.subrange(0, chars@.len() as int) =~= v@);
            }
            if a < b {
                string_of(&chars, a, b)
            } else {
                fallback.to_owned()
            }
        },
        None => fallback.to_owned(),
    }
}

/// The preferences that the three stored fields describe: the start-up
/// choice (a new file when missing), and the language and theme
/// identifiers, trimmed, with fallbacks when missing or blank.
pub fn app_preferences_from_fields(
    startup_open: Option<&str>,
    language_id: Option<&str>,
    theme_id: Option<&str>,
    fallback_language_id: &str,
) -> (res: AppPreferences)
    ensures
        res.startup_open == startup_choice(
            match startup_open {
                Some(s) => Some(s@),
                None => None,
            },
        ),
        res.default_language_id@ == configured_id(
            match language_id {
                Some(v) => Some(v@),
                None => None,
            },
            fallback_language_id@,
        ),
        res.default_theme_id@ == configured_id(
            match theme_id {
                Some(v) => Some(v@),
                None => None,
            },
            DEFAULT_THEME_ID@,
        ),
{
    let startup = match startup_open {
        Some(s) => StartupOpenPreference::from_str(s),
        None => StartupOpenPreference::NewFile,
    };
    AppPreferences {
        startup_open: startup,
        default_language_id: configured_id_or(language_id, fallback_language_id),
        default_theme_id: configured_id_or(theme_id, DEFAULT_THEME_ID),
    }
}

/// The string stored at `table.key` of a document: the member `key` of the
/// member `table`, when it is a string.
pub open spec fn toml_str_at(doc: TomlView, table: Seq<char>, key: Seq<char>) -> Option<
    Seq<char>,
> {
    match toml_member(doc, table) {
        Some(t) => match toml_member(t, key) {
            Some(v) => toml_text(v),
            None => None,
        },
        None => None,
    }
}

/// The string stored at `table.key` in a document.
fn toml_table_str<'a>(value: &'a TomlValue, table: &str, key: &str) -> (res: Option<&'a str>)
    ensures
        opt_str_view(res) == toml_str_at(value@, table@, key@),
{
    match toml_member_of(value, table) {
        Some(t) => match toml_member_of(t, key) {
            Some(v) => toml_text_of(v),
            None => None,
        },
        None => None,
    }
}

/// The preferences a parsed `config.toml` describes: `startup.open`,
/// `language.default_language_id` and `theme.default_theme_id`, each read
/// by [`app_preferences_from_fields`]' rules.
pub open spec fn preferences_of_document(doc: TomlView, fallback_language_id: Seq<char>) -> (
    StartupOpenPreference,
    Seq<char>,
    Seq<char>,
) {
    (
        startup_choice(toml_str_at(doc, "startup"@, "open"@)),
        configured_id(toml_str_at(doc, "language"@, "default_language_id"@), fallback_language_id),
        configured_id(toml_str_at(doc, "theme"@, "default_theme_id"@), DEFAULT_THEME_ID@),
    )
}

/// Preferences read from a parsed `config.toml`: `startup.open`,
/// `language.default_language_id` and `theme.default_theme_id`, each with
/// its fallback when missing or not usable.
pub fn app_preferences_from_toml_value(value: &TomlValue, fallback_language_id: &str) -> (res:
    AppPreferences)
    ensures
        (res.startup_open, res.default_language_id@, res.default_theme_id@)
            == preferences_of_document(value@, fallback_language_id@),
{
    let startup = toml_table_str(value, "startup", "open");
    let language = toml_table_str(value, "language", "default_language_id");
    let theme = toml_table_str(value, "theme", "default_theme_id");
    app_preferences_from_fields(startup, language, theme, fallback_language_id)
}

/// A document that holds the stored text of a start-up choice and two
/// identifiers that are neither blank nor padded with white space reads back
/// as exactly those preferences, whatever the fallback language.
pub proof fn law_stored_fields_read_back(
    doc: TomlView,
    fallback_language_id: Seq<char>,
    startup: StartupOpenPreference,
    language_id: Seq<char>,
    theme_id: Seq<char>,
)
    requires
        toml_str_at(doc, "startup"@, "open"@) == Some(startup_text(startup)),
        toml_str_at(doc, "language"@, "default_language_id"@) == Some(language_id),
        toml_str_at(doc, "theme"@, "default_theme_id"@) == Some(theme_id),
        language_id.len() > 0,
        trim(language_id) == language_id,
        theme_id.len() > 0,
        trim(theme_id) == theme_id,
    ensures
        preferences_of_document(doc, fallback_language_id) == (startup, language_id, theme_id),
{
    law_startup_round_trip(startup);
}

/// Preferences from the text of `config.toml` (`None` when the file does
/// not exist). A missing or damaged file gives the defaults with the given
/// language; a readable one is read field by field.
pub fn preferences_from_file_text(text: Option<&str>, fallback_language_id: &str) -> (res:
    AppPreferences)
    ensures
        (res.startup_open, res.default_language_id@, res.default_theme_id@) == match text {
            Some(t) => match spec_toml_parse(t@) {
                Some(doc) => preferences_of_document(doc, fallback_language_id@),
                None => (StartupOpenPreference::NewFile, fallback_language_id@, DEFAULT_THEME_ID@),
            },
            None => (StartupOpenPreference::NewFile, fallback_language_id@, DEFAULT_THEME_ID@),
        },
{
    let parsed = match text {
        Some(t) => toml_parse(t),
        None => None,
    };
    match parsed {
        Some(value) => app_preferences_from_toml_value(&value, fallback_language_id),
        None => AppPreferences {
            startup_open: StartupOpenPreference::NewFile,
            default_language_id: fallback_language_id.to_owned(),
            default_theme_id: DEFAULT_THEME_ID.to_owned(),
        },
    }
}

/// Length of the language subtag of a locale: the text before the first
/// `-` or `_`.
pub open spec fn subtag_len(locale: Seq<char>) -> int
    decreases locale.len(),
{
    if locale.len() == 0 || locale[0] == '-' || locale[0] == '_' {
        0
    } else {
        1 + subtag_len(locale.drop_first())
    }
}

/// The built-in language for a locale: Chinese (`zh`) locales read
/// `zh-CN`, English (`en`) locales `en-US`; other languages have none.
pub open spec fn locale_language(locale: Seq<char>) -> Option<Seq<char>> {
    let tag = locale.take(subtag_len(locale));
    if eq_ignore_case(tag, "zh"@) {
        Some("zh-CN"@)
    } else if eq_ignore_case(tag, "en"@) {
        Some("en-US"@)
    } else {
        None
    }
}

/// The language for the system's locales, in order of preference: that of
/// the first locale with a built-in language, else the default.
pub open spec fn language_for_locales(locales: Seq<Seq<char>>) -> Seq<char>
    decreases locales.len(),
{
    if locales.len() == 0 {
        DEFAULT_LANGUAGE_ID@
    } else {
        match locale_language(locales[0]) {
            Some(language) => language,
            None => language_for_locales(locales.drop_first()),
        }
    }
}

/// The length of the language subtag of `locale`.
fn subtag_length(locale: &Vec<char>) -> (res: usize)
    ensures
        res == subtag_len(locale@),
        res <= locale.len(),
{
    let mut i: usize = 0;
    proof {
        assert(locale@.skip(0) =~= locale@);
    }
    while i < locale.len() && locale[i] != '-' && locale[i] != '_'
        invariant
            i <= locale.len(),
            subtag_len(locale@) == i + subtag_len(locale@.skip(i as int)),
        decreases locale.len() - i,
    {
        proof {
            let r = locale@.skip(i as int);
            assert(r[0] == locale@[i as int]);
            assert(r.drop_first() =~= locale@.skip(i as int + 1));
        }
        i += 1;
    }
    proof {
        let r = locale@.skip(i as int);
        if i < locale.len() {
            assert(r[0] == locale@[i as int]);
        }
        assert(subtag_len(r) == 0);
        lemma_subtag_len_bound(locale@);
    }
    i
}

proof fn lemma_subtag_len_bound(s: Seq<char>)
    ensures
        0 <= subtag_len(s) <= s.len(),
    decreases s.len(),
{
    if s.len() > 0 {
        lemma_subtag_len_bound(s.drop_first());
    }
}

/// The built-in language for a locale, if any.
fn language_of_locale(locale: &str) -> (res: Option<&'static str>)
    ensures
        match res {
            Some(language) => locale_language(locale@) == Some(language@),
            None => locale_language(locale@) is None,
        },
{
    let chars = chars_of(locale);
    let n = subtag_length(&chars);
    proof {
        assert(chars@.subrange(0, n as int) =~= locale@.take(subtag_len(locale@)));
    }
    if eq_ignore_ascii_case_at(&chars, 0, n, "zh") {
        Some("zh-CN")
    } else if eq_ignore_ascii_case_at(&chars, 0, n, "en") {
        Some("en-US")
    } else {
        None
    }
}

/// The language of a new preferences file, from the system's locales in
/// order of preference: the first locale with a built-in language decides,
/// and without one the default language is used.
pub fn language_id_for_locales(locales: &Vec<String>) -> (res: &'static str)
    ensures
        res@ == language_for_locales(locales@.map_values(|l: String| l@)),
{
    let ghost views = locales@.map_values(|l: String| l@);
    let mut i: usize = 0;
    proof {
        assert(views.skip(0) =~= views);
    }
    while i < locales.len()
        invariant
            i <= locales.len(),
            views == locales@.map_values(|l: String| l@),
            language_for_locales(views) == language_for_locales(views.skip(i as int)),
        decreases locales.len() - i,
    {
        let found = language_of_locale(locales[i].as_str());
        proof {
            let r = views.skip(i as int);
            assert(r[0] == locales@[i as int]@);
            assert(r.drop_first() =~= views.skip(i as int + 1));
        }
        match found {
            Some(language) => {
                return language;
            },
            None => {},
        }
        i += 1;
    }
    proof {
        assert(views.skip(i as int).len() == 0);
    }
    DEFAULT_LANGUAGE_ID
}

/// The preferences after the preferences window is saved: the chosen
/// start-up behaviour and theme, the language kept as it was.
pub fn with_window_choices(
    preferences: AppPreferences,
    startup_open: StartupOpenPreference,
    theme_id: &str,
) -> (res: AppPreferences)
    ensures
        res.startup_open == startup_open,
        res.default_theme_id@ == theme_id@,
        res.default_language_id == preferences.default_language_id,
{
    AppPreferences {
        startup_open,
        default_language_id: preferences.default_language_id,
        default_theme_id: theme_id.to_owned(),
    }
}

/// The preferences with `language_id` as the default language.
pub fn with_default_language(preferences: AppPreferences, language_id: &str) -> (res: AppPreferences)
    ensures
        res.default_language_id@ == language_id@,
        res.startup_open == preferences.startup_open,
        res.default_theme_id == preferences.default_theme_id,
{
    AppPreferences {
        startup_open: preferences.startup_open,
        default_language_id: language_id.to_owned(),
        default_theme_id: preferences.default_theme_id,
    }
}

/// The preferences with `theme_id` as the default theme.
pub fn with_default_theme(preferences: AppPreferences, theme_id: &str) -> (res: AppPreferences)
    ensures
        res.default_theme_id@ == theme_id@,
        res.startup_open == preferences.startup_open,
        res.default_language_id == preferences.default_language_id,
{
    AppPreferences {
        startup_open: preferences.startup_open,
        default_language_id: preferences.default_language_id,
        default_theme_id: theme_id.to_owned(),
    }
}

/// Whether a language or theme choice took effect, and so is saved: the
/// manager switched to it, or it was already the current one.
pub fn selection_applied(changed: bool, current_id: &str, requested_id: &str) -> (res: bool)
    ensures
        res == (changed || current_id@ == requested_id@),
{
    changed || crate::text::text_equals(current_id, requested_id)
}

/// The page shown in the preferences window.
#[derive(Clone, Copy, Debug, PartialEq, Eq, Structural)]
pub enum PreferencesNav {
    File,
    Theme,
}

/// A theme the user can pick: its stable id and its display name.
#[derive(Debug)]
pub struct ThemeChoice {
    pub id: String,
    pub name: String,
}

/// Index of the first theme with id `id`.
pub open spec fn find_theme(options: Seq<ThemeChoice>, id: Seq<char>) -> Option<int>
    decreases options.len(),
{
    if options.len() == 0 {
        None
    } else if options[0].id@ == id {
        Some(0)
    } else {
        match find_theme(options.drop_first(), id) {
            Some(i) => Some(i + 1),
            None => None,
        }
    }
}

proof fn lemma_find_theme(options: Seq<ThemeChoice>, id: Seq<char>)
    ensures
        find_theme(options, id) matches Some(j) ==> 0 <= j < options.len() && options[j].id@ == id
            && forall|m: int| 0 <= m < j ==> #[trigger] options[m].id@ != id,
        find_theme(options, id) is None ==> forall|m: int|
            0 <= m < options.len() ==> #[trigger] options[m].id@ != id,
    decreases options.len(),
{
    if options.len() > 0 {
        lemma_find_theme(options.drop_first(), id);
        assert forall|m: int| 1 <= m < options.len() implies #[trigger] options[m] == options.drop_first()[m - 1] by {}
    }
}

/// Index of the first theme of `options` with id `id`.
fn find_theme_index(options: &Vec<ThemeChoice>, id: &String) -> (res: Option<usize>)
    ensures
        match res {
            Some(i) => find_theme(options@, id@) == Some(i as int),
            None => find_theme(options@, id@) is None,
        },
{
    proof {
        lemma_find_theme(options@, id@);
    }
    let mut i: usize = 0;
    while i < options.len()
        invariant
            i <= options.len(),
            forall|m: int| 0 <= m < i ==> #[trigger] options@[m].id@ != id@,
        decreases options.len() - i,
    {
        if options[i].id == *id {
            proof {
                lemma_find_theme(options@, id@);
            }
            return Some(i);
        }
        i += 1;
    }
    proof {
        lemma_find_theme(options@, id@);
    }
    None
}

/// The state of the preferences window.
#[derive(Debug)]
pub struct PreferencesWindow {
    pub nav: PreferencesNav,
    pub startup_open: StartupOpenPreference,
    pub selected_theme_id: String,
    pub theme_options: Vec<ThemeChoice>,
    pub startup_dropdown_open: bool,
    pub theme_dropdown_open: bool,
}

impl PreferencesWindow {
    /// At most one of the two drop-down lists is open.
    pub open spec fn one_dropdown_at_most(&self) -> bool {
        !(self.startup_dropdown_open && self.theme_dropdown_open)
    }

    /// The window as it opens: the file page, no list open, and the
    /// configured theme selected when it is one of the choices, the default
    /// theme otherwise.
    pub fn new(preferences: AppPreferences, theme_options: Vec<ThemeChoice>) -> (res: Self)
        ensures
            res.nav == PreferencesNav::File,
            res.startup_open == preferences.startup_open,
            res.theme_options@ == theme_options@,
            res.selected_theme_id@ == if find_theme(theme_options@, preferences.default_theme_id@) is Some {
                preferences.default_theme_id@
            } else {
                DEFAULT_THEME_ID@
            },
            !res.startup_dropdown_open,
            !res.theme_dropdown_open,
            res.one_dropdown_at_most(),
    {
        let found = find_theme_index(&theme_options, &preferences.default_theme_id);
        let selected_theme_id = match found {
            Some(_) => preferences.default_theme_id,
            None => DEFAULT_THEME_ID.to_owned(),
        };
        PreferencesWindow {
            nav: PreferencesNav::File,
            startup_open: preferences.startup_open,
            selected_theme_id,
            theme_options,
            startup_dropdown_open: false,
            theme_dropdown_open: false,
        }
    }

    /// The name of the selected theme, or `Velotype` when no choice has its id.
    pub fn selected_theme_name(&self) -> (res: String)
        ensures
            res@ == match find_theme(self.theme_options@, self.selected_theme_id@) {
                Some(j) => self.theme_options@[j].name@,
                None => "Velotype"@,
            },
    {
        proof {
            lemma_find_theme(self.theme_options@, self.selected_theme_id@);
        }
        match find_theme_index(&self.theme_options, &self.selected_theme_id) {
            Some(j) => self.theme_options[j].name.clone(),
            None => "Velotype".to_owned(),
        }
    }

    /// Shows the file page and closes both lists.
    pub fn set_nav_file(&mut self)
        ensures
            final(self).nav == PreferencesNav::File,
            !final(self).startup_dropdown_open,
            !final(self).theme_dropdown_open,
            final(self).startup_open == old(self).startup_open,
            final(self).selected_theme_id == old(self).selected_theme_id,
            final(self).theme_options == old(self).theme_options,
            final(self).one_dropdown_at_most(),
    {
        self.nav = PreferencesNav::File;
        self.startup_dropdown_open = false;
        self.theme_dropdown_open = false;
    }

    /// Shows the theme page and closes both lists.
    pub fn set_nav_theme(&mut self)
        ensures
            final(self).nav == PreferencesNav::Theme,
            !final(self).startup_dropdown_open,
            !final(self).theme_dropdown_open,
            final(self).startup_open == old(self).startup_open,
            final(self).selected_theme_id == old(self).selected_theme_id,
            final(self).theme_options == old(self).theme_options,
            final(self).one_dropdown_at_most(),
    {
        self.nav = PreferencesNav::Theme;
        self.startup_dropdown_open = false;
        self.theme_dropdown_open = false;
    }

    /// Opens or closes the start-up list; the theme list closes.
    pub fn toggle_startup_dropdown(&mut self)
        ensures
            final(self).startup_dropdown_open == !old(self).startup_dropdown_open,
            !final(self).theme_dropdown_open,
            final(self).nav == old(self).nav,
            final(self).startup_open == old(self).startup_open,
            final(self).selected_theme_id == old(self).selected_theme_id,
            final(self).theme_options == old(self).theme_options,
            final(self).one_dropdown_at_most(),
    {
        self.startup_dropdown_open = !self.startup_dropdown_open;
        self.theme_dropdown_open = false;
    }

    /// Opens or closes the theme list; the start-up list closes.
    pub fn toggle_theme_dropdown(&mut self)
        ensures
            final(self).theme_dropdown_open == !old(self).theme_dropdown_open,
            !final(self).startup_dropdown_open,
            final(self).nav == old(self).nav,
            final(self).startup_open == old(self).startup_open,
            final(self).selected_theme_id == old(self).selected_theme_id,
            final(self).theme_options == old(self).theme_options,
            final(self).one_dropdown_at_most(),
    {
        self.theme_dropdown_open = !self.theme_dropdown_open;
        self.startup_dropdown_open = false;
    }

    /// Picks a start-up behaviour from its list, which closes.
    pub fn choose_startup(&mut self, choice: StartupOpenPreference)
        ensures
            final(self).startup_open == choice,
            !final(self).startup_dropdown_open,
            final(self).theme_dropdown_open == old(self).theme_dropdown_open,
            final(self).nav == old(self).nav,
            final(self).selected_theme_id == old(self).selected_theme_id,
            final(self).theme_options == old(self).theme_options,
            old(self).one_dropdown_at_most() ==> final(self).one_dropdown_at_most(),
    {
        self.startup_open = choice;
        self.startup_dropdown_open = false;
    }

    /// Picks a theme from its list, which closes.
    pub fn choose_theme(&mut self, theme_id: String)
        ensures
            final(self).selected_theme_id == theme_id,
            !final(self).theme_dropdown_open,
            final(self).startup_dropdown_open == old(self).startup_dropdown_open,
            final(self).nav == old(self).nav,
            final(self).startup_open == old(self).startup_open,
            final(self).theme_options == old(self).theme_options,
            old(self).one_dropdown_at_most() ==> final(self).one_dropdown_at_most(),
    {
        self.selected_theme_id = theme_id;
        self.theme_dropdown_open = false;
    }
}

} // verus!
