use velotype::preferences::{
    app_preferences_from_fields, app_preferences_from_toml_value, configured_id_or,
    language_id_for_locales,
    preferences_from_file_text,
    selection_applied, with_window_choices, AppPreferences, PreferencesNav,
    PreferencesWindow, StartupOpenPreference, ThemeChoice, DEFAULT_LANGUAGE_ID,
    DEFAULT_THEME_ID,
};
use velotype::toml_value::TomlValue;

fn theme(id: &str, name: &str) -> ThemeChoice {
    ThemeChoice { id: id.to_string(), name: name.to_string() }
}

#[test]
fn missing_preferences_file_returns_defaults() {
    let preferences = preferences_from_file_text(None, DEFAULT_LANGUAGE_ID);
    assert_eq!(preferences, AppPreferences::default());
}

#[test]
fn partial_or_invalid_preferences_fall_back_by_field() {
    let text = r#"
                [startup]
                open = "not-valid"

                [theme]
                default_theme_id = "velotype-light"
            "#;
    let preferences = preferences_from_file_text(Some(text), DEFAULT_LANGUAGE_ID);
    assert_eq!(preferences.startup_open, StartupOpenPreference::NewFile);
    assert_eq!(preferences.default_language_id, "en-US");
    assert_eq!(preferences.default_theme_id, "velotype-light");
}

#[test]
fn damaged_preferences_file_returns_defaults() {
    let preferences = preferences_from_file_text(Some("not = [valid"), DEFAULT_LANGUAGE_ID);
    assert_eq!(preferences, AppPreferences::default());
}

#[test]
fn legacy_preferences_are_normalized_with_language() {
    let text = r#"
                [startup]
                open = "last_opened_file"

                [theme]
                default_theme_id = "velotype-light"
            "#;
    let preferences = preferences_from_file_text(Some(text), "en-US");
    assert_eq!(preferences.startup_open, StartupOpenPreference::LastOpenedFile);
    assert_eq!(preferences.default_language_id, "en-US");
    assert_eq!(preferences.default_theme_id, "velotype-light");
}

#[test]
fn damaged_file_takes_the_detected_language() {
    let preferences = preferences_from_file_text(Some("[[["), "zh-CN");
    assert_eq!(preferences.default_language_id, "zh-CN");
    assert_eq!(preferences.default_theme_id, DEFAULT_THEME_ID);
    assert_eq!(preferences.startup_open, StartupOpenPreference::NewFile);
}

#[test]
fn blank_identifiers_fall_back_and_others_are_trimmed() {
    let text = "[language]\ndefault_language_id = \"  \"\n[theme]\ndefault_theme_id = \" dark \"\n";
    let preferences = preferences_from_file_text(Some(text), "fr-FR");
    assert_eq!(preferences.default_language_id, "fr-FR");
    assert_eq!(preferences.default_theme_id, "dark");
    assert_eq!(configured_id_or(Some("\t x \n"), "y"), "x");
    assert_eq!(configured_id_or(Some(""), "y"), "y");
    assert_eq!(configured_id_or(None, "y"), "y");
}

#[test]
fn fields_decide_each_preference() {
    let preferences = app_preferences_from_fields(
        Some("last_opened_file"),
        Some(" zh-CN "),
        None,
        "en-US",
    );
    assert_eq!(preferences.startup_open, StartupOpenPreference::LastOpenedFile);
    assert_eq!(preferences.default_language_id, "zh-CN");
    assert_eq!(preferences.default_theme_id, "velotype");
    let unknown = app_preferences_from_fields(Some("LAST_OPENED_FILE"), None, Some(""), "en-US");
    assert_eq!(unknown.startup_open, StartupOpenPreference::NewFile);
    assert_eq!(unknown.default_theme_id, "velotype");
}

#[test]
fn startup_choice_round_trips_through_its_text() {
    for choice in [StartupOpenPreference::NewFile, StartupOpenPreference::LastOpenedFile] {
        assert_eq!(StartupOpenPreference::from_str(choice.as_str()), choice);
    }
    assert_eq!(StartupOpenPreference::LastOpenedFile.as_str(), "last_opened_file");
    assert_eq!(StartupOpenPreference::NewFile.as_str(), "new_file");
    assert_eq!(StartupOpenPreference::from_str("whatever"), StartupOpenPreference::NewFile);
}

#[test]
fn saving_preferences_window_preserves_language() {
    let preferences = AppPreferences {
        startup_open: StartupOpenPreference::NewFile,
        default_language_id: "zh-CN".into(),
        default_theme_id: "velotype".into(),
    };
    let saved =
        with_window_choices(preferences, StartupOpenPreference::LastOpenedFile, "velotype-light");
    assert_eq!(saved.default_language_id, "zh-CN");
    assert_eq!(saved.startup_open, StartupOpenPreference::LastOpenedFile);
    assert_eq!(saved.default_theme_id, "velotype-light");
}

#[test]
fn a_choice_is_applied_when_it_changed_or_was_current() {
    assert!(selection_applied(true, "a", "b"));
    assert!(selection_applied(false, "b", "b"));
    assert!(!selection_applied(false, "a", "b"));
}

#[test]
fn window_selects_a_known_theme_or_the_default() {
    let options = vec![theme("velotype", "Velotype"), theme("velotype-light", "Velotype Light")];
    let known = AppPreferences {
        startup_open: StartupOpenPreference::LastOpenedFile,
        default_language_id: "en-US".into(),
        default_theme_id: "velotype-light".into(),
    };
    let window = PreferencesWindow::new(known, options);
    assert_eq!(window.selected_theme_id, "velotype-light");
    assert_eq!(window.selected_theme_name(), "Velotype Light");
    assert_eq!(window.nav, PreferencesNav::File);
    assert_eq!(window.startup_open, StartupOpenPreference::LastOpenedFile);

    let unknown = AppPreferences {
        startup_open: StartupOpenPreference::NewFile,
        default_language_id: "en-US".into(),
        default_theme_id: "gone".into(),
    };
    let window = PreferencesWindow::new(unknown, vec![theme("other", "Other")]);
    assert_eq!(window.selected_theme_id, "velotype");
    assert_eq!(window.selected_theme_name(), "Velotype");
}

#[test]
fn window_shows_at_most_one_list() {
    let mut window = PreferencesWindow::new(AppPreferences::default(), vec![]);
    window.toggle_startup_dropdown();
    assert!(window.startup_dropdown_open && !window.theme_dropdown_open);
    window.toggle_theme_dropdown();
    assert!(!window.startup_dropdown_open && window.theme_dropdown_open);
    window.choose_theme("velotype-light".to_string());
    assert!(!window.theme_dropdown_open);
    assert_eq!(window.selected_theme_id, "velotype-light");
    window.toggle_startup_dropdown();
    window.choose_startup(StartupOpenPreference::LastOpenedFile);
    assert!(!window.startup_dropdown_open);
    assert_eq!(window.startup_open, StartupOpenPreference::LastOpenedFile);
    window.toggle_theme_dropdown();
    window.set_nav_theme();
    assert_eq!(window.nav, PreferencesNav::Theme);
    assert!(!window.startup_dropdown_open && !window.theme_dropdown_open);
    window.set_nav_file();
    assert_eq!(window.nav, PreferencesNav::File);
}

fn locales(items: &[&str]) -> Vec<String> {
    items.iter().map(|item| item.to_string()).collect()
}

#[test]
fn missing_preferences_file_is_created_with_detected_language() {
    let detected = language_id_for_locales(&locales(&["zh-HK"]));
    assert_eq!(detected, "zh-CN");
    let preferences = preferences_from_file_text(None, detected);
    assert_eq!(preferences.default_language_id, "zh-CN");
}

#[test]
fn legacy_preferences_take_the_detected_language() {
    let text = r#"
                [startup]
                open = "last_opened_file"

                [theme]
                default_theme_id = "velotype-light"
            "#;
    let detected = language_id_for_locales(&locales(&["en-GB"]));
    assert_eq!(detected, "en-US");
    let preferences = preferences_from_file_text(Some(text), detected);
    assert_eq!(preferences.startup_open, StartupOpenPreference::LastOpenedFile);
    assert_eq!(preferences.default_language_id, "en-US");
    assert_eq!(preferences.default_theme_id, "velotype-light");
}

#[test]
fn first_locale_with_a_built_in_language_decides() {
    assert_eq!(language_id_for_locales(&locales(&["fr-FR", "zh_TW", "en-US"])), "zh-CN");
    assert_eq!(language_id_for_locales(&locales(&["de", "EN"])), "en-US");
    assert_eq!(language_id_for_locales(&locales(&["ZH-hans-CN"])), "zh-CN");
}

#[test]
fn locales_without_a_built_in_language_use_the_default() {
    assert_eq!(language_id_for_locales(&locales(&[])), DEFAULT_LANGUAGE_ID);
    assert_eq!(language_id_for_locales(&locales(&["fr-FR", "ja_JP", "zhx", "e"])), DEFAULT_LANGUAGE_ID);
}

fn table(key: &str, value: &str) -> toml::Value {
    let mut map = toml::map::Map::new();
    map.insert(key.to_string(), toml::Value::String(value.to_string()));
    toml::Value::Table(map)
}

#[test]
fn saves_and_reads_preferences() {
    let preferences = AppPreferences {
        startup_open: StartupOpenPreference::LastOpenedFile,
        default_language_id: "zh-CN".into(),
        default_theme_id: "velotype-light".into(),
    };
    let mut root = toml::map::Map::new();
    root.insert("startup".into(), table("open", preferences.startup_open.as_str()));
    root.insert(
        "language".into(),
        table("default_language_id", &preferences.default_language_id),
    );
    root.insert("theme".into(), table("default_theme_id", &preferences.default_theme_id));
    let text = toml::to_string_pretty(&toml::Value::Table(root)).expect("preferences should save");
    assert!(text.contains("open = \"last_opened_file\""));
    assert!(text.contains("default_language_id = \"zh-CN\""));
    assert!(text.contains("default_theme_id = \"velotype-light\""));

    let read = preferences_from_file_text(Some(&text), DEFAULT_LANGUAGE_ID);
    assert_eq!(read, preferences);
}

fn toml_table(entries: Vec<(&str, TomlValue)>) -> TomlValue {
    TomlValue::Table(entries.into_iter().map(|(key, value)| (key.to_string(), value)).collect())
}

#[test]
fn document_members_are_read_by_table_and_key() {
    let doc = toml_table(vec![
        (
            "startup",
            toml_table(vec![("open", TomlValue::String("last_opened_file".into()))]),
        ),
        (
            "language",
            toml_table(vec![("default_language_id", TomlValue::Integer(5))]),
        ),
        ("theme", TomlValue::String("velotype-light".into())),
    ]);
    let preferences = app_preferences_from_toml_value(&doc, "zh-CN");
    assert_eq!(preferences.startup_open, StartupOpenPreference::LastOpenedFile);
    assert_eq!(preferences.default_language_id, "zh-CN");
    assert_eq!(preferences.default_theme_id, DEFAULT_THEME_ID);

    let doc = toml_table(vec![
        (
            "theme",
            toml_table(vec![
                ("other", TomlValue::Boolean(true)),
                ("default_theme_id", TomlValue::String("  night ".into())),
            ]),
        ),
        ("startup", TomlValue::Array(vec![])),
    ]);
    let preferences = app_preferences_from_toml_value(&doc, "en-US");
    assert_eq!(preferences.startup_open, StartupOpenPreference::NewFile);
    assert_eq!(preferences.default_language_id, "en-US");
    assert_eq!(preferences.default_theme_id, "night");
}
