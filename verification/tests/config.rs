use std::path::{Path, PathBuf};

use velotype::config::{
    is_supported_config_extension, is_supported_config_file, parse_config_text,
    sanitize_config_file_stem, ConfigError, VelotypeConfigDirs,
};
use velotype::json_value::{
    is_empty_json_value, merge_non_empty_json_values, object_without_empty_values,
    prune_empty_json_values, JsonValue,
};
use velotype::jsonc::{parse_jsonc_value, strip_jsonc_comments, JsoncError};

fn text(s: &str) -> JsonValue {
    JsonValue::String(s.to_string())
}

fn member<'a>(value: &'a JsonValue, key: &str) -> Option<&'a JsonValue> {
    match value {
        JsonValue::Object(members) => members.iter().find(|(k, _)| k == key).map(|(_, v)| v),
        _ => None,
    }
}

fn object(members: Vec<(&str, JsonValue)>) -> JsonValue {
    JsonValue::Object(members.into_iter().map(|(k, v)| (k.to_string(), v)).collect())
}

#[test]
fn jsonc_comments_are_stripped_without_touching_strings() {
    let text = r#"
        {
            // line comment
            "url": "https://example.com/a//b",
            "text": "/* not a comment */",
            /* block comment */
            "value": 1
        }
        "#;

    let parsed = parse_jsonc_value(text).expect("jsonc should parse");
    assert_eq!(member(&parsed, "url"), Some(&JsonValue::String("https://example.com/a//b".to_string())));
    assert_eq!(member(&parsed, "text"), Some(&JsonValue::String("/* not a comment */".to_string())));
    assert_eq!(member(&parsed, "value"), Some(&JsonValue::Number("1".to_string())));
    assert!(strip_jsonc_comments(text).is_ok());
}

#[test]
fn empty_values_are_pruned_recursively() {
    let mut value = object(vec![
        ("name", text("")),
        (
            "colors",
            object(vec![("text_default", JsonValue::Null), ("selection", text("#fff"))]),
        ),
        ("items", JsonValue::Array(vec![text(""), JsonValue::Null])),
    ]);

    assert!(!prune_empty_json_values(&mut value));
    assert_eq!(value, object(vec![("colors", object(vec![("selection", text("#fff"))]))]));
}

#[test]
fn config_file_stems_are_sanitized() {
    assert_eq!(sanitize_config_file_stem("My Theme / Blue"), "My_Theme_Blue");
    assert_eq!(sanitize_config_file_stem("  ...  "), "custom");
}

#[test]
fn stems_keep_letters_digits_and_inner_dots() {
    assert_eq!(sanitize_config_file_stem("  Nord\t\tDark 2.0 "), "Nord_Dark_2.0");
    assert_eq!(sanitize_config_file_stem("_.pack._"), "pack");
    assert_eq!(sanitize_config_file_stem("主题 蓝"), "主题_蓝");
    assert_eq!(sanitize_config_file_stem(""), "custom");
    assert_eq!(sanitize_config_file_stem("a-b_c"), "a-b_c");
    let once = sanitize_config_file_stem(" x  / y ");
    assert_eq!(sanitize_config_file_stem(&once), once);
}

#[test]
fn strip_keeps_line_breaks_of_comments() {
    assert_eq!(strip_jsonc_comments("a// x\nb").unwrap(), "a\nb");
    assert_eq!(strip_jsonc_comments("a/* x\ny */b").unwrap(), "a\nb");
    assert_eq!(strip_jsonc_comments("\"\\\"//\"").unwrap(), "\"\\\"//\"");
    assert_eq!(strip_jsonc_comments("a // to the end").unwrap(), "a ");
    assert_eq!(strip_jsonc_comments("a / b").unwrap(), "a / b");
    assert_eq!(strip_jsonc_comments("/**/x").unwrap(), "x");
}

#[test]
fn unterminated_block_comment_is_an_error() {
    assert_eq!(
        strip_jsonc_comments("{ /* open"),
        Err(JsoncError::UnterminatedBlockComment)
    );
    assert_eq!(strip_jsonc_comments("/*/"), Err(JsoncError::UnterminatedBlockComment));
}

#[test]
fn comment_free_text_is_unchanged_and_stripping_twice_is_stripping_once() {
    let plain = "{\"a\": [1, 2], \"b\": \"c\"}";
    assert_eq!(strip_jsonc_comments(plain).unwrap(), plain);
    let once = strip_jsonc_comments("{\"a\": 1 /* c */, // d\n\"b\": 2}").unwrap();
    assert_eq!(strip_jsonc_comments(&once).unwrap(), once);
}

#[test]
fn parsed_documents_keep_every_value() {
    let parsed = parse_jsonc_value("{\"b\": [true, null, 2.5], \"a\": {\"x\": \"y\"}}").unwrap();
    assert_eq!(member(&parsed, "a"), Some(&object(vec![("x", text("y"))])));
    assert_eq!(
        member(&parsed, "b"),
        Some(&JsonValue::Array(vec![
            JsonValue::Bool(true),
            JsonValue::Null,
            JsonValue::Number("2.5".to_string()),
        ]))
    );
    assert!(matches!(&parsed, JsonValue::Object(members) if members.len() == 2));
}

#[test]
fn invalid_json_reports_a_syntax_error() {
    match parse_jsonc_value("{ \"a\": }") {
        Err(JsoncError::Syntax(message)) => assert!(!message.is_empty()),
        other => panic!("unexpected {:?}", other),
    }
}

#[test]
fn config_extensions_are_json_or_jsonc_in_any_case() {
    assert!(is_supported_config_extension(Some("json")));
    assert!(is_supported_config_extension(Some("JSONC")));
    assert!(is_supported_config_extension(Some("Json")));
    assert!(!is_supported_config_extension(Some("toml")));
    assert!(!is_supported_config_extension(Some("jso")));
    assert!(!is_supported_config_extension(None));
    assert!(is_supported_config_file(Path::new("/tmp/theme.JSON")));
    assert!(is_supported_config_file(Path::new("pack.jsonc")));
    assert!(!is_supported_config_file(Path::new("pack.json.txt")));
    assert!(!is_supported_config_file(Path::new("json")));
}

#[test]
fn config_text_is_parsed_by_extension() {
    assert_eq!(
        parse_config_text(Some("txt"), "{}"),
        Err(ConfigError::UnsupportedExtension)
    );
    assert_eq!(parse_config_text(None, "{}"), Err(ConfigError::UnsupportedExtension));
    let jsonc = parse_config_text(Some("jsonc"), "{\"a\": 1 // one\n}").unwrap();
    assert_eq!(member(&jsonc, "a"), Some(&JsonValue::Number("1".to_string())));
    assert!(matches!(
        parse_config_text(Some("json"), "{\"a\": 1 // one\n}"),
        Err(ConfigError::Json(JsoncError::Syntax(_)))
    ));
    assert_eq!(
        parse_config_text(Some("JsonC"), "{ /* open"),
        Err(ConfigError::Json(JsoncError::UnterminatedBlockComment))
    );
}

#[test]
fn config_dirs_hang_off_the_root() {
    let dirs = VelotypeConfigDirs::from_root(PathBuf::from("/cfg/velotype"));
    assert_eq!(dirs.languages_dir(), PathBuf::from("/cfg/velotype/languages"));
    assert_eq!(dirs.themes_dir(), PathBuf::from("/cfg/velotype/themes"));
}

#[test]
fn emptiness_of_values() {
    assert!(is_empty_json_value(&JsonValue::Null));
    assert!(is_empty_json_value(&text(" \t")));
    assert!(is_empty_json_value(&JsonValue::Array(vec![])));
    assert!(is_empty_json_value(&object(vec![("a", JsonValue::Array(vec![JsonValue::Null]))])));
    assert!(!is_empty_json_value(&JsonValue::Bool(false)));
    assert!(!is_empty_json_value(&JsonValue::Number("0".to_string())));
    assert!(!is_empty_json_value(&text(" x ")));
}

#[test]
fn pruning_reports_emptiness_and_is_idempotent() {
    let mut value = JsonValue::Array(vec![JsonValue::Null, object(vec![("a", text(""))])]);
    assert!(prune_empty_json_values(&mut value));
    assert_eq!(value, JsonValue::Array(vec![]));
    let mut kept = object(vec![("a", JsonValue::Bool(true)), ("b", JsonValue::Null)]);
    assert!(!prune_empty_json_values(&mut kept));
    let snapshot = format!("{:?}", kept);
    assert!(!prune_empty_json_values(&mut kept));
    assert_eq!(format!("{:?}", kept), snapshot);
    assert_eq!(
        object_without_empty_values(vec![
            ("x".to_string(), JsonValue::Null),
            ("y".to_string(), text("v")),
        ]),
        vec![("y".to_string(), text("v"))]
    );
}

#[test]
fn merging_overlays_non_empty_values() {
    let mut base = object(vec![
        ("name", text("Base")),
        ("colors", object(vec![("a", text("#000")), ("b", text("#111"))])),
    ]);
    let patch = object(vec![
        ("name", text("")),
        ("colors", object(vec![("b", text("#222")), ("c", text("#333"))])),
        ("extra", JsonValue::Null),
    ]);
    merge_non_empty_json_values(&mut base, &patch);
    assert_eq!(
        base,
        object(vec![
            ("name", text("Base")),
            (
                "colors",
                object(vec![("a", text("#000")), ("b", text("#222")), ("c", text("#333"))])
            ),
        ])
    );
}

#[test]
fn empty_patch_changes_nothing_and_non_objects_replace() {
    let mut base = object(vec![("a", text("x"))]);
    merge_non_empty_json_values(&mut base, &object(vec![("a", JsonValue::Null)]));
    assert_eq!(base, object(vec![("a", text("x"))]));
    merge_non_empty_json_values(&mut base, &JsonValue::Number("3".to_string()));
    assert_eq!(base, JsonValue::Number("3".to_string()));
}

#[test]
fn stripped_text_keeps_the_rest_in_order() {
    let input = "{\"a\": 1, /* b */ \"c\": \"//x\" // d\n}";
    let out = strip_jsonc_comments(input).unwrap();
    let mut rest = input.chars();
    assert!(out.chars().all(|c| rest.any(|d| d == c)));
    assert_eq!(out, "{\"a\": 1,  \"c\": \"//x\" \n}");
}

#[test]
fn stems_keep_exactly_the_name_characters() {
    let name_chars = |s: &str| {
        s.chars()
            .filter(|c| c.is_alphanumeric() || *c == '-')
            .collect::<String>()
    };
    for value in ["My Theme / Blue", " a-b . c_d ", "Ünï cödé", "x..y__z"] {
        assert_eq!(name_chars(&sanitize_config_file_stem(value)), name_chars(value));
    }
    assert_eq!(sanitize_config_file_stem(" _ . / "), "custom");
}

#[test]
fn parsed_objects_never_repeat_a_key() {
    let parsed = parse_jsonc_value("{\"a\": 1, \"a\": 2}").unwrap();
    match &parsed {
        JsonValue::Object(members) => assert_eq!(members.len(), 1),
        other => panic!("unexpected {:?}", other),
    }
    let mut base = object(vec![("a", text("x"))]);
    merge_non_empty_json_values(&mut base, &object(vec![("a", text("y")), ("b", text("z"))]));
    assert_eq!(base, object(vec![("a", text("y")), ("b", text("z"))]));
}
