use velotype::dialogs::{
    about_dialog_body_lines, info_dialog_body, info_dialog_title, join_with_line_breaks,
    ABOUT_GITHUB_URL,
};
use velotype::layout::InfoDialogKind;

#[test]
fn about_dialog_lists_version_message_link_and_thanks() {
    let lines = about_dialog_body_lines("0.3.0", "A Markdown editor.", "GitHub", "Star us!");
    assert_eq!(
        lines,
        vec![
            "Velotype 0.3.0".to_string(),
            "A Markdown editor.".to_string(),
            format!("GitHub: {}", ABOUT_GITHUB_URL),
            "Star us!".to_string(),
        ]
    );
    assert_eq!(ABOUT_GITHUB_URL, "https://github.com/manyougz/velotype");
}

#[test]
fn info_dialogs_pick_their_texts() {
    let lines = vec!["a".to_string(), "b".to_string()];
    assert_eq!(info_dialog_body(InfoDialogKind::About, "up to date", &lines), "a\nb");
    assert_eq!(
        info_dialog_body(InfoDialogKind::CheckForUpdates, "up to date", &lines),
        "up to date"
    );
    assert_eq!(info_dialog_title(InfoDialogKind::About, "Updates", "About"), "About");
    assert_eq!(info_dialog_title(InfoDialogKind::CheckForUpdates, "Updates", "About"), "Updates");
    assert_eq!(join_with_line_breaks(&vec![]), "");
    assert_eq!(join_with_line_breaks(&vec!["x".to_string()]), "x");
}
