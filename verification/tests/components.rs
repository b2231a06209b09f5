use velotype::actions::{
    init, EditorAction, OpenRecentFile, SelectLanguage, SelectTheme, BLOCK_EDITOR_CONTEXT,
};
use velotype::switch::{Switch, SwitchTone};

#[test]
fn editing_keys_are_bound_in_the_block_editor() {
    let bindings = init();
    assert_eq!(bindings.len(), 46);
    let find = |keystroke: &str| {
        bindings.iter().find(|binding| binding.keystroke == keystroke).copied().unwrap()
    };
    assert_eq!(find("enter").action, EditorAction::Newline);
    assert_eq!(find("enter").context, Some(BLOCK_EDITOR_CONTEXT));
    assert_eq!(find("ctrl-`").action, EditorAction::CodeSelection);
    assert_eq!(find("shift-tab").action, EditorAction::OutdentBlock);
    assert_eq!(find("cmd-shift-s").action, EditorAction::SaveDocumentAs);
    assert_eq!(find("cmd-shift-s").context, None);
    assert_eq!(find("escape").action, EditorAction::DismissTransientUi);
    assert_eq!(find("escape").context, None);
    for (i, a) in bindings.iter().enumerate() {
        for b in &bindings[i + 1..] {
            assert!(a.keystroke != b.keystroke || a.context != b.context);
        }
    }
}

#[test]
fn parameterised_actions_carry_their_ids() {
    let theme = SelectTheme { theme_id: "velotype-light".to_string() };
    let language = SelectLanguage { language_id: "zh-CN".to_string() };
    let recent = OpenRecentFile { path: "/notes/a.md".to_string() };
    assert_eq!(theme.clone(), theme);
    assert_eq!(language.language_id, "zh-CN");
    assert_eq!(recent.path, "/notes/a.md");
}

#[test]
fn switch_shows_its_state() {
    let off = Switch::new("wrap".to_string());
    assert!(!off.checked);
    assert_eq!(off.tone(), SwitchTone::Secondary);
    assert!(!off.thumb_at_end());
    assert!(off.clickable());
    let on = off.checked(true);
    assert_eq!(on.tone(), SwitchTone::Primary);
    assert!(on.thumb_at_end());
    let disabled = Switch { disabled: true, ..on.clone() };
    assert_eq!(disabled.tone(), SwitchTone::Secondary);
    assert!(!disabled.clickable());
    assert_eq!(on.id, "wrap");
}
