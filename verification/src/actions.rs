//! The editor's actions and their default key bindings: editing keys apply
//! in the block editor, window and menu commands everywhere.
use vstd::prelude::*;

use crate::input::{key_command_spec, law_key_commands, KeyCommand};

verus! {

/// A command of the editor or of the application.
#[derive(Clone, Copy, Debug, PartialEq, Eq, Structural)]
pub enum EditorAction {
    Newline,
    DeleteBack,
    Delete,
    FocusPrev,
    FocusNext,
    MoveLeft,
    MoveRight,
    Home,
    End,
    SelectLeft,
    SelectRight,
    SelectHome,
    SelectEnd,
    SelectAll,
    Copy,
    Cut,
    Paste,
    Undo,
    BoldSelection,
    ItalicSelection,
    UnderlineSelection,
    CodeSelection,
    IndentBlock,
    OutdentBlock,
    ExitCodeBlock,
    SaveDocument,
    NewWindow,
    OpenFile,
    OpenPreferences,
    NoRecentFiles,
    SaveDocumentAs,
    ExportHtml,
    ExportPdf,
    AddLanguageConfig,
    AddThemeConfig,
    QuitApplication,
    CheckForUpdates,
    ShowAbout,
    DismissTransientUi,
}

/// Selects a theme from the application's theme registry.
#[derive(Clone, Debug, PartialEq)]
pub struct SelectTheme {
    /// Stable theme id from the built-in theme catalog.
    pub theme_id: String,
}

/// Selects a user-interface language from the application's language
/// registry.
#[derive(Clone, Debug, PartialEq)]
pub struct SelectLanguage {
    /// Stable language id from the built-in language catalog.
    pub language_id: String,
}

/// Opens a previously recorded Markdown file.
#[derive(Clone, Debug, PartialEq)]
pub struct OpenRecentFile {
    /// Path stored in the recent-file history.
    pub path: String,
}

/// Key context of the block editor.
pub const BLOCK_EDITOR_CONTEXT: &'static str = "BlockEditor";

/// A default key binding: the keystroke, the action it triggers, and the
/// key context it applies in (everywhere when `None`).
#[derive(Clone, Copy, Debug, PartialEq, Eq)]
pub struct KeyBindingSpec {
    pub keystroke: &'static str,
    pub action: EditorAction,
    pub context: Option<&'static str>,
}

/// The default key bindings, in order, as keystroke, action and context.
pub open spec fn binding_table() -> Seq<(Seq<char>, EditorAction, Option<Seq<char>>)> {
    seq![
        ("enter"@, EditorAction::Newline, Some(BLOCK_EDITOR_CONTEXT@)),
        ("backspace"@, EditorAction::DeleteBack, Some(BLOCK_EDITOR_CONTEXT@)),
        ("delete"@, EditorAction::Delete, Some(BLOCK_EDITOR_CONTEXT@)),
        ("up"@, EditorAction::FocusPrev, Some(BLOCK_EDITOR_CONTEXT@)),
        ("down"@, EditorAction::FocusNext, Some(BLOCK_EDITOR_CONTEXT@)),
        ("left"@, EditorAction::MoveLeft, Some(BLOCK_EDITOR_CONTEXT@)),
        ("right"@, EditorAction::MoveRight, Some(BLOCK_EDITOR_CONTEXT@)),
        ("home"@, EditorAction::Home, Some(BLOCK_EDITOR_CONTEXT@)),
        ("end"@, EditorAction::End, Some(BLOCK_EDITOR_CONTEXT@)),
        ("shift-left"@, EditorAction::SelectLeft, Some(BLOCK_EDITOR_CONTEXT@)),
        ("shift-right"@, EditorAction::SelectRight, Some(BLOCK_EDITOR_CONTEXT@)),
        ("shift-home"@, EditorAction::SelectHome, Some(BLOCK_EDITOR_CONTEXT@)),
        ("shift-end"@, EditorAction::SelectEnd, Some(BLOCK_EDITOR_CONTEXT@)),
        ("cmd-a"@, EditorAction::SelectAll, Some(BLOCK_EDITOR_CONTEXT@)),
        ("cmd-c"@, EditorAction::Copy, Some(BLOCK_EDITOR_CONTEXT@)),
        ("cmd-x"@, EditorAction::Cut, Some(BLOCK_EDITOR_CONTEXT@)),
        ("cmd-v"@, EditorAction::Paste, Some(BLOCK_EDITOR_CONTEXT@)),
        ("cmd-z"@, EditorAction::Undo, Some(BLOCK_EDITOR_CONTEXT@)),
        ("cmd-b"@, EditorAction::BoldSelection, Some(BLOCK_EDITOR_CONTEXT@)),
        ("cmd-i"@, EditorAction::ItalicSelection, Some(BLOCK_EDITOR_CONTEXT@)),
        ("cmd-u"@, EditorAction::UnderlineSelection, Some(BLOCK_EDITOR_CONTEXT@)),
        ("cmd-`"@, EditorAction::CodeSelection, Some(BLOCK_EDITOR_CONTEXT@)),
        ("ctrl-`"@, EditorAction::CodeSelection, Some(BLOCK_EDITOR_CONTEXT@)),
        ("tab"@, EditorAction::IndentBlock, Some(BLOCK_EDITOR_CONTEXT@)),
        ("shift-tab"@, EditorAction::OutdentBlock, Some(BLOCK_EDITOR_CONTEXT@)),
        ("cmd-enter"@, EditorAction::ExitCodeBlock, Some(BLOCK_EDITOR_CONTEXT@)),
        ("ctrl-enter"@, EditorAction::ExitCodeBlock, Some(BLOCK_EDITOR_CONTEXT@)),
        ("ctrl-a"@, EditorAction::SelectAll, Some(BLOCK_EDITOR_CONTEXT@)),
        ("ctrl-c"@, EditorAction::Copy, Some(BLOCK_EDITOR_CONTEXT@)),
        ("ctrl-x"@, EditorAction::Cut, Some(BLOCK_EDITOR_CONTEXT@)),
        ("ctrl-v"@, EditorAction::Paste, Some(BLOCK_EDITOR_CONTEXT@)),
        ("ctrl-z"@, EditorAction::Undo, Some(BLOCK_EDITOR_CONTEXT@)),
        ("ctrl-b"@, EditorAction::BoldSelection, Some(BLOCK_EDITOR_CONTEXT@)),
        ("ctrl-i"@, EditorAction::ItalicSelection, Some(BLOCK_EDITOR_CONTEXT@)),
        ("ctrl-u"@, EditorAction::UnderlineSelection, Some(BLOCK_EDITOR_CONTEXT@)),
        ("cmd-s"@, EditorAction::SaveDocument, None),
        ("ctrl-s"@, EditorAction::SaveDocument, None),
        ("cmd-shift-s"@, EditorAction::SaveDocumentAs, None),
        ("ctrl-shift-s"@, EditorAction::SaveDocumentAs, None),
        ("cmd-n"@, EditorAction::NewWindow, None),
        ("ctrl-n"@, EditorAction::NewWindow, None),
        ("cmd-o"@, EditorAction::OpenFile, None),
        ("ctrl-o"@, EditorAction::OpenFile, None),
        ("cmd-q"@, EditorAction::QuitApplication, None),
        ("ctrl-q"@, EditorAction::QuitApplication, None),
        ("escape"@, EditorAction::DismissTransientUi, None),
    ]
}

/// The view of a binding.
pub open spec fn binding_view(b: KeyBindingSpec) -> (Seq<char>, EditorAction, Option<Seq<char>>) {
    (
        b.keystroke@,
        b.action,
        match b.context {
            Some(c) => Some(c@),
            None => None,
        },
    )
}

/// No keystroke is bound twice: whatever the context, a keystroke triggers
/// one action.
#[verifier::rlimit(100)]
pub proof fn law_each_keystroke_bound_once()
    ensures
        forall|i: int, j: int|
            0 <= i < j < binding_table().len() ==> #[trigger] binding_table()[i].0
                != #[trigger] binding_table()[j].0,
{
    reveal_strlit("enter");
    reveal_strlit("backspace");
    reveal_strlit("delete");
    reveal_strlit("up");
    reveal_strlit("down");
    reveal_strlit("left");
    reveal_strlit("right");
    reveal_strlit("home");
    reveal_strlit("end");
    reveal_strlit("shift-left");
    reveal_strlit("shift-right");
    reveal_strlit("shift-home");
    reveal_strlit("shift-end");
    reveal_strlit("cmd-a");
    reveal_strlit("cmd-c");
    reveal_strlit("cmd-x");
    reveal_strlit("cmd-v");
    reveal_strlit("cmd-z");
    reveal_strlit("cmd-b");
    reveal_strlit("cmd-i");
    reveal_strlit("cmd-u");
    reveal_strlit("cmd-`");
    reveal_strlit("ctrl-`");
    reveal_strlit("tab");
    reveal_strlit("shift-tab");
    reveal_strlit("cmd-enter");
    reveal_strlit("ctrl-enter");
    reveal_strlit("ctrl-a");
    reveal_strlit("ctrl-c");
    reveal_strlit("ctrl-x");
    reveal_strlit("ctrl-v");
    reveal_strlit("ctrl-z");
    reveal_strlit("ctrl-b");
    reveal_strlit("ctrl-i");
    reveal_strlit("ctrl-u");
    reveal_strlit("cmd-s");
    reveal_strlit("ctrl-s");
    reveal_strlit("cmd-shift-s");
    reveal_strlit("ctrl-shift-s");
    reveal_strlit("cmd-n");
    reveal_strlit("ctrl-n");
    reveal_strlit("cmd-o");
    reveal_strlit("ctrl-o");
    reveal_strlit("cmd-q");
    reveal_strlit("ctrl-q");
    reveal_strlit("escape");
    let t = binding_table();
    assert forall|i: int, j: int| 0 <= i < j < t.len() implies #[trigger] t[i].0 != #[trigger] t[j].0 by {
        let a = t[i].0;
        let b = t[j].0;
        assert(a.len() != b.len() || a[0] != b[0] || a[a.len() - 1] != b[b.len() - 1]);
    }
}

/// The action and context that `keystroke` is bound to, if any.
pub open spec fn binding_of(keystroke: Seq<char>) -> Option<(EditorAction, Option<Seq<char>>)> {
    let t = binding_table();
    if exists|i: int| 0 <= i < t.len() && #[trigger] t[i].0 == keystroke {
        let i = choose|i: int| 0 <= i < t.len() && #[trigger] t[i].0 == keystroke;
        Some((t[i].1, t[i].2))
    } else {
        None
    }
}

proof fn lemma_binding_at(i: int)
    requires
        0 <= i < binding_table().len(),
    ensures
        binding_of(binding_table()[i].0) == Some((binding_table()[i].1, binding_table()[i].2)),
{
    law_each_keystroke_bound_once();
    let t = binding_table();
    let k = t[i].0;
    assert(0 <= i < t.len() && t[i].0 == k);
    let c = choose|j: int| 0 <= j < t.len() && #[trigger] t[j].0 == k;
    if c < i {
        assert(t[c].0 != t[i].0);
    } else if c > i {
        assert(t[i].0 != t[c].0);
    }
}

/// The shortcuts that macOS writes with `cmd` and Windows and Linux with
/// `ctrl`, as pairs of keystrokes.
pub open spec fn platform_shortcut_pairs() -> Seq<(Seq<char>, Seq<char>)> {
    seq![
        ("cmd-a"@, "ctrl-a"@),
        ("cmd-c"@, "ctrl-c"@),
        ("cmd-x"@, "ctrl-x"@),
        ("cmd-v"@, "ctrl-v"@),
        ("cmd-z"@, "ctrl-z"@),
        ("cmd-b"@, "ctrl-b"@),
        ("cmd-i"@, "ctrl-i"@),
        ("cmd-u"@, "ctrl-u"@),
        ("cmd-`"@, "ctrl-`"@),
        ("cmd-enter"@, "ctrl-enter"@),
        ("cmd-s"@, "ctrl-s"@),
        ("cmd-shift-s"@, "ctrl-shift-s"@),
        ("cmd-n"@, "ctrl-n"@),
        ("cmd-o"@, "ctrl-o"@),
        ("cmd-q"@, "ctrl-q"@),
    ]
}

/// A shortcut does the same on every platform: the `cmd` and `ctrl`
/// keystrokes of each pair are both bound, to the same action in the same
/// context.
pub proof fn law_platform_shortcuts_agree()
    ensures
        forall|p: int|
            0 <= p < platform_shortcut_pairs().len() ==> binding_of(
                #[trigger] platform_shortcut_pairs()[p].0,
            ) is Some && binding_of(platform_shortcut_pairs()[p].0) == binding_of(
                platform_shortcut_pairs()[p].1,
            ),
{
    let t = binding_table();
    assert forall|i: int| 0 <= i < t.len() implies binding_of(#[trigger] t[i].0) == Some(
        (t[i].1, t[i].2),
    ) by {
        lemma_binding_at(i);
    }
    let ps = platform_shortcut_pairs();
    assert forall|p: int| 0 <= p < ps.len() implies binding_of(#[trigger] ps[p].0) is Some
        && binding_of(ps[p].0) == binding_of(ps[p].1) by {
        if p < 8 {
            assert(ps[p].0 == t[13 + p].0);
            assert(ps[p].1 == t[27 + p].0);
        } else if p == 8 {
            assert(ps[p].0 == t[21].0);
            assert(ps[p].1 == t[22].0);
        } else if p == 9 {
            assert(ps[p].0 == t[25].0);
            assert(ps[p].1 == t[26].0);
        } else {
            assert(ps[p].0 == t[35 + 2 * (p - 10)].0);
            assert(ps[p].1 == t[36 + 2 * (p - 10)].0);
        }
    }
}

/// The editing action that matches a command of the single-line input.
pub open spec fn editor_action_for(command: KeyCommand) -> EditorAction {
    match command {
        KeyCommand::SelectAll => EditorAction::SelectAll,
        KeyCommand::Copy => EditorAction::Copy,
        KeyCommand::Cut => EditorAction::Cut,
        KeyCommand::Paste => EditorAction::Paste,
        KeyCommand::SelectLeft => EditorAction::SelectLeft,
        KeyCommand::SelectRight => EditorAction::SelectRight,
        KeyCommand::Left => EditorAction::MoveLeft,
        KeyCommand::Right => EditorAction::MoveRight,
        KeyCommand::SelectHome => EditorAction::SelectHome,
        KeyCommand::SelectEnd => EditorAction::SelectEnd,
        KeyCommand::Home => EditorAction::Home,
        KeyCommand::End => EditorAction::End,
        KeyCommand::Backspace => EditorAction::DeleteBack,
        KeyCommand::Delete => EditorAction::Delete,
        KeyCommand::Enter => EditorAction::Newline,
    }
}

/// The block editor binds the editing keys as the single-line input reads
/// them: with either platform modifier `a`, `c`, `x` and `v` select all,
/// copy, cut and paste; `backspace` and `delete` delete backward and
/// forward; the arrows, `home` and `end` move, and with shift select.
pub proof fn law_editor_keys_match_the_input()
    ensures
        binding_of("cmd-a"@) == Some((editor_action_for(key_command_spec(true, false, "a"@).unwrap()), Some(BLOCK_EDITOR_CONTEXT@))),
        binding_of("ctrl-a"@) == Some((editor_action_for(key_command_spec(true, false, "a"@).unwrap()), Some(BLOCK_EDITOR_CONTEXT@))),
        binding_of("cmd-c"@) == Some((editor_action_for(key_command_spec(true, false, "c"@).unwrap()), Some(BLOCK_EDITOR_CONTEXT@))),
        binding_of("ctrl-c"@) == Some((editor_action_for(key_command_spec(true, false, "c"@).unwrap()), Some(BLOCK_EDITOR_CONTEXT@))),
        binding_of("cmd-x"@) == Some((editor_action_for(key_command_spec(true, false, "x"@).unwrap()), Some(BLOCK_EDITOR_CONTEXT@))),
        binding_of("ctrl-x"@) == Some((editor_action_for(key_command_spec(true, false, "x"@).unwrap()), Some(BLOCK_EDITOR_CONTEXT@))),
        binding_of("cmd-v"@) == Some((editor_action_for(key_command_spec(true, false, "v"@).unwrap()), Some(BLOCK_EDITOR_CONTEXT@))),
        binding_of("ctrl-v"@) == Some((editor_action_for(key_command_spec(true, false, "v"@).unwrap()), Some(BLOCK_EDITOR_CONTEXT@))),
        binding_of("backspace"@) == Some((editor_action_for(key_command_spec(false, false, "backspace"@).unwrap()), Some(BLOCK_EDITOR_CONTEXT@))),
        binding_of("delete"@) == Some((editor_action_for(key_command_spec(false, false, "delete"@).unwrap()), Some(BLOCK_EDITOR_CONTEXT@))),
        binding_of("left"@) == Some((editor_action_for(key_command_spec(false, false, "left"@).unwrap()), Some(BLOCK_EDITOR_CONTEXT@))),
        binding_of("right"@) == Some((editor_action_for(key_command_spec(false, false, "right"@).unwrap()), Some(BLOCK_EDITOR_CONTEXT@))),
        binding_of("home"@) == Some((editor_action_for(key_command_spec(false, false, "home"@).unwrap()), Some(BLOCK_EDITOR_CONTEXT@))),
        binding_of("end"@) == Some((editor_action_for(key_command_spec(false, false, "end"@).unwrap()), Some(BLOCK_EDITOR_CONTEXT@))),
        binding_of("shift-left"@) == Some((editor_action_for(key_command_spec(false, true, "left"@).unwrap()), Some(BLOCK_EDITOR_CONTEXT@))),
        binding_of("shift-right"@) == Some((editor_action_for(key_command_spec(false, true, "right"@).unwrap()), Some(BLOCK_EDITOR_CONTEXT@))),
        binding_of("shift-home"@) == Some((editor_action_for(key_command_spec(false, true, "home"@).unwrap()), Some(BLOCK_EDITOR_CONTEXT@))),
        binding_of("shift-end"@) == Some((editor_action_for(key_command_spec(false, true, "end"@).unwrap()), Some(BLOCK_EDITOR_CONTEXT@))),
{
    law_key_commands(true, false);
    law_key_commands(false, false);
    law_key_commands(false, true);
    let t = binding_table();
    assert forall|i: int| 0 <= i < t.len() implies binding_of(#[trigger] t[i].0) == Some(
        (t[i].1, t[i].2),
    ) by {
        lemma_binding_at(i);
    }
    assert(binding_of(t[13].0) == Some((t[13].1, t[13].2)));
    assert(binding_of(t[14].0) == Some((t[14].1, t[14].2)));
    assert(binding_of(t[15].0) == Some((t[15].1, t[15].2)));
    assert(binding_of(t[16].0) == Some((t[16].1, t[16].2)));
    assert(binding_of(t[27].0) == Some((t[27].1, t[27].2)));
    assert(binding_of(t[28].0) == Some((t[28].1, t[28].2)));
    assert(binding_of(t[29].0) == Some((t[29].1, t[29].2)));
    assert(binding_of(t[30].0) == Some((t[30].1, t[30].2)));
    assert(binding_of(t[1].0) == Some((t[1].1, t[1].2)));
    assert(binding_of(t[2].0) == Some((t[2].1, t[2].2)));
    assert(binding_of(t[5].0) == Some((t[5].1, t[5].2)));
    assert(binding_of(t[6].0) == Some((t[6].1, t[6].2)));
    assert(binding_of(t[7].0) == Some((t[7].1, t[7].2)));
    assert(binding_of(t[8].0) == Some((t[8].1, t[8].2)));
    assert(binding_of(t[9].0) == Some((t[9].1, t[9].2)));
    assert(binding_of(t[10].0) == Some((t[10].1, t[10].2)));
    assert(binding_of(t[11].0) == Some((t[11].1, t[11].2)));
    assert(binding_of(t[12].0) == Some((t[12].1, t[12].2)));
}

/// The default key bindings of the editor.
#[verifier::rlimit(60)]
pub fn init() -> (res: Vec<KeyBindingSpec>)
    ensures
        res.len() == binding_table().len(),
        forall|i: int| 0 <= i < res.len() ==> #[trigger] binding_view(res@[i]) == binding_table()[i],
{
    let editor = Some(BLOCK_EDITOR_CONTEXT);
    let global: Option<&'static str> = None;
    let mut bindings: Vec<KeyBindingSpec> = Vec::new();
    bindings.push(KeyBindingSpec { keystroke: "enter", action: EditorAction::Newline, context: editor });
    bindings.push(KeyBindingSpec { keystroke: "backspace", action: EditorAction::DeleteBack, context: editor });
    bindings.push(KeyBindingSpec { keystroke: "delete", action: EditorAction::Delete, context: editor });
    bindings.push(KeyBindingSpec { keystroke: "up", action: EditorAction::FocusPrev, context: editor });
    bindings.push(KeyBindingSpec { keystroke: "down", action: EditorAction::FocusNext, context: editor });
    bindings.push(KeyBindingSpec { keystroke: "left", action: EditorAction::MoveLeft, context: editor });
    bindings.push(KeyBindingSpec { keystroke: "right", action: EditorAction::MoveRight, context: editor });
    bindings.push(KeyBindingSpec { keystroke: "home", action: EditorAction::Home, context: editor });
    bindings.push(KeyBindingSpec { keystroke: "end", action: EditorAction::End, context: editor });
    bindings.push(KeyBindingSpec { keystroke: "shift-left", action: EditorAction::SelectLeft, context: editor });
    bindings.push(KeyBindingSpec { keystroke: "shift-right", action: EditorAction::SelectRight, context: editor });
    bindings.push(KeyBindingSpec { keystroke: "shift-home", action: EditorAction::SelectHome, context: editor });
    bindings.push(KeyBindingSpec { keystroke: "shift-end", action: EditorAction::SelectEnd, context: editor });
    bindings.push(KeyBindingSpec { keystroke: "cmd-a", action: EditorAction::SelectAll, context: editor });
    bindings.push(KeyBindingSpec { keystroke: "cmd-c", action: EditorAction::Copy, context: editor });
    bindings.push(KeyBindingSpec { keystroke: "cmd-x", action: EditorAction::Cut, context: editor });
    bindings.push(KeyBindingSpec { keystroke: "cmd-v", action: EditorAction::Paste, context: editor });
    bindings.push(KeyBindingSpec { keystroke: "cmd-z", action: EditorAction::Undo, context: editor });
    bindings.push(KeyBindingSpec { keystroke: "cmd-b", action: EditorAction::BoldSelection, context: editor });
    bindings.push(KeyBindingSpec { keystroke: "cmd-i", action: EditorAction::ItalicSelection, context: editor });
    bindings.push(KeyBindingSpec { keystroke: "cmd-u", action: EditorAction::UnderlineSelection, context: editor });
    bindings.push(KeyBindingSpec { keystroke: "cmd-`", action: EditorAction::CodeSelection, context: editor });
    bindings.push(KeyBindingSpec { keystroke: "ctrl-`", action: EditorAction::CodeSelection, context: editor });
    bindings.push(KeyBindingSpec { keystroke: "tab", action: EditorAction::IndentBlock, context: editor });
    bindings.push(KeyBindingSpec { keystroke: "shift-tab", action: EditorAction::OutdentBlock, context: editor });
    bindings.push(KeyBindingSpec { keystroke: "cmd-enter", action: EditorAction::ExitCodeBlock, context: editor });
    bindings.push(KeyBindingSpec { keystroke: "ctrl-enter", action: EditorAction::ExitCodeBlock, context: editor });
    bindings.push(KeyBindingSpec { keystroke: "ctrl-a", action: EditorAction::SelectAll, context: editor });
    bindings.push(KeyBindingSpec { keystroke: "ctrl-c", action: EditorAction::Copy, context: editor });
    bindings.push(KeyBindingSpec { keystroke: "ctrl-x", action: EditorAction::Cut, context: editor });
    bindings.push(KeyBindingSpec { keystroke: "ctrl-v", action: EditorAction::Paste, context: editor });
    bindings.push(KeyBindingSpec { keystroke: "ctrl-z", action: EditorAction::Undo, context: editor });
    bindings.push(KeyBindingSpec { keystroke: "ctrl-b", action: EditorAction::BoldSelection, context: editor });
    bindings.push(KeyBindingSpec { keystroke: "ctrl-i", action: EditorAction::ItalicSelection, context: editor });
    bindings.push(KeyBindingSpec { keystroke: "ctrl-u", action: EditorAction::UnderlineSelection, context: editor });
    bindings.push(KeyBindingSpec { keystroke: "cmd-s", action: EditorAction::SaveDocument, context: global });
    bindings.push(KeyBindingSpec { keystroke: "ctrl-s", action: EditorAction::SaveDocument, context: global });
    bindings.push(KeyBindingSpec { keystroke: "cmd-shift-s", action: EditorAction::SaveDocumentAs, context: global });
    bindings.push(KeyBindingSpec { keystroke: "ctrl-shift-s", action: EditorAction::SaveDocumentAs, context: global });
    bindings.push(KeyBindingSpec { keystroke: "cmd-n", action: EditorAction::NewWindow, context: global });
    bindings.push(KeyBindingSpec { keystroke: "ctrl-n", action: EditorAction::NewWindow, context: global });
    bindings.push(KeyBindingSpec { keystroke: "cmd-o", action: EditorAction::OpenFile, context: global });
    bindings.push(KeyBindingSpec { keystroke: "ctrl-o", action: EditorAction::OpenFile, context: global });
    bindings.push(KeyBindingSpec { keystroke: "cmd-q", action: EditorAction::QuitApplication, context: global });
    bindings.push(KeyBindingSpec { keystroke: "ctrl-q", action: EditorAction::QuitApplication, context: global });
    bindings.push(KeyBindingSpec { keystroke: "escape", action: EditorAction::DismissTransientUi, context: global });
    proof {
        assert forall|i: int| 0 <= i < bindings.len() implies #[trigger] binding_view(bindings@[i])
            == binding_table()[i] by {}
    }
    bindings
}

} // verus!
