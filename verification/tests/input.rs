use unicode_segmentation::UnicodeSegmentation;

use velotype::graphemes::{
    clamp_source_index, fade_run_lengths, fade_segments, fitting_grapheme_end_by,
    next_grapheme_start, previous_grapheme_start, FADE_GRAPHEME_COUNT,
};
use velotype::input::{
    ellipsis_display, key_command, replace_line_breaks, KeyCommand, SingleLineInput,
    SingleLineOverflow,
};
use velotype::utf::{utf16_to_utf8_in, utf8_to_utf16_in};

fn input(value: &str) -> SingleLineInput {
    SingleLineInput::new(value.to_string(), String::new())
}

#[test]
fn fitting_end_respects_unicode_grapheme_boundaries() {
    let text = "A👨‍👩‍👧‍👦藏e\u{301}Z";
    let boundaries = text
        .grapheme_indices(true)
        .map(|(start, grapheme)| start + grapheme.len())
        .collect::<Vec<_>>();
    let end = fitting_grapheme_end_by(text, |end| end <= boundaries[2]);
    assert_eq!(end, boundaries[2]);
    assert_eq!(&text[..end], "A👨‍👩‍👧‍👦藏");
}

#[test]
fn displayed_suffix_cannot_move_the_source_index_past_its_end() {
    let content = "ab藏defghijklmnopqrstuvwxyz";
    let displayed_source_end = 12;
    let ellipsis_display_end = displayed_source_end + "…".len();
    assert_eq!(
        clamp_source_index(content, ellipsis_display_end, displayed_source_end),
        displayed_source_end
    );
    assert_eq!(clamp_source_index(content, 4, content.len()), 2);
}

#[test]
fn fade_segments_cover_complete_trailing_graphemes() {
    let text = "prefix👨‍👩‍👧‍👦藏e\u{301}Z";
    let segments = fade_segments(text);
    assert_eq!(segments.len(), FADE_GRAPHEME_COUNT);
    assert_eq!(segments.first().unwrap().start, "prefix".len());
    assert_eq!(segments.last().unwrap().end, text.len());
    let opacity = |i: usize| segments[i].opacity_num as f32 / segments[i].opacity_den as f32;
    assert!((0..segments.len() - 1).all(|i| {
        segments[i].end == segments[i + 1].start && opacity(i) > opacity(i + 1)
    }));
}

#[test]
fn all_overflow_modes_are_distinct() {
    let modes = [
        SingleLineOverflow::Ellipsis,
        SingleLineOverflow::Clip,
        SingleLineOverflow::Fade,
    ];
    assert_ne!(modes[0], modes[1]);
    assert_ne!(modes[1], modes[2]);
}

#[test]
fn component_accepts_every_overflow_mode() {
    for mode in [
        SingleLineOverflow::Ellipsis,
        SingleLineOverflow::Clip,
        SingleLineOverflow::Fade,
    ] {
        let input = input("long value").with_overflow(mode);
        assert_eq!(input.overflow, mode);
    }
    assert_eq!(SingleLineOverflow::default(), SingleLineOverflow::Ellipsis);
}

#[test]
fn fade_opacities_and_run_lengths() {
    let segments = fade_segments("ab");
    assert_eq!(segments.len(), 2);
    assert_eq!((segments[0].opacity_num, segments[0].opacity_den), (2, 3));
    assert_eq!((segments[1].opacity_num, segments[1].opacity_den), (1, 3));
    assert!(fade_segments("").is_empty());
    let display = "prefix👨‍👩‍👧‍👦藏e\u{301}Z";
    let runs = fade_run_lengths(display);
    assert_eq!(runs.len(), 5);
    assert_eq!(runs[0], "prefix".len());
    assert_eq!(runs.iter().sum::<usize>(), display.len());
    assert_eq!(fade_run_lengths("xy"), vec![1, 1]);
    assert!(fade_run_lengths("").is_empty());
}

#[test]
fn fitting_end_is_zero_when_nothing_fits() {
    assert_eq!(fitting_grapheme_end_by("abc", |_| false), 0);
    assert_eq!(fitting_grapheme_end_by("abc", |_| true), 3);
    assert_eq!(fitting_grapheme_end_by("", |_| true), 0);
    assert_eq!(fitting_grapheme_end_by("abc", |end| end != 2), 1);
}

#[test]
fn grapheme_steps_skip_whole_clusters() {
    let text = "ae\u{301}👨‍👩‍👧‍👦z";
    let family_start = "ae\u{301}".len();
    let z_start = text.len() - 1;
    assert_eq!(next_grapheme_start(text, 0), 1);
    assert_eq!(next_grapheme_start(text, 1), family_start);
    assert_eq!(next_grapheme_start(text, family_start), z_start);
    assert_eq!(next_grapheme_start(text, z_start), text.len());
    assert_eq!(previous_grapheme_start(text, text.len()), z_start);
    assert_eq!(previous_grapheme_start(text, z_start), family_start);
    assert_eq!(previous_grapheme_start(text, 2), 1);
    assert_eq!(previous_grapheme_start(text, 0), 0);
    assert_eq!(previous_grapheme_start("", 5), 0);
    assert_eq!(next_grapheme_start("", 0), 0);
}

#[test]
fn utf16_offsets_map_to_byte_offsets_and_back() {
    let text = "a藏😀b";
    assert_eq!(utf16_to_utf8_in(text, 0), 0);
    assert_eq!(utf16_to_utf8_in(text, 1), 1);
    assert_eq!(utf16_to_utf8_in(text, 2), 4);
    assert_eq!(utf16_to_utf8_in(text, 3), 8);
    assert_eq!(utf16_to_utf8_in(text, 4), 8);
    assert_eq!(utf16_to_utf8_in(text, 5), 9);
    assert_eq!(utf16_to_utf8_in(text, 99), 9);
    for (byte, _) in text.char_indices().chain(std::iter::once((text.len(), ' '))) {
        let units = utf8_to_utf16_in(text, byte);
        assert_eq!(units, text[..byte].encode_utf16().count());
        assert_eq!(utf16_to_utf8_in(text, units), byte);
    }
    assert_eq!(utf8_to_utf16_in(text, 100), 5);
}

#[test]
fn key_presses_map_to_commands() {
    assert_eq!(key_command(true, false, "a"), Some(KeyCommand::SelectAll));
    assert_eq!(key_command(true, true, "v"), Some(KeyCommand::Paste));
    assert_eq!(key_command(false, false, "a"), None);
    assert_eq!(key_command(false, true, "left"), Some(KeyCommand::SelectLeft));
    assert_eq!(key_command(true, false, "left"), Some(KeyCommand::Left));
    assert_eq!(key_command(false, true, "end"), Some(KeyCommand::SelectEnd));
    assert_eq!(key_command(false, false, "home"), Some(KeyCommand::Home));
    assert_eq!(key_command(false, true, "backspace"), Some(KeyCommand::Backspace));
    assert_eq!(key_command(false, false, "enter"), Some(KeyCommand::Enter));
    assert_eq!(key_command(false, false, "tab"), None);
    assert!(KeyCommand::Paste.needs_clipboard());
    assert!(!KeyCommand::Copy.needs_clipboard());
}

#[test]
fn new_input_puts_the_cursor_at_the_end() {
    let field = input("héllo");
    assert_eq!(field.cursor(), "héllo".len());
    assert_eq!(field.selection_start, 6);
    assert_eq!(field.value(), "héllo");
    assert_eq!(input("").display_text(), "");
    let placeholder = SingleLineInput::new(String::new(), "Search".to_string());
    assert_eq!(placeholder.display_text(), "Search");
}

#[test]
fn arrows_move_by_grapheme_and_shift_extends() {
    let mut field = input("ae\u{301}z");
    let effect = field.apply_command(KeyCommand::Left, None);
    assert!(!effect.edited);
    assert_eq!(field.cursor(), 4);
    field.apply_command(KeyCommand::SelectLeft, None);
    assert_eq!((field.selection_start, field.selection_end, field.reversed), (1, 4, true));
    assert_eq!(field.cursor(), 1);
    field.apply_command(KeyCommand::SelectRight, None);
    field.apply_command(KeyCommand::SelectRight, None);
    assert_eq!((field.selection_start, field.selection_end, field.reversed), (4, 5, false));
    field.apply_command(KeyCommand::Left, None);
    assert_eq!((field.selection_start, field.selection_end), (4, 4));
    field.apply_command(KeyCommand::SelectHome, None);
    assert_eq!((field.selection_start, field.selection_end, field.reversed), (0, 4, true));
    field.apply_command(KeyCommand::Right, None);
    assert_eq!((field.selection_start, field.selection_end, field.reversed), (4, 4, false));
    field.apply_command(KeyCommand::Home, None);
    assert_eq!(field.cursor(), 0);
    field.apply_command(KeyCommand::End, None);
    assert_eq!(field.cursor(), 5);
}

#[test]
fn copy_cut_and_paste_use_the_selection() {
    let mut field = input("hello world");
    field.apply_command(KeyCommand::SelectAll, None);
    assert_eq!((field.selection_start, field.selection_end), (0, 11));
    let copied = field.apply_command(KeyCommand::Copy, None);
    assert_eq!(copied.copied.as_deref(), Some("hello world"));
    assert!(!copied.edited);
    field.move_to(6);
    field.select_to(11);
    let cut = field.apply_command(KeyCommand::Cut, None);
    assert_eq!(cut.copied.as_deref(), Some("world"));
    assert!(cut.edited);
    assert_eq!(field.value(), "hello ");
    assert_eq!(field.cursor(), 6);
    let pasted = field.apply_command(KeyCommand::Paste, Some("big\r\nsky"));
    assert!(pasted.edited);
    assert_eq!(field.value(), "hello big  sky");
    assert_eq!(field.cursor(), 14);
    let nothing = field.apply_command(KeyCommand::Paste, None);
    assert!(!nothing.edited);
    assert_eq!(field.value(), "hello big  sky");
    assert_eq!(field.apply_command(KeyCommand::Copy, None).copied, None);
}

#[test]
fn backspace_and_delete_remove_whole_graphemes() {
    let mut field = input("xe\u{301}y");
    field.move_to(4);
    let effect = field.apply_command(KeyCommand::Backspace, None);
    assert!(effect.edited);
    assert_eq!(field.value(), "xy");
    assert_eq!(field.cursor(), 1);
    field.apply_command(KeyCommand::Delete, None);
    assert_eq!(field.value(), "x");
    field.apply_command(KeyCommand::Delete, None);
    assert_eq!(field.value(), "x");
    field.move_to(0);
    field.apply_command(KeyCommand::Backspace, None);
    assert_eq!(field.value(), "x");
    let before = format!("{:?}", field);
    field.apply_command(KeyCommand::Enter, None);
    assert_eq!(format!("{:?}", field), before);
}

#[test]
fn replacing_text_flattens_line_breaks_and_moves_the_cursor() {
    let mut field = input("abc");
    field.replace_text_in_range(Some((1, 2)), "X\nY");
    assert_eq!(field.value(), "aX Yc");
    assert_eq!(field.cursor(), 4);
    assert_eq!(replace_line_breaks("a\rb\nc"), "a b c");
    let mut emoji = input("😀😀");
    emoji.replace_text_in_range(Some((2, 4)), "藏");
    assert_eq!(emoji.value(), "😀藏");
}

#[test]
fn composition_marks_the_new_text() {
    let mut field = input("ab");
    field.move_to(1);
    field.replace_and_mark_text_in_range(None, "にほ", Some((1, 1)));
    assert_eq!(field.value(), "aにほb");
    assert_eq!(field.marked, Some((1, 7)));
    assert_eq!((field.selection_start, field.selection_end), (4, 4));
    assert_eq!(field.marked_text_range(), Some((1, 3)));
    field.replace_and_mark_text_in_range(None, "日本", None);
    assert_eq!(field.value(), "a日本b");
    assert_eq!(field.marked, Some((1, 7)));
    assert_eq!(field.cursor(), 7);
    field.unmark_text();
    assert_eq!(field.marked, None);
    field.replace_and_mark_text_in_range(None, "", None);
    assert_eq!(field.marked, None);
}

#[test]
fn platform_ranges_are_utf16() {
    let field = input("a😀b");
    let (text, actual) = field.text_for_range((1, 3));
    assert_eq!(text, "😀");
    assert_eq!(actual, (1, 3));
    let (text, actual) = field.text_for_range((2, 4));
    assert_eq!(text, "b");
    assert_eq!(actual, (3, 4));
    assert_eq!(field.selected_text_range(), ((4, 4), false));
    assert_eq!(field.utf16_range_to_utf8((1, 3)), (1, 5));
    assert_eq!(field.utf8_range_to_utf16((1, 5)), (1, 3));
}

#[test]
fn mouse_positions_are_clamped_to_what_is_shown() {
    let mut field = input("ab藏de");
    field.finish_layout(3);
    assert!(!field.cursor_visibility_requested());
    assert_eq!(field.index_at(Some(4)), 2);
    assert_eq!(field.index_at(None), 0);
    field.on_mouse_down(false, Some(1));
    assert!(field.is_selecting);
    assert_eq!(field.cursor(), 1);
    field.on_mouse_move(Some(2));
    assert_eq!((field.selection_start, field.selection_end), (1, 2));
    field.on_mouse_up();
    field.on_mouse_move(Some(0));
    assert_eq!((field.selection_start, field.selection_end), (1, 2));
    field.on_mouse_down(true, Some(0));
    assert_eq!((field.selection_start, field.selection_end, field.reversed), (0, 1, true));
    assert_eq!(input("").index_at(Some(9)), 0);
}

#[test]
fn shown_source_end_and_ellipsis() {
    let field = input("abcdef");
    assert_eq!(field.shown_source_end(false, true, 3), 3);
    assert_eq!(field.shown_source_end(true, true, 3), 6);
    assert_eq!(field.shown_source_end(false, false, 3), 6);
    assert_eq!(field.shown_source_end(false, true, 9), 6);
    let clip = input("abcdef").with_overflow(SingleLineOverflow::Clip);
    assert_eq!(clip.shown_source_end(false, true, 3), 6);
    assert_eq!(ellipsis_display("ab藏d", 5), "ab藏…");
    assert_eq!(ellipsis_display("abc", 0), "…");
}

#[test]
fn set_value_moves_the_cursor_to_the_end() {
    let mut field = input("abc");
    field.move_to(1);
    field.set_value("xyzw".to_string());
    assert_eq!(field.value(), "xyzw");
    assert_eq!(field.cursor(), 4);
    assert!(field.cursor_visibility_requested());
}
