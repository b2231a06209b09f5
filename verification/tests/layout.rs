use velotype::layout::{
    active_overlay, callout_parts, callout_row_top_gap, footnote_row_top_gap, group_rows,
    group_top_gap, is_wide_menu_char, menu_char_width, menu_label_widths, rendered_row_top_gap,
    view_mode_toggle_label, CalloutPart, CalloutVariant, InfoDialogKind, MenuCharWidth, Overlay,
    PendingScroll, RenderedRowSpacingInfo, RowGap, RowGroup, ScrollFollowUp, ToggleLabel,
    ViewMode,
};

fn new_anchor() -> u128 {
    uuid::Uuid::new_v4().as_u128()
}

fn quote(anchor: Option<u128>) -> RenderedRowSpacingInfo {
    RenderedRowSpacingInfo { quote_group_anchor: anchor, ..RenderedRowSpacingInfo::default() }
}

#[test]
fn contiguous_quote_rows_collapse_inter_row_gap() {
    let group = new_anchor();
    let gap = rendered_row_top_gap(Some(quote(Some(group))), quote(Some(group)));
    assert_eq!(gap, RowGap::Zero);
}

#[test]
fn nested_quote_separator_row_keeps_outer_group_gap_collapsed() {
    let group = new_anchor();
    let gap = rendered_row_top_gap(Some(quote(Some(group))), quote(Some(group)));
    assert_eq!(gap, RowGap::Zero);
}

#[test]
fn distinct_quote_groups_keep_default_gap() {
    let gap = rendered_row_top_gap(Some(quote(Some(new_anchor()))), quote(Some(new_anchor())));
    assert_eq!(gap, RowGap::Block);
}

#[test]
fn non_quote_rows_keep_default_gap() {
    let gap = rendered_row_top_gap(Some(quote(None)), quote(Some(new_anchor())));
    assert_eq!(gap, RowGap::Block);
}

#[test]
fn callout_inner_spacing_uses_header_and_body_tokens() {
    let header_gap = callout_row_top_gap(
        Some(RenderedRowSpacingInfo { is_callout_header: true, ..RenderedRowSpacingInfo::default() }),
        RenderedRowSpacingInfo::default(),
    );
    let body_gap = callout_row_top_gap(
        Some(RenderedRowSpacingInfo { is_callout_header: false, ..RenderedRowSpacingInfo::default() }),
        RenderedRowSpacingInfo::default(),
    );

    assert_eq!(header_gap, RowGap::CalloutHeader);
    assert_eq!(body_gap, RowGap::CalloutBody);
}

#[test]
fn nested_quote_rows_inside_callout_collapse_body_gap() {
    let group = new_anchor();
    let gap = callout_row_top_gap(
        Some(RenderedRowSpacingInfo {
            is_callout_header: false,
            visible_quote_group_anchor: Some(group),
            ..RenderedRowSpacingInfo::default()
        }),
        RenderedRowSpacingInfo {
            visible_quote_group_anchor: Some(group),
            ..RenderedRowSpacingInfo::default()
        },
    );

    assert_eq!(gap, RowGap::Zero);
}

#[test]
fn first_rows_have_no_gap_and_footnote_headers_reduce_it() {
    assert_eq!(rendered_row_top_gap(None, quote(Some(1))), RowGap::Zero);
    assert_eq!(callout_row_top_gap(None, RenderedRowSpacingInfo::default()), RowGap::Zero);
    assert_eq!(footnote_row_top_gap(None), RowGap::Zero);
    let header =
        RenderedRowSpacingInfo { is_footnote_header: true, ..RenderedRowSpacingInfo::default() };
    assert_eq!(footnote_row_top_gap(Some(header)), RowGap::ReducedBlock);
    assert_eq!(footnote_row_top_gap(Some(RenderedRowSpacingInfo::default())), RowGap::Block);
}

fn callout(anchor: u128, variant: Option<CalloutVariant>, footnote: Option<u128>) -> RenderedRowSpacingInfo {
    RenderedRowSpacingInfo {
        callout_anchor: Some(anchor),
        callout_variant: variant,
        footnote_anchor: footnote,
        ..RenderedRowSpacingInfo::default()
    }
}

fn footnote(anchor: u128) -> RenderedRowSpacingInfo {
    RenderedRowSpacingInfo { footnote_anchor: Some(anchor), ..RenderedRowSpacingInfo::default() }
}

#[test]
fn rows_group_into_callouts_footnotes_and_single_rows() {
    let rows = vec![
        RenderedRowSpacingInfo::default(),
        callout(7, Some(CalloutVariant::Tip), None),
        callout(7, None, Some(3)),
        callout(7, None, Some(3)),
        callout(7, None, None),
        footnote(9),
        footnote(9),
        callout(8, None, None),
        RenderedRowSpacingInfo::default(),
    ];
    let groups = group_rows(&rows);
    assert_eq!(
        groups,
        vec![
            RowGroup::Single { index: 0 },
            RowGroup::Callout { start: 1, end: 5, variant: CalloutVariant::Tip },
            RowGroup::Footnote { start: 5, end: 7 },
            RowGroup::Single { index: 7 },
            RowGroup::Single { index: 8 },
        ]
    );
    assert_eq!(
        callout_parts(&rows, 1, 5),
        vec![
            CalloutPart::Row { index: 1 },
            CalloutPart::Footnote { start: 2, end: 4 },
            CalloutPart::Row { index: 4 },
        ]
    );
    assert!(group_rows(&Vec::new()).is_empty());
    assert_eq!(group_top_gap(&rows, 0), RowGap::Zero);
    assert_eq!(group_top_gap(&rows, 1), RowGap::Block);
}

#[test]
fn footnote_inside_a_callout_ends_with_the_callout() {
    let rows = vec![
        callout(1, Some(CalloutVariant::Note), Some(5)),
        callout(1, None, Some(5)),
        footnote(5),
    ];
    assert_eq!(
        group_rows(&rows),
        vec![
            RowGroup::Callout { start: 0, end: 2, variant: CalloutVariant::Note },
            RowGroup::Footnote { start: 2, end: 3 },
        ]
    );
    assert_eq!(callout_parts(&rows, 0, 2), vec![CalloutPart::Footnote { start: 0, end: 2 }]);
}

#[test]
fn menu_characters_are_classified_by_width() {
    assert!(is_wide_menu_char('文'));
    assert!(is_wide_menu_char('한'));
    assert!(is_wide_menu_char('Ａ'));
    assert!(!is_wide_menu_char('é'));
    assert_eq!(menu_char_width(' '), MenuCharWidth::Space);
    assert_eq!(menu_char_width('\u{b}'), MenuCharWidth::Ascii);
    assert_eq!(menu_char_width('&'), MenuCharWidth::Punctuation);
    assert_eq!(menu_char_width('~'), MenuCharWidth::Punctuation);
    assert_eq!(menu_char_width('L'), MenuCharWidth::Ascii);
    assert_eq!(menu_char_width('文'), MenuCharWidth::Wide);
    assert_eq!(menu_char_width('é'), MenuCharWidth::Other);
    assert_eq!(
        menu_label_widths("A 文"),
        vec![MenuCharWidth::Ascii, MenuCharWidth::Space, MenuCharWidth::Wide]
    );
}

#[test]
fn view_mode_button_names_the_other_mode() {
    assert_eq!(view_mode_toggle_label(ViewMode::Rendered, false), ToggleLabel::Source);
    assert_eq!(view_mode_toggle_label(ViewMode::Rendered, true), ToggleLabel::SwitchToSource);
    assert_eq!(view_mode_toggle_label(ViewMode::Source, false), ToggleLabel::Rendered);
    assert_eq!(view_mode_toggle_label(ViewMode::Source, true), ToggleLabel::SwitchToRendered);
}

#[test]
fn at_most_one_overlay_in_priority_order() {
    assert_eq!(
        active_overlay(Some(InfoDialogKind::About), true, true),
        Some(Overlay::Info(InfoDialogKind::About))
    );
    assert_eq!(active_overlay(None, true, true), Some(Overlay::DropReplace));
    assert_eq!(active_overlay(None, false, true), Some(Overlay::UnsavedChanges));
    assert_eq!(active_overlay(None, false, false), None);
}

#[test]
fn scroll_request_waits_for_caret_bounds() {
    let mut pending = PendingScroll { active: true, recheck_after_layout: true };
    assert!(pending.should_run(false));
    assert!(!pending.should_run(true));
    assert_eq!(pending.after_caret_check(true), ScrollFollowUp::NotifyAgain);
    assert_eq!(pending, PendingScroll { active: true, recheck_after_layout: false });
    assert_eq!(pending.after_caret_check(false), ScrollFollowUp::NotifyAgain);
    assert!(pending.active);
    assert_eq!(pending.after_caret_check(true), ScrollFollowUp::Done);
    assert!(!pending.active);
    assert!(!pending.should_run(false));
}
