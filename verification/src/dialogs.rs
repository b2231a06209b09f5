//! The information dialogs of the editor: their titles and bodies.
use vstd::prelude::*;

use crate::layout::InfoDialogKind;
use crate::text::{push_text, string_push};

verus! {

/// The project's home page, shown in the About dialog.
pub const ABOUT_GITHUB_URL: &'static str = "https://github.com/manyougz/velotype";

/// The lines of the About dialog: the name with the version, the message,
/// the labelled home page, and the closing message.
pub open spec fn about_lines(
    version: Seq<char>,
    message: Seq<char>,
    github_label: Seq<char>,
    star_message: Seq<char>,
) -> Seq<Seq<char>> {
    seq!["Velotype "@ + version, message, github_label + ": "@ + ABOUT_GITHUB_URL@, star_message]
}

/// The lines of the About dialog.
pub fn about_dialog_body_lines(
    version: &str,
    message: &str,
    github_label: &str,
    star_message: &str,
) -> (res: Vec<String>)
    ensures
        res.len() == 4,
        forall|i: int| 0 <= i < 4 ==> #[trigger] res@[i]@ == about_lines(
            version@,
            message@,
            github_label@,
            star_message@,
        )[i],
{
    let mut first = String::new();
    push_text(&mut first, "Velotype ");
    push_text(&mut first, version);
    let mut second = String::new();
    push_text(&mut second, message);
    let mut third = String::new();
    push_text(&mut third, github_label);
    push_text(&mut third, ": ");
    push_text(&mut third, ABOUT_GITHUB_URL);
    let mut fourth = String::new();
    push_text(&mut fourth, star_message);
    let mut lines: Vec<String> = Vec::new();
    lines.push(first);
    lines.push(second);
    lines.push(third);
    lines.push(fourth);
    proof {
        assert(Seq::<char>::empty() + "Velotype "@ + version@ =~= "Velotype "@ + version@);
        assert(Seq::<char>::empty() + message@ =~= message@);
        assert(Seq::<char>::empty() + github_label@ + ": "@ + ABOUT_GITHUB_URL@ =~= github_label@
            + ": "@ + ABOUT_GITHUB_URL@);
        assert(Seq::<char>::empty() + star_message@ =~= star_message@);
    }
    lines
}

/// The lines joined with line breaks between them.
pub open spec fn join_lines(lines: Seq<Seq<char>>) -> Seq<char>
    decreases lines.len(),
{
    if lines.len() == 0 {
        Seq::empty()
    } else if lines.len() == 1 {
        lines[0]
    } else {
        join_lines(lines.drop_last()) + seq!['\n'] + lines.last()
    }
}

/// The lines joined with line breaks between them.
pub fn join_with_line_breaks(lines: &Vec<String>) -> (res: String)
    ensures
        res@ == join_lines(lines@.map_values(|l: String| l@)),
{
    let ghost views = lines@.map_values(|l: String| l@);
    let mut out = String::new();
    let mut i: usize = 0;
    while i < lines.len()
        invariant
            i <= lines.len(),
            views == lines@.map_values(|l: String| l@),
            out@ == join_lines(views.take(i as int)),
        decreases lines.len() - i,
    {
        let ghost before = out@;
        if i > 0 {
            string_push(&mut out, '\n');
        }
        push_text(&mut out, lines[i].as_str());
        proof {
            let t = views.take(i as int + 1);
            assert(t.drop_last() =~= views.take(i as int));
            assert(t.last() == lines@[i as int]@);
            if i == 0 {
                assert(before =~= Seq::<char>::empty());
                assert(out@ =~= lines@[0]@);
            }
        }
        i += 1;
    }
    assert(views.take(lines.len() as int) =~= views);
    out
}

/// The title of an information dialog.
pub fn info_dialog_title<'a>(
    kind: InfoDialogKind,
    check_updates_title: &'a str,
    about_title: &'a str,
) -> (res: &'a str)
    ensures
        res@ == match kind {
            InfoDialogKind::CheckForUpdates => check_updates_title@,
            InfoDialogKind::About => about_title@,
        },
{
    match kind {
        InfoDialogKind::CheckForUpdates => check_updates_title,
        InfoDialogKind::About => about_title,
    }
}

/// The body of an information dialog: the update message, or the lines of
/// the About dialog joined with line breaks.
pub fn info_dialog_body(
    kind: InfoDialogKind,
    check_updates_message: &str,
    about_lines: &Vec<String>,
) -> (res: String)
    ensures
        res@ == match kind {
            InfoDialogKind::CheckForUpdates => check_updates_message@,
            InfoDialogKind::About => join_lines(about_lines@.map_values(|l: String| l@)),
        },
{
    match kind {
        InfoDialogKind::CheckForUpdates => check_updates_message.to_owned(),
        InfoDialogKind::About => join_with_line_breaks(about_lines),
    }
}

} // verus!
