//! The single-line text input used by settings forms: its text, selection
//! and composition (IME) range, and how keys, the mouse and the platform's
//! text input change them. Offsets are UTF-8 byte offsets into the text;
//! the platform speaks in UTF-16 offsets, which are converted.
use vstd::prelude::*;

use crate::graphemes::{
    clamp_source_index, floor_boundary, is_start_after, is_start_before, lemma_floor_boundary,
    next_grapheme_start, previous_grapheme_start, spec_grapheme_starts,
};
use crate::text::{chars_of, string_of, string_push, text_equals};
use crate::utf::{
    byte_len, byte_offset, bytes_before, char_index_at, char_index_of, is_boundary,
    lemma_boundary_index, lemma_offset_ends, lemma_offset_mono,
    lemma_offset_step, lemma_utf8_len_concat, utf16_at_byte, utf16_to_utf8_in, utf16_width,
    utf8_len, utf8_to_utf16_in, utf8_width,
};

verus! {

/// How an unfocused input shows text wider than the field. A focused input
/// always clips and follows the cursor.
#[derive(Clone, Copy, Debug, PartialEq, Eq, Structural)]
pub enum SingleLineOverflow {
    Ellipsis,
    Clip,
    Fade,
}

impl Default for SingleLineOverflow {
    fn default() -> (res: Self)
        ensures
            res == SingleLineOverflow::Ellipsis,
    {
        SingleLineOverflow::Ellipsis
    }
}

/// `t` with each line break (`\r` or `\n`) replaced by a space: the input
/// holds a single line.
pub open spec fn flatten_newlines(t: Seq<char>) -> Seq<char> {
    t.map_values(|c: char| if c == '\r' || c == '\n' { ' ' } else { c })
}

/// `t` with each line break replaced by a space.
pub fn replace_line_breaks(text: &str) -> (res: String)
    ensures
        res@ == flatten_newlines(text@),
{
    let chars = chars_of(text);
    let mut out = String::new();
    let mut i: usize = 0;
    while i < chars.len()
        invariant
            chars@ == text@,
            i <= chars.len(),
            out@ == flatten_newlines(text@.take(i as int)),
        decreases chars.len() - i,
    {
        let c = chars[i];
        if c == '\r' || c == '\n' {
            string_push(&mut out, ' ');
        } else {
            string_push(&mut out, c);
        }
        i += 1;
        assert(out@ =~= flatten_newlines(text@.take(i as int)));
    }
    assert(text@.take(chars.len() as int) =~= text@);
    out
}

/// Replacing line breaks keeps every width, and doing it twice is doing it
/// once.
pub proof fn lemma_flatten(t: Seq<char>)
    ensures
        flatten_newlines(t).len() == t.len(),
        utf8_len(flatten_newlines(t)) == utf8_len(t),
        forall|o: int| #[trigger] bytes_before(flatten_newlines(t), o) == bytes_before(t, o),
        forall|k: int|
            0 <= k <= t.len() ==> #[trigger] byte_offset(flatten_newlines(t), k) == byte_offset(
                t,
                k,
            ),
        flatten_newlines(flatten_newlines(t)) == flatten_newlines(t),
    decreases t.len(),
{
    let f = flatten_newlines(t);
    assert(flatten_newlines(f) =~= f);
    if t.len() > 0 {
        lemma_flatten(t.drop_first());
        assert(f.drop_first() =~= flatten_newlines(t.drop_first()));
        assert(utf8_width(f[0]) == utf8_width(t[0]) && utf16_width(f[0]) == utf16_width(t[0]));
        assert forall|o: int| #[trigger] bytes_before(f, o) == bytes_before(t, o) by {
            let o2 = o - utf16_width(t[0]);
            assert(bytes_before(f.drop_first(), o2) == bytes_before(t.drop_first(), o2));
        }
        assert forall|k: int| 0 <= k <= t.len() implies #[trigger] byte_offset(f, k)
            == byte_offset(t, k) by {
            assert(f.take(k) =~= flatten_newlines(t.take(k)));
            lemma_flatten_len(t.take(k));
        }
    }
}

proof fn lemma_flatten_len(t: Seq<char>)
    ensures
        utf8_len(flatten_newlines(t)) == utf8_len(t),
    decreases t.len(),
{
    if t.len() > 0 {
        let f = flatten_newlines(t);
        assert(f.drop_first() =~= flatten_newlines(t.drop_first()));
        lemma_flatten_len(t.drop_first());
    }
}

/// Offsets in the middle part of `a + b + c`.
proof fn lemma_offset_concat(a: Seq<char>, b: Seq<char>, c: Seq<char>, k: int)
    requires
        0 <= k <= b.len(),
    ensures
        byte_offset(a + b + c, a.len() + k) == utf8_len(a) + byte_offset(b, k),
        is_boundary(a + b + c, utf8_len(a) + byte_offset(b, k)),
{
    let s = a + b + c;
    assert(s.take(a.len() + k) =~= a + b.take(k));
    lemma_utf8_len_concat(a, b.take(k));
    lemma_boundary_index(s, a.len() + k);
}

/// A boundary of `s` names a character index no larger than the text.
proof fn lemma_boundary_facts(s: Seq<char>, b: int)
    requires
        is_boundary(s, b),
    ensures
        0 <= char_index_at(s, b) <= s.len(),
        byte_offset(s, char_index_at(s, b)) == b,
        0 <= b <= utf8_len(s),
{
    lemma_offset_ends(s);
    let k = char_index_at(s, b);
    lemma_offset_mono(s, 0, k);
    lemma_offset_mono(s, k, s.len() as int);
}

/// A UTF-16 offset always maps to a byte boundary.
pub proof fn lemma_bytes_before_boundary(s: Seq<char>, off: int)
    ensures
        is_boundary(s, bytes_before(s, off)),
    decreases s.len(),
{
    lemma_offset_ends(s);
    if s.len() == 0 || off <= 0 {
        lemma_boundary_index(s, 0);
    } else {
        let t = s.drop_first();
        lemma_bytes_before_boundary(t, off - utf16_width(s[0]));
        let b = bytes_before(t, off - utf16_width(s[0]));
        let k = char_index_at(t, b);
        lemma_boundary_facts(t, b);
        assert(s.take(k + 1).drop_first() =~= t.take(k));
        assert(s.take(k + 1)[0] == s[0]);
        assert(byte_offset(s, k + 1) == utf8_width(s[0]) + byte_offset(t, k));
        lemma_boundary_index(s, k + 1);
    }
}

/// `s` with the bytes `a..b` replaced by `t` (its line breaks made spaces).
pub open spec fn spliced(s: Seq<char>, a: int, b: int, t: Seq<char>) -> Seq<char> {
    s.subrange(0, char_index_at(s, a)) + flatten_newlines(t) + s.subrange(
        char_index_at(s, b),
        s.len() as int,
    )
}

/// Which cursor position a selection has: its start when it was made
/// backwards, its end otherwise.
pub open spec fn cursor_of(start: int, end: int, reversed: bool) -> int {
    if reversed {
        start
    } else {
        end
    }
}

/// The selection after extending it to `offset`: the cursor end moves, and
/// the ends swap (turning the direction) when they cross.
pub open spec fn selected_to(start: int, end: int, reversed: bool, offset: int) -> (int, int, bool) {
    let (s, e) = if reversed {
        (offset, end)
    } else {
        (start, offset)
    };
    if e < s {
        (e, s, !reversed)
    } else {
        (s, e, reversed)
    }
}

/// Extending a selection moves its cursor to the offset, keeps its other
/// end, and leaves it ordered.
pub proof fn law_select_to_moves_cursor(start: int, end: int, reversed: bool, offset: int)
    requires
        start <= end,
    ensures
        ({
            let (s, e, r) = selected_to(start, end, reversed, offset);
            &&& s <= e
            &&& cursor_of(s, e, r) == offset
            &&& cursor_of(e, s, r) == cursor_of(end, start, reversed)
        }),
{
}

/// A key command of the input.
#[derive(Clone, Copy, Debug, PartialEq, Eq, Structural)]
pub enum KeyCommand {
    SelectAll,
    Copy,
    Cut,
    Paste,
    SelectLeft,
    SelectRight,
    Left,
    Right,
    SelectHome,
    SelectEnd,
    Home,
    End,
    Backspace,
    Delete,
    Enter,
}

impl KeyCommand {
    /// Whether the command reads the clipboard.
    pub fn needs_clipboard(self) -> (res: bool)
        ensures
            res == (self == KeyCommand::Paste),
    {
        match self {
            KeyCommand::Paste => true,
            _ => false,
        }
    }
}

/// The command bound to a key press: with the platform modifier, `a`, `c`,
/// `x` and `v` select all, copy, cut and paste; the arrows, `home` and
/// `end` move the cursor, or extend the selection with shift;
/// `backspace`, `delete` and `enter` edit. Other keys are not the input's.
pub open spec fn key_command_spec(command: bool, shift: bool, key: Seq<char>) -> Option<KeyCommand> {
    if command && key == "a"@ {
        Some(KeyCommand::SelectAll)
    } else if command && key == "c"@ {
        Some(KeyCommand::Copy)
    } else if command && key == "x"@ {
        Some(KeyCommand::Cut)
    } else if command && key == "v"@ {
        Some(KeyCommand::Paste)
    } else if shift && key == "left"@ {
        Some(KeyCommand::SelectLeft)
    } else if shift && key == "right"@ {
        Some(KeyCommand::SelectRight)
    } else if key == "left"@ {
        Some(KeyCommand::Left)
    } else if key == "right"@ {
        Some(KeyCommand::Right)
    } else if shift && key == "home"@ {
        Some(KeyCommand::SelectHome)
    } else if shift && key == "end"@ {
        Some(KeyCommand::SelectEnd)
    } else if key == "home"@ {
        Some(KeyCommand::Home)
    } else if key == "end"@ {
        Some(KeyCommand::End)
    } else if key == "backspace"@ {
        Some(KeyCommand::Backspace)
    } else if key == "delete"@ {
        Some(KeyCommand::Delete)
    } else if key == "enter"@ {
        Some(KeyCommand::Enter)
    } else {
        None
    }
}

/// The command bound to a key press, if the input handles it.
pub fn key_command(command: bool, shift: bool, key: &str) -> (res: Option<KeyCommand>)
    ensures
        res == key_command_spec(command, shift, key@),
{
    if command && text_equals(key, "a") {
        Some(KeyCommand::SelectAll)
    } else if command && text_equals(key, "c") {
        Some(KeyCommand::Copy)
    } else if command && text_equals(key, "x") {
        Some(KeyCommand::Cut)
    } else if command && text_equals(key, "v") {
        Some(KeyCommand::Paste)
    } else if shift && text_equals(key, "left") {
        Some(KeyCommand::SelectLeft)
    } else if shift && text_equals(key, "right") {
        Some(KeyCommand::SelectRight)
    } else if text_equals(key, "left") {
        Some(KeyCommand::Left)
    } else if text_equals(key, "right") {
        Some(KeyCommand::Right)
    } else if shift && text_equals(key, "home") {
        Some(KeyCommand::SelectHome)
    } else if shift && text_equals(key, "end") {
        Some(KeyCommand::SelectEnd)
    } else if text_equals(key, "home") {
        Some(KeyCommand::Home)
    } else if text_equals(key, "end") {
        Some(KeyCommand::End)
    } else if text_equals(key, "backspace") {
        Some(KeyCommand::Backspace)
    } else if text_equals(key, "delete") {
        Some(KeyCommand::Delete)
    } else if text_equals(key, "enter") {
        Some(KeyCommand::Enter)
    } else {
        None
    }
}

/// What a key command did besides changing the input: the text it put on
/// the clipboard, and whether it edited the text.
#[derive(Debug)]
pub struct CommandEffect {
    pub copied: Option<String>,
    pub edited: bool,
}

/// The state of a single-line input.
#[derive(Debug)]
pub struct SingleLineInput {
    pub content: String,
    pub placeholder: String,
    pub selection_start: usize,
    pub selection_end: usize,
    pub reversed: bool,
    pub marked: Option<(usize, usize)>,
    pub last_source_end: usize,
    pub is_selecting: bool,
    pub overflow: SingleLineOverflow,
    pub ensure_cursor_visible: bool,
}

/// Both ends of the optional range are boundaries of `s`.
pub open spec fn range_on_boundaries(s: Seq<char>, r: Option<(usize, usize)>) -> bool {
    match r {
        Some((a, b)) => is_boundary(s, a as int) && is_boundary(s, b as int),
        None => true,
    }
}

/// The input after `b` differs from `a` only in its selection.
pub open spec fn same_text(a: SingleLineInput, b: SingleLineInput) -> bool {
    &&& b.content@ == a.content@
    &&& b.placeholder@ == a.placeholder@
    &&& b.marked == a.marked
    &&& b.last_source_end == a.last_source_end
    &&& b.is_selecting == a.is_selecting
    &&& b.overflow == a.overflow
}

/// `b` is `a` with the cursor moved to `offset` and nothing selected.
pub open spec fn moved_to(a: SingleLineInput, b: SingleLineInput, offset: int) -> bool {
    &&& same_text(a, b)
    &&& b.selection_start == offset
    &&& b.selection_end == offset
    &&& !b.reversed
    &&& b.ensure_cursor_visible
}

/// `b` is `a` with its selection extended to `offset`.
pub open spec fn extended_to(a: SingleLineInput, b: SingleLineInput, offset: int) -> bool {
    &&& same_text(a, b)
    &&& (b.selection_start as int, b.selection_end as int, b.reversed) == selected_to(
        a.selection_start as int,
        a.selection_end as int,
        a.reversed,
        offset,
    )
    &&& b.ensure_cursor_visible
}

/// `b` is `a` with the bytes `ra..rb` replaced by `t`: the cursor after the
/// inserted text, no composition range.
pub open spec fn replaced(a: SingleLineInput, b: SingleLineInput, ra: int, rb: int, t: Seq<char>) -> bool {
    &&& b.content@ == spliced(a.content@, ra, rb, t)
    &&& b.selection_start == ra + utf8_len(t)
    &&& b.selection_end == ra + utf8_len(t)
    &&& b.marked is None
    &&& !b.reversed
    &&& b.ensure_cursor_visible
    &&& b.placeholder@ == a.placeholder@
    &&& b.last_source_end == a.last_source_end
    &&& b.is_selecting == a.is_selecting
    &&& b.overflow == a.overflow
}

impl SingleLineInput {
    /// The selection and composition range lie on character boundaries.
    pub open spec fn wf(&self) -> bool {
        &&& is_boundary(self.content@, self.selection_start as int)
        &&& is_boundary(self.content@, self.selection_end as int)
        &&& range_on_boundaries(self.content@, self.marked)
    }

    /// The cursor offset.
    pub open spec fn cursor_spec(&self) -> int {
        cursor_of(self.selection_start as int, self.selection_end as int, self.reversed)
    }

    /// The byte range that an edit of `range` (UTF-16) replaces: `range`
    /// itself, else the composition range, else the selection.
    pub open spec fn edit_range(&self, range: Option<(usize, usize)>) -> (int, int) {
        match range {
            Some((a, b)) => (
                bytes_before(self.content@, a as int),
                bytes_before(self.content@, b as int),
            ),
            None => match self.marked {
                Some((a, b)) => (a as int, b as int),
                None => (self.selection_start as int, self.selection_end as int),
            },
        }
    }

    /// The selected text, when the selection is not empty.
    pub open spec fn copy_spec(&self) -> Option<Seq<char>> {
        if self.selection_start < self.selection_end {
            Some(
                self.content@.subrange(
                    char_index_at(self.content@, self.selection_start as int),
                    char_index_at(self.content@, self.selection_end as int),
                ),
            )
        } else {
            None
        }
    }

    /// A new input holding `value`, with the cursor at its end.
    pub fn new(value: String, placeholder: String) -> (res: Self)
        ensures
            res.wf(),
            res.content@ == value@,
            res.placeholder@ == placeholder@,
            res.selection_start == utf8_len(value@),
            res.selection_end == utf8_len(value@),
            !res.reversed,
            res.marked is None,
            res.last_source_end == utf8_len(value@),
            !res.is_selecting,
            res.overflow == SingleLineOverflow::Ellipsis,
            res.ensure_cursor_visible,
    {
        let end = byte_len(value.as_str());
        proof {
            lemma_offset_ends(value@);
            lemma_boundary_index(value@, value@.len() as int);
        }
        SingleLineInput {
            content: value,
            placeholder,
            selection_start: end,
            selection_end: end,
            reversed: false,
            marked: None,
            last_source_end: end,
            is_selecting: false,
            overflow: SingleLineOverflow::Ellipsis,
            ensure_cursor_visible: true,
        }
    }

    /// The same input, showing overflow as `overflow`.
    pub fn with_overflow(self, overflow: SingleLineOverflow) -> (res: Self)
        ensures
            res.overflow == overflow,
            res.content == self.content,
            res.placeholder == self.placeholder,
            res.selection_start == self.selection_start,
            res.selection_end == self.selection_end,
            res.reversed == self.reversed,
            res.marked == self.marked,
            res.last_source_end == self.last_source_end,
            res.is_selecting == self.is_selecting,
            res.ensure_cursor_visible == self.ensure_cursor_visible,
    {
        let mut s = self;
        s.overflow = overflow;
        s
    }

    /// The text.
    pub fn value(&self) -> (res: &str)
        ensures
            res@ == self.content@,
    {
        self.content.as_str()
    }

    /// Replaces the text; the cursor goes to its end.
    pub fn set_value(&mut self, value: String)
        ensures
            final(self).wf(),
            final(self).content@ == value@,
            final(self).selection_start == utf8_len(value@),
            final(self).selection_end == utf8_len(value@),
            final(self).marked is None,
            final(self).ensure_cursor_visible,
            final(self).reversed == old(self).reversed,
            final(self).placeholder == old(self).placeholder,
            final(self).last_source_end == old(self).last_source_end,
            final(self).is_selecting == old(self).is_selecting,
            final(self).overflow == old(self).overflow,
    {
        let end = byte_len(value.as_str());
        proof {
            lemma_offset_ends(value@);
            lemma_boundary_index(value@, value@.len() as int);
        }
        self.content = value;
        self.selection_start = end;
        self.selection_end = end;
        self.marked = None;
        self.ensure_cursor_visible = true;
    }

    /// The cursor offset: the selection's start when it was made backwards,
    /// its end otherwise.
    pub fn cursor(&self) -> (res: usize)
        ensures
            res == self.cursor_spec(),
    {
        if self.reversed {
            self.selection_start
        } else {
            self.selection_end
        }
    }

    /// The start of the grapheme before `offset` (0 when there is none).
    pub fn previous(&self, offset: usize) -> (res: usize)
        ensures
            is_start_before(spec_grapheme_starts(self.content@), offset as int, res as int),
            is_boundary(self.content@, res as int),
    {
        previous_grapheme_start(self.content.as_str(), offset)
    }

    /// The start of the grapheme after `offset` (the end of the text when
    /// there is none).
    pub fn next(&self, offset: usize) -> (res: usize)
        ensures
            is_start_after(
                spec_grapheme_starts(self.content@),
                offset as int,
                utf8_len(self.content@),
                res as int,
            ),
            is_boundary(self.content@, res as int),
    {
        next_grapheme_start(self.content.as_str(), offset)
    }

    /// Puts the cursor at `offset`, selecting nothing.
    pub fn move_to(&mut self, offset: usize)
        requires
            old(self).wf(),
            is_boundary(old(self).content@, offset as int),
        ensures
            final(self).wf(),
            moved_to(*old(self), *final(self), offset as int),
    {
        self.selection_start = offset;
        self.selection_end = offset;
        self.reversed = false;
        self.ensure_cursor_visible = true;
    }

    /// Extends the selection to `offset`.
    pub fn select_to(&mut self, offset: usize)
        requires
            old(self).wf(),
            is_boundary(old(self).content@, offset as int),
        ensures
            final(self).wf(),
            extended_to(*old(self), *final(self), offset as int),
    {
        if self.reversed {
            self.selection_start = offset;
        } else {
            self.selection_end = offset;
        }
        if self.selection_end < self.selection_start {
            self.reversed = !self.reversed;
            let start = self.selection_start;
            self.selection_start = self.selection_end;
            self.selection_end = start;
        }
        self.ensure_cursor_visible = true;
    }

    /// The text offset under a point, given the display index that the laid
    /// out line found there (`None` when there is no layout yet): clamped to
    /// what is shown and to a character boundary.
    pub fn index_at(&self, display_index: Option<usize>) -> (res: usize)
        ensures
            is_boundary(self.content@, res as int),
            res == floor_boundary(
                self.content@,
                vstd::math::min(
                    vstd::math::min(
                        if self.content@.len() == 0 {
                            0
                        } else {
                            match display_index {
                                Some(i) => i as int,
                                None => 0,
                            }
                        },
                        self.last_source_end as int,
                    ),
                    utf8_len(self.content@),
                ),
            ),
    {
        let index = if self.content.as_str().is_empty() {
            0
        } else {
            match display_index {
                Some(i) => i,
                None => 0,
            }
        };
        let index = clamp_source_index(self.content.as_str(), index, self.last_source_end);
        proof {
            let s = self.content@;
            lemma_offset_ends(s);
            let m = vstd::math::min(
                vstd::math::min(
                    if s.len() == 0 {
                        0
                    } else {
                        match display_index {
                            Some(i) => i as int,
                            None => 0,
                        }
                    },
                    self.last_source_end as int,
                ),
                utf8_len(s),
            );
            lemma_offset_mono(s, 0, s.len() as int);
            lemma_floor_boundary(s, m);
        }
        if is_char_boundary_in(self.content.as_str(), index) {
            index
        } else {
            self.previous(index)
        }
    }

    /// A press of the primary button at `display_index`: extends the
    /// selection with shift, moves the cursor otherwise, and starts a drag.
    pub fn on_mouse_down(&mut self, shift: bool, display_index: Option<usize>)
        requires
            old(self).wf(),
        ensures
            final(self).wf(),
            final(self).is_selecting,
            final(self).content@ == old(self).content@,
            final(self).marked == old(self).marked,
            final(self).ensure_cursor_visible,
            shift ==> (
                final(self).selection_start as int,
                final(self).selection_end as int,
                final(self).reversed,
            ) == selected_to(
                old(self).selection_start as int,
                old(self).selection_end as int,
                old(self).reversed,
                old(self).index_at_spec(display_index),
            ),
            !shift ==> final(self).selection_start == old(self).index_at_spec(display_index)
                && final(self).selection_end == old(self).index_at_spec(display_index)
                && !final(self).reversed,
    {
        self.is_selecting = true;
        let index = self.index_at(display_index);
        if shift {
            self.select_to(index);
        } else {
            self.move_to(index);
        }
    }

    /// A drag over `display_index` extends the selection.
    pub fn on_mouse_move(&mut self, display_index: Option<usize>)
        requires
            old(self).wf(),
        ensures
            final(self).wf(),
            !old(self).is_selecting ==> *final(self) == *old(self),
            old(self).is_selecting ==> extended_to(
                *old(self),
                *final(self),
                old(self).index_at_spec(display_index),
            ),
    {
        if self.is_selecting {
            let index = self.index_at(display_index);
            self.select_to(index);
        }
    }

    /// The offset [`SingleLineInput::index_at`] finds.
    pub open spec fn index_at_spec(&self, display_index: Option<usize>) -> int {
        floor_boundary(
            self.content@,
            vstd::math::min(
                vstd::math::min(
                    if self.content@.len() == 0 {
                        0
                    } else {
                        match display_index {
                            Some(i) => i as int,
                            None => 0,
                        }
                    },
                    self.last_source_end as int,
                ),
                utf8_len(self.content@),
            ),
        )
    }

    /// The UTF-16 offset of the text under a point, given the display index
    /// that the laid out line found there.
    pub fn character_index_for_display(&self, display_index: Option<usize>) -> (res: usize)
        ensures
            res == utf16_at_byte(self.content@, self.index_at_spec(display_index)),
    {
        let index = self.index_at(display_index);
        proof {
            lemma_boundary_facts(self.content@, index as int);
        }
        self.utf8_to_utf16(index)
    }

    /// Releasing the button ends the drag.
    pub fn on_mouse_up(&mut self)
        ensures
            !final(self).is_selecting,
            final(self).content == old(self).content,
            final(self).selection_start == old(self).selection_start,
            final(self).selection_end == old(self).selection_end,
            final(self).reversed == old(self).reversed,
            final(self).marked == old(self).marked,
    {
        self.is_selecting = false;
    }

    /// The selected text, when the selection is not empty.
    pub fn copy(&self) -> (res: Option<String>)
        requires
            self.wf(),
        ensures
            match res {
                Some(t) => self.copy_spec() == Some(t@),
                None => self.copy_spec() is None,
            },
    {
        if self.selection_start < self.selection_end {
            let chars = chars_of(self.content.as_str());
            let a = char_index_of(&chars, self.selection_start);
            let b = char_index_of(&chars, self.selection_end);
            proof {
                if b < a {
                    lemma_offset_mono(chars@, b as int, a as int);
                }
            }
            Some(string_of(&chars, a, b))
        } else {
            None
        }
    }

    /// The byte offset of UTF-16 offset `offset`.
    pub fn utf16_to_utf8(&self, offset: usize) -> (res: usize)
        ensures
            res == bytes_before(self.content@, offset as int),
    {
        utf16_to_utf8_in(self.content.as_str(), offset)
    }

    /// The UTF-16 offset of byte offset `offset` (taken no further than the
    /// end of the text).
    pub fn utf8_to_utf16(&self, offset: usize) -> (res: usize)
        requires
            is_boundary(
                self.content@,
                vstd::math::min(offset as int, utf8_len(self.content@)),
            ),
        ensures
            res == utf16_at_byte(
                self.content@,
                vstd::math::min(offset as int, utf8_len(self.content@)),
            ),
    {
        utf8_to_utf16_in(self.content.as_str(), offset)
    }

    /// A UTF-16 range as a byte range.
    pub fn utf16_range_to_utf8(&self, range: (usize, usize)) -> (res: (usize, usize))
        ensures
            res.0 == bytes_before(self.content@, range.0 as int),
            res.1 == bytes_before(self.content@, range.1 as int),
            is_boundary(self.content@, res.0 as int),
            is_boundary(self.content@, res.1 as int),
    {
        proof {
            lemma_bytes_before_boundary(self.content@, range.0 as int);
            lemma_bytes_before_boundary(self.content@, range.1 as int);
        }
        (self.utf16_to_utf8(range.0), self.utf16_to_utf8(range.1))
    }

    /// A byte range as a UTF-16 range.
    pub fn utf8_range_to_utf16(&self, range: (usize, usize)) -> (res: (usize, usize))
        requires
            is_boundary(self.content@, range.0 as int),
            is_boundary(self.content@, range.1 as int),
        ensures
            res.0 == utf16_at_byte(self.content@, range.0 as int),
            res.1 == utf16_at_byte(self.content@, range.1 as int),
    {
        proof {
            lemma_boundary_facts(self.content@, range.0 as int);
            lemma_boundary_facts(self.content@, range.1 as int);
        }
        (self.utf8_to_utf16(range.0), self.utf8_to_utf16(range.1))
    }

    /// The text of UTF-16 range `range`, and the UTF-16 range it really
    /// covers.
    pub fn text_for_range(&self, range: (usize, usize)) -> (res: (String, (usize, usize)))
        requires
            bytes_before(self.content@, range.0 as int) <= bytes_before(
                self.content@,
                range.1 as int,
            ),
        ensures
            ({
                let a = bytes_before(self.content@, range.0 as int);
                let b = bytes_before(self.content@, range.1 as int);
                &&& res.0@ == self.content@.subrange(
                    char_index_at(self.content@, a),
                    char_index_at(self.content@, b),
                )
                &&& res.1.0 == utf16_at_byte(self.content@, a)
                &&& res.1.1 == utf16_at_byte(self.content@, b)
            }),
    {
        let r = self.utf16_range_to_utf8(range);
        let actual = self.utf8_range_to_utf16(r);
        let chars = chars_of(self.content.as_str());
        let a = char_index_of(&chars, r.0);
        let b = char_index_of(&chars, r.1);
        proof {
            if b < a {
                lemma_offset_mono(chars@, b as int, a as int);
            }
        }
        (string_of(&chars, a, b), actual)
    }

    /// The selection as a UTF-16 range, and whether it was made backwards.
    pub fn selected_text_range(&self) -> (res: ((usize, usize), bool))
        requires
            self.wf(),
        ensures
            res.0.0 == utf16_at_byte(self.content@, self.selection_start as int),
            res.0.1 == utf16_at_byte(self.content@, self.selection_end as int),
            res.1 == self.reversed,
    {
        (self.utf8_range_to_utf16((self.selection_start, self.selection_end)), self.reversed)
    }

    /// The composition range as a UTF-16 range.
    pub fn marked_text_range(&self) -> (res: Option<(usize, usize)>)
        requires
            self.wf(),
        ensures
            match self.marked {
                Some((a, b)) => res == Some(
                    (
                        utf16_at_byte(self.content@, a as int) as usize,
                        utf16_at_byte(self.content@, b as int) as usize,
                    ),
                ),
                None => res is None,
            },
    {
        match self.marked {
            Some(r) => Some(self.utf8_range_to_utf16(r)),
            None => None,
        }
    }

    /// Ends the composition.
    pub fn unmark_text(&mut self)
        requires
            old(self).wf(),
        ensures
            final(self).wf(),
            final(self).marked is None,
            same_text_but_marked(*old(self), *final(self)),
    {
        self.marked = None;
    }

    /// Replaces the byte range `a..b` of the text with `text`, line breaks
    /// made spaces, and puts the cursor after it.
    fn splice(&mut self, a: usize, b: usize, text: &str)
        requires
            old(self).wf(),
            is_boundary(old(self).content@, a as int),
            is_boundary(old(self).content@, b as int),
        ensures
            final(self).wf(),
            replaced(*old(self), *final(self), a as int, b as int, text@),
            utf8_len(final(self).content@) <= usize::MAX,
    {
        let chars = chars_of(self.content.as_str());
        let ka = char_index_of(&chars, a);
        let kb = char_index_of(&chars, b);
        let flat = replace_line_breaks(text);
        let flat_chars = chars_of(flat.as_str());
        let mut out = string_of(&chars, 0, ka);
        let mut i: usize = 0;
        while i < flat_chars.len()
            invariant
                i <= flat_chars.len(),
                ka <= chars.len(),
                out@ == chars@.subrange(0, ka as int) + flat_chars@.take(i as int),
            decreases flat_chars.len() - i,
        {
            string_push(&mut out, flat_chars[i]);
            i += 1;
            assert(out@ =~= chars@.subrange(0, ka as int) + flat_chars@.take(i as int));
        }
        let mut j: usize = kb;
        let ghost head = out@;
        proof {
            assert(flat_chars@.take(flat_chars.len() as int) =~= flat_chars@);
        }
        while j < chars.len()
            invariant
                kb <= j <= chars.len(),
                out@ == head + chars@.subrange(kb as int, j as int),
            decreases chars.len() - j,
        {
            string_push(&mut out, chars[j]);
            j += 1;
            assert(out@ =~= head + chars@.subrange(kb as int, j as int));
        }
        let ghost s = self.content@;
        let ghost p = s.subrange(0, ka as int);
        let ghost t = flatten_newlines(text@);
        let ghost q = s.subrange(kb as int, s.len() as int);
        proof {
            assert(out@ =~= p + t + q);
            lemma_flatten(text@);
            lemma_offset_ends(t);
            lemma_offset_concat(p, t, q, t.len() as int);
            assert(p =~= s.take(ka as int));
            lemma_utf8_len_concat(p, t);
            lemma_utf8_len_concat(p + t, q);
            crate::utf::lemma_len_bounds(q);
        }
        let total = byte_len(out.as_str());
        let tlen = byte_len(text);
        assert(a + tlen <= total);
        let end = a + tlen;
        self.content = out;
        self.selection_start = end;
        self.selection_end = end;
        self.marked = None;
        self.reversed = false;
        self.ensure_cursor_visible = true;
    }

    /// Replaces UTF-16 range `range` (else the composition range, else the
    /// selection) with `text`, line breaks made spaces; the cursor goes
    /// after the new text and the composition ends.
    pub fn replace_text_in_range(&mut self, range: Option<(usize, usize)>, text: &str)
        requires
            old(self).wf(),
        ensures
            final(self).wf(),
            replaced(
                *old(self),
                *final(self),
                old(self).edit_range(range).0,
                old(self).edit_range(range).1,
                text@,
            ),
    {
        let r = match range {
            Some(r) => self.utf16_range_to_utf8(r),
            None => match self.marked {
                Some(m) => m,
                None => (self.selection_start, self.selection_end),
            },
        };
        self.splice(r.0, r.1, text);
    }

    /// Replaces like [`SingleLineInput::replace_text_in_range`] and marks
    /// the new text as being composed; `selected`, a UTF-16 range of
    /// `text`, becomes the selection.
    pub fn replace_and_mark_text_in_range(
        &mut self,
        range: Option<(usize, usize)>,
        text: &str,
        selected: Option<(usize, usize)>,
    )
        requires
            old(self).wf(),
        ensures
            final(self).wf(),
            ({
                let start = old(self).edit_range(range).0;
                let end = old(self).edit_range(range).1;
                &&& final(self).content@ == spliced(old(self).content@, start, end, text@)
                &&& final(self).marked == if text@.len() == 0 {
                    None
                } else {
                    Some((start as usize, (start + utf8_len(text@)) as usize))
                }
                &&& match selected {
                    Some((x, y)) => {
                        &&& final(self).selection_start == start + bytes_before(text@, x as int)
                        &&& final(self).selection_end == start + bytes_before(text@, y as int)
                    },
                    None => {
                        &&& final(self).selection_start == start + utf8_len(text@)
                        &&& final(self).selection_end == start + utf8_len(text@)
                    },
                }
                &&& !final(self).reversed
                &&& final(self).ensure_cursor_visible
                &&& final(self).placeholder@ == old(self).placeholder@
                &&& final(self).last_source_end == old(self).last_source_end
                &&& final(self).is_selecting == old(self).is_selecting
                &&& final(self).overflow == old(self).overflow
            }),
    {
        let r = match range {
            Some(r) => self.utf16_range_to_utf8(r),
            None => match self.marked {
                Some(m) => m,
                None => (self.selection_start, self.selection_end),
            },
        };
        let start = r.0;
        let ghost s = self.content@;
        let ghost ka = char_index_at(s, start as int);
        proof {
            lemma_boundary_facts(s, start as int);
        }
        self.splice(r.0, r.1, text);
        let ghost p = s.subrange(0, ka);
        let ghost t = flatten_newlines(text@);
        let ghost q = s.subrange(char_index_at(s, r.1 as int), s.len() as int);
        proof {
            lemma_flatten(text@);
            lemma_offset_ends(t);
            assert(p =~= s.take(ka));
            lemma_offset_concat(p, t, q, 0);
            lemma_offset_concat(p, t, q, t.len() as int);
            lemma_utf8_len_concat(p, t);
            lemma_utf8_len_concat(p + t, q);
        }
        let tlen = byte_len(text);
        proof {
            crate::utf::lemma_len_bounds(text@);
        }
        if tlen != 0 {
            self.marked = Some((start, start + tlen));
        }
        match selected {
            Some(sel) => {
                let x = utf16_to_utf8_in(text, sel.0);
                let y = utf16_to_utf8_in(text, sel.1);
                proof {
                    lemma_bytes_before_boundary(text@, sel.0 as int);
                    lemma_bytes_before_boundary(text@, sel.1 as int);
                    lemma_boundary_facts(text@, x as int);
                    lemma_boundary_facts(text@, y as int);
                    lemma_offset_concat(p, t, q, char_index_at(text@, x as int));
                    lemma_offset_concat(p, t, q, char_index_at(text@, y as int));
                }
                self.selection_start = start + x;
                self.selection_end = start + y;
            },
            None => {},
        }
        self.ensure_cursor_visible = true;
    }

    /// Whether a cursor move or edit asked for the cursor to be scrolled
    /// into view.
    pub fn cursor_visibility_requested(&self) -> (res: bool)
        ensures
            res == self.ensure_cursor_visible,
    {
        self.ensure_cursor_visible
    }

    /// Whether this layout scrolls the cursor into view: while the field is
    /// focused, when it has just gained focus or a move or edit asked for
    /// it.
    pub fn reveals_cursor(&self, focused: bool, was_focused: bool) -> (res: bool)
        ensures
            res == (focused && (!was_focused || self.ensure_cursor_visible)),
    {
        should_reveal_cursor(focused, was_focused, self.ensure_cursor_visible)
    }

    /// Records that the view has been laid out: the request to show the
    /// cursor is done, and `source_end` is the last text offset shown.
    pub fn finish_layout(&mut self, source_end: usize)
        requires
            old(self).wf(),
        ensures
            final(self).wf(),
            !final(self).ensure_cursor_visible,
            final(self).last_source_end == source_end,
            final(self).content == old(self).content,
            final(self).selection_start == old(self).selection_start,
            final(self).selection_end == old(self).selection_end,
            final(self).reversed == old(self).reversed,
            final(self).marked == old(self).marked,
    {
        self.ensure_cursor_visible = false;
        self.last_source_end = source_end;
    }
}

/// The text of an optional `&str`.
pub open spec fn str_view(o: Option<&str>) -> Option<Seq<char>> {
    match o {
        Some(t) => Some(t@),
        None => None,
    }
}

/// The text of an optional `String`.
pub open spec fn string_view(o: Option<String>) -> Option<Seq<char>> {
    match o {
        Some(t) => Some(t@),
        None => None,
    }
}

/// The range that backspace or delete removes: the composition range when
/// there is one, else the selection, or when nothing is selected the text
/// between the cursor and `p`, the grapheme start before or after it.
pub open spec fn removal_range(a: SingleLineInput, p: int, forward: bool) -> (int, int) {
    match a.marked {
        Some((x, y)) => (x as int, y as int),
        None => if a.selection_start < a.selection_end {
            (a.selection_start as int, a.selection_end as int)
        } else if forward {
            (a.cursor_spec(), p)
        } else {
            (p, a.cursor_spec())
        },
    }
}

/// What key command `cmd` does to input `a`, leaving `b`, given the
/// clipboard text, with the text it copies and whether it edits.
pub open spec fn command_done(
    a: SingleLineInput,
    b: SingleLineInput,
    cmd: KeyCommand,
    clipboard: Option<Seq<char>>,
    copied: Option<Seq<char>>,
    edited: bool,
) -> bool {
    let len = utf8_len(a.content@);
    let g = spec_grapheme_starts(a.content@);
    let cur = a.cursor_spec();
    let nothing_selected = !(a.selection_start < a.selection_end);
    let whole = a.edit_range(None);
    match cmd {
        KeyCommand::SelectAll => {
            &&& same_text(a, b)
            &&& b.selection_start == 0
            &&& b.selection_end == len
            &&& !b.reversed
            &&& b.ensure_cursor_visible
            &&& copied is None
            &&& !edited
        },
        KeyCommand::Copy => b == a && copied == a.copy_spec() && !edited,
        KeyCommand::Cut => {
            &&& copied == a.copy_spec()
            &&& edited
            &&& replaced(a, b, whole.0, whole.1, Seq::<char>::empty())
        },
        KeyCommand::Paste => copied is None && match clipboard {
            Some(t) => edited && replaced(a, b, whole.0, whole.1, t),
            None => b == a && !edited,
        },
        KeyCommand::SelectLeft => copied is None && !edited && exists|p: int|
            #[trigger] is_start_before(g, cur, p) && extended_to(a, b, p),
        KeyCommand::SelectRight => copied is None && !edited && exists|p: int|
            #[trigger] is_start_after(g, cur, len, p) && extended_to(a, b, p),
        KeyCommand::Left => copied is None && !edited && if nothing_selected {
            exists|p: int| #[trigger] is_start_before(g, cur, p) && moved_to(a, b, p)
        } else {
            moved_to(a, b, a.selection_start as int)
        },
        KeyCommand::Right => copied is None && !edited && if nothing_selected {
            exists|p: int| #[trigger] is_start_after(g, cur, len, p) && moved_to(a, b, p)
        } else {
            moved_to(a, b, a.selection_end as int)
        },
        KeyCommand::SelectHome => copied is None && !edited && extended_to(a, b, 0),
        KeyCommand::SelectEnd => copied is None && !edited && extended_to(a, b, len),
        KeyCommand::Home => copied is None && !edited && moved_to(a, b, 0),
        KeyCommand::End => copied is None && !edited && moved_to(a, b, len),
        KeyCommand::Backspace => copied is None && edited && exists|p: int|
            #[trigger] is_start_before(g, cur, p) && replaced(
                a,
                b,
                removal_range(a, p, false).0,
                removal_range(a, p, false).1,
                Seq::<char>::empty(),
            ),
        KeyCommand::Delete => copied is None && edited && exists|p: int|
            #[trigger] is_start_after(g, cur, len, p) && replaced(
                a,
                b,
                removal_range(a, p, true).0,
                removal_range(a, p, true).1,
                Seq::<char>::empty(),
            ),
        KeyCommand::Enter => b == a && copied is None && !edited,
    }
}

impl SingleLineInput {
    /// Carries out key command `cmd`; `clipboard` is the clipboard's text,
    /// read for a paste.
    pub fn apply_command(&mut self, cmd: KeyCommand, clipboard: Option<&str>) -> (res: CommandEffect)
        requires
            old(self).wf(),
        ensures
            final(self).wf(),
            command_done(
                *old(self),
                *final(self),
                cmd,
                str_view(clipboard),
                string_view(res.copied),
                res.edited,
            ),
    {
        let ghost a = *self;
        let ghost len = utf8_len(self.content@);
        proof {
            lemma_offset_ends(self.content@);
            lemma_boundary_index(self.content@, 0);
            lemma_boundary_index(self.content@, self.content@.len() as int);
        }
        match cmd {
            KeyCommand::SelectAll => {
                let len = byte_len(self.content.as_str());
                self.selection_start = 0;
                self.selection_end = len;
                self.reversed = false;
                self.ensure_cursor_visible = true;
                CommandEffect { copied: None, edited: false }
            },
            KeyCommand::Copy => CommandEffect { copied: self.copy(), edited: false },
            KeyCommand::Cut => {
                let copied = self.copy();
                let empty = String::new();
                self.replace_text_in_range(None, empty.as_str());
                CommandEffect { copied, edited: true }
            },
            KeyCommand::Paste => match clipboard {
                Some(text) => {
                    let flat = replace_line_breaks(text);
                    proof {
                        lemma_flatten(text@);
                    }
                    self.replace_text_in_range(None, flat.as_str());
                    proof {
                        assert(spliced(a.content@, a.edit_range(None).0, a.edit_range(None).1, flat@)
                            =~= spliced(a.content@, a.edit_range(None).0, a.edit_range(None).1, text@));
                        lemma_flatten_len(text@);
                    }
                    CommandEffect { copied: None, edited: true }
                },
                None => CommandEffect { copied: None, edited: false },
            },
            KeyCommand::SelectLeft => {
                let p = self.previous(self.cursor());
                self.select_to(p);
                CommandEffect { copied: None, edited: false }
            },
            KeyCommand::SelectRight => {
                let p = self.next(self.cursor());
                self.select_to(p);
                CommandEffect { copied: None, edited: false }
            },
            KeyCommand::Left => {
                let p = if !(self.selection_start < self.selection_end) {
                    self.previous(self.cursor())
                } else {
                    self.selection_start
                };
                self.move_to(p);
                CommandEffect { copied: None, edited: false }
            },
            KeyCommand::Right => {
                let p = if !(self.selection_start < self.selection_end) {
                    self.next(self.cursor())
                } else {
                    self.selection_end
                };
                self.move_to(p);
                CommandEffect { copied: None, edited: false }
            },
            KeyCommand::SelectHome => {
                self.select_to(0);
                CommandEffect { copied: None, edited: false }
            },
            KeyCommand::SelectEnd => {
                let len = byte_len(self.content.as_str());
                self.select_to(len);
                CommandEffect { copied: None, edited: false }
            },
            KeyCommand::Home => {
                self.move_to(0);
                CommandEffect { copied: None, edited: false }
            },
            KeyCommand::End => {
                let len = byte_len(self.content.as_str());
                self.move_to(len);
                CommandEffect { copied: None, edited: false }
            },
            KeyCommand::Backspace => {
                let p = self.previous(self.cursor());
                if !(self.selection_start < self.selection_end) {
                    let cursor = self.cursor();
                    self.selection_start = p;
                    self.selection_end = cursor;
                }
                let empty = String::new();
                self.replace_text_in_range(None, empty.as_str());
                CommandEffect { copied: None, edited: true }
            },
            KeyCommand::Delete => {
                let p = self.next(self.cursor());
                if !(self.selection_start < self.selection_end) {
                    let cursor = self.cursor();
                    self.selection_start = cursor;
                    self.selection_end = p;
                }
                let empty = String::new();
                self.replace_text_in_range(None, empty.as_str());
                CommandEffect { copied: None, edited: true }
            },
            KeyCommand::Enter => CommandEffect { copied: None, edited: false },
        }
    }
}

/// Every key the input handles is bound, whatever the modifiers, and
/// different keys are bound to different commands: with the platform
/// modifier `a`, `c`, `x` and `v` select all, copy, cut and paste; `delete`
/// deletes forward and `backspace` backward; `enter` is the input's own.
pub proof fn law_key_commands(command: bool, shift: bool)
    ensures
        key_command_spec(command, shift, "delete"@) == Some(KeyCommand::Delete),
        key_command_spec(command, shift, "backspace"@) == Some(KeyCommand::Backspace),
        key_command_spec(command, shift, "enter"@) == Some(KeyCommand::Enter),
        command ==> key_command_spec(command, shift, "a"@) == Some(KeyCommand::SelectAll),
        command ==> key_command_spec(command, shift, "c"@) == Some(KeyCommand::Copy),
        command ==> key_command_spec(command, shift, "x"@) == Some(KeyCommand::Cut),
        command ==> key_command_spec(command, shift, "v"@) == Some(KeyCommand::Paste),
        !command ==> key_command_spec(command, shift, "c"@) is None,
        key_command_spec(command, shift, "left"@) != key_command_spec(command, shift, "right"@),
        key_command_spec(command, shift, "home"@) != key_command_spec(command, shift, "end"@),
        key_command_spec(command, shift, "left"@) == Some(
            if shift { KeyCommand::SelectLeft } else { KeyCommand::Left },
        ),
        key_command_spec(command, shift, "right"@) == Some(
            if shift { KeyCommand::SelectRight } else { KeyCommand::Right },
        ),
        key_command_spec(command, shift, "home"@) == Some(
            if shift { KeyCommand::SelectHome } else { KeyCommand::Home },
        ),
        key_command_spec(command, shift, "end"@) == Some(
            if shift { KeyCommand::SelectEnd } else { KeyCommand::End },
        ),
{
    reveal_strlit("a");
    reveal_strlit("c");
    reveal_strlit("x");
    reveal_strlit("v");
    reveal_strlit("left");
    reveal_strlit("right");
    reveal_strlit("home");
    reveal_strlit("end");
    reveal_strlit("backspace");
    reveal_strlit("delete");
    reveal_strlit("enter");
    let keys = seq![
        "a"@,
        "c"@,
        "x"@,
        "v"@,
        "left"@,
        "right"@,
        "home"@,
        "end"@,
        "backspace"@,
        "delete"@,
        "enter"@,
    ];
    assert forall|i: int, j: int| 0 <= i < j < keys.len() implies #[trigger] keys[i] != #[trigger] keys[j] by {
        assert(keys[i].len() != keys[j].len() || keys[i][0] != keys[j][0]);
    }
    assert(keys[0] != keys[1] && keys[1] != keys[2] && keys[4] != keys[5] && keys[6] != keys[7]);
}

/// The `delete` key, with nothing selected and nothing being composed,
/// deletes forward: the cursor stays where it was and the edit starts
/// there.
pub proof fn law_delete_key_keeps_cursor(
    command: bool,
    shift: bool,
    a: SingleLineInput,
    b: SingleLineInput,
    clipboard: Option<Seq<char>>,
    copied: Option<Seq<char>>,
    edited: bool,
)
    requires
        a.marked is None,
        a.selection_start == a.selection_end,
        command_done(a, b, key_command_spec(command, shift, "delete"@).unwrap(), clipboard, copied, edited),
    ensures
        edited,
        b.selection_start == a.selection_start,
        b.selection_end == a.selection_start,
{
    law_key_commands(command, shift);
}

/// The `backspace` key, with nothing selected, nothing being composed and
/// the cursor after the start, deletes backward: the cursor moves left.
pub proof fn law_backspace_key_moves_cursor_left(
    command: bool,
    shift: bool,
    a: SingleLineInput,
    b: SingleLineInput,
    clipboard: Option<Seq<char>>,
    copied: Option<Seq<char>>,
    edited: bool,
)
    requires
        a.marked is None,
        a.selection_start == a.selection_end,
        a.selection_start > 0,
        command_done(
            a,
            b,
            key_command_spec(command, shift, "backspace"@).unwrap(),
            clipboard,
            copied,
            edited,
        ),
    ensures
        edited,
        b.selection_start < a.selection_start,
        b.selection_end == b.selection_start,
{
    law_key_commands(command, shift);
}

impl SingleLineInput {
    /// The text drawn in the field: the placeholder while the input is
    /// empty.
    pub fn display_text(&self) -> (res: &str)
        ensures
            res@ == if self.content@.len() == 0 {
                self.placeholder@
            } else {
                self.content@
            },
    {
        if self.content.as_str().is_empty() {
            self.placeholder.as_str()
        } else {
            self.content.as_str()
        }
    }

    /// The last text offset that the field shows: where the fitted graphemes
    /// end when an unfocused field overflows and ends in an ellipsis or a
    /// fade, the end of the text otherwise.
    pub fn shown_source_end(&self, focused: bool, overflowed: bool, fitted_end: usize) -> (res: usize)
        ensures
            res == if !focused && overflowed && self.overflow != SingleLineOverflow::Clip {
                vstd::math::min(fitted_end as int, utf8_len(self.content@))
            } else {
                utf8_len(self.content@)
            },
    {
        let len = byte_len(self.content.as_str());
        if !focused && overflowed {
            match self.overflow {
                SingleLineOverflow::Clip => len,
                _ => if fitted_end < len {
                    fitted_end
                } else {
                    len
                },
            }
        } else {
            len
        }
    }
}

/// The first `end` bytes of `text` followed by an ellipsis.
pub fn ellipsis_display(text: &str, end: usize) -> (res: String)
    requires
        is_boundary(text@, end as int),
    ensures
        res@ == text@.subrange(0, char_index_at(text@, end as int)).push('\u{2026}'),
{
    let chars = chars_of(text);
    let k = char_index_of(&chars, end);
    let mut out = string_of(&chars, 0, k);
    string_push(&mut out, '\u{2026}');
    out
}

/// Whether a layout scrolls the cursor into view: the field is focused, and
/// it was not focused at the previous layout or a cursor move or edit asked
/// for it.
pub fn should_reveal_cursor(focused: bool, was_focused: bool, ensure_cursor_visible: bool) -> (res:
    bool)
    ensures
        res == (focused && (!was_focused || ensure_cursor_visible)),
{
    focused && (!was_focused || ensure_cursor_visible)
}

/// `b` is `a` but for its composition range.
pub open spec fn same_text_but_marked(a: SingleLineInput, b: SingleLineInput) -> bool {
    &&& b.content@ == a.content@
    &&& b.selection_start == a.selection_start
    &&& b.selection_end == a.selection_end
    &&& b.reversed == a.reversed
    &&& b.ensure_cursor_visible == a.ensure_cursor_visible
}

/// Whether `index` falls on a character boundary of `text`.
pub fn is_char_boundary_in(text: &str, index: usize) -> (res: bool)
    ensures
        res == is_boundary(text@, index as int),
{
    let chars = chars_of(text);
    let ghost s = text@;
    let mut i: usize = 0;
    let mut bytes: usize = 0;
    let total = byte_len(text);
    proof {
        lemma_offset_ends(s);
    }
    while i < chars.len() && bytes < index
        invariant
            chars@ == s,
            total == utf8_len(s),
            i <= chars.len(),
            bytes == byte_offset(s, i as int),
            forall|k: int| 0 <= k < i ==> #[trigger] byte_offset(s, k) < index,
        decreases chars.len() - i,
    {
        proof {
            lemma_offset_step(s, i as int);
            lemma_offset_mono(s, i as int + 1, chars.len() as int);
            lemma_offset_ends(s);
        }
        bytes = bytes + crate::utf::char_utf8_width(chars[i]);
        i += 1;
    }
    proof {
        if bytes == index {
            lemma_boundary_index(s, i as int);
        } else {
            assert forall|k: int| 0 <= k <= s.len() implies #[trigger] byte_offset(s, k) != index by {
                if k > i {
                    lemma_offset_mono(s, i as int, k);
                }
            }
        }
    }
    bytes == index
}

} // verus!
