//! Text positions: UTF-8 byte offsets and UTF-16 code-unit offsets of a
//! character sequence, and the conversions between them.
use vstd::prelude::*;
use vstd::utf8::{encode_scalar, encode_utf8};

use crate::text::chars_of;

verus! {

/// Bytes that `c` takes in UTF-8.
pub open spec fn utf8_width(c: char) -> int {
    if (c as u32) <= 0x7f {
        1
    } else if (c as u32) <= 0x7ff {
        2
    } else if (c as u32) <= 0xffff {
        3
    } else {
        4
    }
}

/// Code units that `c` takes in UTF-16.
pub open spec fn utf16_width(c: char) -> int {
    if (c as u32) <= 0xffff {
        1
    } else {
        2
    }
}

/// Bytes that `s` takes in UTF-8.
pub open spec fn utf8_len(s: Seq<char>) -> int
    decreases s.len(),
{
    if s.len() == 0 {
        0
    } else {
        utf8_width(s[0]) + utf8_len(s.drop_first())
    }
}

/// Code units that `s` takes in UTF-16.
pub open spec fn utf16_len(s: Seq<char>) -> int
    decreases s.len(),
{
    if s.len() == 0 {
        0
    } else {
        utf16_width(s[0]) + utf16_len(s.drop_first())
    }
}

/// Byte offset at which the `k`-th character of `s` starts.
pub open spec fn byte_offset(s: Seq<char>, k: int) -> int {
    utf8_len(s.take(k))
}

/// UTF-16 offset at which the `k`-th character of `s` starts.
pub open spec fn utf16_offset(s: Seq<char>, k: int) -> int {
    utf16_len(s.take(k))
}

/// Whether byte offset `b` falls between two characters of `s` (or at
/// either end).
pub open spec fn is_boundary(s: Seq<char>, b: int) -> bool {
    exists|k: int| 0 <= k <= s.len() && #[trigger] byte_offset(s, k) == b
}

/// The index of the character that starts at byte boundary `b`.
pub open spec fn char_index_at(s: Seq<char>, b: int) -> int {
    choose|k: int| 0 <= k <= s.len() && #[trigger] byte_offset(s, k) == b
}

/// The UTF-16 offset of byte boundary `b` of `s`.
pub open spec fn utf16_at_byte(s: Seq<char>, b: int) -> int {
    utf16_offset(s, char_index_at(s, b))
}

/// The byte offset that UTF-16 offset `off` of `s` maps to: the bytes of
/// the leading characters that start before `off`.
pub open spec fn bytes_before(s: Seq<char>, off: int) -> int
    decreases s.len(),
{
    if s.len() == 0 || off <= 0 {
        0
    } else {
        utf8_width(s[0]) + bytes_before(s.drop_first(), off - utf16_width(s[0]))
    }
}

pub proof fn lemma_widths(c: char)
    ensures
        1 <= utf16_width(c) <= utf8_width(c) <= 4,
        encode_scalar(c as u32).len() == utf8_width(c),
{
    vstd::utf8::char_is_scalar(c);
}

pub proof fn lemma_utf8_len_concat(a: Seq<char>, b: Seq<char>)
    ensures
        utf8_len(a + b) == utf8_len(a) + utf8_len(b),
        utf16_len(a + b) == utf16_len(a) + utf16_len(b),
    decreases a.len(),
{
    if a.len() > 0 {
        assert((a + b).drop_first() =~= a.drop_first() + b);
        lemma_utf8_len_concat(a.drop_first(), b);
    } else {
        assert(a + b =~= b);
    }
}

pub proof fn lemma_len_bounds(s: Seq<char>)
    ensures
        s.len() <= utf16_len(s) <= utf8_len(s) <= 4 * s.len(),
    decreases s.len(),
{
    if s.len() > 0 {
        lemma_widths(s[0]);
        lemma_len_bounds(s.drop_first());
    }
}

/// The UTF-8 length of `s` is the length of its encoding.
pub proof fn lemma_encoded_len(s: Seq<char>)
    ensures
        encode_utf8(s).len() == utf8_len(s),
    decreases s.len(),
{
    if s.len() > 0 {
        lemma_widths(s[0]);
        lemma_encoded_len(s.drop_first());
    }
}

/// Stepping over the `k`-th character.
pub proof fn lemma_offset_step(s: Seq<char>, k: int)
    requires
        0 <= k < s.len(),
    ensures
        byte_offset(s, k + 1) == byte_offset(s, k) + utf8_width(s[k]),
        utf16_offset(s, k + 1) == utf16_offset(s, k) + utf16_width(s[k]),
{
    let one = seq![s[k]];
    assert(s.take(k + 1) =~= s.take(k) + one);
    lemma_utf8_len_concat(s.take(k), one);
    assert(one.drop_first() =~= Seq::<char>::empty());
    assert(utf8_len(one) == utf8_width(s[k]) + utf8_len(one.drop_first()));
    assert(utf16_len(one) == utf16_width(s[k]) + utf16_len(one.drop_first()));
}

/// Offsets grow strictly from character to character.
pub proof fn lemma_offset_mono(s: Seq<char>, i: int, j: int)
    requires
        0 <= i <= j <= s.len(),
    ensures
        byte_offset(s, i) + (j - i) <= byte_offset(s, j),
        utf16_offset(s, i) + (j - i) <= utf16_offset(s, j),
        utf16_offset(s, j) - utf16_offset(s, i) <= byte_offset(s, j) - byte_offset(s, i),
    decreases j - i,
{
    if i < j {
        lemma_offset_mono(s, i, j - 1);
        lemma_offset_step(s, j - 1);
        lemma_widths(s[j - 1]);
    }
}

/// The ends of `s`, and the whole text.
pub proof fn lemma_offset_ends(s: Seq<char>)
    ensures
        byte_offset(s, 0) == 0,
        utf16_offset(s, 0) == 0,
        byte_offset(s, s.len() as int) == utf8_len(s),
        utf16_offset(s, s.len() as int) == utf16_len(s),
{
    assert(s.take(0) =~= Seq::<char>::empty());
    assert(s.take(s.len() as int) =~= s);
}

/// A boundary names exactly one character index.
pub proof fn lemma_boundary_index(s: Seq<char>, k: int)
    requires
        0 <= k <= s.len(),
    ensures
        is_boundary(s, byte_offset(s, k)),
        char_index_at(s, byte_offset(s, k)) == k,
{
    let b = byte_offset(s, k);
    assert(0 <= k <= s.len() && byte_offset(s, k) == b);
    let j = char_index_at(s, b);
    if j < k {
        lemma_offset_mono(s, j, k);
    } else if j > k {
        lemma_offset_mono(s, k, j);
    }
}

/// A UTF-16 offset that starts a character maps back to that character's
/// byte offset.
pub proof fn lemma_bytes_before_offset(s: Seq<char>, k: int)
    requires
        0 <= k <= s.len(),
    ensures
        bytes_before(s, utf16_offset(s, k)) == byte_offset(s, k),
    decreases s.len(),
{
    lemma_offset_ends(s);
    if k > 0 {
        let t = s.drop_first();
        let p = s.take(k);
        assert(p.drop_first() =~= t.take(k - 1));
        assert(p[0] == s[0]);
        lemma_widths(s[0]);
        assert(utf16_len(p) == utf16_width(s[0]) + utf16_len(t.take(k - 1)));
        assert(utf8_len(p) == utf8_width(s[0]) + utf8_len(t.take(k - 1)));
        lemma_bytes_before_offset(t, k - 1);
        lemma_len_bounds(t.take(k - 1));
        let off = utf16_offset(s, k);
        assert(bytes_before(s, off) == utf8_width(s[0]) + bytes_before(t, off - utf16_width(s[0])));
    }
}

/// Splitting `bytes_before` after the first `i` characters, all of which
/// start before `off`.
proof fn lemma_bytes_before_split(s: Seq<char>, off: int, i: int)
    requires
        0 <= i < s.len(),
        utf16_offset(s, i) < off,
    ensures
        bytes_before(s.subrange(i, s.len() as int), off - utf16_offset(s, i)) == utf8_width(s[i])
            + bytes_before(s.subrange(i + 1, s.len() as int), off - utf16_offset(s, i + 1)),
{
    let r = s.subrange(i, s.len() as int);
    assert(r[0] == s[i]);
    assert(r.drop_first() =~= s.subrange(i + 1, s.len() as int));
    lemma_offset_step(s, i);
}

/// Bytes of UTF-8 that `c` takes.
pub fn char_utf8_width(c: char) -> (res: usize)
    ensures
        res == utf8_width(c),
{
    let u = c as u32;
    if u <= 0x7f {
        1
    } else if u <= 0x7ff {
        2
    } else if u <= 0xffff {
        3
    } else {
        4
    }
}

/// Code units of UTF-16 that `c` takes.
pub fn char_utf16_width(c: char) -> (res: usize)
    ensures
        res == utf16_width(c),
{
    if (c as u32) <= 0xffff {
        1
    } else {
        2
    }
}

/// The byte length of `text`.
pub fn byte_len(text: &str) -> (res: usize)
    ensures
        res == utf8_len(text@),
{
    proof {
        lemma_encoded_len(text@);
    }
    broadcast use vstd::slice::axiom_spec_len;
    let bytes = text.as_bytes();
    bytes.len()
}

/// The byte offset that UTF-16 offset `offset` of `text` maps to: the bytes
/// of the characters that start before it.
pub fn utf16_to_utf8_in(text: &str, offset: usize) -> (res: usize)
    ensures
        res == bytes_before(text@, offset as int),
{
    let chars = chars_of(text);
    let n = chars.len();
    let total = byte_len(text);
    let ghost s = text@;
    let mut i: usize = 0;
    let mut units: usize = 0;
    let mut bytes: usize = 0;
    proof {
        lemma_offset_ends(s);
        assert(s.subrange(0, s.len() as int) =~= s);
    }
    while i < n && units < offset
        invariant
            chars@ == s,
            n == s.len(),
            total == utf8_len(s),
            i <= n,
            units == utf16_offset(s, i as int),
            bytes == byte_offset(s, i as int),
            bytes_before(s, offset as int) == bytes + bytes_before(
                s.subrange(i as int, n as int),
                offset - units,
            ),
        decreases n - i,
    {
        proof {
            lemma_bytes_before_split(s, offset as int, i as int);
            lemma_offset_step(s, i as int);
            lemma_offset_mono(s, i as int + 1, n as int);
            lemma_offset_mono(s, 0, i as int + 1);
            lemma_offset_ends(s);
        }
        bytes = bytes + char_utf8_width(chars[i]);
        units = units + char_utf16_width(chars[i]);
        i += 1;
    }
    bytes
}

/// The UTF-16 offset of byte offset `offset` of `text`, taken no further
/// than the end of the text.
pub fn utf8_to_utf16_in(text: &str, offset: usize) -> (res: usize)
    requires
        is_boundary(text@, if offset <= utf8_len(text@) { offset as int } else { utf8_len(text@) }),
    ensures
        res == utf16_at_byte(
            text@,
            if offset <= utf8_len(text@) { offset as int } else { utf8_len(text@) },
        ),
{
    let chars = chars_of(text);
    let n = chars.len();
    let total = byte_len(text);
    let target = if offset <= total { offset } else { total };
    let ghost s = text@;
    let ghost k = char_index_at(s, target as int);
    proof {
        lemma_offset_ends(s);
        lemma_boundary_index(s, k);
    }
    let mut i: usize = 0;
    let mut units: usize = 0;
    let mut bytes: usize = 0;
    while bytes < target
        invariant
            chars@ == s,
            n == s.len(),
            total == utf8_len(s),
            0 <= k <= n,
            byte_offset(s, k) == target,
            i <= k,
            units == utf16_offset(s, i as int),
            bytes == byte_offset(s, i as int),
        decreases k - i,
    {
        proof {
            if i >= k {
                lemma_offset_mono(s, k, i as int);
            }
            lemma_offset_step(s, i as int);
            lemma_offset_mono(s, i as int + 1, k);
            lemma_offset_mono(s, 0, i as int + 1);
            lemma_offset_ends(s);
        }
        bytes = bytes + char_utf8_width(chars[i]);
        units = units + char_utf16_width(chars[i]);
        i += 1;
    }
    proof {
        if i < k {
            lemma_offset_mono(s, i as int, k);
        }
    }
    units
}

/// The index of the character that starts at byte boundary `b` of `chars`.
pub fn char_index_of(chars: &Vec<char>, b: usize) -> (res: usize)
    requires
        is_boundary(chars@, b as int),
    ensures
        res <= chars.len(),
        byte_offset(chars@, res as int) == b,
        res == char_index_at(chars@, b as int),
{
    let ghost s = chars@;
    let ghost k = char_index_at(s, b as int);
    proof {
        lemma_offset_ends(s);
        lemma_boundary_index(s, k);
    }
    let mut i: usize = 0;
    let mut bytes: usize = 0;
    while bytes < b
        invariant
            s == chars@,
            s.len() == chars.len(),
            0 <= k <= s.len(),
            byte_offset(s, k) == b,
            i <= k,
            bytes == byte_offset(s, i as int),
        decreases k - i,
    {
        proof {
            if i >= k {
                lemma_offset_mono(s, k, i as int);
            }
            lemma_offset_step(s, i as int);
            lemma_offset_mono(s, i as int + 1, k);
        }
        bytes = bytes + char_utf8_width(chars[i]);
        i += 1;
    }
    proof {
        if i < k {
            lemma_offset_mono(s, i as int, k);
        }
    }
    i
}

/// Round trip: the UTF-16 offset of a boundary maps back to the boundary.
pub proof fn law_utf16_round_trip(s: Seq<char>, b: int)
    requires
        is_boundary(s, b),
    ensures
        bytes_before(s, utf16_at_byte(s, b)) == b,
{
    let k = char_index_at(s, b);
    lemma_bytes_before_offset(s, k);
}

} // verus!
