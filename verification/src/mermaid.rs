//! Mermaid diagrams in Markdown: recognising a fenced code block that holds
//! one, reading its source back out, naming its cached rendering, and
//! rendering it to SVG.
use vstd::prelude::*;

use crate::text::{
    chars_of, count_prefix, count_run, count_suffix, eq_ignore_ascii_case_at, eq_ignore_case,
    is_white_space, is_ws, lemma_count_prefix_is, lemma_count_suffix_is, lemma_leading_ws_char,
    lemma_trailing_ws_char, leading_ws, skip_ws_backward, skip_ws_forward, string_of, trim,
    trim_bounds, trim_end, trim_start,
};

verus! {

/// Opening fence of a Mermaid code block.
#[derive(Clone, Copy, Debug, PartialEq, Eq, Structural)]
pub struct MermaidFence {
    /// Fence marker, either backtick or tilde.
    pub marker: char,
    /// Length of the opening run of markers.
    pub len: usize,
}

/// Mermaid source read from a fenced Markdown block.
#[derive(Debug, PartialEq, Eq)]
pub struct MermaidSource {
    /// The whole fenced block, fences included, without surrounding line breaks.
    pub raw: String,
    /// The diagram source between the fences.
    pub body: String,
    /// The info string after the opening fence.
    pub info: String,
}

/// The line without an indentation of at most three spaces; `None` for a
/// deeper indentation.
pub open spec fn strip_indent(s: Seq<char>) -> Option<Seq<char>> {
    let k = count_prefix(s, |x: char| x == ' ');
    if k <= 3 {
        Some(s.skip(k as int))
    } else {
        None
    }
}

/// The first white-space separated word of `s` (empty when there is none).
pub open spec fn first_word(s: Seq<char>) -> Seq<char> {
    let t = trim_start(s);
    t.take(count_prefix(t, |x: char| !is_ws(x)) as int)
}

/// `mermaid` or `mmd`, in any ASCII case.
pub open spec fn is_mermaid_word(w: Seq<char>) -> bool {
    eq_ignore_case(w, "mermaid"@) || eq_ignore_case(w, "mmd"@)
}

/// An info string declares Mermaid when its first word is `mermaid` or `mmd`.
pub open spec fn mermaid_info(info: Option<Seq<char>>) -> bool {
    match info {
        Some(i) => first_word(i).len() > 0 && is_mermaid_word(first_word(i)),
        None => false,
    }
}

/// The Mermaid fence that `line` opens, if it opens one: at most three
/// spaces of indentation, a run of at least three backticks or tildes, and
/// an info string whose first word is `mermaid` or `mmd` (with no backtick
/// in it after a backtick fence).
pub open spec fn fence_start(line: Seq<char>) -> Option<MermaidFence> {
    match strip_indent(line) {
        None => None,
        Some(t0) => {
            let t = trim_end(t0);
            if t.len() == 0 {
                None
            } else {
                let m = t[0];
                let n = count_prefix(t, |x: char| x == m);
                let info = trim(t.skip(n as int));
                if m != '`' && m != '~' {
                    None
                } else if n < 3 {
                    None
                } else if m == '`' && info.contains('`') {
                    None
                } else if mermaid_info(
                    if info.len() == 0 {
                        None
                    } else {
                        Some(info)
                    },
                ) {
                    Some(MermaidFence { marker: m, len: n as usize })
                } else {
                    None
                }
            }
        },
    }
}

/// `line` closes `fence`: at most three spaces of indentation, at least as
/// many markers as the opening fence, and nothing else but white space.
pub open spec fn closes(line: Seq<char>, fence: MermaidFence) -> bool {
    match strip_indent(line) {
        None => false,
        Some(t0) => {
            let t = trim_end(t0);
            let n = count_prefix(t, |x: char| x == fence.marker);
            &&& t.len() > 0
            &&& t[0] == fence.marker
            &&& n >= fence.len
            &&& trim(t.skip(n as int)).len() == 0
        },
    }
}

/// `s` without leading and trailing line breaks.
pub open spec fn trim_newlines(s: Seq<char>) -> Seq<char> {
    let a = count_prefix(s, |x: char| x == '\n');
    let u = s.skip(a as int);
    u.take(u.len() - count_suffix(u, |x: char| x == '\n'))
}

/// What [`parse_mermaid_fence_source`] reads from a fenced block: the block
/// without surrounding line breaks, the text between its first and its last
/// line, and the info string of its opening line. `None` when the block
/// has a single line, its first line opens no Mermaid fence, or its last
/// line does not close that fence.
pub open spec fn fence_source(raw: Seq<char>) -> Option<(Seq<char>, Seq<char>, Seq<char>)> {
    let r = trim_newlines(raw);
    let f = count_prefix(r, |x: char| x != '\n');
    if f == r.len() {
        None
    } else {
        let l: int = r.len() - 1 - count_suffix(r, |x: char| x != '\n');
        match strip_indent(r.take(f as int)) {
            None => None,
            Some(o0) => {
                let opening = trim_end(o0);
                match fence_start(opening) {
                    None => None,
                    Some(fence) => {
                        let info = trim(opening.skip(fence.len as int));
                        if !closes(r.skip(l + 1), fence) {
                            None
                        } else {
                            let body = if f < l {
                                r.subrange(f as int + 1, l)
                            } else {
                                seq![]
                            };
                            Some((r, body, info))
                        }
                    },
                }
            },
        }
    }
}

/// `v[from..end]` is `v[from..to]` without trailing white space.
fn trim_end_window(v: &Vec<char>, from: usize, to: usize) -> (end: usize)
    requires
        from <= to <= v.len(),
    ensures
        from <= end <= to,
        v@.subrange(from as int, end as int) == trim_end(v@.subrange(from as int, to as int)),
{
    let e = skip_ws_backward(v, from, to);
    proof {
        let u = v@.subrange(from as int, to as int);
        assert forall|k: int| u.len() - (to - e) <= k < u.len() implies is_ws(#[trigger] u[k]) by {
            assert(u[k] == v@[from + k]);
        }
        if e > from {
            assert(u[u.len() - (to - e) - 1] == v@[e - 1]);
        }
        lemma_trailing_ws_char(u, to - e);
        assert(trim_end(u) =~= v@.subrange(from as int, e as int));
    }
    e
}

/// `v[from + k..to]` is `v[from..to]` without an indentation of at most
/// three spaces; `None` for a deeper indentation.
fn strip_indent_window(v: &Vec<char>, from: usize, to: usize) -> (res: Option<usize>)
    requires
        from <= to <= v.len(),
    ensures
        match strip_indent(v@.subrange(from as int, to as int)) {
            None => res is None,
            Some(t) => res matches Some(start) && from <= start <= to && t == v@.subrange(
                start as int,
                to as int,
            ),
        },
{
    let k = count_run(v, from, to, ' ');
    if k <= 3 {
        assert(v@.subrange(from as int, to as int).skip(k as int) =~= v@.subrange(
            (from + k) as int,
            to as int,
        ));
        Some(from + k)
    } else {
        None
    }
}

/// `line` without an indentation of at most three spaces; `None` for a
/// deeper indentation.
pub fn strip_fence_indent(line: &str) -> (res: Option<String>)
    ensures
        match strip_indent(line@) {
            None => res is None,
            Some(t) => res matches Some(r) && r@ == t,
        },
{
    let v = crate::text::chars_of(line);
    proof {
        assert(v@.subrange(0, v@.len() as int) =~= line@);
    }
    match strip_indent_window(&v, 0, v.len()) {
        Some(start) => Some(crate::text::string_of(&v, start, v.len())),
        None => None,
    }
}

/// Whether the info string `v[from..to]` declares Mermaid.
fn info_window_is_mermaid(v: &Vec<char>, from: usize, to: usize) -> (res: bool)
    requires
        from <= to <= v.len(),
    ensures
        res == mermaid_info(Some(v@.subrange(from as int, to as int))),
{
    let ghost s = v@.subrange(from as int, to as int);
    let a = skip_ws_forward(v, from, to);
    proof {
        assert forall|k: int| 0 <= k < a - from implies is_ws(#[trigger] s[k]) by {
            assert(s[k] == v@[from + k]);
        }
        if a < to {
            assert(s[a - from] == v@[a as int]);
        }
        lemma_leading_ws_char(s, a - from);
        assert(trim_start(s) =~= v@.subrange(a as int, to as int));
    }
    let mut b = a;
    while b < to && !is_white_space(v[b])
        invariant
            a <= b <= to <= v.len(),
            forall|k: int| a <= k < b ==> !is_ws(#[trigger] v@[k]),
        decreases to - b,
    {
        b += 1;
    }
    proof {
        let t = v@.subrange(a as int, to as int);
        let p = |x: char| !is_ws(x);
        assert forall|k: int| 0 <= k < b - a implies p(#[trigger] t[k]) by {
            assert(t[k] == v@[a + k]);
        }
        if b < to {
            assert(t[b - a] == v@[b as int]);
        }
        lemma_count_prefix_is(t, p, b - a);
        assert(first_word(s) =~= v@.subrange(a as int, b as int));
    }
    if a == b {
        false
    } else {
        eq_ignore_ascii_case_at(v, a, b, "mermaid") || eq_ignore_ascii_case_at(v, a, b, "mmd")
    }
}

/// Whether a fenced code block's info string declares Mermaid content.
pub fn is_mermaid_info_string(info: Option<&str>) -> (res: bool)
    ensures
        res == match info {
            Some(i) => mermaid_info(Some(i@)),
            None => false,
        },
{
    match info {
        Some(i) => {
            let v = chars_of(i);
            assert(v@.subrange(0, v@.len() as int) =~= i@);
            info_window_is_mermaid(&v, 0, v.len())
        },
        None => false,
    }
}

/// Whether `v[from..to]` holds the character `c`.
fn window_contains(v: &Vec<char>, from: usize, to: usize, c: char) -> (res: bool)
    requires
        from <= to <= v.len(),
    ensures
        res == v@.subrange(from as int, to as int).contains(c),
{
    let mut i = from;
    while i < to
        invariant
            from <= i <= to <= v.len(),
            forall|k: int| from <= k < i ==> v@[k] != c,
        decreases to - i,
    {
        if v[i] == c {
            assert(v@.subrange(from as int, to as int)[i - from] == c);
            return true;
        }
        i += 1;
    }
    proof {
        let s = v@.subrange(from as int, to as int);
        assert forall|k: int| 0 <= k < s.len() implies s[k] != c by {
            assert(s[k] == v@[from + k]);
        }
    }
    false
}

/// The fence that `v[from..to]` opens, as [`fence_start`] says.
fn fence_start_window(v: &Vec<char>, from: usize, to: usize) -> (res: Option<MermaidFence>)
    requires
        from <= to <= v.len(),
    ensures
        res == fence_start(v@.subrange(from as int, to as int)),
{
    let start = match strip_indent_window(v, from, to) {
        Some(start) => start,
        None => return None,
    };
    let e = trim_end_window(v, start, to);
    if e == start {
        return None;
    }
    let ghost t = v@.subrange(start as int, e as int);
    let m = v[start];
    assert(t[0] == m);
    let n = count_run(v, start, e, m);
    assert(t.skip(n as int) =~= v@.subrange((start + n) as int, e as int));
    let (ia, ib) = trim_bounds(v, start + n, e);
    if m != '`' && m != '~' {
        return None;
    }
    if n < 3 {
        return None;
    }
    if m == '`' && window_contains(v, ia, ib, '`') {
        return None;
    }
    let is_mermaid = if ia == ib {
        false
    } else {
        info_window_is_mermaid(v, ia, ib)
    };
    if is_mermaid {
        Some(MermaidFence { marker: m, len: n })
    } else {
        None
    }
}

/// Parses a line as a Mermaid opening fence.
pub fn parse_mermaid_fence_start(line: &str) -> (res: Option<MermaidFence>)
    ensures
        res == fence_start(line@),
{
    let v = chars_of(line);
    assert(v@.subrange(0, v@.len() as int) =~= line@);
    fence_start_window(&v, 0, v.len())
}

/// Whether `v[from..to]` closes `fence`.
fn closes_window(v: &Vec<char>, from: usize, to: usize, fence: MermaidFence) -> (res: bool)
    requires
        from <= to <= v.len(),
    ensures
        res == closes(v@.subrange(from as int, to as int), fence),
{
    let start = match strip_indent_window(v, from, to) {
        Some(start) => start,
        None => return false,
    };
    let e = trim_end_window(v, start, to);
    let ghost t = v@.subrange(start as int, e as int);
    if e == start || v[start] != fence.marker {
        return false;
    }
    assert(t[0] == v@[start as int]);
    let n = count_run(v, start, e, fence.marker);
    assert(t.skip(n as int) =~= v@.subrange((start + n) as int, e as int));
    let (ia, ib) = trim_bounds(v, start + n, e);
    n >= fence.len && ia == ib
}

/// Whether `line` closes the given Mermaid fence.
pub fn is_mermaid_closing_fence(line: &str, fence: MermaidFence) -> (res: bool)
    ensures
        res == closes(line@, fence),
{
    let v = chars_of(line);
    assert(v@.subrange(0, v@.len() as int) =~= line@);
    closes_window(&v, 0, v.len(), fence)
}

/// `n` copies of `c`.
pub open spec fn repeat_char(c: char, n: nat) -> Seq<char> {
    Seq::new(n, |i: int| c)
}

/// A fenced block: an opening run of `open_len` markers followed by `info`,
/// the diagram `body` on the lines between, and a closing run of
/// `close_len` markers.
pub open spec fn fenced_block(
    marker: char,
    open_len: nat,
    info: Seq<char>,
    body: Seq<char>,
    close_len: nat,
) -> Seq<char> {
    repeat_char(marker, open_len) + info + seq!['\n'] + body + seq!['\n'] + repeat_char(
        marker,
        close_len,
    )
}

proof fn lemma_mermaid_word_start(w: Seq<char>)
    requires
        w.len() > 0,
        is_mermaid_word(w),
    ensures
        w[0] == 'm' || w[0] == 'M',
{
    reveal_strlit("mermaid");
    reveal_strlit("mmd");
    if eq_ignore_case(w, "mermaid"@) {
        assert(crate::text::seq_ascii_lower(w)[0] == crate::text::seq_ascii_lower("mermaid"@)[0]);
    } else {
        assert(crate::text::seq_ascii_lower(w)[0] == crate::text::seq_ascii_lower("mmd"@)[0]);
    }
}

proof fn lemma_trimmed_ends(info: Seq<char>)
    requires
        trim(info) == info,
        info.len() > 0,
    ensures
        !is_ws(info[0]),
        !is_ws(info.last()),
        trim_start(info) == info,
{
    crate::text::lemma_leading_ws(info);
    let t = trim_start(info);
    crate::text::lemma_trailing_ws(t);
    assert(leading_ws(info) == 0);
    assert(t =~= info);
    assert(crate::text::trailing_ws(t) == 0);
}

proof fn lemma_trim_empty()
    ensures
        trim(Seq::<char>::empty()).len() == 0,
{
    let e = Seq::<char>::empty();
    crate::text::lemma_leading_ws(e);
}

proof fn lemma_no_ws_ends_unchanged(s: Seq<char>)
    requires
        s.len() > 0,
        s[0] != ' ',
        !is_ws(s.last()),
    ensures
        strip_indent(s) == Some(s),
        trim_end(s) == s,
{
    lemma_count_prefix_is(s, |x: char| x == ' ', 0);
    assert(s.skip(0) =~= s);
    lemma_trailing_ws_char(s, 0);
    assert(s.take(s.len() as int) =~= s);
}

proof fn lemma_info_start(info: Seq<char>)
    requires
        trim(info) == info,
        mermaid_info(Some(info)),
    ensures
        info.len() > 0,
        info[0] == 'm' || info[0] == 'M',
        !is_ws(info.last()),
{
    let w = first_word(info);
    assert(info.len() > 0) by {
        if info.len() == 0 {
            crate::text::lemma_leading_ws(info);
            assert(trim_start(info).len() == 0);
        }
    }
    lemma_trimmed_ends(info);
    lemma_mermaid_word_start(w);
    crate::text::lemma_count_prefix(trim_start(info), |x: char| !is_ws(x));
    assert(w[0] == trim_start(info)[0]);
}

proof fn lemma_block_lines(
    marker: char,
    open_len: nat,
    info: Seq<char>,
    body: Seq<char>,
    close_len: nat,
)
    requires
        marker == '`' || marker == '~',
        3 <= open_len <= close_len,
        info.len() > 0,
        !info.contains('\n'),
    ensures
        ({
            let raw = fenced_block(marker, open_len, info, body, close_len);
            &&& trim_newlines(raw) == raw
            &&& count_prefix(raw, |x: char| x != '\n') == open_len + info.len()
            &&& count_suffix(raw, |x: char| x != '\n') == close_len
            &&& raw.len() == open_len + info.len() + body.len() + 2 + close_len
            &&& raw.take(open_len + info.len() as int) == repeat_char(marker, open_len) + info
            &&& raw.skip(open_len + info.len() + body.len() + 2 as int) == repeat_char(marker, close_len)
            &&& raw.subrange(open_len + info.len() + 1 as int, open_len + info.len() + 1 + body.len() as int)
                == body
        }),
{
    let o = open_len as int;
    let c = close_len as int;
    let ni = info.len() as int;
    let nb = body.len() as int;
    let raw = fenced_block(marker, open_len, info, body, close_len);
    let ms = repeat_char(marker, open_len);
    let mc = repeat_char(marker, close_len);
    let line0 = ms + info;
    assert(raw =~= line0 + (seq!['\n'] + body + seq!['\n'] + mc));
    let f = o + ni;
    let l = o + ni + 1 + nb;
    let nl = |x: char| x == '\n';
    lemma_count_prefix_is(raw, nl, 0);
    assert(raw.skip(0) =~= raw);
    assert(raw[raw.len() - 1] == marker);
    lemma_count_suffix_is(raw, nl, 0);
    assert(raw.take(raw.len() as int) =~= raw);
    let not_nl = |x: char| x != '\n';
    assert forall|k: int| 0 <= k < f implies not_nl(#[trigger] raw[k]) by {
        if k >= o {
            assert(raw[k] == info[k - o]);
        }
    }
    assert(raw[f] == '\n');
    lemma_count_prefix_is(raw, not_nl, f);
    assert forall|k: int| raw.len() - c <= k < raw.len() implies not_nl(#[trigger] raw[k]) by {}
    assert(raw[raw.len() - c - 1] == '\n');
    lemma_count_suffix_is(raw, not_nl, c);
    assert(raw.take(f) =~= line0);
    assert(raw.skip(l + 1) =~= mc);
    assert(raw.subrange(f + 1, l) =~= body);
}

proof fn lemma_opening_line(marker: char, open_len: nat, info: Seq<char>)
    requires
        marker == '`' || marker == '~',
        3 <= open_len <= usize::MAX,
        trim(info) == info,
        mermaid_info(Some(info)),
        marker == '`' ==> !info.contains('`'),
    ensures
        ({
            let line0 = repeat_char(marker, open_len) + info;
            &&& strip_indent(line0) == Some(line0)
            &&& trim_end(line0) == line0
            &&& fence_start(line0) == Some(MermaidFence { marker, len: open_len as usize })
            &&& trim(line0.skip(open_len as int)) == info
        }),
{
    let o = open_len as int;
    let line0 = repeat_char(marker, open_len) + info;
    lemma_info_start(info);
    assert(line0.last() == info.last());
    lemma_no_ws_ends_unchanged(line0);
    let eq_m = |x: char| x == marker;
    assert forall|k: int| 0 <= k < o implies eq_m(#[trigger] line0[k]) by {}
    assert(line0[o] == info[0]);
    lemma_count_prefix_is(line0, eq_m, o);
    assert(line0.skip(o) =~= info);
}

proof fn lemma_closing_line(marker: char, open_len: nat, close_len: nat)
    requires
        marker == '`' || marker == '~',
        3 <= open_len <= close_len,
        open_len <= usize::MAX,
    ensures
        closes(repeat_char(marker, close_len), MermaidFence { marker, len: open_len as usize }),
{
    let c = close_len as int;
    let mc = repeat_char(marker, close_len);
    assert(mc.last() == marker);
    lemma_no_ws_ends_unchanged(mc);
    let eq_m = |x: char| x == marker;
    assert forall|k: int| 0 <= k < c implies eq_m(#[trigger] mc[k]) by {}
    lemma_count_prefix_is(mc, eq_m, c);
    assert(mc.skip(c) =~= Seq::<char>::empty());
    lemma_trim_empty();
}

/// Reading a fenced Mermaid block gives back exactly the diagram source and
/// the info string that were written into it, whatever the source holds:
/// for an opening run of at least three backticks or tildes with an info
/// string whose first word is `mermaid` or `mmd`, and a closing run at least
/// as long.
#[verifier::rlimit(50)]
pub proof fn law_fence_round_trip(
    marker: char,
    open_len: nat,
    info: Seq<char>,
    body: Seq<char>,
    close_len: nat,
)
    requires
        marker == '`' || marker == '~',
        3 <= open_len <= close_len,
        open_len <= usize::MAX,
        trim(info) == info,
        !info.contains('\n'),
        mermaid_info(Some(info)),
        marker == '`' ==> !info.contains('`'),
    ensures
        fence_source(fenced_block(marker, open_len, info, body, close_len)) == Some(
            (fenced_block(marker, open_len, info, body, close_len), body, info),
        ),
{
    let raw = fenced_block(marker, open_len, info, body, close_len);
    let line0 = repeat_char(marker, open_len) + info;
    let fence = MermaidFence { marker, len: open_len as usize };
    lemma_info_start(info);
    lemma_block_lines(marker, open_len, info, body, close_len);
    lemma_opening_line(marker, open_len, info);
    lemma_closing_line(marker, open_len, close_len);
    let f = count_prefix(raw, |x: char| x != '\n');
    let l: int = raw.len() - 1 - count_suffix(raw, |x: char| x != '\n');
    assert(f < l);
    assert(raw.take(f as int) == line0);
    assert(raw.skip(l + 1) == repeat_char(marker, close_len));
    assert(raw.subrange(f as int + 1, l) == body);
    assert(trim(line0.skip(fence.len as int)) == info);
}

/// Bounds of `v` without leading and trailing line breaks.
fn trim_newlines_window(v: &Vec<char>) -> (res: (usize, usize))
    ensures
        res.0 <= res.1 <= v.len(),
        v@.subrange(res.0 as int, res.1 as int) == trim_newlines(v@),
{
    let len = v.len();
    let a = count_run(v, 0, len, '\n');
    let mut b = len;
    while b > a && v[b - 1] == '\n'
        invariant
            a <= b <= len == v.len(),
            forall|k: int| b <= k < len ==> v@[k] == '\n',
        decreases b,
    {
        b -= 1;
    }
    proof {
        assert(v@.subrange(0, len as int) =~= v@);
        let u = v@.skip(a as int);
        assert(u =~= v@.subrange(a as int, len as int));
        let p = |x: char| x == '\n';
        assert forall|k: int| u.len() - (len - b) <= k < u.len() implies p(#[trigger] u[k]) by {
            assert(u[k] == v@[a + k]);
        }
        if b > a {
            assert(u[u.len() - (len - b) - 1] == v@[b - 1]);
        }
        lemma_count_suffix_is(u, p, len - b);
        assert(trim_newlines(v@) =~= v@.subrange(a as int, b as int));
    }
    (a, b)
}

/// Index of the first line break of `v[a..b]`, or `b`.
fn first_newline(v: &Vec<char>, a: usize, b: usize) -> (f: usize)
    requires
        a <= b <= v.len(),
    ensures
        a <= f <= b,
        f - a == count_prefix(v@.subrange(a as int, b as int), |x: char| x != '\n'),
{
    let ghost r = v@.subrange(a as int, b as int);
    let mut f = a;
    while f < b && v[f] != '\n'
        invariant
            a <= f <= b <= v.len(),
            forall|k: int| a <= k < f ==> v@[k] != '\n',
        decreases b - f,
    {
        f += 1;
    }
    proof {
        let p = |x: char| x != '\n';
        assert forall|k: int| 0 <= k < f - a implies p(#[trigger] r[k]) by {
            assert(r[k] == v@[a + k]);
        }
        if f < b {
            assert(r[f - a] == v@[f as int]);
        }
        lemma_count_prefix_is(r, p, f - a);
    }
    f
}

/// Index of the last line break of `v[a..b]`, knowing that `v[f]` is one.
fn last_newline(v: &Vec<char>, a: usize, f: usize, b: usize) -> (l: usize)
    requires
        a <= f < b <= v.len(),
        v@[f as int] == '\n',
    ensures
        f <= l < b,
        v@[l as int] == '\n',
        (b - a) - 1 - count_suffix(v@.subrange(a as int, b as int), |x: char| x != '\n') == l - a,
{
    let ghost r = v@.subrange(a as int, b as int);
    let mut l = b;
    while l > f + 1 && v[l - 1] != '\n'
        invariant
            f + 1 <= l <= b <= v.len(),
            forall|k: int| l <= k < b ==> v@[k] != '\n',
        decreases l,
    {
        l -= 1;
    }
    let l = l - 1;
    proof {
        let p = |x: char| x != '\n';
        assert forall|k: int| r.len() - (b - l - 1) <= k < r.len() implies p(#[trigger] r[k]) by {
            assert(r[k] == v@[a + k]);
        }
        assert(r[r.len() - (b - l - 1) - 1] == v@[l as int]);
        lemma_count_suffix_is(r, p, b - l - 1);
    }
    l
}

proof fn lemma_fence_len_fits(opening: Seq<char>, fence: MermaidFence)
    requires
        fence_start(opening) == Some(fence),
    ensures
        fence.len <= opening.len(),
{
    let sp = |x: char| x == ' ';
    crate::text::lemma_count_prefix(opening, sp);
    let t0 = opening.skip(count_prefix(opening, sp) as int);
    crate::text::lemma_trailing_ws(t0);
    let t = trim_end(t0);
    let m = t[0];
    crate::text::lemma_count_prefix(t, |x: char| x == m);
}

/// Parses a fenced Markdown block into the Mermaid source it holds.
pub fn parse_mermaid_fence_source(raw: &str) -> (res: Option<MermaidSource>)
    ensures
        match fence_source(raw@) {
            None => res is None,
            Some((r, body, info)) => res matches Some(src) && src.raw@ == r && src.body@ == body
                && src.info@ == info,
        },
{
    let v = chars_of(raw);
    let (a, b) = trim_newlines_window(&v);
    let ghost r = v@.subrange(a as int, b as int);
    let f = first_newline(&v, a, b);
    if f == b {
        return None;
    }
    proof {
        crate::text::lemma_count_prefix(r, |x: char| x != '\n');
        assert(r[f - a] == v@[f as int]);
    }
    let l = last_newline(&v, a, f, b);
    proof {
        assert(r.take(f - a) =~= v@.subrange(a as int, f as int));
        assert(r.skip(l - a + 1) =~= v@.subrange(l + 1, b as int));
    }
    let start = match strip_indent_window(&v, a, f) {
        Some(start) => start,
        None => return None,
    };
    let e = trim_end_window(&v, start, f);
    let fence = match fence_start_window(&v, start, e) {
        Some(fence) => fence,
        None => return None,
    };
    proof {
        let opening = v@.subrange(start as int, e as int);
        lemma_fence_len_fits(opening, fence);
        assert(opening.skip(fence.len as int) =~= v@.subrange(start + fence.len, e as int));
    }
    let (ia, ib) = trim_bounds(&v, start + fence.len, e);
    if !closes_window(&v, l + 1, b, fence) {
        return None;
    }
    let body = if f < l {
        proof {
            assert(r.subrange(f - a + 1, l - a) =~= v@.subrange(f + 1, l as int));
        }
        string_of(&v, f + 1, l)
    } else {
        String::new()
    };
    Some(MermaidSource { raw: string_of(&v, a, b), body, info: string_of(&v, ia, ib) })
}

} // verus!
