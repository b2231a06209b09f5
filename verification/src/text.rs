//! Character classes and small text utilities shared by the parsers of this crate.
//!
//! Text is modelled by its view, the sequence of `char`s it holds.
use vstd::prelude::*;

verus! {

/// The Unicode `White_Space` property, which is what `char::is_whitespace`
/// and `str::trim` go by.
pub open spec fn is_ws(c: char) -> bool {
    let u = c as u32;
    ||| 0x09 <= u <= 0x0d
    ||| u == 0x20
    ||| u == 0x85
    ||| u == 0xa0
    ||| u == 0x1680
    ||| 0x2000 <= u <= 0x200a
    ||| u == 0x2028
    ||| u == 0x2029
    ||| u == 0x202f
    ||| u == 0x205f
    ||| u == 0x3000
}

/// Executable form of [`is_ws`].
pub fn is_white_space(c: char) -> (res: bool)
    ensures
        res == is_ws(c),
{
    let u = c as u32;
    (0x09 <= u && u <= 0x0d) || u == 0x20 || u == 0x85 || u == 0xa0 || u == 0x1680 || (0x2000
        <= u && u <= 0x200a) || u == 0x2028 || u == 0x2029 || u == 0x202f || u == 0x205f || u
        == 0x3000
}

/// Number of leading characters of `s` that are white space.
pub open spec fn leading_ws(s: Seq<char>) -> nat
    decreases s.len(),
{
    if s.len() > 0 && is_ws(s[0]) {
        1 + leading_ws(s.drop_first())
    } else {
        0
    }
}

/// Number of trailing characters of `s` that are white space.
pub open spec fn trailing_ws(s: Seq<char>) -> nat
    decreases s.len(),
{
    if s.len() > 0 && is_ws(s.last()) {
        1 + trailing_ws(s.drop_last())
    } else {
        0
    }
}

/// `s` without trailing white space (`str::trim_end`).
pub open spec fn trim_end(s: Seq<char>) -> Seq<char> {
    s.take(s.len() - trailing_ws(s))
}

/// `s` without leading white space (`str::trim_start`).
pub open spec fn trim_start(s: Seq<char>) -> Seq<char> {
    s.skip(leading_ws(s) as int)
}

/// `s` without leading and trailing white space (`str::trim`).
pub open spec fn trim(s: Seq<char>) -> Seq<char> {
    trim_end(trim_start(s))
}

pub proof fn lemma_leading_ws(s: Seq<char>)
    ensures
        leading_ws(s) <= s.len(),
        forall|i: int| 0 <= i < leading_ws(s) ==> is_ws(#[trigger] s[i]),
        leading_ws(s) < s.len() ==> !is_ws(s[leading_ws(s) as int]),
    decreases s.len(),
{
    if s.len() > 0 && is_ws(s[0]) {
        lemma_leading_ws(s.drop_first());
        assert forall|i: int| 0 <= i < leading_ws(s) implies is_ws(#[trigger] s[i]) by {
            if i > 0 {
                assert(s[i] == s.drop_first()[i - 1]);
            }
        }
    }
}

pub proof fn lemma_trailing_ws(s: Seq<char>)
    ensures
        trailing_ws(s) <= s.len(),
        forall|i: int| s.len() - trailing_ws(s) <= i < s.len() ==> is_ws(#[trigger] s[i]),
        trailing_ws(s) < s.len() ==> !is_ws(s[s.len() - trailing_ws(s) - 1]),
    decreases s.len(),
{
    if s.len() > 0 && is_ws(s.last()) {
        lemma_trailing_ws(s.drop_last());
        assert forall|i: int| s.len() - trailing_ws(s) <= i < s.len() implies is_ws(
            #[trigger] s[i],
        ) by {
            if i < s.len() - 1 {
                assert(s[i] == s.drop_last()[i]);
            }
        }
    }
}

/// A run of white space at the start is exactly what `leading_ws` counts.
pub proof fn lemma_leading_ws_char(s: Seq<char>, n: int)
    requires
        0 <= n <= s.len(),
        forall|i: int| 0 <= i < n ==> is_ws(#[trigger] s[i]),
        n < s.len() ==> !is_ws(s[n]),
    ensures
        leading_ws(s) == n,
    decreases s.len(),
{
    if n > 0 {
        assert forall|i: int| 0 <= i < n - 1 implies is_ws(#[trigger] s.drop_first()[i]) by {
            assert(s.drop_first()[i] == s[i + 1]);
        }
        if n - 1 < s.drop_first().len() {
            assert(s.drop_first()[n - 1] == s[n]);
        }
        lemma_leading_ws_char(s.drop_first(), n - 1);
    }
}

/// A run of white space at the end is exactly what `trailing_ws` counts.
pub proof fn lemma_trailing_ws_char(s: Seq<char>, n: int)
    requires
        0 <= n <= s.len(),
        forall|i: int| s.len() - n <= i < s.len() ==> is_ws(#[trigger] s[i]),
        n < s.len() ==> !is_ws(s[s.len() - n - 1]),
    ensures
        trailing_ws(s) == n,
    decreases s.len(),
{
    if n > 0 {
        let t = s.drop_last();
        assert forall|i: int| t.len() - (n - 1) <= i < t.len() implies is_ws(#[trigger] t[i]) by {
            assert(t[i] == s[i]);
        }
        if n - 1 < t.len() {
            assert(t[t.len() - (n - 1) - 1] == s[s.len() - n - 1]);
        }
        lemma_trailing_ws_char(t, n - 1);
    }
}

/// Index of the first character of `s[from..to]` that is not white space, or `to`.
pub fn skip_ws_forward(s: &Vec<char>, from: usize, to: usize) -> (end: usize)
    requires
        from <= to <= s.len(),
    ensures
        from <= end <= to,
        forall|i: int| from <= i < end ==> is_ws(#[trigger] s@[i]),
        end < to ==> !is_ws(s@[end as int]),
{
    let mut i = from;
    while i < to
        invariant
            from <= i <= to <= s.len(),
            forall|k: int| from <= k < i ==> is_ws(#[trigger] s@[k]),
        decreases to - i,
    {
        if !is_white_space(s[i]) {
            return i;
        }
        i += 1;
    }
    i
}

/// Index just past the last character of `s[from..to]` that is not white space, or `from`.
pub fn skip_ws_backward(s: &Vec<char>, from: usize, to: usize) -> (end: usize)
    requires
        from <= to <= s.len(),
    ensures
        from <= end <= to,
        forall|i: int| end <= i < to ==> is_ws(#[trigger] s@[i]),
        end > from ==> !is_ws(s@[end - 1]),
{
    let mut i = to;
    while i > from
        invariant
            from <= i <= to <= s.len(),
            forall|k: int| i <= k < to ==> is_ws(#[trigger] s@[k]),
        decreases i,
    {
        if !is_white_space(s[i - 1]) {
            return i;
        }
        i -= 1;
    }
    i
}

/// Bounds `(start, end)` of `trim(s@[from..to])` inside `s`.
pub fn trim_bounds(s: &Vec<char>, from: usize, to: usize) -> (res: (usize, usize))
    requires
        from <= to <= s.len(),
    ensures
        from <= res.0 <= res.1 <= to,
        s@.subrange(res.0 as int, res.1 as int) == trim(s@.subrange(from as int, to as int)),
{
    let ghost t = s@.subrange(from as int, to as int);
    let a = skip_ws_forward(s, from, to);
    proof {
        assert forall|k: int| 0 <= k < a - from implies is_ws(#[trigger] t[k]) by {
            assert(t[k] == s@[from + k]);
        }
        if a < to {
            assert(t[a - from] == s@[a as int]);
        }
        lemma_leading_ws_char(t, a - from);
    }
    let b = skip_ws_backward(s, a, to);
    proof {
        let u = trim_start(t);
        assert(u =~= s@.subrange(a as int, to as int));
        assert forall|k: int| u.len() - (to - b) <= k < u.len() implies is_ws(#[trigger] u[k]) by {
            assert(u[k] == s@[a + k]);
        }
        if b > a {
            assert(u[u.len() - (to - b) - 1] == s@[b - 1]);
        }
        lemma_trailing_ws_char(u, to - b);
        assert(trim(t) =~= s@.subrange(a as int, b as int));
    }
    (a, b)
}

/// The characters of `s`, in order.
pub fn chars_of(s: &str) -> (res: Vec<char>)
    ensures
        res@ == s@,
{
    let mut v: Vec<char> = Vec::new();
    broadcast use vstd::string::axiom_spec_iter;
    for c in it: s.chars()
        invariant
            v@ == it.seq().take(it.index() as int),
    {
        v.push(c);
    }
    assert(v@ =~= s@);
    v
}

/// Appends `c` to `s` (`String::push`).
#[verifier::external_body]
pub(crate) fn string_push(s: &mut String, c: char)
    ensures
        final(s)@ == old(s)@.push(c),
{
    s.push(c);
}

/// The `String` holding the characters `v[from..to]`.
pub fn string_of(v: &Vec<char>, from: usize, to: usize) -> (res: String)
    requires
        from <= to <= v.len(),
    ensures
        res@ == v@.subrange(from as int, to as int),
{
    let mut out = String::new();
    let mut i = from;
    while i < to
        invariant
            from <= i <= to <= v.len(),
            out@ == v@.subrange(from as int, i as int),
        decreases to - i,
    {
        string_push(&mut out, v[i]);
        i += 1;
        assert(out@ =~= v@.subrange(from as int, i as int));
    }
    out
}

/// Appends the characters of `t` to `s`.
pub fn push_text(s: &mut String, t: &str)
    ensures
        final(s)@ == old(s)@ + t@,
{
    let chars = chars_of(t);
    let ghost start = s@;
    let mut i: usize = 0;
    while i < chars.len()
        invariant
            chars@ == t@,
            i <= chars.len(),
            s@ == start + t@.take(i as int),
        decreases chars.len() - i,
    {
        string_push(s, chars[i]);
        i += 1;
        assert(s@ =~= start + t@.take(i as int));
    }
    assert(t@.take(chars.len() as int) =~= t@);
}

/// Whether two texts are equal.
pub fn text_equals(a: &str, b: &str) -> (res: bool)
    ensures
        res == (a@ == b@),
{
    let x = chars_of(a);
    let y = chars_of(b);
    if x.len() != y.len() {
        return false;
    }
    let mut i: usize = 0;
    while i < x.len()
        invariant
            x@ == a@,
            y@ == b@,
            x.len() == y.len(),
            i <= x.len(),
            forall|k: int| 0 <= k < i ==> x@[k] == y@[k],
        decreases x.len() - i,
    {
        if x[i] != y[i] {
            return false;
        }
        i += 1;
    }
    assert(x@ =~= y@);
    true
}

/// ASCII lower case of one character (`char::to_ascii_lowercase`).
pub open spec fn ascii_lower(c: char) -> char {
    if 'A' <= c <= 'Z' {
        ((c as u32) + 32) as char
    } else {
        c
    }
}

/// Executable form of [`ascii_lower`].
pub fn to_ascii_lower(c: char) -> (res: char)
    ensures
        res == ascii_lower(c),
{
    if 'A' <= c && c <= 'Z' {
        ((c as u8) + 32) as char
    } else {
        c
    }
}

/// ASCII lower case of a whole text (`str::to_ascii_lowercase`).
pub open spec fn seq_ascii_lower(s: Seq<char>) -> Seq<char> {
    s.map_values(|c: char| ascii_lower(c))
}

/// Two texts are equal up to ASCII case (`str::eq_ignore_ascii_case`).
pub open spec fn eq_ignore_case(a: Seq<char>, b: Seq<char>) -> bool {
    seq_ascii_lower(a) == seq_ascii_lower(b)
}

/// Executable form of [`eq_ignore_case`] on `a[from..to]` and a literal `b`.
pub fn eq_ignore_ascii_case_at(a: &Vec<char>, from: usize, to: usize, b: &str) -> (res: bool)
    requires
        from <= to <= a.len(),
    ensures
        res == eq_ignore_case(a@.subrange(from as int, to as int), b@),
{
    let bv = chars_of(b);
    let ghost x = a@.subrange(from as int, to as int);
    if to - from != bv.len() {
        proof {
            assert(seq_ascii_lower(x).len() != seq_ascii_lower(b@).len());
        }
        return false;
    }
    let mut i: usize = 0;
    while i < bv.len()
        invariant
            to - from == bv.len(),
            from <= to <= a.len(),
            bv@ == b@,
            x == a@.subrange(from as int, to as int),
            0 <= i <= bv.len(),
            forall|k: int| 0 <= k < i ==> ascii_lower(#[trigger] x[k]) == ascii_lower(bv@[k]),
        decreases bv.len() - i,
    {
        if to_ascii_lower(a[from + i]) != to_ascii_lower(bv[i]) {
            proof {
                assert(x[i as int] == a@[from + i]);
                assert(seq_ascii_lower(x)[i as int] != seq_ascii_lower(b@)[i as int]);
            }
            return false;
        }
        assert(x[i as int] == a@[from + i]);
        i += 1;
    }
    assert(seq_ascii_lower(x) =~= seq_ascii_lower(b@));
    true
}

/// Number of leading characters of `s` that satisfy `p`.
pub open spec fn count_prefix(s: Seq<char>, p: spec_fn(char) -> bool) -> nat
    decreases s.len(),
{
    if s.len() > 0 && p(s[0]) {
        1 + count_prefix(s.drop_first(), p)
    } else {
        0
    }
}

/// `count_prefix` is the length of the longest prefix whose characters satisfy `p`.
pub proof fn lemma_count_prefix_is(s: Seq<char>, p: spec_fn(char) -> bool, n: int)
    requires
        0 <= n <= s.len(),
        forall|i: int| 0 <= i < n ==> p(#[trigger] s[i]),
        n < s.len() ==> !p(s[n]),
    ensures
        count_prefix(s, p) == n,
    decreases s.len(),
{
    if n > 0 {
        assert forall|i: int| 0 <= i < n - 1 implies p(#[trigger] s.drop_first()[i]) by {
            assert(s.drop_first()[i] == s[i + 1]);
        }
        if n - 1 < s.drop_first().len() {
            assert(s.drop_first()[n - 1] == s[n]);
        }
        lemma_count_prefix_is(s.drop_first(), p, n - 1);
    }
}

pub proof fn lemma_count_prefix(s: Seq<char>, p: spec_fn(char) -> bool)
    ensures
        count_prefix(s, p) <= s.len(),
        forall|i: int| 0 <= i < count_prefix(s, p) ==> p(#[trigger] s[i]),
        count_prefix(s, p) < s.len() ==> !p(s[count_prefix(s, p) as int]),
    decreases s.len(),
{
    if s.len() > 0 && p(s[0]) {
        lemma_count_prefix(s.drop_first(), p);
        assert forall|i: int| 0 <= i < count_prefix(s, p) implies p(#[trigger] s[i]) by {
            if i > 0 {
                assert(s[i] == s.drop_first()[i - 1]);
            }
        }
    }
}

/// Number of trailing characters of `s` that satisfy `p`.
pub open spec fn count_suffix(s: Seq<char>, p: spec_fn(char) -> bool) -> nat
    decreases s.len(),
{
    if s.len() > 0 && p(s.last()) {
        1 + count_suffix(s.drop_last(), p)
    } else {
        0
    }
}

/// `count_suffix` is the length of the longest suffix whose characters satisfy `p`.
pub proof fn lemma_count_suffix_is(s: Seq<char>, p: spec_fn(char) -> bool, n: int)
    requires
        0 <= n <= s.len(),
        forall|i: int| s.len() - n <= i < s.len() ==> p(#[trigger] s[i]),
        n < s.len() ==> !p(s[s.len() - n - 1]),
    ensures
        count_suffix(s, p) == n,
    decreases s.len(),
{
    if n > 0 {
        let t = s.drop_last();
        assert forall|i: int| t.len() - (n - 1) <= i < t.len() implies p(#[trigger] t[i]) by {
            assert(t[i] == s[i]);
        }
        if n - 1 < t.len() {
            assert(t[t.len() - (n - 1) - 1] == s[s.len() - n - 1]);
        }
        lemma_count_suffix_is(t, p, n - 1);
    }
}

/// Number of leading copies of `c` at the start of `v[from..to]`.
pub fn count_run(v: &Vec<char>, from: usize, to: usize, c: char) -> (n: usize)
    requires
        from <= to <= v.len(),
    ensures
        n == count_prefix(v@.subrange(from as int, to as int), |x: char| x == c),
        from + n <= to,
{
    let ghost s = v@.subrange(from as int, to as int);
    let mut i = from;
    while i < to && v[i] == c
        invariant
            from <= i <= to <= v.len(),
            forall|k: int| from <= k < i ==> v@[k] == c,
        decreases to - i,
    {
        i += 1;
    }
    proof {
        let p = |x: char| x == c;
        assert forall|k: int| 0 <= k < i - from implies p(#[trigger] s[k]) by {
            assert(s[k] == v@[from + k]);
        }
        if i < to {
            assert(s[i - from] == v@[i as int]);
        }
        lemma_count_prefix_is(s, p, i - from);
    }
    i - from
}

/// Whether a non-ASCII character is alphabetic or numeric in Unicode
/// (what `char::is_alphanumeric` answers above U+007F); a function of the
/// character alone.
pub uninterp spec fn spec_unicode_alphanumeric(c: char) -> bool;

/// Calls `char::is_alphanumeric` on a character above U+007F. Trusted: the
/// answer is the character's Unicode `Alphabetic`/`Numeric` property, named
/// [`spec_unicode_alphanumeric`]; a `White_Space` character (which
/// `char::is_whitespace` reports) has neither property.
#[verifier::external_body]
fn char_is_alphanumeric(c: char) -> (res: bool)
    requires
        (c as u32) > 0x7f,
    ensures
        res == spec_unicode_alphanumeric(c),
        is_ws(c) ==> !res,
{
    c.is_alphanumeric()
}

/// `char::is_alphanumeric`: ASCII letters and digits, and above U+007F the
/// Unicode alphabetic and numeric characters, none of which is white space.
pub open spec fn is_alnum(c: char) -> bool {
    ||| 'a' <= c <= 'z'
    ||| 'A' <= c <= 'Z'
    ||| '0' <= c <= '9'
    ||| (c as u32) > 0x7f && !is_ws(c) && spec_unicode_alphanumeric(c)
}

/// Executable form of [`is_alnum`].
pub fn is_alphanumeric(c: char) -> (res: bool)
    ensures
        res == is_alnum(c),
{
    if ('a' <= c && c <= 'z') || ('A' <= c && c <= 'Z') || ('0' <= c && c <= '9') {
        true
    } else if (c as u32) > 0x7f {
        char_is_alphanumeric(c)
    } else {
        false
    }
}

} // verus!
