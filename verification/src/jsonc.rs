//! JSON with comments: removing `//` and `/* */` comments outside string
//! literals, and parsing the result as JSON.
use vstd::prelude::*;

use crate::json_value::{distinct_keys, JsonValue, JsonView};
use crate::text::{chars_of, string_push};

verus! {

/// Where the scanner stands while it strips comments.
pub enum StripMode {
    /// Outside strings and comments.
    Code,
    /// Inside a string literal; `escaped` after a backslash.
    Str { escaped: bool },
    /// Inside a `//` comment.
    LineComment,
    /// Inside a `/* */` comment; `previous` is the comment character read last
    /// (`'\0'` right after the opening `/*`).
    BlockComment { previous: char },
}

/// Puts `c` in front of a successful result.
pub open spec fn prepend(c: char, r: Option<Seq<char>>) -> Option<Seq<char>> {
    match r {
        Some(t) => Some(seq![c] + t),
        None => None,
    }
}

/// Puts `p` in front of a successful result.
pub open spec fn prefix_with(p: Seq<char>, r: Option<Seq<char>>) -> Option<Seq<char>> {
    match r {
        Some(t) => Some(p + t),
        None => None,
    }
}

pub proof fn lemma_prefix_with_empty(r: Option<Seq<char>>)
    ensures
        prefix_with(Seq::<char>::empty(), r) == r,
{
    match r {
        Some(t) => assert(Seq::<char>::empty() + t =~= t),
        None => {},
    }
}

pub proof fn lemma_prefix_with_assoc(a: Seq<char>, b: Seq<char>, r: Option<Seq<char>>)
    ensures
        prefix_with(a, prefix_with(b, r)) == prefix_with(a + b, r),
{
    match r {
        Some(t) => assert(a + (b + t) =~= (a + b) + t),
        None => {},
    }
}

/// The mode after a block-comment character `c` that follows `previous`.
pub open spec fn after_block_char(previous: char, c: char) -> StripMode {
    if previous == '*' && c == '/' {
        StripMode::Code
    } else {
        StripMode::BlockComment { previous: c }
    }
}

/// The mode after a string-literal character `c`.
pub open spec fn after_str_char(escaped: bool, c: char) -> StripMode {
    if escaped {
        StripMode::Str { escaped: false }
    } else if c == '\\' {
        StripMode::Str { escaped: true }
    } else if c == '"' {
        StripMode::Code
    } else {
        StripMode::Str { escaped: false }
    }
}

/// The text that stripping comments from `s`, starting in `mode`, produces;
/// `None` when a block comment is still open at the end of the input.
///
/// Comments are removed, but every line break inside them is kept, so the
/// line numbers of the remaining text do not change. String literals are
/// copied as they are, escapes included.
pub open spec fn strip_from(s: Seq<char>, mode: StripMode) -> Option<Seq<char>>
    decreases s.len(),
{
    if s.len() == 0 {
        match mode {
            StripMode::BlockComment { .. } => None,
            _ => Some(seq![]),
        }
    } else {
        let c = s[0];
        let rest = s.drop_first();
        match mode {
            StripMode::Str { escaped } => prepend(c, strip_from(rest, after_str_char(escaped, c))),
            StripMode::LineComment => if c == '\n' {
                prepend('\n', strip_from(rest, StripMode::Code))
            } else {
                strip_from(rest, StripMode::LineComment)
            },
            StripMode::BlockComment { previous } => if c == '\n' {
                prepend('\n', strip_from(rest, after_block_char(previous, c)))
            } else {
                strip_from(rest, after_block_char(previous, c))
            },
            StripMode::Code => if c == '"' {
                prepend(c, strip_from(rest, StripMode::Str { escaped: false }))
            } else if c == '/' && s.len() >= 2 && s[1] == '/' {
                strip_from(s.skip(2), StripMode::LineComment)
            } else if c == '/' && s.len() >= 2 && s[1] == '*' {
                strip_from(s.skip(2), StripMode::BlockComment { previous: '\0' })
            } else {
                prepend(c, strip_from(rest, StripMode::Code))
            },
        }
    }
}

/// The result of stripping comments from a whole JSONC text.
pub open spec fn strip_comments(s: Seq<char>) -> Option<Seq<char>> {
    strip_from(s, StripMode::Code)
}

/// How many times `c` occurs in `s`.
pub open spec fn count_char(s: Seq<char>, c: char) -> nat
    decreases s.len(),
{
    if s.len() == 0 {
        0
    } else {
        (if s[0] == c {
            1nat
        } else {
            0nat
        }) + count_char(s.drop_first(), c)
    }
}

/// `s` holds no comment opener outside its string literals, when read from `mode`
/// (which is `Code` or `Str`).
pub open spec fn comment_free(s: Seq<char>, mode: StripMode) -> bool
    decreases s.len(),
{
    if s.len() == 0 {
        mode is Code || mode is Str
    } else {
        let c = s[0];
        let rest = s.drop_first();
        match mode {
            StripMode::Str { escaped } => comment_free(rest, after_str_char(escaped, c)),
            StripMode::Code => if c == '"' {
                comment_free(rest, StripMode::Str { escaped: false })
            } else if c == '/' && s.len() >= 2 && (s[1] == '/' || s[1] == '*') {
                false
            } else {
                comment_free(rest, StripMode::Code)
            },
            _ => false,
        }
    }
}

/// The reading mode of the output at the point where the input is in `mode`.
pub open spec fn output_mode(mode: StripMode) -> StripMode {
    match mode {
        StripMode::Str { escaped } => StripMode::Str { escaped },
        _ => StripMode::Code,
    }
}

proof fn lemma_count_cons(c: char, t: Seq<char>, x: char)
    ensures
        count_char(seq![c] + t, x) == (if c == x {
            1nat
        } else {
            0nat
        }) + count_char(t, x),
{
    assert((seq![c] + t).drop_first() =~= t);
}

proof fn lemma_strip_newlines(s: Seq<char>, mode: StripMode)
    ensures
        strip_from(s, mode) matches Some(o) ==> count_char(o, '\n') == count_char(s, '\n'),
    decreases s.len(),
{
    if s.len() > 0 {
        let c = s[0];
        let rest = s.drop_first();
        match mode {
            StripMode::Str { escaped } => {
                lemma_strip_newlines(rest, after_str_char(escaped, c));
                if let Some(t) = strip_from(rest, after_str_char(escaped, c)) {
                    lemma_count_cons(c, t, '\n');
                }
            },
            StripMode::LineComment => {
                if c == '\n' {
                    lemma_strip_newlines(rest, StripMode::Code);
                    if let Some(t) = strip_from(rest, StripMode::Code) {
                        lemma_count_cons('\n', t, '\n');
                    }
                } else {
                    lemma_strip_newlines(rest, StripMode::LineComment);
                }
            },
            StripMode::BlockComment { previous } => {
                lemma_strip_newlines(rest, after_block_char(previous, c));
                if let Some(t) = strip_from(rest, after_block_char(previous, c)) {
                    lemma_count_cons('\n', t, '\n');
                }
            },
            StripMode::Code => {
                if c == '/' && s.len() >= 2 && (s[1] == '/' || s[1] == '*') {
                    assert(rest.drop_first() =~= s.skip(2));
                    assert(rest[0] == s[1]);
                    assert(count_char(rest, '\n') == count_char(s.skip(2), '\n'));
                    if s[1] == '/' {
                        lemma_strip_newlines(s.skip(2), StripMode::LineComment);
                    } else {
                        lemma_strip_newlines(s.skip(2), StripMode::BlockComment { previous: '\0' });
                    }
                } else {
                    let next = if c == '"' {
                        StripMode::Str { escaped: false }
                    } else {
                        StripMode::Code
                    };
                    lemma_strip_newlines(rest, next);
                    if let Some(t) = strip_from(rest, next) {
                        lemma_count_cons(c, t, '\n');
                    }
                }
            },
        }
    }
}

/// Stripping comments keeps every line break: the text without comments has
/// exactly as many lines as the input, so positions reported on it point
/// to the same lines.
pub proof fn law_strip_keeps_line_breaks(s: Seq<char>)
    ensures
        strip_comments(s) matches Some(o) ==> count_char(o, '\n') == count_char(s, '\n'),
{
    lemma_strip_newlines(s, StripMode::Code);
}

proof fn lemma_comment_free_unchanged(s: Seq<char>, mode: StripMode)
    requires
        comment_free(s, mode),
    ensures
        strip_from(s, mode) == Some(s),
    decreases s.len(),
{
    if s.len() > 0 {
        let c = s[0];
        let rest = s.drop_first();
        let next = match mode {
            StripMode::Str { escaped } => after_str_char(escaped, c),
            _ => if c == '"' {
                StripMode::Str { escaped: false }
            } else {
                StripMode::Code
            },
        };
        lemma_comment_free_unchanged(rest, next);
        assert(seq![c] + rest =~= s);
    }
}

/// A text with no comment opener outside its string literals comes back
/// unchanged: string contents such as `"a//b"` or `"/* x */"` are never touched.
pub proof fn law_comment_free_text_unchanged(s: Seq<char>)
    requires
        comment_free(s, StripMode::Code),
    ensures
        strip_comments(s) == Some(s),
{
    lemma_comment_free_unchanged(s, StripMode::Code);
}

proof fn lemma_strip_first_char(s: Seq<char>)
    requires
        s.len() > 0,
        s[0] != '/',
    ensures
        strip_from(s, StripMode::Code) matches Some(o) ==> o.len() > 0 && o[0] == s[0],
{
}

proof fn lemma_strip_comment_free(s: Seq<char>, mode: StripMode)
    ensures
        strip_from(s, mode) matches Some(o) ==> comment_free(o, output_mode(mode)),
    decreases s.len(),
{
    if s.len() > 0 {
        let c = s[0];
        let rest = s.drop_first();
        match mode {
            StripMode::Str { escaped } => {
                lemma_strip_comment_free(rest, after_str_char(escaped, c));
                if let Some(t) = strip_from(rest, after_str_char(escaped, c)) {
                    assert((seq![c] + t).drop_first() =~= t);
                }
            },
            StripMode::LineComment => {
                if c == '\n' {
                    lemma_strip_comment_free(rest, StripMode::Code);
                    if let Some(t) = strip_from(rest, StripMode::Code) {
                        assert((seq!['\n'] + t).drop_first() =~= t);
                    }
                } else {
                    lemma_strip_comment_free(rest, StripMode::LineComment);
                }
            },
            StripMode::BlockComment { previous } => {
                lemma_strip_comment_free(rest, after_block_char(previous, c));
                if let Some(t) = strip_from(rest, after_block_char(previous, c)) {
                    assert((seq!['\n'] + t).drop_first() =~= t);
                }
            },
            StripMode::Code => {
                if c == '/' && s.len() >= 2 && (s[1] == '/' || s[1] == '*') {
                    assert(rest.drop_first() =~= s.skip(2));
                    if s[1] == '/' {
                        lemma_strip_comment_free(s.skip(2), StripMode::LineComment);
                    } else {
                        lemma_strip_comment_free(
                            s.skip(2),
                            StripMode::BlockComment { previous: '\0' },
                        );
                    }
                } else {
                    let next = if c == '"' {
                        StripMode::Str { escaped: false }
                    } else {
                        StripMode::Code
                    };
                    lemma_strip_comment_free(rest, next);
                    if let Some(t) = strip_from(rest, next) {
                        let o = seq![c] + t;
                        assert(o.drop_first() =~= t);
                        if c == '/' && rest.len() > 0 {
                            assert(rest[0] == s[1]);
                            lemma_strip_first_char(rest);
                            assert(o[1] == t[0]);
                        }
                    }
                }
            },
        }
    }
}

/// `a` is a subsequence of `b`: `b` with some characters left out.
pub open spec fn is_subsequence(a: Seq<char>, b: Seq<char>) -> bool
    decreases b.len(),
{
    if b.len() == 0 {
        a.len() == 0
    } else {
        is_subsequence(a, b.drop_first()) || (a.len() > 0 && a[0] == b[0] && is_subsequence(
            a.drop_first(),
            b.drop_first(),
        ))
    }
}

proof fn lemma_strip_subsequence(s: Seq<char>, mode: StripMode)
    ensures
        strip_from(s, mode) matches Some(o) ==> is_subsequence(o, s),
    decreases s.len(),
{
    if s.len() == 0 {
        if let Some(o) = strip_from(s, mode) {
            assert(o.len() == 0);
        }
    } else {
        let c = s[0];
        let rest = s.drop_first();
        let next = match mode {
            StripMode::Str { escaped } => after_str_char(escaped, c),
            StripMode::LineComment => if c == '\n' {
                StripMode::Code
            } else {
                StripMode::LineComment
            },
            StripMode::BlockComment { previous } => after_block_char(previous, c),
            StripMode::Code => if c == '"' {
                StripMode::Str { escaped: false }
            } else {
                StripMode::Code
            },
        };
        let skips_two = mode is Code && c == '/' && s.len() >= 2 && (s[1] == '/' || s[1] == '*');
        if skips_two {
            let m2 = if s[1] == '/' {
                StripMode::LineComment
            } else {
                StripMode::BlockComment { previous: '\0' }
            };
            lemma_strip_subsequence(s.skip(2), m2);
            assert(rest.drop_first() =~= s.skip(2));
            if let Some(o) = strip_from(s, mode) {
                assert(strip_from(s.skip(2), m2) == Some(o));
                assert(is_subsequence(o, rest));
            }
        } else {
            lemma_strip_subsequence(rest, next);
            if let Some(o) = strip_from(s, mode) {
                if let Some(t) = strip_from(rest, next) {
                    if o == seq![c] + t {
                        assert((seq![c] + t).drop_first() =~= t);
                    } else {
                        assert(o == t);
                    }
                }
            }
        }
    }
}

/// Stripping only removes text: the text without comments is the input
/// with some characters left out, in their order.
pub proof fn law_strip_is_subsequence(s: Seq<char>)
    ensures
        strip_comments(s) matches Some(o) ==> is_subsequence(o, s),
{
    lemma_strip_subsequence(s, StripMode::Code);
}

/// Stripping is idempotent: the text without comments holds no comment
/// opener outside strings, so stripping it again changes nothing.
pub proof fn law_strip_idempotent(s: Seq<char>)
    ensures
        strip_comments(s) matches Some(o) ==> strip_comments(o) == Some(o),
{
    lemma_strip_comment_free(s, StripMode::Code);
    if let Some(o) = strip_comments(s) {
        lemma_comment_free_unchanged(o, StripMode::Code);
    }
}

/// Errors of the JSONC reader.
#[derive(Debug, PartialEq, Eq)]
pub enum JsoncError {
    /// A `/*` comment is not closed before the end of the text.
    UnterminatedBlockComment,
    /// The text without comments is not valid JSON; the parser's message.
    Syntax(String),
}

/// Removes `//` line comments and `/* */` block comments that stand outside
/// string literals. Line breaks inside comments are kept.
pub fn strip_jsonc_comments(input: &str) -> (res: Result<String, JsoncError>)
    ensures
        match strip_comments(input@) {
            Some(t) => res matches Ok(out) && out@ == t,
            None => res == Err::<String, JsoncError>(JsoncError::UnterminatedBlockComment),
        },
{
    let chars = chars_of(input);
    let n = chars.len();
    let mut output = String::new();
    let mut mode = StripMode::Code;
    let mut i: usize = 0;
    proof {
        assert(chars@.skip(0) =~= chars@);
        lemma_prefix_with_empty(strip_from(chars@, StripMode::Code));
    }
    while i < n
        invariant
            n == chars@.len(),
            chars@ == input@,
            i <= n,
            strip_comments(input@) == prefix_with(output@, strip_from(chars@.skip(i as int), mode)),
        decreases n - i,
    {
        let ghost out0 = output@;
        let ghost mode0 = mode;
        let ghost s = chars@.skip(i as int);
        let ch = chars[i];
        assert(s[0] == ch);
        assert(s.drop_first() =~= chars@.skip(i + 1));
        let ghost mut emitted: Seq<char> = Seq::empty();
        match mode {
            StripMode::Str { escaped } => {
                string_push(&mut output, ch);
                proof {
                    emitted = seq![ch];
                }
                mode =
                if escaped {
                    StripMode::Str { escaped: false }
                } else if ch == '\\' {
                    StripMode::Str { escaped: true }
                } else if ch == '"' {
                    StripMode::Code
                } else {
                    StripMode::Str { escaped: false }
                };
                i += 1;
            },
            StripMode::LineComment => {
                if ch == '\n' {
                    string_push(&mut output, '\n');
                    proof {
                        emitted = seq!['\n'];
                    }
                    mode = StripMode::Code;
                }
                i += 1;
            },
            StripMode::BlockComment { previous } => {
                if ch == '\n' {
                    string_push(&mut output, '\n');
                    proof {
                        emitted = seq!['\n'];
                    }
                }
                if previous == '*' && ch == '/' {
                    mode = StripMode::Code;
                } else {
                    mode = StripMode::BlockComment { previous: ch };
                }
                i += 1;
            },
            StripMode::Code => {
                if ch == '"' {
                    string_push(&mut output, ch);
                    proof {
                        emitted = seq![ch];
                    }
                    mode = StripMode::Str { escaped: false };
                    i += 1;
                } else if ch == '/' && i + 1 < n && chars[i + 1] == '/' {
                    assert(s[1] == chars@[i + 1]);
                    assert(s.skip(2) =~= chars@.skip(i + 2));
                    mode = StripMode::LineComment;
                    i += 2;
                } else if ch == '/' && i + 1 < n && chars[i + 1] == '*' {
                    assert(s[1] == chars@[i + 1]);
                    assert(s.skip(2) =~= chars@.skip(i + 2));
                    mode = StripMode::BlockComment { previous: '\0' };
                    i += 2;
                } else {
                    proof {
                        if s.len() >= 2 {
                            assert(s[1] == chars@[i + 1]);
                        }
                    }
                    string_push(&mut output, ch);
                    proof {
                        emitted = seq![ch];
                    }
                    i += 1;
                }
            },
        }
        proof {
            let r = strip_from(chars@.skip(i as int), mode);
            assert(output@ =~= out0 + emitted);
            assert(strip_from(s, mode0) == prefix_with(emitted, r)) by {
                if emitted.len() == 0 {
                    lemma_prefix_with_empty(r);
                }
            }
            lemma_prefix_with_assoc(out0, emitted, r);
        }
    }
    proof {
        assert(chars@.skip(n as int) =~= Seq::<char>::empty());
    }
    match mode {
        StripMode::BlockComment { .. } => Err(JsoncError::UnterminatedBlockComment),
        _ => {
            proof {
                assert(output@ + Seq::<char>::empty() =~= output@);
            }
            Ok(output)
        },
    }
}


/// `serde_json::Value`, a JSON document as `serde_json` parses it; opaque
/// here.
#[verifier::external_type_specification]
#[verifier::external_body]
pub struct ExJsonDocument(serde_json::Value);

/// The document `serde_json::from_str::<serde_json::Value>` parses `text`
/// into, as a [`JsonView`] (numbers in `serde_json`'s text form, object
/// members in its key order), or `None` when it refuses the text; a
/// function of the text alone.
pub uninterp spec fn spec_json_parse(text: Seq<char>) -> Option<JsonView>;

/// The library's form of a parsed document: variant for variant, numbers as
/// their text, object members in the document's order.
#[verifier::external_body]
fn json_value_of(value: serde_json::Value) -> JsonValue {
    match value {
        serde_json::Value::Null => JsonValue::Null,
        serde_json::Value::Bool(b) => JsonValue::Bool(b),
        serde_json::Value::Number(n) => JsonValue::Number(n.to_string()),
        serde_json::Value::String(s) => JsonValue::String(s),
        serde_json::Value::Array(items) => JsonValue::Array(items.into_iter().map(json_value_of).collect()),
        serde_json::Value::Object(members) => JsonValue::Object(
            members.into_iter().map(|(key, member)| (key, json_value_of(member))).collect(),
        ),
    }
}

/// Calls `serde_json::from_str::<serde_json::Value>` and converts the
/// document with [`json_value_of`]. Trusted: the result is the named
/// [`spec_json_parse`] of the text, and no object in it repeats a key (the
/// parser keeps members in a map); the wording of the error message is not
/// stated.
#[verifier::external_body]
fn json_from_str(text: &str) -> (res: Result<JsonValue, String>)
    ensures
        match res {
            Ok(value) => spec_json_parse(text@) == Some(value@),
            Err(_) => spec_json_parse(text@) is None,
        },
        res matches Ok(value) ==> distinct_keys(value@),
{
    match serde_json::from_str::<serde_json::Value>(text) {
        Ok(value) => Ok(json_value_of(value)),
        Err(err) => Err(err.to_string()),
    }
}

/// `res` is the outcome of parsing JSON text `t`: the parsed document, or a
/// syntax error when the parser refuses the text.
pub open spec fn json_outcome(t: Seq<char>, res: Result<JsonValue, JsoncError>) -> bool {
    match spec_json_parse(t) {
        Some(doc) => res matches Ok(value) && value@ == doc,
        None => res matches Err(JsoncError::Syntax(_)),
    }
}

/// Parses a JSON document that may hold comments: the comments are removed
/// with [`strip_jsonc_comments`] and the rest is handed to the JSON parser.
pub fn parse_jsonc_value(text: &str) -> (res: Result<JsonValue, JsoncError>)
    ensures
        match strip_comments(text@) {
            None => res == Err::<JsonValue, JsoncError>(JsoncError::UnterminatedBlockComment),
            Some(t) => json_outcome(t, res),
        },
        res matches Ok(value) ==> distinct_keys(value@),
{
    match strip_jsonc_comments(text) {
        Err(err) => Err(err),
        Ok(stripped) => parse_json_text(stripped.as_str()),
    }
}

/// Parses a JSON document that holds no comments.
pub fn parse_json_text(text: &str) -> (res: Result<JsonValue, JsoncError>)
    ensures
        json_outcome(text@, res),
        res matches Ok(value) ==> distinct_keys(value@),
{
    match json_from_str(text) {
        Ok(value) => Ok(value),
        Err(message) => Err(JsoncError::Syntax(message)),
    }
}

} // verus!
