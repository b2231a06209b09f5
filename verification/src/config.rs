//! User configuration: where imported language and theme packs live, which
//! files are configuration files, how their text is parsed, and the file
//! names given to imported packs.
use std::path::{Path, PathBuf};

use vstd::prelude::*;

use crate::json_value::{distinct_keys, JsonValue};
use crate::jsonc::{parse_json_text, parse_jsonc_value, spec_json_parse, strip_comments, JsoncError};
use crate::text::{
    chars_of, eq_ignore_ascii_case_at, eq_ignore_case, is_alnum, is_alphanumeric, is_white_space,
    is_ws, leading_ws, lemma_leading_ws, lemma_trailing_ws, string_of, trailing_ws,
    string_push, trim, trim_bounds,
};

verus! {

/// `std::path::PathBuf`, an owned file-system path; opaque here.
#[verifier::external_type_specification]
#[verifier::external_body]
pub struct ExPathBuf(PathBuf);

/// `std::path::Path`, a borrowed file-system path; opaque here.
#[verifier::external_type_specification]
#[verifier::external_body]
pub struct ExPath(Path);

/// The path `Path::join` makes of `base` and `segment`, as this platform
/// joins paths.
pub uninterp spec fn spec_path_join(base: PathBuf, segment: Seq<char>) -> PathBuf;

/// Calls `Path::join`. Trusted: the result is the named [`spec_path_join`]
/// of the base and the segment.
#[verifier::external_body]
fn path_join(base: &PathBuf, segment: &str) -> (res: PathBuf)
    ensures
        res == spec_path_join(*base, segment@),
{
    base.join(segment)
}

/// The extension `Path::extension` finds in `path` (what follows the last
/// dot of its file name), when there is one and it is valid UTF-8, as this
/// platform reads paths.
pub uninterp spec fn spec_path_extension(path: &Path) -> Option<Seq<char>>;

/// Calls `Path::extension` and keeps the extension when it is valid UTF-8.
/// Trusted: the result is the named [`spec_path_extension`] of the path, and
/// an extension never holds a `.`.
#[verifier::external_body]
fn path_extension(path: &Path) -> (res: Option<String>)
    ensures
        match res {
            Some(ext) => spec_path_extension(path) == Some(ext@),
            None => spec_path_extension(path) is None,
        },
        res matches Some(ext) ==> !ext@.contains('.'),
{
    match path.extension() {
        Some(ext) => match ext.to_str() {
            Some(text) => Some(text.to_string()),
            None => None,
        },
        None => None,
    }
}

/// Configuration directories owned by the application.
pub struct VelotypeConfigDirs {
    root: PathBuf,
}

impl VelotypeConfigDirs {
    /// The root directory that all configuration directories hang off.
    pub closed spec fn root(&self) -> PathBuf {
        self.root
    }

    /// Creates a directory set from a caller-provided root.
    pub fn from_root(root: PathBuf) -> (res: Self)
        ensures
            res.root() == root,
    {
        VelotypeConfigDirs { root }
    }

    /// Directory of imported language packs: `<root>/languages`.
    pub fn languages_dir(&self) -> (res: PathBuf)
        ensures
            res == spec_path_join(self.root(), "languages"@),
    {
        path_join(&self.root, "languages")
    }

    /// Directory of imported theme packs: `<root>/themes`.
    pub fn themes_dir(&self) -> (res: PathBuf)
        ensures
            res == spec_path_join(self.root(), "themes"@),
    {
        path_join(&self.root, "themes")
    }

    /// The preferences file: `<root>/config.toml`.
    pub fn app_config_file(&self) -> (res: PathBuf)
        ensures
            res == spec_path_join(self.root(), "config.toml"@),
    {
        path_join(&self.root, "config.toml")
    }
}

/// `ext` names a configuration file: `json` or `jsonc`, in any ASCII case.
pub open spec fn is_config_extension(ext: Seq<char>) -> bool {
    eq_ignore_case(ext, seq!['j', 's', 'o', 'n']) || eq_ignore_case(
        ext,
        seq!['j', 's', 'o', 'n', 'c'],
    )
}

/// `ext` names a JSON file with comments: `jsonc` in any ASCII case.
pub open spec fn is_jsonc_extension(ext: Seq<char>) -> bool {
    eq_ignore_case(ext, seq!['j', 's', 'o', 'n', 'c'])
}

fn ext_matches(ext: &str, expected: &str) -> (res: bool)
    ensures
        res == eq_ignore_case(ext@, expected@),
{
    let chars = chars_of(ext);
    let res = eq_ignore_ascii_case_at(&chars, 0, chars.len(), expected);
    assert(chars@.subrange(0, chars@.len() as int) =~= ext@);
    res
}

/// Whether a file with this extension is accepted as a configuration file.
pub fn is_supported_config_extension(extension: Option<&str>) -> (res: bool)
    ensures
        res == (extension matches Some(ext) && is_config_extension(ext@)),
{
    match extension {
        Some(ext) => {
            proof {
                reveal_strlit("json");
                reveal_strlit("jsonc");
                assert("json"@ =~= seq!['j', 's', 'o', 'n']);
                assert("jsonc"@ =~= seq!['j', 's', 'o', 'n', 'c']);
            }
            ext_matches(ext, "json") || ext_matches(ext, "jsonc")
        },
        None => false,
    }
}

/// Configuration files must use the `.json` or `.jsonc` extension (any ASCII case).
/// The extension is read with `Path::extension`; the decision on it is
/// [`is_supported_config_extension`].
pub fn is_supported_config_file(path: &Path) -> (res: bool)
    ensures
        res == (spec_path_extension(path) matches Some(ext) && is_config_extension(ext)),
{
    let ext = path_extension(path);
    match ext {
        Some(e) => is_supported_config_extension(Some(e.as_str())),
        None => false,
    }
}

/// Errors of reading a configuration file's text.
#[derive(Debug, PartialEq, Eq)]
pub enum ConfigError {
    /// The file does not use the `.json` or `.jsonc` extension.
    UnsupportedExtension,
    /// The text is not a valid JSON (or JSONC) document.
    Json(JsoncError),
}

/// `res` is the outcome of parsing JSON text `t` as a configuration file:
/// the parsed document, or the parser's syntax error.
pub open spec fn config_outcome(t: Seq<char>, res: Result<JsonValue, ConfigError>) -> bool {
    match spec_json_parse(t) {
        Some(doc) => res matches Ok(value) && value@ == doc,
        None => res matches Err(ConfigError::Json(JsoncError::Syntax(_))),
    }
}

/// Parses the text of a configuration file whose file name has `extension`:
/// `.jsonc` files may hold comments, `.json` files are plain JSON, and any
/// other extension is refused.
pub fn parse_config_text(extension: Option<&str>, text: &str) -> (res: Result<
    JsonValue,
    ConfigError,
>)
    ensures
        !(extension matches Some(ext) && is_config_extension(ext@)) ==> res
            == Err::<JsonValue, ConfigError>(ConfigError::UnsupportedExtension),
        (extension matches Some(ext) && is_jsonc_extension(ext@)) ==> match strip_comments(
            text@,
        ) {
            None => res == Err::<JsonValue, ConfigError>(
                ConfigError::Json(JsoncError::UnterminatedBlockComment),
            ),
            Some(t) => config_outcome(t, res),
        },
        (extension matches Some(ext) && is_config_extension(ext@) && !is_jsonc_extension(ext@))
            ==> config_outcome(text@, res),
        res matches Ok(value) ==> distinct_keys(value@),
{
    if !is_supported_config_extension(extension) {
        return Err(ConfigError::UnsupportedExtension);
    }
    let is_jsonc = match extension {
        Some(ext) => {
            proof {
                reveal_strlit("jsonc");
                assert("jsonc"@ =~= seq!['j', 's', 'o', 'n', 'c']);
            }
            ext_matches(ext, "jsonc")
        },
        None => false,
    };
    let parsed = if is_jsonc {
        parse_jsonc_value(text)
    } else {
        parse_json_text(text)
    };
    match parsed {
        Ok(value) => Ok(value),
        Err(err) => Err(ConfigError::Json(err)),
    }
}

} // verus!

verus! {

/// A character that an imported pack's file name may keep.
pub open spec fn stem_char_allowed(c: char) -> bool {
    is_alnum(c) || c == '-' || c == '_' || c == '.'
}

/// A character that is trimmed from both ends of a file name.
pub open spec fn is_stem_edge(c: char) -> bool {
    c == '_' || c == '.'
}

/// Reads `s` after `out` has been produced: runs of white space become one
/// `_` (none before the first kept character), allowed characters are kept,
/// all others are dropped.
pub open spec fn collapse_from(s: Seq<char>, out: Seq<char>, last_sep: bool) -> Seq<char>
    decreases s.len(),
{
    if s.len() == 0 {
        out
    } else {
        let c = s[0];
        let rest = s.drop_first();
        if is_ws(c) {
            if !last_sep && out.len() > 0 {
                collapse_from(rest, out.push('_'), true)
            } else {
                collapse_from(rest, out, last_sep)
            }
        } else if stem_char_allowed(c) {
            collapse_from(rest, out.push(c), false)
        } else {
            collapse_from(rest, out, last_sep)
        }
    }
}

/// Number of leading `_`/`.` characters of `s`.
pub open spec fn leading_edge(s: Seq<char>) -> nat
    decreases s.len(),
{
    if s.len() > 0 && is_stem_edge(s[0]) {
        1 + leading_edge(s.drop_first())
    } else {
        0
    }
}

/// Number of trailing `_`/`.` characters of `s`.
pub open spec fn trailing_edge(s: Seq<char>) -> nat
    decreases s.len(),
{
    if s.len() > 0 && is_stem_edge(s.last()) {
        1 + trailing_edge(s.drop_last())
    } else {
        0
    }
}

/// `s` without leading and trailing `_` and `.` (`str::trim_matches(['_', '.'])`).
pub open spec fn trim_edges(s: Seq<char>) -> Seq<char> {
    let t = s.skip(leading_edge(s) as int);
    t.take(t.len() - trailing_edge(t))
}

/// The name given when nothing usable is left.
pub open spec fn custom_stem() -> Seq<char> {
    seq!['c', 'u', 's', 't', 'o', 'm']
}

/// The file stem that [`sanitize_config_file_stem`] makes of `value`.
pub open spec fn sanitized_stem(value: Seq<char>) -> Seq<char> {
    let o = trim_edges(collapse_from(trim(value), seq![], false));
    if o.len() == 0 {
        custom_stem()
    } else {
        o
    }
}

/// `s` is a well-formed file stem: non-empty, made of allowed characters and
/// no white space, and neither starting nor ending with `_` or `.`.
pub open spec fn is_clean_stem(s: Seq<char>) -> bool {
    &&& s.len() > 0
    &&& forall|i: int| 0 <= i < s.len() ==> stem_char_allowed(#[trigger] s[i]) && !is_ws(s[i])
    &&& !is_stem_edge(s[0])
    &&& !is_stem_edge(s.last())
}

proof fn lemma_leading_edge(s: Seq<char>)
    ensures
        leading_edge(s) <= s.len(),
        leading_edge(s) < s.len() ==> !is_stem_edge(s[leading_edge(s) as int]),
        forall|i: int| 0 <= i < leading_edge(s) ==> is_stem_edge(#[trigger] s[i]),
    decreases s.len(),
{
    if s.len() > 0 && is_stem_edge(s[0]) {
        lemma_leading_edge(s.drop_first());
        assert forall|i: int| 0 <= i < leading_edge(s) implies is_stem_edge(#[trigger] s[i]) by {
            if i > 0 {
                assert(s[i] == s.drop_first()[i - 1]);
            }
        }
    }
}

proof fn lemma_trailing_edge(s: Seq<char>)
    ensures
        trailing_edge(s) <= s.len(),
        trailing_edge(s) < s.len() ==> !is_stem_edge(s[s.len() - trailing_edge(s) - 1]),
        forall|i: int| s.len() - trailing_edge(s) <= i < s.len() ==> is_stem_edge(#[trigger] s[i]),
    decreases s.len(),
{
    if s.len() > 0 && is_stem_edge(s.last()) {
        lemma_trailing_edge(s.drop_last());
        assert forall|i: int| s.len() - trailing_edge(s) <= i < s.len() implies is_stem_edge(
            #[trigger] s[i],
        ) by {
            if i < s.len() - 1 {
                assert(s[i] == s.drop_last()[i]);
            }
        }
    }
}

proof fn lemma_leading_edge_is(s: Seq<char>, n: int)
    requires
        0 <= n <= s.len(),
        forall|i: int| 0 <= i < n ==> is_stem_edge(#[trigger] s[i]),
        n < s.len() ==> !is_stem_edge(s[n]),
    ensures
        leading_edge(s) == n,
    decreases s.len(),
{
    if n > 0 {
        assert forall|i: int| 0 <= i < n - 1 implies is_stem_edge(#[trigger] s.drop_first()[i]) by {
            assert(s.drop_first()[i] == s[i + 1]);
        }
        if n - 1 < s.drop_first().len() {
            assert(s.drop_first()[n - 1] == s[n]);
        }
        lemma_leading_edge_is(s.drop_first(), n - 1);
    }
}

proof fn lemma_trailing_edge_is(s: Seq<char>, n: int)
    requires
        0 <= n <= s.len(),
        forall|i: int| s.len() - n <= i < s.len() ==> is_stem_edge(#[trigger] s[i]),
        n < s.len() ==> !is_stem_edge(s[s.len() - n - 1]),
    ensures
        trailing_edge(s) == n,
    decreases s.len(),
{
    if n > 0 {
        let t = s.drop_last();
        assert forall|i: int| t.len() - (n - 1) <= i < t.len() implies is_stem_edge(#[trigger] t[i]) by {
            assert(t[i] == s[i]);
        }
        if n - 1 < t.len() {
            assert(t[t.len() - (n - 1) - 1] == s[s.len() - n - 1]);
        }
        lemma_trailing_edge_is(t, n - 1);
    }
}

/// Every character that `collapse_from` adds is allowed and no white space.
proof fn lemma_collapse_chars(s: Seq<char>, out: Seq<char>, last_sep: bool)
    requires
        forall|i: int| 0 <= i < out.len() ==> stem_char_allowed(#[trigger] out[i]) && !is_ws(out[i]),
    ensures
        forall|i: int|
            0 <= i < collapse_from(s, out, last_sep).len() ==> stem_char_allowed(
                #[trigger] collapse_from(s, out, last_sep)[i],
            ) && !is_ws(collapse_from(s, out, last_sep)[i]),
    decreases s.len(),
{
    if s.len() == 0 {
        assert(collapse_from(s, out, last_sep) == out);
    } else {
        let c = s[0];
        let rest = s.drop_first();
        let (out2, sep2) = if is_ws(c) {
            if !last_sep && out.len() > 0 {
                (out.push('_'), true)
            } else {
                (out, last_sep)
            }
        } else if stem_char_allowed(c) {
            (out.push(c), false)
        } else {
            (out, last_sep)
        };
        assert(collapse_from(s, out, last_sep) == collapse_from(rest, out2, sep2));
        assert forall|i: int| 0 <= i < out2.len() implies stem_char_allowed(#[trigger] out2[i])
            && !is_ws(out2[i]) by {
            if i < out.len() {
                assert(out2[i] == out[i]);
            }
        }
        lemma_collapse_chars(rest, out2, sep2);
    }
}

/// A text made only of allowed characters without white space is copied as it is.
proof fn lemma_collapse_clean(s: Seq<char>, out: Seq<char>, last_sep: bool)
    requires
        forall|i: int| 0 <= i < s.len() ==> stem_char_allowed(#[trigger] s[i]) && !is_ws(s[i]),
    ensures
        collapse_from(s, out, last_sep) == out + s,
    decreases s.len(),
{
    if s.len() == 0 {
        assert(out + s =~= out);
    } else {
        let rest = s.drop_first();
        assert forall|i: int| 0 <= i < rest.len() implies stem_char_allowed(#[trigger] rest[i])
            && !is_ws(rest[i]) by {
            assert(rest[i] == s[i + 1]);
        }
        assert(stem_char_allowed(s[0]) && !is_ws(s[0]));
        lemma_collapse_clean(rest, out.push(s[0]), false);
        assert(out.push(s[0]) + rest =~= out + s);
    }
}

/// Trimming `_` and `.` from both ends keeps a sub-run of the text that,
/// when not empty, neither starts nor ends with those characters.
proof fn lemma_trim_edges(s: Seq<char>)
    ensures
        ({
            let o = trim_edges(s);
            &&& forall|i: int| 0 <= i < o.len() ==> exists|j: int| 0 <= j < s.len() && #[trigger] o[i] == s[j]
            &&& o.len() > 0 ==> !is_stem_edge(o[0]) && !is_stem_edge(o.last())
        }),
{
    let t = s.skip(leading_edge(s) as int);
    lemma_leading_edge(s);
    lemma_trailing_edge(t);
    let o = trim_edges(s);
    assert forall|i: int| 0 <= i < o.len() implies exists|j: int| 0 <= j < s.len() && #[trigger] o[i] == s[j] by {
        assert(o[i] == s[i + leading_edge(s)]);
    }
    if o.len() > 0 {
        assert(o[0] == t[0]);
        assert(o.last() == t[t.len() - trailing_edge(t) - 1]);
    }
}

/// Text that is already a clean stem is its own trimmed form.
proof fn lemma_trim_edges_clean(s: Seq<char>)
    requires
        s.len() > 0,
        !is_stem_edge(s[0]),
        !is_stem_edge(s.last()),
    ensures
        trim_edges(s) == s,
{
    lemma_leading_edge_is(s, 0);
    assert(s.skip(0) =~= s);
    lemma_trailing_edge_is(s, 0);
    assert(s.take(s.len() as int) =~= s);
}

/// A clean stem has nothing to trim.
proof fn lemma_trim_clean(s: Seq<char>)
    requires
        forall|i: int| 0 <= i < s.len() ==> !is_ws(#[trigger] s[i]),
    ensures
        trim(s) == s,
{
    crate::text::lemma_leading_ws_char(s, 0);
    assert(s.skip(0) =~= s);
    crate::text::lemma_trailing_ws_char(s, 0);
    assert(s.take(s.len() as int) =~= s);
}

/// Every stem that [`sanitize_config_file_stem`] produces is clean: never
/// empty, only letters, digits, `-`, `_` and `.`, no white space, and no `_`
/// or `.` at either end.
pub proof fn law_sanitized_stem_is_clean(value: Seq<char>)
    ensures
        is_clean_stem(sanitized_stem(value)),
{
    let c = collapse_from(trim(value), seq![], false);
    lemma_collapse_chars(trim(value), seq![], false);
    lemma_trim_edges(c);
    let o = trim_edges(c);
    if o.len() > 0 {
        assert forall|i: int| 0 <= i < o.len() implies stem_char_allowed(#[trigger] o[i]) && !is_ws(o[i]) by {
            let j = choose|j: int| 0 <= j < c.len() && o[i] == c[j];
        }
    } else {
        let k = custom_stem();
        assert forall|i: int| 0 <= i < k.len() implies stem_char_allowed(#[trigger] k[i]) && !is_ws(k[i]) by {}
    }
}

/// Sanitizing is idempotent: a sanitized stem is left as it is.
pub proof fn law_sanitize_idempotent(value: Seq<char>)
    ensures
        sanitized_stem(sanitized_stem(value)) == sanitized_stem(value),
{
    let s = sanitized_stem(value);
    law_sanitized_stem_is_clean(value);
    lemma_trim_clean(s);
    lemma_collapse_clean(s, seq![], false);
    assert(Seq::<char>::empty() + s =~= s);
    lemma_trim_edges_clean(s);
}

/// A character of a pack's name that its file stem keeps: a letter, a
/// digit or `-`.
pub open spec fn is_name_char(c: char) -> bool {
    is_alnum(c) || c == '-'
}

/// The letters, digits and `-` of `s`, in order.
pub open spec fn name_chars(s: Seq<char>) -> Seq<char>
    decreases s.len(),
{
    if s.len() == 0 {
        seq![]
    } else if is_name_char(s[0]) {
        seq![s[0]] + name_chars(s.drop_first())
    } else {
        name_chars(s.drop_first())
    }
}

proof fn lemma_name_chars_concat(a: Seq<char>, b: Seq<char>)
    ensures
        name_chars(a + b) == name_chars(a) + name_chars(b),
    decreases a.len(),
{
    if a.len() == 0 {
        assert(a + b =~= b);
        assert(Seq::<char>::empty() + name_chars(b) =~= name_chars(b));
    } else {
        assert((a + b).drop_first() =~= a.drop_first() + b);
        assert((a + b)[0] == a[0]);
        lemma_name_chars_concat(a.drop_first(), b);
        if is_name_char(a[0]) {
            assert(seq![a[0]] + (name_chars(a.drop_first()) + name_chars(b)) =~= (seq![a[0]]
                + name_chars(a.drop_first())) + name_chars(b));
        }
    }
}

proof fn lemma_name_chars_none(s: Seq<char>)
    requires
        forall|i: int| 0 <= i < s.len() ==> !is_name_char(#[trigger] s[i]),
    ensures
        name_chars(s) == Seq::<char>::empty(),
    decreases s.len(),
{
    if s.len() > 0 {
        assert forall|i: int| 0 <= i < s.drop_first().len() implies !is_name_char(
            #[trigger] s.drop_first()[i],
        ) by {
            assert(s.drop_first()[i] == s[i + 1]);
        }
        assert(!is_name_char(s[0]));
        lemma_name_chars_none(s.drop_first());
    }
}

/// Cutting off a head and a tail with no name characters keeps the name
/// characters.
proof fn lemma_name_chars_middle(s: Seq<char>, a: int, b: int)
    requires
        0 <= a <= b <= s.len(),
        forall|i: int| 0 <= i < a ==> !is_name_char(#[trigger] s[i]),
        forall|i: int| b <= i < s.len() ==> !is_name_char(#[trigger] s[i]),
    ensures
        name_chars(s.subrange(a, b)) == name_chars(s),
{
    let h = s.subrange(0, a);
    let m = s.subrange(a, b);
    let t = s.subrange(b, s.len() as int);
    assert(s =~= h + m + t);
    assert forall|i: int| 0 <= i < h.len() implies !is_name_char(#[trigger] h[i]) by {
        assert(h[i] == s[i]);
    }
    assert forall|i: int| 0 <= i < t.len() implies !is_name_char(#[trigger] t[i]) by {
        assert(t[i] == s[i + b]);
    }
    lemma_name_chars_none(h);
    lemma_name_chars_none(t);
    lemma_name_chars_concat(h + m, t);
    lemma_name_chars_concat(h, m);
    assert(Seq::<char>::empty() + name_chars(m) =~= name_chars(m));
    assert(name_chars(m) + Seq::<char>::empty() =~= name_chars(m));
}

proof fn lemma_name_chars_trim(v: Seq<char>)
    ensures
        name_chars(trim(v)) == name_chars(v),
{
    let l = leading_ws(v) as int;
    lemma_leading_ws(v);
    let u = v.skip(l);
    lemma_trailing_ws(u);
    let t = trailing_ws(u) as int;
    assert(trim(v) =~= v.subrange(l, v.len() - t));
    assert forall|i: int| v.len() - t <= i < v.len() implies !is_name_char(#[trigger] v[i]) by {
        assert(v[i] == u[i - l]);
    }
    lemma_name_chars_middle(v, l, v.len() - t);
}

proof fn lemma_name_chars_collapse(s: Seq<char>, out: Seq<char>, last_sep: bool)
    ensures
        name_chars(collapse_from(s, out, last_sep)) == name_chars(out) + name_chars(s),
    decreases s.len(),
{
    if s.len() == 0 {
        assert(name_chars(out) + name_chars(s) =~= name_chars(out));
    } else {
        let c = s[0];
        let rest = s.drop_first();
        let (out2, sep2) = if is_ws(c) {
            if !last_sep && out.len() > 0 {
                (out.push('_'), true)
            } else {
                (out, last_sep)
            }
        } else if stem_char_allowed(c) {
            (out.push(c), false)
        } else {
            (out, last_sep)
        };
        assert(collapse_from(s, out, last_sep) == collapse_from(rest, out2, sep2));
        lemma_name_chars_collapse(rest, out2, sep2);
        lemma_name_chars_concat(out, seq![c]);
        lemma_name_chars_concat(out, seq!['_']);
        assert(seq![c].drop_first() =~= Seq::<char>::empty());
        assert(seq!['_'].drop_first() =~= Seq::<char>::empty());
        assert(out.push(c) =~= out + seq![c]);
        assert(out.push('_') =~= out + seq!['_']);
        assert(name_chars(seq!['_']) == name_chars(seq!['_'].drop_first()));
        if is_name_char(c) {
            assert(name_chars(seq![c]) == seq![c] + name_chars(seq![c].drop_first()));
            assert(seq![c] + Seq::<char>::empty() =~= seq![c]);
            assert(name_chars(s) == seq![c] + name_chars(rest));
            assert(name_chars(out) + (seq![c] + name_chars(rest)) =~= (name_chars(out) + seq![c])
                + name_chars(rest));
        } else {
            assert(name_chars(s) == name_chars(rest));
            assert(name_chars(seq![c]) == name_chars(seq![c].drop_first()));
            assert(name_chars(out) + Seq::<char>::empty() =~= name_chars(out));
        }
    }
}

proof fn lemma_name_chars_trim_edges(x: Seq<char>)
    ensures
        name_chars(trim_edges(x)) == name_chars(x),
{
    let l = leading_edge(x) as int;
    lemma_leading_edge(x);
    let u = x.skip(l);
    lemma_trailing_edge(u);
    let t = trailing_edge(u) as int;
    assert(trim_edges(x) =~= x.subrange(l, x.len() - t));
    assert forall|i: int| x.len() - t <= i < x.len() implies !is_name_char(#[trigger] x[i]) by {
        assert(x[i] == u[i - l]);
    }
    lemma_name_chars_middle(x, l, x.len() - t);
}

/// The file stem keeps exactly the letters, digits and `-` of the name, in
/// order; a name with none of them becomes `custom`.
pub proof fn law_sanitize_keeps_name_characters(value: Seq<char>)
    ensures
        name_chars(value).len() > 0 ==> name_chars(sanitized_stem(value)) == name_chars(value),
        name_chars(value).len() == 0 ==> sanitized_stem(value) == custom_stem(),
{
    let c = collapse_from(trim(value), seq![], false);
    lemma_name_chars_trim(value);
    lemma_name_chars_collapse(trim(value), seq![], false);
    assert(name_chars(Seq::<char>::empty()) + name_chars(trim(value)) =~= name_chars(trim(value)));
    lemma_name_chars_trim_edges(c);
    let o = trim_edges(c);
    if o.len() > 0 {
        lemma_collapse_chars(trim(value), seq![], false);
        lemma_trim_edges(c);
        let j = choose|j: int| 0 <= j < c.len() && o[0] == c[j];
        assert(stem_char_allowed(o[0]) && !is_ws(o[0]));
        assert(is_name_char(o[0]));
        assert(name_chars(o).len() > 0);
    }
}

/// Turns a pack's display name into a file stem: surrounding white space
/// is dropped, inner runs of white space become one `_`, only letters,
/// digits, `-`, `_` and `.` are kept, `_` and `.` are trimmed from both ends,
/// and an empty result becomes `custom`.
pub fn sanitize_config_file_stem(value: &str) -> (res: String)
    ensures
        res@ == sanitized_stem(value@),
        is_clean_stem(res@),
{
    let chars = chars_of(value);
    let (a, b) = trim_bounds(&chars, 0, chars.len());
    let ghost t = chars@.subrange(a as int, b as int);
    proof {
        assert(chars@.subrange(0, chars@.len() as int) =~= value@);
    }
    let mut out: Vec<char> = Vec::new();
    let mut last_sep = false;
    let mut i = a;
    proof {
        assert(t.skip(0) =~= t);
    }
    while i < b
        invariant
            a <= i <= b <= chars.len(),
            t == chars@.subrange(a as int, b as int),
            collapse_from(t, seq![], false) == collapse_from(t.skip(i - a), out@, last_sep),
        decreases b - i,
    {
        let ch = chars[i];
        let ghost r = t.skip(i - a);
        assert(r[0] == ch);
        assert(r.drop_first() =~= t.skip(i + 1 - a));
        if is_white_space(ch) {
            if !last_sep && out.len() > 0 {
                out.push('_');
                last_sep = true;
            }
        } else if is_alphanumeric(ch) || ch == '-' || ch == '_' || ch == '.' {
            out.push(ch);
            last_sep = false;
        }
        i += 1;
    }
    proof {
        assert(t.skip(b - a) =~= Seq::<char>::empty());
    }
    // Trim `_` and `.` from both ends.
    let mut lo: usize = 0;
    while lo < out.len() && (out[lo] == '_' || out[lo] == '.')
        invariant
            lo <= out.len(),
            forall|k: int| 0 <= k < lo ==> is_stem_edge(#[trigger] out@[k]),
        decreases out.len() - lo,
    {
        lo += 1;
    }
    proof {
        lemma_leading_edge_is(out@, lo as int);
    }
    let mut hi: usize = out.len();
    while hi > lo && (out[hi - 1] == '_' || out[hi - 1] == '.')
        invariant
            lo <= hi <= out.len(),
            forall|k: int| hi <= k < out.len() ==> is_stem_edge(#[trigger] out@[k]),
        decreases hi,
    {
        hi -= 1;
    }
    proof {
        let u = out@.skip(lo as int);
        assert forall|k: int| u.len() - (out.len() - hi) <= k < u.len() implies is_stem_edge(#[trigger] u[k]) by {
            assert(u[k] == out@[lo + k]);
        }
        if hi > lo {
            assert(u[u.len() - (out.len() - hi) - 1] == out@[hi - 1]);
        }
        lemma_trailing_edge_is(u, out.len() - hi);
        assert(trim_edges(out@) =~= out@.subrange(lo as int, hi as int));
        law_sanitized_stem_is_clean(value@);
    }
    if lo == hi {
        proof {
            reveal_strlit("custom");
            assert("custom"@ =~= custom_stem());
        }
        "custom".to_owned()
    } else {
        string_of(&out, lo, hi)
    }
}

} // verus!
