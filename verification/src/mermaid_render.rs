//! Rendering Mermaid diagrams: which sources are handed to the renderer,
//! the renderer's verdict, and the name of a rendering in the cache.
use std::collections::hash_map::DefaultHasher;
use std::hash::{Hash, Hasher};

use vstd::prelude::*;

use crate::text::{
    chars_of, count_prefix, lemma_count_prefix_is, trim, trim_bounds,
};

verus! {

/// The index just past the line of `s` that starts at `from`.
pub open spec fn line_end(s: Seq<char>, from: int) -> int {
    from + count_prefix(s.skip(from), |x: char| x != '\n')
}

/// `lower` starts with the keyword of a diagram type that the renderer knows.
pub open spec fn known_diagram_start(lower: Seq<char>) -> bool {
    ||| "sequencediagram"@.is_prefix_of(lower)
    ||| "classdiagram"@.is_prefix_of(lower)
    ||| "statediagram"@.is_prefix_of(lower)
    ||| "erdiagram"@.is_prefix_of(lower)
    ||| "pie"@.is_prefix_of(lower)
    ||| "mindmap"@.is_prefix_of(lower)
    ||| "journey"@.is_prefix_of(lower)
    ||| "timeline"@.is_prefix_of(lower)
    ||| "gantt"@.is_prefix_of(lower)
    ||| "requirementdiagram"@.is_prefix_of(lower)
    ||| "gitgraph"@.is_prefix_of(lower)
    ||| "c4"@.is_prefix_of(lower)
    ||| "sankey"@.is_prefix_of(lower)
    ||| "quadrantchart"@.is_prefix_of(lower)
    ||| "zenuml"@.is_prefix_of(lower)
    ||| "block"@.is_prefix_of(lower)
    ||| "packet"@.is_prefix_of(lower)
    ||| "kanban"@.is_prefix_of(lower)
    ||| "architecture"@.is_prefix_of(lower)
    ||| "radar"@.is_prefix_of(lower)
    ||| "treemap"@.is_prefix_of(lower)
    ||| "xychart"@.is_prefix_of(lower)
    ||| "flowchart"@.is_prefix_of(lower)
    ||| "graph"@.is_prefix_of(lower)
}

/// Reading the lines of `s` from position `from`, where `in_frontmatter`
/// says whether a `---` front-matter block is open: blank lines, front
/// matter and `%%` comment lines are skipped, and the first other line
/// decides, by its diagram keyword in any ASCII case.
pub open spec fn supported_from(s: Seq<char>, from: int, in_frontmatter: bool) -> bool
    decreases s.len() + 1 - from,
{
    if from < 0 || from > s.len() {
        false
    } else {
        let e = line_end(s, from);
        proof {
            crate::text::lemma_count_prefix(s.skip(from), |x: char| x != '\n');
        }
        let t = trim(s.subrange(from, e));
        if t.len() == 0 {
            supported_from(s, e + 1, in_frontmatter)
        } else if t == "---"@ {
            supported_from(s, e + 1, !in_frontmatter)
        } else if in_frontmatter || "%%"@.is_prefix_of(t) {
            supported_from(s, e + 1, in_frontmatter)
        } else {
            known_diagram_start(crate::text::seq_ascii_lower(t))
        }
    }
}

/// A Mermaid source that the renderer is asked to draw.
pub open spec fn looks_supported(source: Seq<char>) -> bool {
    supported_from(source, 0, false)
}

/// Whether `lit` is a prefix of the ASCII lower case of `v[a..b]`.
fn window_lower_starts_with(v: &Vec<char>, a: usize, b: usize, lit: &str) -> (res: bool)
    requires
        a <= b <= v.len(),
    ensures
        res == lit@.is_prefix_of(crate::text::seq_ascii_lower(v@.subrange(a as int, b as int))),
{
    let p = chars_of(lit);
    let ghost w = crate::text::seq_ascii_lower(v@.subrange(a as int, b as int));
    if p.len() > b - a {
        return false;
    }
    let mut i: usize = 0;
    while i < p.len()
        invariant
            p@ == lit@,
            p.len() <= b - a,
            a <= b <= v.len(),
            w == crate::text::seq_ascii_lower(v@.subrange(a as int, b as int)),
            i <= p.len(),
            forall|k: int| 0 <= k < i ==> p@[k] == w[k],
        decreases p.len() - i,
    {
        if crate::text::to_ascii_lower(v[a + i]) != p[i] {
            assert(w[i as int] == crate::text::ascii_lower(v@[a + i]));
            return false;
        }
        assert(w[i as int] == crate::text::ascii_lower(v@[a + i]));
        i += 1;
    }
    true
}

/// Whether `v[a..b]` is exactly `lit`.
fn window_equals(v: &Vec<char>, a: usize, b: usize, lit: &str) -> (res: bool)
    requires
        a <= b <= v.len(),
    ensures
        res == (v@.subrange(a as int, b as int) == lit@),
{
    let p = chars_of(lit);
    if p.len() != b - a {
        return false;
    }
    let mut i: usize = 0;
    while i < p.len()
        invariant
            p@ == lit@,
            p.len() == b - a,
            a <= b <= v.len(),
            i <= p.len(),
            forall|k: int| 0 <= k < i ==> p@[k] == v@[a + k],
        decreases p.len() - i,
    {
        if v[a + i] != p[i] {
            assert(v@.subrange(a as int, b as int)[i as int] != lit@[i as int]);
            return false;
        }
        i += 1;
    }
    assert(v@.subrange(a as int, b as int) =~= lit@);
    true
}

/// Whether `lit` is a prefix of `v[a..b]`.
fn window_starts_with(v: &Vec<char>, a: usize, b: usize, lit: &str) -> (res: bool)
    requires
        a <= b <= v.len(),
    ensures
        res == lit@.is_prefix_of(v@.subrange(a as int, b as int)),
{
    let p = chars_of(lit);
    if p.len() > b - a {
        return false;
    }
    let mut i: usize = 0;
    while i < p.len()
        invariant
            p@ == lit@,
            p.len() <= b - a,
            a <= b <= v.len(),
            i <= p.len(),
            forall|k: int| 0 <= k < i ==> p@[k] == v@[a + k],
        decreases p.len() - i,
    {
        if v[a + i] != p[i] {
            assert(v@.subrange(a as int, b as int)[i as int] == v@[a + i]);
            return false;
        }
        i += 1;
    }
    proof {
        let w = v@.subrange(a as int, b as int);
        assert forall|k: int| 0 <= k < lit@.len() implies lit@[k] == w[k] by {
            assert(w[k] == v@[a + k]);
        }
    }
    true
}

/// Whether the ASCII lower case of `v[a..b]` starts with a known diagram keyword.
fn known_diagram_window(v: &Vec<char>, a: usize, b: usize) -> (res: bool)
    requires
        a <= b <= v.len(),
    ensures
        res == known_diagram_start(crate::text::seq_ascii_lower(v@.subrange(a as int, b as int))),
{
    window_lower_starts_with(v, a, b, "sequencediagram")
        || window_lower_starts_with(v, a, b, "classdiagram")
        || window_lower_starts_with(v, a, b, "statediagram")
        || window_lower_starts_with(v, a, b, "erdiagram")
        || window_lower_starts_with(v, a, b, "pie")
        || window_lower_starts_with(v, a, b, "mindmap")
        || window_lower_starts_with(v, a, b, "journey")
        || window_lower_starts_with(v, a, b, "timeline")
        || window_lower_starts_with(v, a, b, "gantt")
        || window_lower_starts_with(v, a, b, "requirementdiagram")
        || window_lower_starts_with(v, a, b, "gitgraph")
        || window_lower_starts_with(v, a, b, "c4")
        || window_lower_starts_with(v, a, b, "sankey")
        || window_lower_starts_with(v, a, b, "quadrantchart")
        || window_lower_starts_with(v, a, b, "zenuml")
        || window_lower_starts_with(v, a, b, "block")
        || window_lower_starts_with(v, a, b, "packet")
        || window_lower_starts_with(v, a, b, "kanban")
        || window_lower_starts_with(v, a, b, "architecture")
        || window_lower_starts_with(v, a, b, "radar")
        || window_lower_starts_with(v, a, b, "treemap")
        || window_lower_starts_with(v, a, b, "xychart")
        || window_lower_starts_with(v, a, b, "flowchart")
        || window_lower_starts_with(v, a, b, "graph")
}

/// Whether a Mermaid source starts, after blank lines, front matter and
/// `%%` comments, with the keyword of a diagram type the renderer knows.
pub fn looks_like_supported_mermaid_source(source: &str) -> (res: bool)
    ensures
        res == looks_supported(source@),
{
    let v = chars_of(source);
    let n = v.len();
    let mut from: usize = 0;
    let mut in_frontmatter = false;
    while from <= n
        invariant
            n == v.len(),
            v@ == source@,
            from <= n,
            looks_supported(source@) == supported_from(v@, from as int, in_frontmatter),
        decreases n + 1 - from,
    {
        let mut e = from;
        while e < n && v[e] != '\n'
            invariant
                from <= e <= n == v.len(),
                forall|k: int| from <= k < e ==> v@[k] != '\n',
            decreases n - e,
        {
            e += 1;
        }
        proof {
            let u = v@.skip(from as int);
            let p = |x: char| x != '\n';
            assert forall|k: int| 0 <= k < e - from implies p(#[trigger] u[k]) by {
                assert(u[k] == v@[from + k]);
            }
            if e < n {
                assert(u[e - from] == v@[e as int]);
            }
            lemma_count_prefix_is(u, p, e - from);
        }
        let (ta, tb) = trim_bounds(&v, from, e);
        let ghost fm0 = in_frontmatter;
        assert(line_end(v@, from as int) == e);
        if ta == tb {
        } else if window_equals(&v, ta, tb, "---") {
            in_frontmatter = !in_frontmatter;
        } else if in_frontmatter || window_starts_with(&v, ta, tb, "%%") {
        } else {
            return known_diagram_window(&v, ta, tb);
        }
        assert(looks_supported(source@) == supported_from(v@, e + 1, in_frontmatter));
        if e == n {
            return false;
        }
        from = e + 1;
    }
    false
}

/// The keywords of the diagram types that the renderer draws: sequence,
/// class, state, entity-relationship, pie, mind map, user journey,
/// timeline, Gantt, requirement, git graph, C4, Sankey, quadrant chart,
/// ZenUML, block, packet, kanban, architecture, radar, treemap, XY chart,
/// flowchart and graph diagrams.
pub open spec fn diagram_keywords() -> Seq<Seq<char>> {
    seq![
        "sequencediagram"@,
        "classdiagram"@,
        "statediagram"@,
        "erdiagram"@,
        "pie"@,
        "mindmap"@,
        "journey"@,
        "timeline"@,
        "gantt"@,
        "requirementdiagram"@,
        "gitgraph"@,
        "c4"@,
        "sankey"@,
        "quadrantchart"@,
        "zenuml"@,
        "block"@,
        "packet"@,
        "kanban"@,
        "architecture"@,
        "radar"@,
        "treemap"@,
        "xychart"@,
        "flowchart"@,
        "graph"@,
    ]
}

/// A lower-case ASCII letter or an ASCII digit.
pub open spec fn is_keyword_char(c: char) -> bool {
    ('a' <= c <= 'z') || ('0' <= c <= '9')
}

proof fn lemma_diagram_keyword(i: int, lower: Seq<char>)
    requires
        0 <= i < diagram_keywords().len(),
    ensures
        diagram_keywords()[i].len() > 0,
        forall|j: int|
            0 <= j < diagram_keywords()[i].len() ==> is_keyword_char(
                #[trigger] diagram_keywords()[i][j],
            ),
        diagram_keywords()[i].is_prefix_of(lower) ==> known_diagram_start(lower),
{
    reveal_strlit("sequencediagram");
    reveal_strlit("classdiagram");
    reveal_strlit("statediagram");
    reveal_strlit("erdiagram");
    reveal_strlit("pie");
    reveal_strlit("mindmap");
    reveal_strlit("journey");
    reveal_strlit("timeline");
    reveal_strlit("gantt");
    reveal_strlit("requirementdiagram");
    reveal_strlit("gitgraph");
    reveal_strlit("c4");
    reveal_strlit("sankey");
    reveal_strlit("quadrantchart");
    reveal_strlit("zenuml");
    reveal_strlit("block");
    reveal_strlit("packet");
    reveal_strlit("kanban");
    reveal_strlit("architecture");
    reveal_strlit("radar");
    reveal_strlit("treemap");
    reveal_strlit("xychart");
    reveal_strlit("flowchart");
    reveal_strlit("graph");
}

/// A line (in ASCII lower case) names a diagram type the renderer draws
/// exactly when it starts with one of the diagram keywords.
pub proof fn law_known_diagram_start_is_a_keyword(lower: Seq<char>)
    ensures
        known_diagram_start(lower) <==> exists|i: int|
            0 <= i < diagram_keywords().len() && #[trigger] diagram_keywords()[i].is_prefix_of(lower),
{
    let k = diagram_keywords();
    if known_diagram_start(lower) {
        assert(
            k[0].is_prefix_of(lower)
                || k[1].is_prefix_of(lower)
                || k[2].is_prefix_of(lower)
                || k[3].is_prefix_of(lower)
                || k[4].is_prefix_of(lower)
                || k[5].is_prefix_of(lower)
                || k[6].is_prefix_of(lower)
                || k[7].is_prefix_of(lower)
                || k[8].is_prefix_of(lower)
                || k[9].is_prefix_of(lower)
                || k[10].is_prefix_of(lower)
                || k[11].is_prefix_of(lower)
                || k[12].is_prefix_of(lower)
                || k[13].is_prefix_of(lower)
                || k[14].is_prefix_of(lower)
                || k[15].is_prefix_of(lower)
                || k[16].is_prefix_of(lower)
                || k[17].is_prefix_of(lower)
                || k[18].is_prefix_of(lower)
                || k[19].is_prefix_of(lower)
                || k[20].is_prefix_of(lower)
                || k[21].is_prefix_of(lower)
                || k[22].is_prefix_of(lower)
                || k[23].is_prefix_of(lower)
        );
    } else {
        assert forall|i: int| 0 <= i < k.len() implies !#[trigger] k[i].is_prefix_of(lower) by {
            lemma_diagram_keyword(i, lower);
        }
    }
}

/// A source whose first line starts with the keyword of a diagram type the
/// renderer draws, in any ASCII case, is handed to the renderer, whatever
/// follows the keyword.
pub proof fn law_diagram_keywords_are_supported(i: int, head: Seq<char>, rest: Seq<char>)
    requires
        0 <= i < diagram_keywords().len(),
        crate::text::seq_ascii_lower(head) == diagram_keywords()[i],
    ensures
        looks_supported(head + rest),
{
    let kw = diagram_keywords()[i];
    let s = head + rest;
    lemma_diagram_keyword(i, crate::text::seq_ascii_lower(head));
    assert forall|j: int| 0 <= j < head.len() implies is_keyword_char(#[trigger] head[j]) || (
    'A' <= head[j] <= 'Z') by {
        assert(crate::text::ascii_lower(head[j]) == kw[j]);
    }
    let p = |x: char| x != '\n';
    crate::text::lemma_count_prefix(s.skip(0), p);
    assert(s.skip(0) =~= s);
    let e = line_end(s, 0);
    if e < head.len() {
        assert(s[e] == head[e]);
    }
    let l = s.subrange(0, e);
    crate::text::lemma_leading_ws(l);
    assert(l[0] == head[0]);
    assert(crate::text::leading_ws(l) == 0);
    assert(crate::text::trim_start(l) =~= l);
    crate::text::lemma_trailing_ws(l);
    let m = l.len() - crate::text::trailing_ws(l);
    if m < head.len() {
        assert(l[m] == head[m]);
    }
    let t = crate::text::trim(l);
    assert(t =~= l.take(m));
    assert(t[0] == head[0]);
    reveal_strlit("---");
    reveal_strlit("%%");
    assert(t != "---"@);
    if "%%"@.is_prefix_of(t) {
        assert(t.subrange(0, 2)[0] == "%%"@[0]);
        assert(is_keyword_char(head[0]) || ('A' <= head[0] <= 'Z'));
    }
    let lt = crate::text::seq_ascii_lower(t);
    assert forall|j: int| 0 <= j < kw.len() implies kw[j] == lt[j] by {
        assert(t[j] == head[j]);
    }
    lemma_diagram_keyword(i, lt);
}

/// Errors of rendering a Mermaid diagram.
#[derive(Debug, PartialEq, Eq)]
pub enum MermaidError {
    /// The source does not start with a diagram type the renderer knows.
    UnsupportedDiagram,
    /// The renderer refused the source; its message.
    Render(String),
    /// The renderer drew its syntax-error picture instead of the diagram.
    SyntaxError,
}

/// Whether `mermaid_rs_renderer::render` accepts a source: it renders
/// exactly the sources its parser accepts, so this is a function of the
/// source alone.
pub uninterp spec fn spec_mermaid_accepts(source: Seq<char>) -> bool;

/// Calls `mermaid_rs_renderer::render`. Trusted: it succeeds exactly when
/// the source is accepted ([`spec_mermaid_accepts`]). The SVG it draws is
/// not stated: text is measured with the fonts installed on the machine.
#[verifier::external_body]
fn mermaid_render(source: &str) -> (res: Result<String, String>)
    ensures
        res is Ok <==> spec_mermaid_accepts(source@),
{
    match mermaid_rs_renderer::render(source) {
        Ok(svg) => Ok(svg),
        Err(err) => Err(err.to_string()),
    }
}

/// `pat` occurs in `s`.
pub open spec fn contains_text(s: Seq<char>, pat: Seq<char>) -> bool {
    exists|i: int| 0 <= i && i + pat.len() <= s.len() && #[trigger] s.subrange(i, i + pat.len()) == pat
}

/// The SVG holds the renderer's picture of a syntax error.
pub open spec fn shows_syntax_error(svg: Seq<char>) -> bool {
    contains_text(svg, "class=\"error-text\""@) || contains_text(svg, "Syntax error in text"@)
}

/// Whether `pat` occurs in `s`.
fn text_contains(s: &str, pat: &str) -> (res: bool)
    ensures
        res == contains_text(s@, pat@),
{
    let v = chars_of(s);
    let p = chars_of(pat);
    if p.len() > v.len() {
        return false;
    }
    let mut i: usize = 0;
    while i <= v.len() - p.len()
        invariant
            v@ == s@,
            p@ == pat@,
            p.len() <= v.len(),
            i <= v.len() - p.len() + 1,
            forall|k: int| 0 <= k < i ==> #[trigger] v@.subrange(k, k + p.len()) != p@,
        decreases v.len() + 1 - i,
    {
        let mut j: usize = 0;
        while j < p.len() && v[i + j] == p[j]
            invariant
                i + p.len() <= v.len(),
                j <= p.len(),
                forall|k: int| 0 <= k < j ==> v@[i + k] == p@[k],
            decreases p.len() - j,
        {
            j += 1;
        }
        if j == p.len() {
            assert(v@.subrange(i as int, i + p.len()) =~= p@);
            return true;
        }
        assert(v@.subrange(i as int, i + p.len())[j as int] != p@[j as int]);
        i += 1;
    }
    proof {
        assert forall|k: int| 0 <= k && k + p@.len() <= s@.len() implies #[trigger] s@.subrange(
            k,
            k + p@.len(),
        ) != p@ by {}
    }
    false
}

/// What a drawn SVG means: the renderer's syntax-error picture is an error,
/// anything else is the diagram.
pub fn svg_render_outcome(svg: String) -> (res: Result<String, MermaidError>)
    ensures
        shows_syntax_error(svg@) ==> res == Err::<String, MermaidError>(MermaidError::SyntaxError),
        !shows_syntax_error(svg@) ==> (res matches Ok(out) && out@ == svg@),
{
    if text_contains(svg.as_str(), "class=\"error-text\"") || text_contains(
        svg.as_str(),
        "Syntax error in text",
    ) {
        return Err(MermaidError::SyntaxError);
    }
    Ok(svg)
}

/// Renders a Mermaid diagram body into SVG text: a source that does not
/// start with a known diagram type is refused, one the renderer does not
/// accept gives its message, and a drawing of a syntax error is an error.
pub fn render_mermaid_to_svg(source: &str) -> (res: Result<String, MermaidError>)
    ensures
        !looks_supported(source@) ==> res == Err::<String, MermaidError>(
            MermaidError::UnsupportedDiagram,
        ),
        looks_supported(source@) && !spec_mermaid_accepts(source@) ==> res matches Err(
            MermaidError::Render(_),
        ),
        looks_supported(source@) && spec_mermaid_accepts(source@) ==> (res matches Ok(out)
            && !shows_syntax_error(out@)) || res == Err::<String, MermaidError>(
            MermaidError::SyntaxError,
        ),
{
    if !looks_like_supported_mermaid_source(source) {
        return Err(MermaidError::UnsupportedDiagram);
    }
    match mermaid_render(source) {
        Ok(svg) => svg_render_outcome(svg),
        Err(message) => Err(MermaidError::Render(message)),
    }
}

/// The value `std::collections::hash_map::DefaultHasher` gives a source: a
/// hasher built with `DefaultHasher::new()` has fixed keys, so the value is a
/// function of the text alone.
pub uninterp spec fn spec_default_hash(source: Seq<char>) -> u64;

/// Hashes a text with a fresh `DefaultHasher` (`DefaultHasher::new`,
/// `Hash::hash` on the `str`, `Hasher::finish`). Trusted: the result is the
/// named [`spec_default_hash`] of the text.
#[verifier::external_body]
fn default_hash(source: &str) -> (res: u64)
    ensures
        res == spec_default_hash(source@),
{
    let mut hasher = DefaultHasher::new();
    source.hash(&mut hasher);
    hasher.finish()
}

/// The lower-case hexadecimal digit for `d < 16`.
pub open spec fn hex_digit(d: nat) -> char {
    if d < 10 {
        (48 + d) as char
    } else {
        (87 + d) as char
    }
}

/// The last `k` hexadecimal digits of `x`, most significant first (zero-padded).
pub open spec fn hex_digits(x: nat, k: nat) -> Seq<char>
    decreases k,
{
    if k == 0 {
        seq![]
    } else {
        hex_digits(x / 16, (k - 1) as nat).push(hex_digit(x % 16))
    }
}

/// The cache key of a Mermaid source: its hash as 16 lower-case hexadecimal
/// digits (`format!("{:016x}", hash)`).
pub open spec fn cache_key(source: Seq<char>) -> Seq<char> {
    hex_digits(spec_default_hash(source) as nat, 16)
}

fn hex_digit_char(d: u64) -> (c: char)
    requires
        d < 16,
    ensures
        c == hex_digit(d as nat),
{
    if d < 10 {
        let b: u8 = (48 + d) as u8;
        b as char
    } else {
        let b: u8 = (87 + d) as u8;
        b as char
    }
}

fn hex_digits_of(x: u64, k: usize) -> (res: Vec<char>)
    ensures
        res@ == hex_digits(x as nat, k as nat),
    decreases k,
{
    if k == 0 {
        Vec::new()
    } else {
        let mut v = hex_digits_of(x / 16, k - 1);
        v.push(hex_digit_char(x % 16));
        v
    }
}

/// Stable cache key for Mermaid content: the source's hash as 16 lower-case
/// hexadecimal digits.
pub fn mermaid_cache_key(source: &str) -> (res: String)
    ensures
        res@ == cache_key(source@),
{
    let h = default_hash(source);
    let digits = hex_digits_of(h, 16);
    crate::text::string_of(&digits, 0, digits.len())
}

/// `16^k`.
pub open spec fn pow16(k: nat) -> nat
    decreases k,
{
    if k == 0 {
        1
    } else {
        16 * pow16((k - 1) as nat)
    }
}

proof fn lemma_hex_digits_shape(x: nat, k: nat)
    ensures
        hex_digits(x, k).len() == k,
        forall|i: int|
            0 <= i < k ==> {
                let c = #[trigger] hex_digits(x, k)[i];
                ('0' <= c <= '9') || ('a' <= c <= 'f')
            },
    decreases k,
{
    if k > 0 {
        lemma_hex_digits_shape(x / 16, (k - 1) as nat);
        let d = x % 16;
        assert(hex_digits(x, k)[k - 1] == hex_digit(d));
        assert forall|i: int| 0 <= i < k - 1 implies #[trigger] hex_digits(x, k)[i] == hex_digits(
            x / 16,
            (k - 1) as nat,
        )[i] by {}
    }
}

proof fn lemma_hex_digit_injective(a: nat, b: nat)
    requires
        a < 16,
        b < 16,
        hex_digit(a) == hex_digit(b),
    ensures
        a == b,
{
    assert((hex_digit(a) as u32) == (if a < 10 { 48 + a } else { 87 + a }));
    assert((hex_digit(b) as u32) == (if b < 10 { 48 + b } else { 87 + b }));
}

proof fn lemma_hex_digits_mod(x: nat, y: nat, k: nat)
    requires
        hex_digits(x, k) == hex_digits(y, k),
    ensures
        pow16(k) > 0,
        x % pow16(k) == y % pow16(k),
    decreases k,
{
    if k == 0 {
        assert(x % 1 == 0 && y % 1 == 0) by (nonlinear_arith);
    } else {
        let k1 = (k - 1) as nat;
        let hx = hex_digits(x / 16, k1);
        let hy = hex_digits(y / 16, k1);
        lemma_hex_digits_shape(x / 16, k1);
        lemma_hex_digits_shape(y / 16, k1);
        assert(hex_digits(x, k).last() == hex_digit(x % 16));
        assert(hex_digits(y, k).last() == hex_digit(y % 16));
        lemma_hex_digit_injective(x % 16, y % 16);
        assert(hex_digits(x, k).drop_last() =~= hx);
        assert(hex_digits(y, k).drop_last() =~= hy);
        lemma_hex_digits_mod(x / 16, y / 16, k1);
        let p = pow16(k1);
        vstd::arithmetic::div_mod::lemma_mod_breakdown(x as int, 16, p as int);
        vstd::arithmetic::div_mod::lemma_mod_breakdown(y as int, 16, p as int);
    }
}

proof fn lemma_pow16_16()
    ensures
        pow16(16) == 0x1_0000_0000_0000_0000,
{
    reveal_with_fuel(pow16, 17);
}

/// Every cache key is 16 lower-case hexadecimal digits.
pub proof fn law_cache_key_shape(source: Seq<char>)
    ensures
        cache_key(source).len() == 16,
        forall|i: int|
            0 <= i < 16 ==> {
                let c = #[trigger] cache_key(source)[i];
                ('0' <= c <= '9') || ('a' <= c <= 'f')
            },
{
    lemma_hex_digits_shape(spec_default_hash(source) as nat, 16);
}

/// Two sources share a cache key exactly when they share a hash: the key
/// writes the whole 64-bit hash, so distinct hashes never collide in the
/// cache, and the same source always finds its rendering again.
pub proof fn law_cache_key_identifies_hash(a: Seq<char>, b: Seq<char>)
    ensures
        (cache_key(a) == cache_key(b)) == (spec_default_hash(a) == spec_default_hash(b)),
{
    if cache_key(a) == cache_key(b) {
        let x = spec_default_hash(a) as nat;
        let y = spec_default_hash(b) as nat;
        lemma_hex_digits_mod(x, y, 16);
        lemma_pow16_16();
        assert(x % pow16(16) == x);
        assert(y % pow16(16) == y);
    }
}

} // verus!
