//! Grapheme-cluster boundaries of a text: stepping the cursor, fitting a
//! prefix of whole graphemes, and the fading tail of an overflowing field.
use vstd::prelude::*;

use unicode_segmentation::UnicodeSegmentation;

use crate::text::chars_of;
use crate::utf::{
    byte_len, byte_offset, char_utf8_width, is_boundary, lemma_boundary_index, lemma_offset_ends,
    lemma_offset_mono, lemma_offset_step, utf8_len, utf8_width,
};

verus! {

/// The byte offsets at which the extended grapheme clusters of `text`
/// start, in order; a function of the text alone.
pub uninterp spec fn spec_grapheme_starts(text: Seq<char>) -> Seq<usize>;

/// What the grapheme starts of `s` are like: none for the empty text, the
/// first at 0, strictly increasing, each at a character boundary before
/// the end.
pub open spec fn grapheme_starts_wf(s: Seq<char>, g: Seq<usize>) -> bool {
    &&& (g.len() == 0 <==> s.len() == 0)
    &&& (g.len() > 0 ==> g[0] == 0)
    &&& forall|i: int, j: int| 0 <= i < j < g.len() ==> #[trigger] g[i] < #[trigger] g[j]
    &&& forall|i: int|
        0 <= i < g.len() ==> #[trigger] g[i] < utf8_len(s) && is_boundary(s, g[i] as int)
}

/// Calls `UnicodeSegmentation::grapheme_indices(text, true)` and keeps the
/// byte offsets. Trusted: the offsets are [`spec_grapheme_starts`] of the
/// text; the clusters cover the text in order, each one non-empty and made
/// of whole characters.
#[verifier::external_body]
fn grapheme_starts(text: &str) -> (res: Vec<usize>)
    ensures
        res@ == spec_grapheme_starts(text@),
        grapheme_starts_wf(text@, res@),
{
    text.grapheme_indices(true).map(|(start, _)| start).collect()
}

/// The byte offset at which grapheme `i` ends: where the next one starts,
/// or the end of the text for the last.
pub open spec fn grapheme_end(s: Seq<char>, g: Seq<usize>, i: int) -> int {
    if i + 1 < g.len() {
        g[i + 1] as int
    } else {
        utf8_len(s)
    }
}

/// `r` is the last grapheme start before `offset`, or 0 when there is none.
pub open spec fn is_start_before(g: Seq<usize>, offset: int, r: int) -> bool {
    ||| (forall|i: int| 0 <= i < g.len() ==> #[trigger] g[i] >= offset) && r == 0
    ||| exists|i: int|
        0 <= i < g.len() && #[trigger] g[i] < offset && r == g[i] && (i + 1 == g.len() || g[i
            + 1] >= offset)
}

/// `r` is the first grapheme start after `offset`, or `len` when there is
/// none.
pub open spec fn is_start_after(g: Seq<usize>, offset: int, len: int, r: int) -> bool {
    ||| (forall|i: int| 0 <= i < g.len() ==> #[trigger] g[i] <= offset) && r == len
    ||| exists|i: int|
        0 <= i < g.len() && #[trigger] g[i] > offset && r == g[i] && (i == 0 || g[i - 1] <= offset)
}

/// The start of the grapheme before byte offset `offset` of `text` (0 when
/// there is none).
pub fn previous_grapheme_start(text: &str, offset: usize) -> (res: usize)
    ensures
        is_start_before(spec_grapheme_starts(text@), offset as int, res as int),
        is_boundary(text@, res as int),
{
    let g = grapheme_starts(text);
    proof {
        lemma_offset_ends(text@);
        lemma_boundary_index(text@, 0);
    }
    let mut j = g.len();
    while j > 0
        invariant
            j <= g.len(),
            g@ == spec_grapheme_starts(text@),
            grapheme_starts_wf(text@, g@),
            forall|i: int| j <= i < g.len() ==> #[trigger] g@[i] >= offset,
        decreases j,
    {
        if g[j - 1] < offset {
            let r = g[j - 1];
            proof {
                assert(g@[j - 1] < offset);
                assert((j as int - 1) + 1 == g.len() || g@[j as int] >= offset);
            }
            return r;
        }
        j -= 1;
    }
    0
}

/// The start of the grapheme after byte offset `offset` of `text` (the end
/// of the text when there is none).
pub fn next_grapheme_start(text: &str, offset: usize) -> (res: usize)
    ensures
        is_start_after(spec_grapheme_starts(text@), offset as int, utf8_len(text@), res as int),
        is_boundary(text@, res as int),
{
    let g = grapheme_starts(text);
    let len = byte_len(text);
    proof {
        lemma_offset_ends(text@);
        lemma_boundary_index(text@, text@.len() as int);
    }
    let mut j: usize = 0;
    while j < g.len()
        invariant
            j <= g.len(),
            g@ == spec_grapheme_starts(text@),
            grapheme_starts_wf(text@, g@),
            forall|i: int| 0 <= i < j ==> #[trigger] g@[i] <= offset,
        decreases g.len() - j,
    {
        if g[j] > offset {
            let r = g[j];
            proof {
                assert(g@[j as int] > offset);
                assert(j == 0 || g@[j - 1] <= offset);
            }
            return r;
        }
        j += 1;
    }
    len
}

/// The ends of the graphemes of `text`, in order.
fn grapheme_ends(text: &str) -> (res: Vec<usize>)
    ensures
        grapheme_starts_wf(text@, spec_grapheme_starts(text@)),
        res.len() == spec_grapheme_starts(text@).len(),
        forall|i: int|
            0 <= i < res.len() ==> #[trigger] res@[i] == grapheme_end(
                text@,
                spec_grapheme_starts(text@),
                i,
            ),
{
    let g = grapheme_starts(text);
    let len = byte_len(text);
    let mut ends: Vec<usize> = Vec::new();
    let mut i: usize = 0;
    while i < g.len()
        invariant
            i <= g.len(),
            g@ == spec_grapheme_starts(text@),
            len == utf8_len(text@),
            ends.len() == i,
            forall|k: int| 0 <= k < i ==> #[trigger] ends@[k] == grapheme_end(text@, g@, k),
        decreases g.len() - i,
    {
        if i + 1 < g.len() {
            ends.push(g[i + 1]);
        } else {
            ends.push(len);
        }
        i += 1;
    }
    ends
}

/// Where the first `m` graphemes of `s` end (0 for none).
pub open spec fn run_end(s: Seq<char>, m: int) -> int {
    if m == 0 {
        0
    } else {
        grapheme_end(s, spec_grapheme_starts(s), m - 1)
    }
}

/// The end of the longest run of whole graphemes of `text` whose ends all
/// satisfy `fits`, asked in order until one does not (0 when the first does
/// not).
pub fn fitting_grapheme_end_by<F: Fn(usize) -> bool>(text: &str, fits: F) -> (res: usize)
    requires
        forall|e: usize| #[trigger] fits.requires((e,)),
    ensures
        is_boundary(text@, res as int),
        exists|m: int|
            0 <= m <= spec_grapheme_starts(text@).len() && res == #[trigger] run_end(text@, m)
                && (forall|j: int|
                0 <= j < m ==> fits.ensures(
                    (grapheme_end(text@, spec_grapheme_starts(text@), j) as usize,),
                    true,
                )) && (m < spec_grapheme_starts(text@).len() ==> fits.ensures(
                (grapheme_end(text@, spec_grapheme_starts(text@), m) as usize,),
                false,
            )),
{
    let ends = grapheme_ends(text);
    let ghost g = spec_grapheme_starts(text@);
    proof {
        lemma_offset_ends(text@);
        lemma_boundary_index(text@, 0);
        lemma_boundary_index(text@, text@.len() as int);
    }
    let mut last: usize = 0;
    let mut m: usize = 0;
    while m < ends.len()
        invariant
            m <= ends.len(),
            ends.len() == g.len(),
            forall|i: int| 0 <= i < ends.len() ==> #[trigger] ends@[i] == grapheme_end(text@, g, i),
            forall|e: usize| #[trigger] fits.requires((e,)),
            g == spec_grapheme_starts(text@),
            grapheme_starts_wf(text@, g),
            is_boundary(text@, 0),
            is_boundary(text@, utf8_len(text@)),
            last == run_end(text@, m as int),
            is_boundary(text@, last as int),
            forall|j: int| 0 <= j < m ==> fits.ensures((grapheme_end(text@, g, j) as usize,), true),
        decreases ends.len() - m,
    {
        let e = ends[m];
        if !fits(e) {
            proof {
                assert(fits.ensures((grapheme_end(text@, g, m as int) as usize,), false));
                assert(last == run_end(text@, m as int));
            }
            return last;
        }
        last = e;
        m += 1;
    }
    proof {
        assert(last == run_end(text@, m as int));
    }
    last
}

/// The largest byte boundary of `s` that is at most `m`: the bytes of the
/// leading characters that end by `m`.
pub open spec fn floor_boundary(s: Seq<char>, m: int) -> int
    decreases s.len(),
{
    if s.len() == 0 || utf8_width(s[0]) > m {
        0
    } else {
        utf8_width(s[0]) + floor_boundary(s.drop_first(), m - utf8_width(s[0]))
    }
}

/// The characters counted by [`floor_boundary`].
pub open spec fn floor_chars(s: Seq<char>, m: int) -> int
    decreases s.len(),
{
    if s.len() == 0 || utf8_width(s[0]) > m {
        0
    } else {
        1 + floor_chars(s.drop_first(), m - utf8_width(s[0]))
    }
}

/// [`floor_boundary`] is a boundary at most `m` (for `m >= 0`), and no
/// boundary at most `m` lies beyond it.
pub proof fn lemma_floor_boundary(s: Seq<char>, m: int)
    requires
        m >= 0,
    ensures
        0 <= floor_chars(s, m) <= s.len(),
        floor_boundary(s, m) == byte_offset(s, floor_chars(s, m)),
        floor_boundary(s, m) <= m,
        is_boundary(s, floor_boundary(s, m)),
        forall|k: int| 0 <= k <= s.len() && #[trigger] byte_offset(s, k) <= m ==> k <= floor_chars(
            s,
            m,
        ),
    decreases s.len(),
{
    lemma_offset_ends(s);
    if s.len() == 0 || utf8_width(s[0]) > m {
        lemma_boundary_index(s, 0);
        assert forall|k: int| 0 <= k <= s.len() && #[trigger] byte_offset(s, k) <= m implies k
            <= 0 by {
            if k > 0 {
                lemma_offset_step(s, 0);
                lemma_offset_mono(s, 1, k);
            }
        }
    } else {
        let t = s.drop_first();
        let w = utf8_width(s[0]);
        lemma_floor_boundary(t, m - w);
        let c = floor_chars(t, m - w);
        assert(s.take(c + 1).drop_first() =~= t.take(c));
        assert(s.take(c + 1)[0] == s[0]);
        assert(byte_offset(s, c + 1) == w + byte_offset(t, c));
        lemma_boundary_index(s, c + 1);
        assert forall|k: int| 0 <= k <= s.len() && #[trigger] byte_offset(s, k) <= m implies k <= c
            + 1 by {
            if k > 0 {
                assert(s.take(k).drop_first() =~= t.take(k - 1));
                assert(s.take(k)[0] == s[0]);
                assert(byte_offset(s, k) == w + byte_offset(t, k - 1));
            }
        }
    }
}

/// The largest character boundary of `content` at or before
/// `display_index`, `source_end` and the end of the text.
pub fn clamp_source_index(content: &str, display_index: usize, source_end: usize) -> (res: usize)
    ensures
        is_boundary(content@, res as int),
        res <= display_index,
        res <= source_end,
        res == floor_boundary(
            content@,
            vstd::math::min(
                vstd::math::min(display_index as int, source_end as int),
                utf8_len(content@),
            ),
        ),
{
    let len = byte_len(content);
    let mut limit = if display_index < source_end {
        display_index
    } else {
        source_end
    };
    if len < limit {
        limit = len;
    }
    assert(limit == vstd::math::min(
        vstd::math::min(display_index as int, source_end as int),
        utf8_len(content@),
    ));
    let chars = chars_of(content);
    let ghost s = content@;
    let mut i: usize = 0;
    let mut bytes: usize = 0;
    proof {
        lemma_offset_ends(s);
        assert(s.subrange(0, s.len() as int) =~= s);
    }
    while i < chars.len()
        invariant
            chars@ == s,
            len == utf8_len(s),
            limit <= len,
            limit == vstd::math::min(
                vstd::math::min(display_index as int, source_end as int),
                utf8_len(content@),
            ),
            s == content@,
            i <= chars.len(),
            bytes == byte_offset(s, i as int),
            bytes <= limit,
            floor_boundary(s, limit as int) == bytes + floor_boundary(
                s.subrange(i as int, s.len() as int),
                limit - bytes,
            ),
        decreases chars.len() - i,
    {
        let w = char_utf8_width(chars[i]);
        let ghost r = s.subrange(i as int, s.len() as int);
        proof {
            assert(r[0] == s[i as int]);
            assert(r.drop_first() =~= s.subrange(i as int + 1, s.len() as int));
            lemma_offset_step(s, i as int);
        }
        if w > limit - bytes {
            proof {
                assert(floor_boundary(r, limit - bytes) == 0);
                lemma_floor_boundary(s, limit as int);
            }
            return bytes;
        }
        bytes = bytes + w;
        i += 1;
    }
    proof {
        assert(s.subrange(i as int, s.len() as int).len() == 0);
        lemma_floor_boundary(s, limit as int);
    }
    bytes
}

/// A piece of the fading tail: the bytes `start..end` of one grapheme,
/// drawn at opacity `opacity_num / opacity_den`.
#[derive(Clone, Copy, Debug, PartialEq, Eq, Structural)]
pub struct FadeSegment {
    pub start: usize,
    pub end: usize,
    pub opacity_num: usize,
    pub opacity_den: usize,
}

/// Graphemes at the end of an overflowing field that fade out.
pub const FADE_GRAPHEME_COUNT: usize = 4;

/// The fading tail of `text`: its last graphemes (at most
/// [`FADE_GRAPHEME_COUNT`]), the `idx`-th of `k` drawn at opacity
/// `(k - idx) / (k + 1)`.
pub open spec fn fade_segment_at(s: Seq<char>, idx: int) -> FadeSegment {
    let g = spec_grapheme_starts(s);
    let n = g.len() as int;
    let first = if n > FADE_GRAPHEME_COUNT {
        n - FADE_GRAPHEME_COUNT
    } else {
        0
    };
    let k = n - first;
    FadeSegment {
        start: g[first + idx],
        end: grapheme_end(s, g, first + idx) as usize,
        opacity_num: (k - idx) as usize,
        opacity_den: (k + 1) as usize,
    }
}

/// The segments of the fading tail of `text`, in order.
pub fn fade_segments(text: &str) -> (res: Vec<FadeSegment>)
    ensures
        res.len() == vstd::math::min(
            spec_grapheme_starts(text@).len() as int,
            FADE_GRAPHEME_COUNT as int,
        ),
        forall|idx: int| 0 <= idx < res.len() ==> #[trigger] res@[idx] == fade_segment_at(text@, idx),
        grapheme_starts_wf(text@, spec_grapheme_starts(text@)),
        utf8_len(text@) <= usize::MAX,
{
    let g = grapheme_starts(text);
    let ends = grapheme_ends(text);
    let _len = byte_len(text);
    let n = g.len();
    let first = n.saturating_sub(FADE_GRAPHEME_COUNT);
    let k = n - first;
    let mut segments: Vec<FadeSegment> = Vec::new();
    let mut idx: usize = 0;
    while idx < k
        invariant
            g@ == spec_grapheme_starts(text@),
            ends.len() == n,
            n == g.len(),
            forall|i: int| 0 <= i < n ==> #[trigger] ends@[i] == grapheme_end(text@, g@, i),
            first == if n > FADE_GRAPHEME_COUNT {
                n - FADE_GRAPHEME_COUNT
            } else {
                0
            },
            k == n - first,
            k <= FADE_GRAPHEME_COUNT,
            idx <= k,
            segments.len() == idx,
            forall|j: int| 0 <= j < idx ==> #[trigger] segments@[j] == fade_segment_at(text@, j),
        decreases k - idx,
    {
        let i = first + idx;
        segments.push(
            FadeSegment { start: g[i], end: ends[i], opacity_num: k - idx, opacity_den: k + 1 },
        );
        idx += 1;
    }
    segments
}

/// The fading tail tiles the end of the text: its segments follow one
/// another, the last ends where the text ends, and each is drawn fainter
/// than the one before.
pub proof fn law_fade_segments_tile_the_tail(s: Seq<char>, idx: int)
    requires
        grapheme_starts_wf(s, spec_grapheme_starts(s)),
        utf8_len(s) <= usize::MAX,
        0 <= idx < vstd::math::min(
            spec_grapheme_starts(s).len() as int,
            FADE_GRAPHEME_COUNT as int,
        ),
    ensures
        fade_segment_at(s, idx).start < fade_segment_at(s, idx).end,
        idx + 1 < vstd::math::min(spec_grapheme_starts(s).len() as int, FADE_GRAPHEME_COUNT as int)
            ==> fade_segment_at(s, idx).end == fade_segment_at(s, idx + 1).start
            && fade_segment_at(s, idx + 1).opacity_num < fade_segment_at(s, idx).opacity_num
            && fade_segment_at(s, idx + 1).opacity_den == fade_segment_at(s, idx).opacity_den,
        idx + 1 == vstd::math::min(spec_grapheme_starts(s).len() as int, FADE_GRAPHEME_COUNT as int)
            ==> fade_segment_at(s, idx).end == utf8_len(s),
        fade_segment_at(s, idx).opacity_num < fade_segment_at(s, idx).opacity_den,
{
    let g = spec_grapheme_starts(s);
    let n = g.len() as int;
    let first = if n > FADE_GRAPHEME_COUNT {
        n - FADE_GRAPHEME_COUNT
    } else {
        0
    };
    let i = first + idx;
    if i + 1 < n {
        assert(g[i] < g[i + 1]);
    } else {
        assert(g[i] < utf8_len(s));
    }
}

/// How many graphemes of `s` fade.
pub open spec fn fade_count(s: Seq<char>) -> int {
    vstd::math::min(spec_grapheme_starts(s).len() as int, FADE_GRAPHEME_COUNT as int)
}

/// 1 when a plain run comes before the fading tail of `s`, 0 otherwise.
pub open spec fn fade_run_base(s: Seq<char>) -> int {
    if fade_count(s) > 0 && fade_segment_at(s, 0).start != 0 {
        1
    } else {
        0
    }
}

/// The lengths of the text runs that draw `display` with a fading tail: the
/// plain part before the tail (when there is one), then each faded
/// grapheme.
pub fn fade_run_lengths(display: &str) -> (res: Vec<usize>)
    ensures
        res.len() == fade_run_base(display@) + fade_count(display@),
        fade_run_base(display@) == 1 ==> res@[0] == fade_segment_at(display@, 0).start,
        forall|idx: int|
            0 <= idx < fade_count(display@) ==> res@[fade_run_base(display@) + idx]
                == #[trigger] fade_segment_at(display@, idx).end - fade_segment_at(
                display@,
                idx,
            ).start,
        seq_sum(res@) == utf8_len(display@),
{
    let segments = fade_segments(display);
    let ghost g = spec_grapheme_starts(display@);
    let ghost k = segments.len() as int;
    let fade_start: usize = if segments.len() == 0 {
        0
    } else {
        segments[0].start
    };
    proof {
        lemma_offset_ends(display@);
    }
    let mut runs: Vec<usize> = Vec::new();
    if fade_start != 0 {
        runs.push(fade_start);
    }
    let ghost base = runs.len() as int;
    proof {
        if runs.len() == 1 {
            assert(runs@.drop_last() =~= Seq::<usize>::empty());
            assert(seq_sum(runs@) == seq_sum(runs@.drop_last()) + runs@.last());
        } else {
            assert(seq_sum(runs@) == 0);
        }
        if k > 0 {
            let n = g.len() as int;
            let first = if n > FADE_GRAPHEME_COUNT {
                n - FADE_GRAPHEME_COUNT
            } else {
                0
            };
            assert(segments@[0] == fade_segment_at(display@, 0));
            assert(fade_start == g[first]);
        }
    }
    let mut idx: usize = 0;
    while idx < segments.len()
        invariant
            segments.len() == k,
            k == vstd::math::min(g.len() as int, FADE_GRAPHEME_COUNT as int),
            g == spec_grapheme_starts(display@),
            grapheme_starts_wf(display@, g),
            utf8_len(display@) <= usize::MAX,
            forall|j: int| 0 <= j < k ==> #[trigger] segments@[j] == fade_segment_at(display@, j),
            fade_start == if k == 0 {
                0
            } else {
                fade_segment_at(display@, 0).start as int
            },
            base == if fade_start != 0 {
                1int
            } else {
                0
            },
            idx <= k,
            runs.len() == base + idx,
            base == 1 ==> runs@[0] == fade_start,
            forall|j: int|
                0 <= j < idx ==> #[trigger] runs@[base + j] == segments@[j].end - segments@[j].start,
            base == fade_run_base(display@),
            k == fade_count(display@),
            seq_sum(runs@) == if idx == 0 {
                fade_start as int
            } else {
                segments@[idx - 1].end as int
            },
        decreases k - idx,
    {
        let seg = segments[idx];
        proof {
            law_fade_segments_tile_the_tail(display@, idx as int);
            if idx > 0 {
                law_fade_segments_tile_the_tail(display@, idx - 1);
            }
            lemma_seq_sum_push(runs@, (seg.end - seg.start) as usize);
        }
        runs.push(seg.end - seg.start);
        idx += 1;
    }
    proof {
        if k > 0 {
            law_fade_segments_tile_the_tail(display@, k - 1);
        }
        let n = g.len() as int;
        if k == 0 {
            assert(n == 0);
            assert(display@.len() == 0);
        }
    }
    runs
}

/// The sum of the numbers in `s`.
pub open spec fn seq_sum(s: Seq<usize>) -> int
    decreases s.len(),
{
    if s.len() == 0 {
        0
    } else {
        seq_sum(s.drop_last()) + s.last()
    }
}

proof fn lemma_seq_sum_push(s: Seq<usize>, x: usize)
    ensures
        seq_sum(s.push(x)) == seq_sum(s) + x,
{
    assert(s.push(x).drop_last() =~= s);
}

} // verus!
