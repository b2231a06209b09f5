//! Layout decisions of the editor column: how consecutive rows group into
//! callout boxes and footnote boxes, the gap above each row, the width
//! class of menu label characters, and which overlay and labels to show.
use vstd::prelude::*;

use crate::text::chars_of;

verus! {

/// The kind of a callout block.
#[derive(Clone, Copy, Debug, PartialEq, Eq, Structural)]
pub enum CalloutVariant {
    Note,
    Tip,
    Important,
    Warning,
    Caution,
}

/// What the layout needs to know of a row to space it within its visual
/// group: the groups it belongs to (each named by its anchor), and whether
/// it heads its callout or footnote.
#[derive(Clone, Copy, Debug, PartialEq, Eq, Structural)]
pub struct RenderedRowSpacingInfo {
    pub quote_group_anchor: Option<u128>,
    pub visible_quote_group_anchor: Option<u128>,
    pub callout_anchor: Option<u128>,
    pub callout_variant: Option<CalloutVariant>,
    pub is_callout_header: bool,
    pub footnote_anchor: Option<u128>,
    pub is_footnote_header: bool,
}

impl Default for RenderedRowSpacingInfo {
    fn default() -> (res: Self)
        ensures
            res.quote_group_anchor is None,
            res.visible_quote_group_anchor is None,
            res.callout_anchor is None,
            res.callout_variant is None,
            !res.is_callout_header,
            res.footnote_anchor is None,
            !res.is_footnote_header,
    {
        RenderedRowSpacingInfo {
            quote_group_anchor: None,
            visible_quote_group_anchor: None,
            callout_anchor: None,
            callout_variant: None,
            is_callout_header: false,
            footnote_anchor: None,
            is_footnote_header: false,
        }
    }
}

/// The gap above a row, by the theme dimension it takes.
#[derive(Clone, Copy, Debug, PartialEq, Eq, Structural)]
pub enum RowGap {
    /// No gap: the first row, or rows of one group drawn together.
    Zero,
    /// The block gap.
    Block,
    /// Three quarters of the block gap, below a footnote's heading row.
    ReducedBlock,
    /// The margin below a callout's heading row.
    CalloutHeader,
    /// The gap between rows of a callout body.
    CalloutBody,
}

fn same_anchor(a: Option<u128>, b: Option<u128>) -> (res: bool)
    ensures
        res == (a == b),
{
    match (a, b) {
        (Some(x), Some(y)) => x == y,
        (None, None) => true,
        _ => false,
    }
}

/// The gap above a row of the column: none for the first row or between
/// rows of one quote group, the block gap otherwise.
pub open spec fn rendered_gap_spec(
    previous: Option<RenderedRowSpacingInfo>,
    current: RenderedRowSpacingInfo,
) -> RowGap {
    match previous {
        None => RowGap::Zero,
        Some(p) => if p.quote_group_anchor is Some && p.quote_group_anchor
            == current.quote_group_anchor {
            RowGap::Zero
        } else {
            RowGap::Block
        },
    }
}

/// The gap above a row of the column.
pub fn rendered_row_top_gap(
    previous: Option<RenderedRowSpacingInfo>,
    current: RenderedRowSpacingInfo,
) -> (res: RowGap)
    ensures
        res == rendered_gap_spec(previous, current),
{
    match previous {
        None => RowGap::Zero,
        Some(p) => if p.quote_group_anchor.is_some() && same_anchor(
            p.quote_group_anchor,
            current.quote_group_anchor,
        ) {
            RowGap::Zero
        } else {
            RowGap::Block
        },
    }
}

/// The gap above a row inside a callout: none for its first row or between
/// rows of one visible quote group; below the heading row the heading
/// margin, otherwise the body gap.
pub open spec fn callout_gap_spec(
    previous: Option<RenderedRowSpacingInfo>,
    current: RenderedRowSpacingInfo,
) -> RowGap {
    match previous {
        None => RowGap::Zero,
        Some(p) => if p.visible_quote_group_anchor is Some && p.visible_quote_group_anchor
            == current.visible_quote_group_anchor {
            RowGap::Zero
        } else if p.is_callout_header {
            RowGap::CalloutHeader
        } else {
            RowGap::CalloutBody
        },
    }
}

/// The gap above a row inside a callout.
pub fn callout_row_top_gap(
    previous: Option<RenderedRowSpacingInfo>,
    current: RenderedRowSpacingInfo,
) -> (res: RowGap)
    ensures
        res == callout_gap_spec(previous, current),
{
    match previous {
        None => RowGap::Zero,
        Some(p) => if p.visible_quote_group_anchor.is_some() && same_anchor(
            p.visible_quote_group_anchor,
            current.visible_quote_group_anchor,
        ) {
            RowGap::Zero
        } else if p.is_callout_header {
            RowGap::CalloutHeader
        } else {
            RowGap::CalloutBody
        },
    }
}

/// The gap above a row inside a footnote: none for its first row, a
/// reduced gap below the heading row, the block gap otherwise.
pub open spec fn footnote_gap_spec(previous: Option<RenderedRowSpacingInfo>) -> RowGap {
    match previous {
        None => RowGap::Zero,
        Some(p) => if p.is_footnote_header {
            RowGap::ReducedBlock
        } else {
            RowGap::Block
        },
    }
}

/// The gap above a row inside a footnote.
pub fn footnote_row_top_gap(previous: Option<RenderedRowSpacingInfo>) -> (res: RowGap)
    ensures
        res == footnote_gap_spec(previous),
{
    match previous {
        None => RowGap::Zero,
        Some(p) => if p.is_footnote_header {
            RowGap::ReducedBlock
        } else {
            RowGap::Block
        },
    }
}

/// A box of consecutive rows of the column.
#[derive(Clone, Copy, Debug, PartialEq, Eq, Structural)]
pub enum RowGroup {
    /// Rows `start..end` of one callout, drawn in its colours.
    Callout { start: usize, end: usize, variant: CalloutVariant },
    /// Rows `start..end` of one footnote.
    Footnote { start: usize, end: usize },
    /// A row on its own.
    Single { index: usize },
}

/// A part of a callout box.
#[derive(Clone, Copy, Debug, PartialEq, Eq, Structural)]
pub enum CalloutPart {
    /// Rows `start..end` of one footnote inside the callout.
    Footnote { start: usize, end: usize },
    /// A row on its own.
    Row { index: usize },
}

/// The first row of a group.
pub open spec fn group_start(g: RowGroup) -> int {
    match g {
        RowGroup::Callout { start, .. } => start as int,
        RowGroup::Footnote { start, .. } => start as int,
        RowGroup::Single { index } => index as int,
    }
}

/// The row after the last of a group.
pub open spec fn group_end(g: RowGroup) -> int {
    match g {
        RowGroup::Callout { end, .. } => end as int,
        RowGroup::Footnote { end, .. } => end as int,
        RowGroup::Single { index } => index + 1,
    }
}

/// The first row of a part.
pub open spec fn part_start(p: CalloutPart) -> int {
    match p {
        CalloutPart::Footnote { start, .. } => start as int,
        CalloutPart::Row { index } => index as int,
    }
}

/// The row after the last of a part.
pub open spec fn part_end(p: CalloutPart) -> int {
    match p {
        CalloutPart::Footnote { end, .. } => end as int,
        CalloutPart::Row { index } => index + 1,
    }
}

/// A row starts a callout box: it has a callout anchor and a variant.
pub open spec fn starts_callout(r: RenderedRowSpacingInfo) -> bool {
    r.callout_anchor is Some && r.callout_variant is Some
}

/// Rows `start..end` are the longest run from `start` that shares the
/// callout anchor of row `start`.
pub open spec fn callout_run(rows: Seq<RenderedRowSpacingInfo>, start: int, end: int) -> bool {
    &&& 0 <= start < end <= rows.len()
    &&& forall|j: int| start <= j < end ==> #[trigger] rows[j].callout_anchor == rows[start].callout_anchor
    &&& (end == rows.len() || rows[end].callout_anchor != rows[start].callout_anchor)
}

/// Rows `start..end` are the longest run from `start`, within `limit`, that
/// shares the footnote anchor of row `start`.
pub open spec fn footnote_run(
    rows: Seq<RenderedRowSpacingInfo>,
    start: int,
    end: int,
    limit: int,
) -> bool {
    &&& 0 <= start < end <= limit <= rows.len()
    &&& rows[start].footnote_anchor is Some
    &&& forall|j: int| start <= j < end ==> #[trigger] rows[j].footnote_anchor == rows[start].footnote_anchor
    &&& (end == limit || rows[end].footnote_anchor != rows[start].footnote_anchor)
}

/// `g` is a group the column draws: a callout box from a row that starts
/// one, else a footnote box from a row in a footnote, else a single row.
pub open spec fn valid_group(rows: Seq<RenderedRowSpacingInfo>, g: RowGroup) -> bool {
    match g {
        RowGroup::Callout { start, end, variant } => {
            &&& callout_run(rows, start as int, end as int)
            &&& starts_callout(rows[start as int])
            &&& rows[start as int].callout_variant == Some(variant)
        },
        RowGroup::Footnote { start, end } => {
            &&& footnote_run(rows, start as int, end as int, rows.len() as int)
            &&& !starts_callout(rows[start as int])
        },
        RowGroup::Single { index } => {
            &&& 0 <= index < rows.len()
            &&& !starts_callout(rows[index as int])
            &&& rows[index as int].footnote_anchor is None
        },
    }
}

/// `p` is a part of a callout box ending at row `limit`: a footnote box
/// from a row in a footnote, else a single row.
pub open spec fn valid_part(rows: Seq<RenderedRowSpacingInfo>, p: CalloutPart, limit: int) -> bool {
    match p {
        CalloutPart::Footnote { start, end } => footnote_run(
            rows,
            start as int,
            end as int,
            limit,
        ),
        CalloutPart::Row { index } => 0 <= index < limit && rows[index as int].footnote_anchor is None,
    }
}

/// The groups cover rows `0..upto` one after another, each valid.
pub open spec fn groups_tile(
    rows: Seq<RenderedRowSpacingInfo>,
    groups: Seq<RowGroup>,
    upto: int,
) -> bool {
    &&& (groups.len() == 0 ==> upto == 0)
    &&& (groups.len() > 0 ==> group_start(groups[0]) == 0 && group_end(groups.last()) == upto)
    &&& forall|k: int|
        0 <= k < groups.len() - 1 ==> group_end(#[trigger] groups[k]) == group_start(groups[k + 1])
    &&& forall|k: int| 0 <= k < groups.len() ==> valid_group(rows, #[trigger] groups[k])
}

/// The parts cover rows `from..upto` one after another, each valid within
/// a callout box ending at row `limit`.
pub open spec fn parts_tile(
    rows: Seq<RenderedRowSpacingInfo>,
    parts: Seq<CalloutPart>,
    from: int,
    upto: int,
    limit: int,
) -> bool {
    &&& (parts.len() == 0 ==> upto == from)
    &&& (parts.len() > 0 ==> part_start(parts[0]) == from && part_end(parts.last()) == upto)
    &&& forall|k: int|
        0 <= k < parts.len() - 1 ==> part_end(#[trigger] parts[k]) == part_start(parts[k + 1])
    &&& forall|k: int| 0 <= k < parts.len() ==> valid_part(rows, #[trigger] parts[k], limit)
}

proof fn lemma_callout_run_unique(rows: Seq<RenderedRowSpacingInfo>, s: int, e1: int, e2: int)
    requires
        callout_run(rows, s, e1),
        callout_run(rows, s, e2),
    ensures
        e1 == e2,
{
    if e1 < e2 {
        assert(rows[e1].callout_anchor == rows[s].callout_anchor);
    } else if e2 < e1 {
        assert(rows[e2].callout_anchor == rows[s].callout_anchor);
    }
}

proof fn lemma_footnote_run_unique(
    rows: Seq<RenderedRowSpacingInfo>,
    s: int,
    e1: int,
    e2: int,
    limit: int,
)
    requires
        footnote_run(rows, s, e1, limit),
        footnote_run(rows, s, e2, limit),
    ensures
        e1 == e2,
{
    if e1 < e2 {
        assert(rows[e1].footnote_anchor == rows[s].footnote_anchor);
    } else if e2 < e1 {
        assert(rows[e2].footnote_anchor == rows[s].footnote_anchor);
    }
}

/// Two valid groups that start at the same row are the same group, and a
/// group ends after it starts.
proof fn lemma_group_unique(rows: Seq<RenderedRowSpacingInfo>, a: RowGroup, b: RowGroup)
    requires
        valid_group(rows, a),
        valid_group(rows, b),
        group_start(a) == group_start(b),
    ensures
        a == b,
{
    match (a, b) {
        (
            RowGroup::Callout { start: s1, end: e1, .. },
            RowGroup::Callout { start: s2, end: e2, .. },
        ) => {
            lemma_callout_run_unique(rows, s1 as int, e1 as int, e2 as int);
        },
        (RowGroup::Footnote { start: s1, end: e1 }, RowGroup::Footnote { start: s2, end: e2 }) => {
            lemma_footnote_run_unique(rows, s1 as int, e1 as int, e2 as int, rows.len() as int);
        },
        _ => {},
    }
}

proof fn lemma_group_ends_after_start(rows: Seq<RenderedRowSpacingInfo>, g: RowGroup)
    requires
        valid_group(rows, g),
    ensures
        group_start(g) < group_end(g) <= rows.len(),
{
}

/// In a tiling, group `k` starts no earlier than row `k` and no later than
/// the end of the tiling.
proof fn lemma_tile_starts(rows: Seq<RenderedRowSpacingInfo>, g: Seq<RowGroup>, n: int, k: int)
    requires
        groups_tile(rows, g, n),
        0 <= k < g.len(),
    ensures
        k <= group_start(g[k]) < group_end(g[k]) <= n,
        forall|j: int| k <= j < g.len() ==> group_end(g[k]) <= group_end(#[trigger] g[j]),
    decreases g.len() - k,
{
    lemma_group_ends_after_start(rows, g[k]);
    if k + 1 < g.len() {
        lemma_tile_starts(rows, g, n, k + 1);
        assert(group_end(g[k]) == group_start(g[k + 1]));
    } else {
        assert(g[k] == g.last());
    }
    if k > 0 {
        assert(group_end(g[k - 1]) == group_start(g[k]));
    }
    lemma_tile_lower(rows, g, k);
}

proof fn lemma_tile_lower(rows: Seq<RenderedRowSpacingInfo>, g: Seq<RowGroup>, k: int)
    requires
        forall|i: int| 0 <= i < g.len() - 1 ==> group_end(#[trigger] g[i]) == group_start(g[i + 1]),
        forall|i: int| 0 <= i < g.len() ==> valid_group(rows, #[trigger] g[i]),
        g.len() > 0 ==> group_start(g[0]) == 0,
        0 <= k < g.len(),
    ensures
        k <= group_start(g[k]),
    decreases k,
{
    if k > 0 {
        lemma_tile_lower(rows, g, k - 1);
        lemma_group_ends_after_start(rows, g[k - 1]);
        assert(group_end(g[k - 1]) == group_start(g[k]));
    }
}

/// The boxes are determined by the rows: two ways of cutting the same rows
/// into valid boxes one after another are the same.
pub proof fn law_grouping_is_determined(
    rows: Seq<RenderedRowSpacingInfo>,
    a: Seq<RowGroup>,
    b: Seq<RowGroup>,
)
    requires
        groups_tile(rows, a, rows.len() as int),
        groups_tile(rows, b, rows.len() as int),
    ensures
        a == b,
{
    let n = rows.len() as int;
    let m = if a.len() < b.len() {
        a.len() as int
    } else {
        b.len() as int
    };
    assert forall|k: int| 0 <= k < m implies #[trigger] a[k] == b[k] by {
        lemma_prefix_equal(rows, a, b, k);
    }
    if a.len() < b.len() {
        if a.len() == 0 {
            lemma_tile_starts(rows, b, n, 0);
        } else {
            lemma_prefix_equal(rows, a, b, a.len() - 1);
            assert(a.last() == a[a.len() - 1]);
            lemma_tile_starts(rows, b, n, a.len() as int);
            assert(group_end(b[a.len() - 1]) == group_start(b[a.len() as int]));
        }
    } else if b.len() < a.len() {
        if b.len() == 0 {
            lemma_tile_starts(rows, a, n, 0);
        } else {
            lemma_prefix_equal(rows, a, b, b.len() - 1);
            assert(b.last() == b[b.len() - 1]);
            lemma_tile_starts(rows, a, n, b.len() as int);
            assert(group_end(a[b.len() - 1]) == group_start(a[b.len() as int]));
        }
    }
    assert(a =~= b);
}

proof fn lemma_prefix_equal(
    rows: Seq<RenderedRowSpacingInfo>,
    a: Seq<RowGroup>,
    b: Seq<RowGroup>,
    k: int,
)
    requires
        groups_tile(rows, a, rows.len() as int),
        groups_tile(rows, b, rows.len() as int),
        0 <= k < a.len(),
        k < b.len(),
    ensures
        a[k] == b[k],
    decreases k,
{
    if k == 0 {
        lemma_group_unique(rows, a[0], b[0]);
    } else {
        lemma_prefix_equal(rows, a, b, k - 1);
        assert(group_end(a[k - 1]) == group_start(a[k]));
        assert(group_end(b[k - 1]) == group_start(b[k]));
        lemma_group_unique(rows, a[k], b[k]);
    }
}

proof fn lemma_part_unique(rows: Seq<RenderedRowSpacingInfo>, a: CalloutPart, b: CalloutPart, limit: int)
    requires
        valid_part(rows, a, limit),
        valid_part(rows, b, limit),
        part_start(a) == part_start(b),
    ensures
        a == b,
        part_start(a) < part_end(a) <= limit,
{
    match (a, b) {
        (CalloutPart::Footnote { start: s1, end: e1 }, CalloutPart::Footnote { start: s2, end: e2 }) => {
            lemma_footnote_run_unique(rows, s1 as int, e1 as int, e2 as int, limit);
        },
        _ => {},
    }
}

proof fn lemma_parts_prefix_equal(
    rows: Seq<RenderedRowSpacingInfo>,
    a: Seq<CalloutPart>,
    b: Seq<CalloutPart>,
    from: int,
    limit: int,
    k: int,
)
    requires
        parts_tile(rows, a, from, limit, limit),
        parts_tile(rows, b, from, limit, limit),
        0 <= k < a.len(),
        k < b.len(),
    ensures
        a[k] == b[k],
    decreases k,
{
    if k == 0 {
        lemma_part_unique(rows, a[0], b[0], limit);
    } else {
        lemma_parts_prefix_equal(rows, a, b, from, limit, k - 1);
        assert(part_end(a[k - 1]) == part_start(a[k]));
        assert(part_end(b[k - 1]) == part_start(b[k]));
        lemma_part_unique(rows, a[k], b[k], limit);
    }
}

/// In a tiling of parts, every part from the `k`-th on ends no earlier than
/// the `k`-th, which ends after it starts.
proof fn lemma_parts_grow(
    rows: Seq<RenderedRowSpacingInfo>,
    p: Seq<CalloutPart>,
    from: int,
    limit: int,
    k: int,
)
    requires
        parts_tile(rows, p, from, limit, limit),
        0 <= k < p.len(),
    ensures
        part_start(p[k]) < part_end(p[k]) <= limit,
        forall|j: int| k <= j < p.len() ==> part_end(p[k]) <= part_end(#[trigger] p[j]),
    decreases p.len() - k,
{
    lemma_part_unique(rows, p[k], p[k], limit);
    if k + 1 < p.len() {
        lemma_parts_grow(rows, p, from, limit, k + 1);
        assert(part_end(p[k]) == part_start(p[k + 1]));
    }
}

/// The parts of a callout box are determined by its rows: two ways of
/// cutting rows `from..limit` into valid parts one after another are the
/// same.
pub proof fn law_callout_parts_are_determined(
    rows: Seq<RenderedRowSpacingInfo>,
    a: Seq<CalloutPart>,
    b: Seq<CalloutPart>,
    from: int,
    limit: int,
)
    requires
        parts_tile(rows, a, from, limit, limit),
        parts_tile(rows, b, from, limit, limit),
    ensures
        a == b,
{
    assert forall|k: int| 0 <= k < a.len() && k < b.len() implies #[trigger] a[k] == b[k] by {
        lemma_parts_prefix_equal(rows, a, b, from, limit, k);
    }
    if a.len() < b.len() {
        if a.len() == 0 {
            lemma_parts_grow(rows, b, from, limit, 0);
            assert(b.last() == b[b.len() - 1]);
        } else {
            lemma_parts_prefix_equal(rows, a, b, from, limit, a.len() - 1);
            assert(a.last() == a[a.len() - 1]);
            lemma_parts_grow(rows, b, from, limit, a.len() as int);
            assert(part_end(b[a.len() - 1]) == part_start(b[a.len() as int]));
            assert(b.last() == b[b.len() - 1]);
        }
    } else if b.len() < a.len() {
        if b.len() == 0 {
            lemma_parts_grow(rows, a, from, limit, 0);
            assert(a.last() == a[a.len() - 1]);
        } else {
            lemma_parts_prefix_equal(rows, a, b, from, limit, b.len() - 1);
            assert(b.last() == b[b.len() - 1]);
            lemma_parts_grow(rows, a, from, limit, b.len() as int);
            assert(part_end(a[b.len() - 1]) == part_start(a[b.len() as int]));
            assert(a.last() == a[a.len() - 1]);
        }
    }
    assert(a =~= b);
}

/// The end of the longest run of rows from `start` that share the callout
/// anchor of row `start`.
fn callout_run_end(rows: &Vec<RenderedRowSpacingInfo>, start: usize) -> (res: usize)
    requires
        start < rows.len(),
    ensures
        callout_run(rows@, start as int, res as int),
{
    let anchor = rows[start].callout_anchor;
    let mut end = start + 1;
    while end < rows.len() && same_anchor(rows[end].callout_anchor, anchor)
        invariant
            start < end <= rows.len(),
            anchor == rows@[start as int].callout_anchor,
            forall|j: int| start <= j < end ==> #[trigger] rows@[j].callout_anchor == anchor,
        decreases rows.len() - end,
    {
        end += 1;
    }
    end
}

/// The end of the longest run of rows from `start`, before `limit`, that
/// share the footnote anchor of row `start`.
fn footnote_run_end(rows: &Vec<RenderedRowSpacingInfo>, start: usize, limit: usize) -> (res: usize)
    requires
        start < limit <= rows.len(),
        rows@[start as int].footnote_anchor is Some,
    ensures
        footnote_run(rows@, start as int, res as int, limit as int),
{
    let anchor = rows[start].footnote_anchor;
    let mut end = start + 1;
    while end < limit && same_anchor(rows[end].footnote_anchor, anchor)
        invariant
            start < end <= limit <= rows.len(),
            anchor == rows@[start as int].footnote_anchor,
            forall|j: int| start <= j < end ==> #[trigger] rows@[j].footnote_anchor == anchor,
        decreases limit - end,
    {
        end += 1;
    }
    end
}

/// The boxes the column draws, in order: from each row that starts a
/// callout, the callout's run of rows; from each other row in a footnote,
/// the footnote's run; every other row on its own.
pub fn group_rows(rows: &Vec<RenderedRowSpacingInfo>) -> (res: Vec<RowGroup>)
    ensures
        groups_tile(rows@, res@, rows.len() as int),
{
    let mut groups: Vec<RowGroup> = Vec::new();
    let mut i: usize = 0;
    while i < rows.len()
        invariant
            i <= rows.len(),
            groups_tile(rows@, groups@, i as int),
        decreases rows.len() - i,
    {
        let row = rows[i];
        let group = match (row.callout_anchor, row.callout_variant) {
            (Some(_), Some(variant)) => {
                let end = callout_run_end(rows, i);
                RowGroup::Callout { start: i, end, variant }
            },
            _ => if row.footnote_anchor.is_some() {
                let end = footnote_run_end(rows, i, rows.len());
                RowGroup::Footnote { start: i, end }
            } else {
                RowGroup::Single { index: i }
            },
        };
        let ghost before = groups@;
        groups.push(group);
        proof {
            assert(groups@.last() == group);
            assert forall|k: int| 0 <= k < groups@.len() - 1 implies group_end(#[trigger] groups@[k])
                == group_start(groups@[k + 1]) by {
                if k < before.len() - 1 {
                    assert(groups@[k] == before[k] && groups@[k + 1] == before[k + 1]);
                }
            }
            assert forall|k: int| 0 <= k < groups@.len() implies valid_group(rows@, #[trigger] groups@[k]) by {
                if k < before.len() {
                    assert(groups@[k] == before[k]);
                }
            }
        }
        i = match group {
            RowGroup::Callout { end, .. } => end,
            RowGroup::Footnote { end, .. } => end,
            RowGroup::Single { index } => index + 1,
        };
    }
    groups
}

/// The parts of the callout box of rows `start..end`, in order: from each
/// row in a footnote, the footnote's run within the box; every other row
/// on its own.
pub fn callout_parts(rows: &Vec<RenderedRowSpacingInfo>, start: usize, end: usize) -> (res: Vec<
    CalloutPart,
>)
    requires
        start <= end <= rows.len(),
    ensures
        parts_tile(rows@, res@, start as int, end as int, end as int),
{
    let mut parts: Vec<CalloutPart> = Vec::new();
    let mut i: usize = start;
    while i < end
        invariant
            start <= i <= end <= rows.len(),
            parts_tile(rows@, parts@, start as int, i as int, end as int),
        decreases end - i,
    {
        let part = if rows[i].footnote_anchor.is_some() {
            let e = footnote_run_end(rows, i, end);
            CalloutPart::Footnote { start: i, end: e }
        } else {
            CalloutPart::Row { index: i }
        };
        let ghost before = parts@;
        parts.push(part);
        proof {
            assert(parts@.last() == part);
            assert forall|k: int| 0 <= k < parts@.len() - 1 implies part_end(#[trigger] parts@[k])
                == part_start(parts@[k + 1]) by {
                if k < before.len() - 1 {
                    assert(parts@[k] == before[k] && parts@[k + 1] == before[k + 1]);
                }
            }
            assert forall|k: int| 0 <= k < parts@.len() implies valid_part(rows@, #[trigger] parts@[k], end as int) by {
                if k < before.len() {
                    assert(parts@[k] == before[k]);
                }
            }
        }
        i = match part {
            CalloutPart::Footnote { end, .. } => end,
            CalloutPart::Row { index } => index + 1,
        };
    }
    parts
}

/// The row before row `index`, unless `index` is the first row of its box
/// (which starts at `first`).
pub open spec fn row_before(rows: Seq<RenderedRowSpacingInfo>, first: int, index: int) -> Option<
    RenderedRowSpacingInfo,
> {
    if index == first {
        None
    } else {
        Some(rows[index - 1])
    }
}

fn previous_row(rows: &Vec<RenderedRowSpacingInfo>, first: usize, index: usize) -> (res: Option<
    RenderedRowSpacingInfo,
>)
    requires
        first <= index < rows.len(),
    ensures
        res == row_before(rows@, first as int, index as int),
{
    if index == first {
        None
    } else {
        Some(rows[index - 1])
    }
}

/// The gap above the box that starts at row `start` of the column.
pub fn group_top_gap(rows: &Vec<RenderedRowSpacingInfo>, start: usize) -> (res: RowGap)
    requires
        start < rows.len(),
    ensures
        res == rendered_gap_spec(row_before(rows@, 0, start as int), rows@[start as int]),
{
    rendered_row_top_gap(previous_row(rows, 0, start), rows[start])
}

/// The gap above the part of a callout box (which starts at row `first`)
/// that starts at row `start`.
pub fn callout_part_gap(rows: &Vec<RenderedRowSpacingInfo>, first: usize, start: usize) -> (res:
    RowGap)
    requires
        first <= start < rows.len(),
    ensures
        res == callout_gap_spec(row_before(rows@, first as int, start as int), rows@[start as int]),
{
    callout_row_top_gap(previous_row(rows, first, start), rows[start])
}

/// The gap above row `index` of a footnote box that starts at row `first`.
pub fn footnote_gap(rows: &Vec<RenderedRowSpacingInfo>, first: usize, index: usize) -> (res:
    RowGap)
    requires
        first <= index < rows.len(),
    ensures
        res == footnote_gap_spec(row_before(rows@, first as int, index as int)),
{
    footnote_row_top_gap(previous_row(rows, first, index))
}

/// Rows of one quote group sit together: the second of two consecutive
/// rows that share a quote group gets no gap, inside a callout too when they
/// share a visible quote group.
pub proof fn law_quote_rows_sit_together(p: RenderedRowSpacingInfo, c: RenderedRowSpacingInfo)
    ensures
        p.quote_group_anchor is Some && p.quote_group_anchor == c.quote_group_anchor
            ==> rendered_gap_spec(Some(p), c) == RowGap::Zero,
        p.visible_quote_group_anchor is Some && p.visible_quote_group_anchor
            == c.visible_quote_group_anchor ==> callout_gap_spec(Some(p), c) == RowGap::Zero,
        rendered_gap_spec(None, c) == RowGap::Zero,
        callout_gap_spec(None, c) == RowGap::Zero,
        footnote_gap_spec(None) == RowGap::Zero,
{
}

/// How wide a character of a menu label is drawn, relative to the text
/// size.
#[derive(Clone, Copy, Debug, PartialEq, Eq, Structural)]
pub enum MenuCharWidth {
    /// ASCII white space.
    Space,
    /// ASCII punctuation.
    Punctuation,
    /// Other ASCII.
    Ascii,
    /// A full-width character.
    Wide,
    /// Anything else.
    Other,
}

/// Whether `c` is drawn full width in a menu: Hangul Jamo, the CJK blocks,
/// Hangul syllables, compatibility ideographs, vertical and small forms,
/// and the full-width forms.
pub open spec fn is_wide_menu_char_spec(c: char) -> bool {
    let u = c as u32;
    ||| 0x1100 <= u <= 0x11ff
    ||| 0x2e80 <= u <= 0xa4cf
    ||| 0xac00 <= u <= 0xd7a3
    ||| 0xf900 <= u <= 0xfaff
    ||| 0xfe10 <= u <= 0xfe6f
    ||| 0xff00 <= u <= 0xff60
    ||| 0xffe0 <= u <= 0xffe6
}

/// Whether `c` is drawn full width in a menu.
pub fn is_wide_menu_char(c: char) -> (res: bool)
    ensures
        res == is_wide_menu_char_spec(c),
{
    let u = c as u32;
    (0x1100 <= u && u <= 0x11ff) || (0x2e80 <= u && u <= 0xa4cf) || (0xac00 <= u && u <= 0xd7a3)
        || (0xf900 <= u && u <= 0xfaff) || (0xfe10 <= u && u <= 0xfe6f) || (0xff00 <= u && u
        <= 0xff60) || (0xffe0 <= u && u <= 0xffe6)
}

/// The width class of `c`: ASCII white space (space, tab, line feed, form
/// feed, carriage return), ASCII punctuation, other ASCII, full width, or
/// other.
pub open spec fn menu_char_width_spec(c: char) -> MenuCharWidth {
    let u = c as u32;
    if u == 0x20 || u == 0x09 || u == 0x0a || u == 0x0c || u == 0x0d {
        MenuCharWidth::Space
    } else if (0x21 <= u <= 0x2f) || (0x3a <= u <= 0x40) || (0x5b <= u <= 0x60) || (0x7b <= u
        <= 0x7e) {
        MenuCharWidth::Punctuation
    } else if u <= 0x7f {
        MenuCharWidth::Ascii
    } else if is_wide_menu_char_spec(c) {
        MenuCharWidth::Wide
    } else {
        MenuCharWidth::Other
    }
}

/// The width class of `c`.
pub fn menu_char_width(c: char) -> (res: MenuCharWidth)
    ensures
        res == menu_char_width_spec(c),
{
    let u = c as u32;
    if u == 0x20 || u == 0x09 || u == 0x0a || u == 0x0c || u == 0x0d {
        MenuCharWidth::Space
    } else if (0x21 <= u && u <= 0x2f) || (0x3a <= u && u <= 0x40) || (0x5b <= u && u <= 0x60) || (
    0x7b <= u && u <= 0x7e) {
        MenuCharWidth::Punctuation
    } else if u <= 0x7f {
        MenuCharWidth::Ascii
    } else if is_wide_menu_char(c) {
        MenuCharWidth::Wide
    } else {
        MenuCharWidth::Other
    }
}

/// East Asian characters are drawn full width: Hangul Jamo
/// (U+1100..U+11FF), the CJK radicals, kana, Bopomofo, CJK ideographs and
/// Yi (U+2E80..U+A4CF, among them the CJK Unified Ideographs
/// U+4E00..U+9FFF, Hiragana and Katakana U+3040..U+30FF), Hangul syllables
/// (U+AC00..U+D7A3), CJK compatibility ideographs (U+F900..U+FAFF), vertical
/// and small forms (U+FE10..U+FE6F) and the full-width forms
/// (U+FF00..U+FF60, U+FFE0..U+FFE6). ASCII, Latin, Greek and Cyrillic text
/// (below U+1100), the punctuation and symbol blocks between Hangul Jamo and
/// the CJK radicals, and everything past the full-width forms (emoji among
/// them) are not.
pub proof fn law_east_asian_characters_are_wide(c: char)
    ensures
        0x4e00 <= (c as u32) <= 0x9fff ==> is_wide_menu_char_spec(c) && menu_char_width_spec(c)
            == MenuCharWidth::Wide,
        0x3040 <= (c as u32) <= 0x30ff ==> is_wide_menu_char_spec(c) && menu_char_width_spec(c)
            == MenuCharWidth::Wide,
        0x2e80 <= (c as u32) <= 0xa4cf ==> is_wide_menu_char_spec(c) && menu_char_width_spec(c)
            == MenuCharWidth::Wide,
        0x1100 <= (c as u32) <= 0x11ff ==> menu_char_width_spec(c) == MenuCharWidth::Wide,
        0xac00 <= (c as u32) <= 0xd7a3 ==> menu_char_width_spec(c) == MenuCharWidth::Wide,
        0xf900 <= (c as u32) <= 0xfaff ==> menu_char_width_spec(c) == MenuCharWidth::Wide,
        0xfe10 <= (c as u32) <= 0xfe6f ==> menu_char_width_spec(c) == MenuCharWidth::Wide,
        0xff00 <= (c as u32) <= 0xff60 ==> menu_char_width_spec(c) == MenuCharWidth::Wide,
        0xffe0 <= (c as u32) <= 0xffe6 ==> menu_char_width_spec(c) == MenuCharWidth::Wide,
        (c as u32) < 0x1100 ==> !is_wide_menu_char_spec(c),
        0x7f < (c as u32) < 0x1100 ==> menu_char_width_spec(c) == MenuCharWidth::Other,
        0x11ff < (c as u32) < 0x2e80 ==> !is_wide_menu_char_spec(c),
        (c as u32) > 0xffe6 ==> !is_wide_menu_char_spec(c),
{
}

/// The width class of each character of a menu label, in order.
pub fn menu_label_widths(label: &str) -> (res: Vec<MenuCharWidth>)
    ensures
        res.len() == label@.len(),
        forall|i: int| 0 <= i < res.len() ==> #[trigger] res@[i] == menu_char_width_spec(label@[i]),
{
    let chars = chars_of(label);
    let mut out: Vec<MenuCharWidth> = Vec::new();
    let mut i: usize = 0;
    while i < chars.len()
        invariant
            chars@ == label@,
            i <= chars.len(),
            out.len() == i,
            forall|k: int| 0 <= k < i ==> #[trigger] out@[k] == menu_char_width_spec(label@[k]),
        decreases chars.len() - i,
    {
        out.push(menu_char_width(chars[i]));
        i += 1;
    }
    out
}

/// How the editor shows the document.
#[derive(Clone, Copy, Debug, PartialEq, Eq, Structural)]
pub enum ViewMode {
    Rendered,
    Source,
}

/// The label of the view-mode button: the other mode's name, or, while
/// hovered, the action of switching to it.
#[derive(Clone, Copy, Debug, PartialEq, Eq, Structural)]
pub enum ToggleLabel {
    Source,
    SwitchToSource,
    Rendered,
    SwitchToRendered,
}

/// The label of the view-mode button.
pub fn view_mode_toggle_label(mode: ViewMode, hovered: bool) -> (res: ToggleLabel)
    ensures
        res == match (mode, hovered) {
            (ViewMode::Rendered, false) => ToggleLabel::Source,
            (ViewMode::Rendered, true) => ToggleLabel::SwitchToSource,
            (ViewMode::Source, false) => ToggleLabel::Rendered,
            (ViewMode::Source, true) => ToggleLabel::SwitchToRendered,
        },
{
    match (mode, hovered) {
        (ViewMode::Rendered, false) => ToggleLabel::Source,
        (ViewMode::Rendered, true) => ToggleLabel::SwitchToSource,
        (ViewMode::Source, false) => ToggleLabel::Rendered,
        (ViewMode::Source, true) => ToggleLabel::SwitchToRendered,
    }
}

/// Which information dialog is open.
#[derive(Clone, Copy, Debug, PartialEq, Eq, Structural)]
pub enum InfoDialogKind {
    CheckForUpdates,
    About,
}

/// A dialog drawn over the editor.
#[derive(Clone, Copy, Debug, PartialEq, Eq, Structural)]
pub enum Overlay {
    Info(InfoDialogKind),
    DropReplace,
    UnsavedChanges,
}

/// The dialog drawn over the editor: an information dialog first, then the
/// question whether to replace the document by a dropped file, then the
/// question what to do with unsaved changes; at most one of them.
pub fn active_overlay(
    info_dialog: Option<InfoDialogKind>,
    show_drop_replace_dialog: bool,
    show_unsaved_changes_dialog: bool,
) -> (res: Option<Overlay>)
    ensures
        res == match info_dialog {
            Some(kind) => Some(Overlay::Info(kind)),
            None => if show_drop_replace_dialog {
                Some(Overlay::DropReplace)
            } else if show_unsaved_changes_dialog {
                Some(Overlay::UnsavedChanges)
            } else {
                None
            },
        },
{
    match info_dialog {
        Some(kind) => Some(Overlay::Info(kind)),
        None => if show_drop_replace_dialog {
            Some(Overlay::DropReplace)
        } else if show_unsaved_changes_dialog {
            Some(Overlay::UnsavedChanges)
        } else {
            None
        },
    }
}

/// A request to scroll the focused caret into view, kept across frames
/// until it is carried out.
#[derive(Clone, Copy, Debug, PartialEq, Eq, Structural)]
pub struct PendingScroll {
    pub active: bool,
    pub recheck_after_layout: bool,
}

/// What the frame does after trying to show the caret.
#[derive(Clone, Copy, Debug, PartialEq, Eq, Structural)]
pub enum ScrollFollowUp {
    /// Draw another frame and try again.
    NotifyAgain,
    /// The request is carried out.
    Done,
}

impl PendingScroll {
    /// Whether this frame tries to scroll: a request is pending and the
    /// scroll bar is not being dragged.
    pub fn should_run(&self, dragging_scrollbar: bool) -> (res: bool)
        ensures
            res == (!dragging_scrollbar && self.active),
    {
        !dragging_scrollbar && self.active
    }

    /// After the caret was brought into view as far as its bounds are
    /// known: a requested recheck after layout takes another frame, as do
    /// missing caret bounds; otherwise the request is done.
    pub fn after_caret_check(&mut self, has_bounds: bool) -> (res: ScrollFollowUp)
        ensures
            old(self).recheck_after_layout ==> res == ScrollFollowUp::NotifyAgain
                && *final(self) == (PendingScroll { active: old(self).active, recheck_after_layout: false }),
            !old(self).recheck_after_layout && !has_bounds ==> res == ScrollFollowUp::NotifyAgain
                && *final(self) == *old(self),
            !old(self).recheck_after_layout && has_bounds ==> res == ScrollFollowUp::Done
                && *final(self) == (PendingScroll { active: false, recheck_after_layout: false }),
    {
        if self.recheck_after_layout {
            self.recheck_after_layout = false;
            return ScrollFollowUp::NotifyAgain;
        }
        if !has_bounds {
            return ScrollFollowUp::NotifyAgain;
        }
        self.active = false;
        ScrollFollowUp::Done
    }
}

} // verus!
