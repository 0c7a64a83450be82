//! The highlighted view of a JSON document: its visible lines, each with its
//! indentation, its tokens split at search matches, and what a collapsed
//! block hides.

use vstd::prelude::*;
use std::collections::{HashMap, HashSet};
use crate::collapse::{
    collapse_counts,
    count_collapsed,
    depth_after,
    depth_before,
    ends_opening,
    opens_block,
    starts_closing,
};
use crate::number::{digits, digits_of};
use crate::text::{
    chars_of,
    contains,
    copy_range,
    has_match,
    lines_of,
    lowercase,
    lowercase_of,
    matches_at,
    occurs_at,
    split_lines,
    string_of,
    trim,
    trimmed,
    views,
};
use crate::tokens::{classify, kind_of, token_views, tokenize, tokens_of, TokenKind, TokenView};

verus! {

broadcast use vstd::std_specs::hash::group_hash_axioms;

/// A run of characters of a token, inside or outside a search match.
#[derive(Debug)]
pub struct Segment {
    pub text: String,
    pub matched: bool,
}

/// The mathematical value of a [`Segment`].
pub struct SegmentView {
    pub text: Seq<char>,
    pub matched: bool,
}

impl View for Segment {
    type V = SegmentView;

    open spec fn view(&self) -> SegmentView {
        SegmentView { text: self.text@, matched: self.matched }
    }
}

/// A token as shown: its kind, and its text in segments.
#[derive(Debug)]
pub struct StyledToken {
    pub kind: TokenKind,
    pub segments: Vec<Segment>,
}

/// The mathematical value of a [`StyledToken`].
pub struct StyledTokenView {
    pub kind: TokenKind,
    pub segments: Seq<SegmentView>,
}

impl View for StyledToken {
    type V = StyledTokenView;

    open spec fn view(&self) -> StyledTokenView {
        StyledTokenView { kind: self.kind, segments: segment_views(self.segments@) }
    }
}

/// What stands in place of a collapsed block.
#[derive(Clone, Copy, Debug, PartialEq, Eq, Structural)]
pub struct Summary {
    /// Number of lines the block hides.
    pub hidden_lines: usize,
    /// The bracket that closes the block.
    pub closing: char,
}

/// One visible line of the document.
#[derive(Debug)]
pub struct Line {
    /// Index of the line in the document, from zero.
    pub index: usize,
    /// Nesting depth at which the line is shown.
    pub indent: usize,
    /// Whether the line holds the search query.
    pub is_match: bool,
    /// Whether the line opens a block that can be collapsed.
    pub collapsible: bool,
    /// Whether the line is among the collapsed ones.
    pub collapsed: bool,
    /// The tokens of the line.
    pub tokens: Vec<StyledToken>,
    /// For a collapsible line that is collapsed, what it hides.
    pub summary: Option<Summary>,
}

/// The mathematical value of a [`Line`].
pub struct LineView {
    pub index: int,
    pub indent: int,
    pub is_match: bool,
    pub collapsible: bool,
    pub collapsed: bool,
    pub tokens: Seq<StyledTokenView>,
    pub summary: Option<Summary>,
}

impl View for Line {
    type V = LineView;

    open spec fn view(&self) -> LineView {
        LineView {
            index: self.index as int,
            indent: self.indent as int,
            is_match: self.is_match,
            collapsible: self.collapsible,
            collapsed: self.collapsed,
            tokens: styled_views(self.tokens@),
            summary: self.summary,
        }
    }
}

/// The views of a vector of segments.
pub open spec fn segment_views(v: Seq<Segment>) -> Seq<SegmentView> {
    v.map_values(|s: Segment| s@)
}

/// The views of a vector of styled tokens.
pub open spec fn styled_views(v: Seq<StyledToken>) -> Seq<StyledTokenView> {
    v.map_values(|t: StyledToken| t@)
}

/// The views of a vector of lines.
pub open spec fn line_views(v: Seq<Line>) -> Seq<LineView> {
    v.map_values(|l: Line| l@)
}

/// The segments of `text` from `cur` on, when its lowercase form `low` has
/// been searched for `pat` up to `pos`. Matches are taken from the left and
/// do not overlap; what lies between two matches is one unmatched segment.
pub open spec fn split_matches(
    text: Seq<char>,
    low: Seq<char>,
    pat: Seq<char>,
    cur: int,
    pos: int,
) -> Seq<SegmentView>
    decreases low.len() - pos,
{
    if pat.len() == 0 || pos < 0 || pos + pat.len() > low.len() {
        if cur < text.len() {
            seq![SegmentView { text: text.subrange(cur, text.len() as int), matched: false }]
        } else {
            Seq::empty()
        }
    } else if matches_at(low, pat, pos) {
        let before = if pos > cur {
            seq![SegmentView { text: text.subrange(cur, pos), matched: false }]
        } else {
            Seq::empty()
        };
        before + seq![SegmentView { text: text.subrange(pos, pos + pat.len()), matched: true }]
            + split_matches(text, low, pat, pos + pat.len(), pos + pat.len())
    } else {
        split_matches(text, low, pat, cur, pos + 1)
    }
}

/// The one segment of a text without a match.
pub open spec fn unmatched(text: Seq<char>) -> Seq<SegmentView> {
    seq![SegmentView { text, matched: false }]
}

/// Whether `text` can be searched for `query` without regard to case: the
/// query is not empty, nor is its lowercase form, and the lowercase form of
/// the text has as many characters as the text.
pub open spec fn searchable(text: Seq<char>, query: Seq<char>) -> bool {
    query.len() > 0 && lowercase(query).len() > 0 && lowercase(text).len() == text.len()
}

/// The segments of a token's text under a search query. The text is cut where
/// its lowercase form holds the lowercase form of the query. A text that
/// cannot be searched, or that holds no match, is one unmatched segment.
pub open spec fn segments_of(text: Seq<char>, query: Seq<char>) -> Seq<SegmentView> {
    if searchable(text, query) {
        let parts = split_matches(text, lowercase(text), lowercase(query), 0, 0);
        if parts.len() == 0 {
            unmatched(text)
        } else {
            parts
        }
    } else {
        unmatched(text)
    }
}

/// A token as shown under a search query.
pub open spec fn styled_of(t: TokenView, query: Seq<char>) -> StyledTokenView {
    StyledTokenView { kind: kind_of(t), segments: segments_of(t.text, query) }
}

/// The tokens of a trimmed line as shown under a search query.
pub open spec fn styled_tokens_of(t: Seq<char>, query: Seq<char>) -> Seq<StyledTokenView> {
    tokens_of(t).map_values(|tok: TokenView| styled_of(tok, query))
}

/// Whether a line holds the query, without regard to case.
pub open spec fn line_matches(line: Seq<char>, query: Seq<char>) -> bool {
    query.len() > 0 && contains(lowercase(line), lowercase(query))
}

/// The texts of some segments, joined.
pub open spec fn joined(parts: Seq<SegmentView>) -> Seq<char>
    decreases parts.len(),
{
    if parts.len() == 0 {
        Seq::empty()
    } else {
        joined(parts.drop_last()) + parts.last().text
    }
}

/// Joining two runs of segments joins what each of them joins to.
pub proof fn lemma_joined_concat(a: Seq<SegmentView>, b: Seq<SegmentView>)
    ensures
        joined(a + b) == joined(a) + joined(b),
    decreases b.len(),
{
    if b.len() == 0 {
        assert(a + b =~= a);
        assert(joined(a) + joined(b) =~= joined(a));
    } else {
        lemma_joined_concat(a, b.drop_last());
        assert((a + b).drop_last() =~= a + b.drop_last());
        assert(joined(a + b) =~= joined(a) + joined(b));
    }
}

/// One segment joins to its text.
pub proof fn lemma_joined_one(s: SegmentView)
    ensures
        joined(seq![s]) == s.text,
{
    let one = seq![s];
    assert(one.drop_last() =~= Seq::<SegmentView>::empty());
    assert(joined(one.drop_last()) =~= Seq::<char>::empty());
    assert(one.last() == s);
    assert(joined(one) =~= s.text);
}

/// The segments from `cur` on join to the text from `cur` on.
pub proof fn lemma_split_matches_joined(
    text: Seq<char>,
    low: Seq<char>,
    pat: Seq<char>,
    cur: int,
    pos: int,
)
    requires
        low.len() == text.len(),
        0 <= cur <= pos <= text.len(),
    ensures
        joined(split_matches(text, low, pat, cur, pos)) == text.subrange(cur, text.len() as int),
    decreases low.len() - pos,
{
    let whole = text.subrange(cur, text.len() as int);
    if pat.len() == 0 || pos + pat.len() > low.len() {
        if cur < text.len() {
            lemma_joined_one(SegmentView { text: whole, matched: false });
        } else {
            assert(whole =~= Seq::<char>::empty());
        }
    } else if matches_at(low, pat, pos) {
        let end = pos + pat.len();
        let hit = SegmentView { text: text.subrange(pos, end), matched: true };
        let rest = split_matches(text, low, pat, end, end);
        lemma_split_matches_joined(text, low, pat, end, end);
        lemma_joined_one(hit);
        if pos > cur {
            let gap = SegmentView { text: text.subrange(cur, pos), matched: false };
            lemma_joined_one(gap);
            lemma_joined_concat(seq![gap], seq![hit]);
            lemma_joined_concat(seq![gap] + seq![hit], rest);
            assert(whole =~= gap.text + hit.text + text.subrange(end, text.len() as int));
        } else {
            assert(Seq::<SegmentView>::empty() + seq![hit] =~= seq![hit]);
            lemma_joined_concat(seq![hit], rest);
            assert(whole =~= hit.text + text.subrange(end, text.len() as int));
        }
    } else {
        lemma_split_matches_joined(text, low, pat, cur, pos + 1);
    }
}

/// The segments of a text, joined, are the text.
pub proof fn lemma_segments_joined(text: Seq<char>, query: Seq<char>)
    ensures
        joined(segments_of(text, query)) == text,
{
    lemma_joined_one(SegmentView { text, matched: false });
    if searchable(text, query) {
        lemma_split_matches_joined(text, lowercase(text), lowercase(query), 0, 0);
        assert(text.subrange(0, text.len() as int) =~= text);
    }
}

fn segment(text: &[char], from: usize, to: usize, matched: bool) -> (s: Segment)
    requires
        from <= to <= text.len(),
    ensures
        s@ == (SegmentView { text: text@.subrange(from as int, to as int), matched }),
{
    let part = copy_range(text, from, to);
    Segment { text: string_of(part.as_slice()), matched }
}

/// Cuts `text` into segments at the matches of `query`.
pub fn segments(text: &[char], query: &[char]) -> (out: Vec<Segment>)
    ensures
        segment_views(out@) == segments_of(text@, query@),
{
    let mut out: Vec<Segment> = Vec::new();
    assert(segment_views(out@) =~= Seq::<SegmentView>::empty());
    if query.len() > 0 {
        let low = lowercase_of(text);
        let pat = lowercase_of(query);
        if pat.len() > 0 && low.len() == text.len() {
            let n = text.len();
            let m = pat.len();
            let mut cur: usize = 0;
            let mut pos: usize = 0;
            let ghost all = split_matches(text@, low@, pat@, 0, 0);
            while pos <= n && m <= n - pos
                invariant
                    n == text.len() == low.len(),
                    m == pat.len() > 0,
                    cur <= pos <= n,
                    all == segment_views(out@) + split_matches(
                        text@,
                        low@,
                        pat@,
                        cur as int,
                        pos as int,
                    ),
                decreases n - pos,
            {
                if occurs_at(low.as_slice(), pat.as_slice(), pos) {
                    let ghost before = segment_views(out@);
                    let ghost rest = split_matches(text@, low@, pat@, pos + m, pos + m);
                    if pos > cur {
                        let gap = segment(text, cur, pos, false);
                        assert(segment_views(out@.push(gap)) =~= segment_views(out@).push(gap@));
                        out.push(gap);
                    }
                    let hit = segment(text, pos, pos + m, true);
                    assert(segment_views(out@.push(hit)) =~= segment_views(out@).push(hit@));
                    out.push(hit);
                    assert(all =~= segment_views(out@) + rest);
                    pos = pos + m;
                    cur = pos;
                } else {
                    pos += 1;
                }
            }
            if cur < n {
                let tail = segment(text, cur, n, false);
                assert(segment_views(out@.push(tail)) =~= segment_views(out@).push(tail@));
                out.push(tail);
            }
            assert(all =~= segment_views(out@));
        }
    }
    if out.len() == 0 {
        let whole = segment(text, 0, text.len(), false);
        assert(text@.subrange(0, text.len() as int) =~= text@);
        assert(segment_views(out@.push(whole)) =~= unmatched(text@));
        out.push(whole);
    }
    out
}

/// Styles the tokens of a trimmed line under a search query.
pub fn style_tokens(t: &[char], query: &[char]) -> (out: Vec<StyledToken>)
    ensures
        styled_views(out@) == styled_tokens_of(t@, query@),
{
    let tokens = tokenize(t);
    let mut out: Vec<StyledToken> = Vec::new();
    let mut i: usize = 0;
    let ghost want = styled_tokens_of(t@, query@);
    while i < tokens.len()
        invariant
            i <= tokens.len(),
            token_views(tokens@) == tokens_of(t@),
            want == styled_tokens_of(t@, query@),
            styled_views(out@) == want.take(i as int),
        decreases tokens.len() - i,
    {
        let styled = StyledToken {
            kind: classify(&tokens[i]),
            segments: segments(tokens[i].text.as_slice(), query),
        };
        proof {
            assert(token_views(tokens@)[i as int] == tokens@[i as int]@);
            assert(styled@ == want[i as int]);
            assert(styled_views(out@.push(styled)) =~= styled_views(out@).push(styled@));
            assert(want.take(i + 1) =~= want.take(i as int).push(want[i as int]));
        }
        out.push(styled);
        i += 1;
    }
    assert(want.take(tokens.len() as int) =~= want);
    out
}

/// The state of the layout between two lines.
pub struct LayoutState {
    /// Current nesting depth.
    pub depth: int,
    /// While a collapsed block is being skipped, the depth at which it began.
    pub skip: Option<int>,
    /// The visible lines so far.
    pub rows: Seq<LineView>,
}

/// The bracket that closes the block which a trimmed line opens.
pub open spec fn closing_bracket(t: Seq<char>) -> char {
    if t.len() > 0 && t.last() == '{' {
        '}'
    } else {
        ']'
    }
}

/// How many lines the block that starts at line `idx` hides.
pub open spec fn hidden_lines(counts: Map<usize, usize>, idx: int) -> usize {
    if counts.contains_key(idx as usize) {
        counts[idx as usize]
    } else {
        0
    }
}

/// Line `idx` as shown at depth `depth`.
pub open spec fn row_of(
    idx: int,
    depth: int,
    line: Seq<char>,
    collapsed: Set<usize>,
    counts: Map<usize, usize>,
    query: Seq<char>,
) -> LineView {
    let t = trim(line);
    let collapsible = opens_block(t) && idx != 0;
    let is_collapsed = collapsed.contains(idx as usize);
    LineView {
        index: idx,
        indent: depth,
        is_match: line_matches(line, query),
        collapsible,
        collapsed: is_collapsed,
        tokens: styled_tokens_of(t, query),
        summary: if collapsible && is_collapsed {
            Some(Summary { hidden_lines: hidden_lines(counts, idx), closing: closing_bracket(t) })
        } else {
            None
        },
    }
}

/// The state after line `idx` has been laid out in state `st`.
///
/// While a collapsed block is skipped, a line deeper than the block's first
/// line is hidden. Any other line ends the skipping and is shown at the depth
/// before it; if it is collapsible and collapsed, skipping starts at that
/// depth.
pub open spec fn layout_step(
    st: LayoutState,
    idx: int,
    line: Seq<char>,
    collapsed: Set<usize>,
    counts: Map<usize, usize>,
    query: Seq<char>,
) -> LayoutState {
    let t = trim(line);
    if st.skip is Some && st.depth > st.skip->0 {
        LayoutState { depth: depth_after(st.depth, t), ..st }
    } else {
        let row = row_of(idx, st.depth, line, collapsed, counts, query);
        LayoutState {
            depth: depth_after(st.depth, t),
            skip: if row.summary is Some {
                Some(st.depth)
            } else {
                None
            },
            rows: st.rows.push(row),
        }
    }
}

/// The state after the first `n` lines.
pub open spec fn layout(
    lines: Seq<Seq<char>>,
    collapsed: Set<usize>,
    counts: Map<usize, usize>,
    query: Seq<char>,
    n: int,
) -> LayoutState
    decreases n,
{
    if n <= 0 {
        LayoutState { depth: 0, skip: None, rows: Seq::empty() }
    } else {
        layout_step(
            layout(lines, collapsed, counts, query, n - 1),
            n - 1,
            lines[n - 1],
            collapsed,
            counts,
            query,
        )
    }
}

/// The visible lines of a JSON text, given the collapsed lines and a search
/// query.
pub open spec fn highlighted(json: Seq<char>, collapsed: Set<usize>, query: Seq<char>) -> Seq<
    LineView,
> {
    let lines = split_lines(json);
    layout(lines, collapsed, collapse_counts(lines), query, lines.len() as int).rows
}

/// After `n` lines the depth is at most `n`, and every visible line is one
/// of the first `n`.
pub proof fn lemma_layout_bounds(
    lines: Seq<Seq<char>>,
    collapsed: Set<usize>,
    counts: Map<usize, usize>,
    query: Seq<char>,
    n: int,
)
    requires
        0 <= n,
    ensures
        0 <= layout(lines, collapsed, counts, query, n).depth <= n,
        layout(lines, collapsed, counts, query, n).rows.len() <= n,
        forall|i: int|
            0 <= i < layout(lines, collapsed, counts, query, n).rows.len() ==> 0 <= (
            #[trigger] layout(lines, collapsed, counts, query, n).rows[i]).index < n,
    decreases n,
{
    if n > 0 {
        lemma_layout_bounds(lines, collapsed, counts, query, n - 1);
        let st = layout(lines, collapsed, counts, query, n - 1);
        let next = layout(lines, collapsed, counts, query, n);
        assert(next == layout_step(st, n - 1, lines[n - 1], collapsed, counts, query));
        assert forall|i: int| 0 <= i < next.rows.len() implies 0 <= (
        #[trigger] next.rows[i]).index < n by {
            if i < st.rows.len() {
                assert(next.rows[i] == st.rows[i]);
            }
        }
    }
}

/// Visible lines keep the order of the document.
pub proof fn lemma_rows_in_order(
    lines: Seq<Seq<char>>,
    collapsed: Set<usize>,
    counts: Map<usize, usize>,
    query: Seq<char>,
    n: int,
    i: int,
    j: int,
)
    requires
        0 <= n,
        0 <= i < j < layout(lines, collapsed, counts, query, n).rows.len(),
    ensures
        layout(lines, collapsed, counts, query, n).rows[i].index < layout(
            lines,
            collapsed,
            counts,
            query,
            n,
        ).rows[j].index,
    decreases n,
{
    if n > 0 {
        let st = layout(lines, collapsed, counts, query, n - 1);
        let next = layout(lines, collapsed, counts, query, n);
        assert(next == layout_step(st, n - 1, lines[n - 1], collapsed, counts, query));
        lemma_layout_bounds(lines, collapsed, counts, query, n - 1);
        if j < st.rows.len() {
            lemma_rows_in_order(lines, collapsed, counts, query, n - 1, i, j);
            assert(next.rows[i] == st.rows[i]);
            assert(next.rows[j] == st.rows[j]);
        } else {
            assert(next.rows[i] == st.rows[i]);
        }
    }
}

/// With nothing collapsed every line is visible, each under its own index.
pub proof fn lemma_nothing_collapsed(
    lines: Seq<Seq<char>>,
    counts: Map<usize, usize>,
    query: Seq<char>,
    n: int,
)
    requires
        0 <= n,
    ensures
        layout(lines, Set::empty(), counts, query, n).skip is None,
        layout(lines, Set::empty(), counts, query, n).rows.len() == n,
        forall|i: int|
            0 <= i < n ==> (#[trigger] layout(lines, Set::empty(), counts, query, n).rows[i]).index
                == i,
    decreases n,
{
    if n > 0 {
        lemma_nothing_collapsed(lines, counts, query, n - 1);
        let st = layout(lines, Set::empty(), counts, query, n - 1);
        let next = layout(lines, Set::empty(), counts, query, n);
        assert(next == layout_step(st, n - 1, lines[n - 1], Set::empty(), counts, query));
        assert forall|i: int| 0 <= i < n implies (#[trigger] next.rows[i]).index == i by {
            if i < n - 1 {
                assert(next.rows[i] == st.rows[i]);
            }
        }
    }
}

/// The layout follows the nesting depth of the lines, whatever is collapsed.
pub proof fn lemma_layout_depth(
    lines: Seq<Seq<char>>,
    collapsed: Set<usize>,
    counts: Map<usize, usize>,
    query: Seq<char>,
    n: int,
)
    requires
        0 <= n,
    ensures
        layout(lines, collapsed, counts, query, n).depth == depth_before(lines, n),
    decreases n,
{
    if n > 0 {
        lemma_layout_depth(lines, collapsed, counts, query, n - 1);
    }
}

/// The index of the line in row `i` where the lines after `k` up to `e` are
/// hidden.
pub open spec fn shown_index(k: int, e: int, i: int) -> int {
    if i <= k {
        i
    } else {
        i + (e - k)
    }
}

/// What the layout is after `n` lines where line `k` alone is collapsed and
/// hides the lines after it up to `e`.
pub open spec fn hides_block(
    lines: Seq<Seq<char>>,
    k: int,
    e: int,
    n: int,
    st: LayoutState,
) -> bool {
    &&& st.depth == depth_before(lines, n)
    &&& if n <= k {
        st.skip is None && st.rows.len() == n
    } else if n <= e + 1 {
        st.skip == Some(depth_before(lines, k)) && st.rows.len() == k + 1
    } else {
        st.skip is None && st.rows.len() == n - (e - k)
    }
    &&& forall|i: int| 0 <= i < st.rows.len() ==> (#[trigger] st.rows[i]).index == shown_index(k, e, i)
}

/// Whether the lines after `k` up to `e` are the inside of the block that
/// line `k` opens: they are deeper than line `k`, and the line after `e`, if
/// there is one, is not.
pub open spec fn encloses(lines: Seq<Seq<char>>, k: int, e: int) -> bool {
    &&& 0 < k < e < lines.len()
    &&& opens_block(trim(lines[k]))
    &&& forall|j: int| k < j <= e ==> depth_before(lines, j) > depth_before(lines, k)
    &&& e + 1 < lines.len() ==> depth_before(lines, e + 1) <= depth_before(lines, k)
}

/// Where one block alone is collapsed, the first `n` lines are laid out with
/// the inside of that block hidden and every other line shown.
pub proof fn lemma_collapsed_block_hidden_upto(
    lines: Seq<Seq<char>>,
    counts: Map<usize, usize>,
    query: Seq<char>,
    k: usize,
    e: int,
    n: int,
)
    requires
        lines.len() <= usize::MAX,
        encloses(lines, k as int, e),
        0 <= n <= lines.len(),
    ensures
        hides_block(
            lines,
            k as int,
            e,
            n,
            layout(lines, Set::<usize>::empty().insert(k), counts, query, n),
        ),
    decreases n,
{
    let one = Set::<usize>::empty().insert(k);
    lemma_layout_depth(lines, one, counts, query, n);
    if n > 0 {
        lemma_collapsed_block_hidden_upto(lines, counts, query, k, e, n - 1);
        let st = layout(lines, one, counts, query, n - 1);
        let next = layout(lines, one, counts, query, n);
        let idx = n - 1;
        assert(next == layout_step(st, idx, lines[idx], one, counts, query));
        assert(one.contains(idx as usize) <==> idx == k);
        assert forall|i: int| 0 <= i < next.rows.len() implies (#[trigger] next.rows[i]).index
            == shown_index(k as int, e, i) by {
            if i < st.rows.len() {
                assert(next.rows[i] == st.rows[i]);
            }
        }
    }
}

/// Where one block alone is collapsed, the layout shows every line but the
/// inside of that block: the lines after the collapsed line, up to and with
/// the line that brings the depth back.
pub proof fn lemma_collapsed_block_hidden(
    lines: Seq<Seq<char>>,
    counts: Map<usize, usize>,
    query: Seq<char>,
    k: usize,
    e: int,
)
    requires
        lines.len() <= usize::MAX,
        encloses(lines, k as int, e),
    ensures
        ({
            let rows = layout(
                lines,
                Set::<usize>::empty().insert(k),
                counts,
                query,
                lines.len() as int,
            ).rows;
            &&& rows.len() == lines.len() - (e - k)
            &&& forall|i: int| 0 <= i < rows.len() ==> (#[trigger] rows[i]).index == shown_index(
                k as int,
                e,
                i,
            )
        }),
{
    lemma_collapsed_block_hidden_upto(lines, counts, query, k, e, lines.len() as int);
}

/// Lays out the lines of a document.
pub fn layout_lines(
    lines: &Vec<Vec<char>>,
    collapsed_lines: &HashSet<usize>,
    counts: &HashMap<usize, usize>,
    query: &[char],
) -> (rows: Vec<Line>)
    ensures
        line_views(rows@) == layout(
            views(lines@),
            collapsed_lines@,
            counts@,
            query@,
            lines.len() as int,
        ).rows,
{
    let ghost texts = views(lines@);
    let mut rows: Vec<Line> = Vec::new();
    let mut depth: usize = 0;
    let mut skip: Option<usize> = None;
    let low_query = lowercase_of(query);
    let mut idx: usize = 0;
    assert(line_views(rows@) =~= Seq::<LineView>::empty());
    while idx < lines.len()
        invariant
            idx <= lines.len(),
            texts == views(lines@),
            low_query@ == lowercase(query@),
            depth <= idx,
            layout(texts, collapsed_lines@, counts@, query@, idx as int) == (LayoutState {
                depth: depth as int,
                skip: match skip {
                    Some(d) => Some(d as int),
                    None => None,
                },
                rows: line_views(rows@),
            }),
        decreases lines.len() - idx,
    {
        let ghost st = layout(texts, collapsed_lines@, counts@, query@, idx as int);
        assert(layout(texts, collapsed_lines@, counts@, query@, idx + 1) == layout_step(
            st,
            idx as int,
            texts[idx as int],
            collapsed_lines@,
            counts@,
            query@,
        ));
        assert(texts[idx as int] == lines[idx as int]@);
        let line = lines[idx].as_slice();
        let t = trimmed(line);
        let closing = starts_closing(t.as_slice());
        let opening = ends_opening(t.as_slice());
        let hidden = match skip {
            Some(d) => depth > d,
            None => false,
        };
        let shown_at = depth;
        if closing && depth > 0 {
            depth -= 1;
        }
        if opening {
            depth += 1;
        }
        if !hidden {
            let is_match = query.len() > 0 && has_match(
                lowercase_of(line).as_slice(),
                low_query.as_slice(),
            );
            let collapsible = opening && idx != 0;
            let collapsed = collapsed_lines.contains(&idx);
            let summary = if collapsible && collapsed {
                let hidden_lines = match counts.get(&idx) {
                    Some(n) => *n,
                    None => 0,
                };
                let bracket = if t[t.len() - 1] == '{' {
                    '}'
                } else {
                    ']'
                };
                Some(Summary { hidden_lines, closing: bracket })
            } else {
                None
            };
            skip = if summary.is_some() {
                Some(shown_at)
            } else {
                None
            };
            let row = Line {
                index: idx,
                indent: shown_at,
                is_match,
                collapsible,
                collapsed,
                tokens: style_tokens(t.as_slice(), query),
                summary,
            };
            proof {
                assert(row@ == row_of(
                    idx as int,
                    shown_at as int,
                    line@,
                    collapsed_lines@,
                    counts@,
                    query@,
                ));
                assert(line_views(rows@.push(row)) =~= line_views(rows@).push(row@));
            }
            rows.push(row);
        }
        idx += 1;
    }
    rows
}

/// Spaces per level of nesting.
pub const INDENT_SIZE: usize = 2;

/// `n` spaces.
pub open spec fn spaces(n: int) -> Seq<char> {
    Seq::new(
        if n > 0 {
            n as nat
        } else {
            0
        },
        |i: int| ' ',
    )
}

/// `s` with spaces before it, so that it has at least `width` characters.
pub open spec fn right_aligned(s: Seq<char>, width: int) -> Seq<char> {
    spaces(width - s.len()) + s
}

/// The line number shown before line `index`: the index plus one, right
/// aligned in three columns, and a space.
pub open spec fn number_label_of(index: int) -> Seq<char> {
    right_aligned(digits_of((index + 1) as nat), 3).push(' ')
}

/// What is shown after a collapsed line: the number of hidden lines.
pub open spec fn summary_label_of(hidden_lines: int) -> Seq<char> {
    " "@ + digits_of(hidden_lines as nat) + " lines "@
}

fn pad(n: usize) -> (out: Vec<char>)
    ensures
        out@ == spaces(n as int),
{
    let mut out: Vec<char> = Vec::new();
    let mut i: usize = 0;
    while i < n
        invariant
            i <= n,
            out@ == spaces(i as int),
        decreases n - i,
    {
        out.push(' ');
        i += 1;
        assert(out@ =~= spaces(i as int));
    }
    assert(out@ =~= spaces(n as int));
    out
}

impl Line {
    /// The line number shown before the line.
    pub fn number_label(&self) -> (out: String)
        ensures
            out@ == number_label_of(self.index as int),
    {
        let mut number = digits(self.index as u128 + 1);
        let mut chars = if number.len() < 3 {
            pad(3 - number.len())
        } else {
            pad(0)
        };
        chars.append(&mut number);
        chars.push(' ');
        string_of(chars.as_slice())
    }

    /// The spaces shown before the tokens of the line: two for each level
    /// of nesting.
    pub fn indentation(&self) -> (out: String)
        ensures
            out@ == spaces(INDENT_SIZE * self.indent),
    {
        let mut chars: Vec<char> = Vec::new();
        let mut i: usize = 0;
        while i < self.indent
            invariant
                i <= self.indent,
                chars@ == spaces(INDENT_SIZE * i),
            decreases self.indent - i,
        {
            chars.push(' ');
            chars.push(' ');
            i += 1;
            assert(chars@ =~= spaces(INDENT_SIZE * i));
        }
        assert(chars@ =~= spaces(INDENT_SIZE * self.indent));
        string_of(chars.as_slice())
    }
}

impl Summary {
    /// What is shown after a collapsed line, before the closing bracket.
    pub fn label(&self) -> (out: String)
        ensures
            out@ == summary_label_of(self.hidden_lines as int),
    {
        let number = digits(self.hidden_lines as u128);
        let mut out = String::from_str(" ");
        out.append(string_of(number.as_slice()).as_str());
        out.append(" lines ");
        out
    }
}

/// Lays out a JSON text for display: splits it into lines, leaves out the
/// lines inside collapsed blocks, and styles the tokens of every visible line
/// under the search query.
pub fn highlight_json(json: &str, collapsed_lines: &HashSet<usize>, search_query: &str) -> (rows:
    Vec<Line>)
    ensures
        line_views(rows@) == highlighted(json@, collapsed_lines@, search_query@),
{
    let text = chars_of(json);
    let lines = lines_of(text.as_slice());
    let counts = count_collapsed(&lines);
    let query = chars_of(search_query);
    layout_lines(&lines, collapsed_lines, &counts, query.as_slice())
}

} // verus!
