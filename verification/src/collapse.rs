//! Collapsible blocks of a pretty-printed JSON document: which lines open a
//! block, and how many lines each block hides.

use vstd::prelude::*;
use std::collections::HashMap;
use crate::text::{chars_of, string_views, trim, trimmed, views};

verus! {

broadcast use vstd::std_specs::hash::group_hash_axioms;

/// Whether a trimmed line opens a block: it ends with `{` or `[`.
pub open spec fn opens_block(t: Seq<char>) -> bool {
    t.len() > 0 && (t.last() == '{' || t.last() == '[')
}

/// Whether a trimmed line closes a block: it starts with `}` or `]`.
pub open spec fn closes_block(t: Seq<char>) -> bool {
    t.len() > 0 && (t[0] == '}' || t[0] == ']')
}

/// Decides whether a trimmed line opens a block.
pub fn ends_opening(t: &[char]) -> (b: bool)
    ensures
        b == opens_block(t@),
{
    t.len() > 0 && (t[t.len() - 1] == '{' || t[t.len() - 1] == '[')
}

/// Decides whether a trimmed line closes a block.
pub fn starts_closing(t: &[char]) -> (b: bool)
    ensures
        b == closes_block(t@),
{
    t.len() > 0 && (t[0] == '}' || t[0] == ']')
}

/// A block that has been opened and not yet closed.
pub struct OpenBlock {
    /// Index of the line that opened it.
    pub start: int,
    /// Nesting depth before that line.
    pub depth: int,
}

/// What is known after some lines have been read.
pub struct CollapseState {
    /// Current nesting depth.
    pub depth: int,
    /// The blocks still open, innermost last.
    pub open: Seq<OpenBlock>,
    /// Hidden line count of every block closed so far, by its first line.
    pub counts: Map<usize, usize>,
}

/// One below `depth`, but never below zero.
pub open spec fn depth_after_close(depth: int) -> int {
    if depth > 0 {
        depth - 1
    } else {
        0
    }
}

/// Number of lines strictly between lines `start` and `end`.
pub open spec fn lines_between(start: int, end: int) -> int {
    if end > start {
        end - start - 1
    } else {
        0
    }
}

/// The state after line `idx` has been read in state `st`.
///
/// A closing line lowers the depth first; if that brings it back to the
/// depth at which the innermost open block started, the block is closed and
/// its line count recorded. An opening line other than the first one of the
/// document then starts a block at the depth the line began with, and every
/// opening line raises the depth.
pub open spec fn collapse_step(st: CollapseState, idx: int, line: Seq<char>) -> CollapseState {
    let t = trim(line);
    let lowered = if closes_block(t) {
        depth_after_close(st.depth)
    } else {
        st.depth
    };
    let closed = closes_block(t) && st.open.len() > 0 && st.open.last().depth == lowered;
    let open = if closed {
        st.open.drop_last()
    } else {
        st.open
    };
    let counts = if closed {
        st.counts.insert(
            st.open.last().start as usize,
            lines_between(st.open.last().start, idx) as usize,
        )
    } else {
        st.counts
    };
    CollapseState {
        depth: if opens_block(t) {
            lowered + 1
        } else {
            lowered
        },
        open: if opens_block(t) && idx != 0 {
            open.push(OpenBlock { start: idx, depth: st.depth })
        } else {
            open
        },
        counts,
    }
}

/// The state after the first `n` lines.
pub open spec fn collapse_state(lines: Seq<Seq<char>>, n: int) -> CollapseState
    decreases n,
{
    if n <= 0 {
        CollapseState { depth: 0, open: Seq::empty(), counts: Map::empty() }
    } else {
        collapse_step(collapse_state(lines, n - 1), n - 1, lines[n - 1])
    }
}

/// For each block that is opened after the first line and closed again, the
/// number of lines between its first and its last line, by the index of its
/// first line.
pub open spec fn collapse_counts(lines: Seq<Seq<char>>) -> Map<usize, usize> {
    collapse_state(lines, lines.len() as int).counts
}

/// The open blocks of a state all started on earlier lines, after the first,
/// on lines that open a block; and so did every block that has a count, which
/// ends on a closing line that has been read.
pub open spec fn collapse_sound(lines: Seq<Seq<char>>, n: int, st: CollapseState) -> bool {
    &&& 0 <= st.depth <= n
    &&& forall|i: int|
        0 <= i < st.open.len() ==> {
            &&& 0 < (#[trigger] st.open[i]).start < n
            &&& opens_block(trim(lines[st.open[i].start]))
        }
    &&& forall|k: usize|
        #[trigger] st.counts.contains_key(k) ==> {
            &&& 0 < k < n
            &&& k + st.counts[k] + 1 < n
            &&& opens_block(trim(lines[k as int]))
            &&& closes_block(trim(lines[k + st.counts[k] + 1]))
        }
}

/// The state after any number of lines is sound.
pub proof fn lemma_collapse_state_sound(lines: Seq<Seq<char>>, n: int)
    requires
        0 <= n <= lines.len() <= usize::MAX,
    ensures
        collapse_sound(lines, n, collapse_state(lines, n)),
    decreases n,
{
    if n > 0 {
        lemma_collapse_state_sound(lines, n - 1);
        let st = collapse_state(lines, n - 1);
        let next = collapse_state(lines, n);
        let idx = n - 1;
        let t = trim(lines[idx]);
        assert(next == collapse_step(st, idx, lines[idx]));
        let lowered = if closes_block(t) {
            depth_after_close(st.depth)
        } else {
            st.depth
        };
        let closed = closes_block(t) && st.open.len() > 0 && st.open.last().depth == lowered;
        let kept = if closed {
            st.open.drop_last()
        } else {
            st.open
        };
        assert forall|i: int| 0 <= i < next.open.len() implies {
            &&& 0 < (#[trigger] next.open[i]).start < n
            &&& opens_block(trim(lines[next.open[i].start]))
        } by {
            if i < kept.len() {
                assert(next.open[i] == st.open[i]);
            }
        }
        assert forall|k: usize| #[trigger] next.counts.contains_key(k) implies {
            &&& 0 < k < n
            &&& k + next.counts[k] + 1 < n
            &&& opens_block(trim(lines[k as int]))
            &&& closes_block(trim(lines[k + next.counts[k] + 1]))
        } by {
            if closed && k == st.open.last().start as usize {
                let b = st.open[st.open.len() - 1];
                assert(0 < b.start < idx);
                assert(next.counts[k] == (idx - b.start - 1) as usize);
            } else {
                assert(st.counts.contains_key(k));
                assert(next.counts[k] == st.counts[k]);
            }
        }
    }
}

/// Every counted block starts after the first line on a line that opens a
/// block, and the line that follows its hidden lines closes a block.
pub proof fn lemma_collapse_counts_sound(lines: Seq<Seq<char>>, k: usize)
    requires
        lines.len() <= usize::MAX,
        collapse_counts(lines).contains_key(k),
    ensures
        0 < k < lines.len(),
        k + collapse_counts(lines)[k] + 1 < lines.len(),
        opens_block(trim(lines[k as int])),
        closes_block(trim(lines[k + collapse_counts(lines)[k] + 1])),
{
    lemma_collapse_state_sound(lines, lines.len() as int);
    let st = collapse_state(lines, lines.len() as int);
    assert(st.counts.contains_key(k));
    assert(st.counts[k] == collapse_counts(lines)[k]);
}

/// The open blocks started one after the other, and every counted block
/// lies before or within each open block, and before or within each counted
/// block that started earlier.
pub open spec fn blocks_nest(st: CollapseState) -> bool {
    &&& forall|i: int, j: int|
        0 <= i < j < st.open.len() ==> (#[trigger] st.open[i]).start < (#[trigger] st.open[j]).start
    &&& forall|k: usize, i: int|
        #[trigger] st.counts.contains_key(k) && 0 <= i < st.open.len() ==> k + st.counts[k] + 1 <= (
        #[trigger] st.open[i]).start || st.open[i].start < k
    &&& forall|a: usize, b: usize|
        #[trigger] st.counts.contains_key(a) && #[trigger] st.counts.contains_key(b) && a < b ==> a
            + st.counts[a] < b || b + st.counts[b] + 1 <= a + st.counts[a]
}

/// The blocks of the state after any number of lines nest.
pub proof fn lemma_collapse_state_nests(lines: Seq<Seq<char>>, n: int)
    requires
        0 <= n <= lines.len() <= usize::MAX,
    ensures
        blocks_nest(collapse_state(lines, n)),
    decreases n,
{
    if n > 0 {
        lemma_collapse_state_nests(lines, n - 1);
        lemma_collapse_state_sound(lines, n - 1);
        let st = collapse_state(lines, n - 1);
        let next = collapse_state(lines, n);
        let idx = n - 1;
        let t = trim(lines[idx]);
        assert(next == collapse_step(st, idx, lines[idx]));
        let lowered = if closes_block(t) {
            depth_after_close(st.depth)
        } else {
            st.depth
        };
        let closed = closes_block(t) && st.open.len() > 0 && st.open.last().depth == lowered;
        let kept = if closed {
            st.open.drop_last()
        } else {
            st.open
        };
        let pushed = opens_block(t) && idx != 0;
        assert(next.open.len() == kept.len() + if pushed { 1int } else { 0int });
        assert forall|i: int| 0 <= i < kept.len() implies #[trigger] next.open[i] == st.open[i] by {}
        if pushed {
            assert(next.open[kept.len() as int].start == idx);
        }
        assert forall|i: int| 0 <= i < st.open.len() implies 0 < (#[trigger] st.open[i]).start
            < idx by {}
        assert forall|k: usize| #[trigger] st.counts.contains_key(k) implies 0 < k && k
            + st.counts[k] + 1 < idx by {}
        let top = st.open[st.open.len() - 1];
        if closed {
            assert(0 < top.start < idx);
            assert(next.counts[top.start as usize] == (idx - top.start - 1) as usize);
        }
        assert forall|i: int, j: int| 0 <= i < j < next.open.len() implies (
        #[trigger] next.open[i]).start < (#[trigger] next.open[j]).start by {
            if j < kept.len() {
                assert(st.open[i].start < st.open[j].start);
            }
        }
        assert forall|k: usize, i: int|
            #[trigger] next.counts.contains_key(k) && 0 <= i < next.open.len() implies k
            + next.counts[k] + 1 <= (#[trigger] next.open[i]).start || next.open[i].start < k by {
            if closed && k == top.start as usize {
                if i < kept.len() {
                    assert(st.open[i].start < st.open[st.open.len() - 1].start);
                }
            } else {
                assert(st.counts.contains_key(k));
                if i < kept.len() {
                    assert(k + st.counts[k] + 1 <= st.open[i].start || st.open[i].start < k);
                }
            }
        }
        assert forall|a: usize, b: usize|
            #[trigger] next.counts.contains_key(a) && #[trigger] next.counts.contains_key(b) && a
                < b implies a + next.counts[a] < b || b + next.counts[b] + 1 <= a
            + next.counts[a] by {
            if closed && a == top.start as usize {
                assert(st.counts.contains_key(b));
                assert(b + st.counts[b] + 1 <= st.open[st.open.len() - 1].start
                    || st.open[st.open.len() - 1].start < b);
            } else if closed && b == top.start as usize {
                assert(st.counts.contains_key(a));
                assert(a + st.counts[a] + 1 <= st.open[st.open.len() - 1].start
                    || st.open[st.open.len() - 1].start < a);
            } else {
                assert(st.counts.contains_key(a));
                assert(st.counts.contains_key(b));
            }
        }
    }
}

/// Any two counted blocks lie apart or one within the other: the block that
/// starts later starts after the last hidden line of the earlier one, or ends
/// among its hidden lines.
pub proof fn lemma_counted_blocks_nest(lines: Seq<Seq<char>>, a: usize, b: usize)
    requires
        lines.len() <= usize::MAX,
        collapse_counts(lines).contains_key(a),
        collapse_counts(lines).contains_key(b),
        a < b,
    ensures
        a + collapse_counts(lines)[a] < b || b + collapse_counts(lines)[b] + 1 <= a
            + collapse_counts(lines)[a],
{
    lemma_collapse_state_nests(lines, lines.len() as int);
    let st = collapse_state(lines, lines.len() as int);
    assert(st.counts.contains_key(a) && st.counts.contains_key(b));
}

/// The depth after a line: a closing line lowers it, an opening line raises
/// it.
pub open spec fn depth_after(depth: int, t: Seq<char>) -> int {
    let lowered = if closes_block(t) {
        depth_after_close(depth)
    } else {
        depth
    };
    if opens_block(t) {
        lowered + 1
    } else {
        lowered
    }
}

/// The nesting depth before line `n`.
pub open spec fn depth_before(lines: Seq<Seq<char>>, n: int) -> int
    decreases n,
{
    if n <= 0 {
        0
    } else {
        depth_after(depth_before(lines, n - 1), trim(lines[n - 1]))
    }
}

/// The depth that a line reaches before it opens anything: one below the
/// depth before it where it closes a block, else the depth before it.
pub open spec fn lowered_at(lines: Seq<Seq<char>>, j: int) -> int {
    if closes_block(trim(lines[j])) {
        depth_after_close(depth_before(lines, j))
    } else {
        depth_before(lines, j)
    }
}

/// The count follows the nesting depth of the lines.
pub proof fn lemma_collapse_depth(lines: Seq<Seq<char>>, n: int)
    requires
        0 <= n,
    ensures
        collapse_state(lines, n).depth == depth_before(lines, n),
    decreases n,
{
    if n > 0 {
        lemma_collapse_depth(lines, n - 1);
    }
}

/// Whether lines `k` to `e` are a well-formed block: line `k` opens it after
/// the first line, line `e` closes it back to the depth before line `k`, and
/// every line between stays deeper than that and does not both close and
/// open.
pub open spec fn spans_block(lines: Seq<Seq<char>>, k: int, e: int) -> bool {
    &&& 0 < k < e < lines.len()
    &&& opens_block(trim(lines[k]))
    &&& closes_block(trim(lines[e]))
    &&& lowered_at(lines, e) == depth_before(lines, k)
    &&& forall|j: int|
        k < j < e ==> #[trigger] lowered_at(lines, j) > depth_before(lines, k) && !(closes_block(
            trim(lines[j]),
        ) && opens_block(trim(lines[j])))
}

/// Whether the block that line `k` opened is open at position `p` of the
/// open blocks, with deeper blocks alone above it, each deeper than the one
/// below and none as deep as the state.
pub open spec fn holds_open(st: CollapseState, k: int, depth: int, p: int) -> bool {
    &&& 0 <= p < st.open.len()
    &&& st.open[p].start == k
    &&& st.open[p].depth == depth
    &&& forall|i: int, j: int|
        p <= i < j < st.open.len() ==> (#[trigger] st.open[i]).depth < (#[trigger] st.open[j]).depth
    &&& forall|i: int| p <= i < st.open.len() ==> (#[trigger] st.open[i]).depth < st.depth
}

/// Inside a well-formed block the block stays open. The result is its
/// position among the open blocks.
proof fn lemma_block_stays_open(lines: Seq<Seq<char>>, k: int, e: int, n: int) -> (p: int)
    requires
        spans_block(lines, k, e),
        k < n <= e,
    ensures
        holds_open(collapse_state(lines, n), k, depth_before(lines, k), p),
    decreases n,
{
    let d = depth_before(lines, k);
    let idx = n - 1;
    let st = collapse_state(lines, idx);
    let next = collapse_state(lines, n);
    let t = trim(lines[idx]);
    assert(next == collapse_step(st, idx, lines[idx]));
    lemma_collapse_depth(lines, idx);
    lemma_collapse_depth(lines, n);
    let lowered = if closes_block(t) {
        depth_after_close(st.depth)
    } else {
        st.depth
    };
    let closed = closes_block(t) && st.open.len() > 0 && st.open.last().depth == lowered;
    let kept = if closed {
        st.open.drop_last()
    } else {
        st.open
    };
    assert(lowered == lowered_at(lines, idx));
    if idx == k {
        // The line that opens the block: the depth after it is above the
        // depth before it, as the next line shows.
        assert(next.open == kept.push(OpenBlock { start: k, depth: d }));
        if n < e {
            assert(lowered_at(lines, n) > d);
        } else {
            assert(lowered_at(lines, e) == d);
        }
        assert(depth_before(lines, n) > d);
        kept.len() as int
    } else {
        let p = lemma_block_stays_open(lines, k, e, idx);
        assert(lowered > d);
        assert(st.open[p].depth == d);
        if closed {
            assert(st.open[st.open.len() - 1].depth > d);
            assert(p < st.open.len() - 1);
        }
        assert forall|i: int| p <= i < kept.len() implies #[trigger] next.open[i] == st.open[i] by {}
        assert forall|i: int| p <= i < kept.len() implies (#[trigger] st.open[i]).depth
            < lowered by {
            if closed {
                assert(st.open[i].depth < st.open[st.open.len() - 1].depth);
            } else if closes_block(t) {
                if i < st.open.len() - 1 {
                    assert(st.open[i].depth < st.open[st.open.len() - 1].depth);
                }
                assert(st.open[st.open.len() - 1].depth < st.depth);
            }
        }
        assert forall|i: int, j: int| p <= i < j < next.open.len() implies (
        #[trigger] next.open[i]).depth < (#[trigger] next.open[j]).depth by {
            if j < kept.len() {
                assert(st.open[i].depth < st.open[j].depth);
            } else {
                assert(st.open[i].depth < lowered);
            }
        }
        assert forall|i: int| p <= i < next.open.len() implies (#[trigger] next.open[i]).depth
            < next.depth by {
            if i < kept.len() {
                assert(st.open[i].depth < lowered);
            }
        }
        p
    }
}

/// Once a well-formed block is closed, its count stays and no open block
/// starts on its first line.
proof fn lemma_block_stays_counted(lines: Seq<Seq<char>>, k: int, e: int, n: int)
    requires
        lines.len() <= usize::MAX,
        spans_block(lines, k, e),
        e < n <= lines.len(),
    ensures
        collapse_state(lines, n).counts.contains_key(k as usize),
        collapse_state(lines, n).counts[k as usize] == e - k - 1,
        forall|i: int|
            0 <= i < collapse_state(lines, n).open.len() ==> (#[trigger] collapse_state(
                lines,
                n,
            ).open[i]).start != k,
    decreases n,
{
    let d = depth_before(lines, k);
    let idx = n - 1;
    let st = collapse_state(lines, idx);
    let next = collapse_state(lines, n);
    let t = trim(lines[idx]);
    assert(next == collapse_step(st, idx, lines[idx]));
    lemma_collapse_depth(lines, idx);
    lemma_collapse_state_nests(lines, idx);
    lemma_collapse_state_sound(lines, idx);
    let lowered = if closes_block(t) {
        depth_after_close(st.depth)
    } else {
        st.depth
    };
    let closed = closes_block(t) && st.open.len() > 0 && st.open.last().depth == lowered;
    let kept = if closed {
        st.open.drop_last()
    } else {
        st.open
    };
    assert forall|i: int| 0 <= i < kept.len() implies #[trigger] next.open[i] == st.open[i] by {}
    if idx == e {
        let p = lemma_block_stays_open(lines, k, e, e);
        let top = st.open.len() - 1;
        assert(lowered == d);
        assert(st.open[top].depth < st.depth);
        if p < top {
            assert(st.open[p].depth < st.open[top].depth);
        }
        assert(p == top);
        assert(closed);
        assert forall|i: int| 0 <= i < next.open.len() implies (#[trigger] next.open[i]).start
            != k by {
            if i < kept.len() {
                assert(st.open[i].start < st.open[top].start);
            }
        }
    } else {
        lemma_block_stays_counted(lines, k, e, idx);
        assert forall|i: int| 0 <= i < next.open.len() implies (#[trigger] next.open[i]).start
            != k by {
            if i < kept.len() {
                assert(st.open[i].start != k);
            }
        }
        if closed {
            assert(st.open[st.open.len() - 1].start != k);
            assert(0 < st.open[st.open.len() - 1].start < idx);
        }
    }
}

/// A well-formed block is counted, and its count is the number of lines
/// between its first and its last line.
pub proof fn lemma_block_counted(lines: Seq<Seq<char>>, k: usize, e: int)
    requires
        lines.len() <= usize::MAX,
        spans_block(lines, k as int, e),
    ensures
        collapse_counts(lines).contains_key(k),
        collapse_counts(lines)[k] == e - k - 1,
{
    lemma_block_stays_counted(lines, k as int, e, lines.len() as int);
}

/// The hidden line counts of the blocks of `lines`, one line per element.
pub fn count_collapsed(lines: &Vec<Vec<char>>) -> (counts: HashMap<usize, usize>)
    ensures
        counts@ == collapse_counts(views(lines@)),
{
    let mut counts: HashMap<usize, usize> = HashMap::new();
    let mut depth: usize = 0;
    let mut open: Vec<(usize, usize)> = Vec::new();
    let ghost texts = views(lines@);
    let mut idx: usize = 0;
    while idx < lines.len()
        invariant
            idx <= lines.len(),
            texts == views(lines@),
            depth <= idx,
            collapse_state(texts, idx as int).depth == depth,
            collapse_state(texts, idx as int).counts == counts@,
            collapse_state(texts, idx as int).open.len() == open.len(),
            forall|i: int|
                0 <= i < open.len() ==> {
                    &&& (#[trigger] collapse_state(texts, idx as int).open[i]).start == open[i].0
                    &&& collapse_state(texts, idx as int).open[i].depth == open[i].1
                    &&& open[i].0 < idx
                },
        decreases lines.len() - idx,
    {
        let ghost st = collapse_state(texts, idx as int);
        let ghost next = collapse_state(texts, idx + 1);
        assert(next == collapse_step(st, idx as int, texts[idx as int]));
        assert(texts[idx as int] == lines[idx as int]@);
        let t = trimmed(lines[idx].as_slice());
        let closing = starts_closing(t.as_slice());
        let opening = ends_opening(t.as_slice());
        let before = depth;
        if closing {
            if depth > 0 {
                depth -= 1;
            }
            if open.len() > 0 && open[open.len() - 1].1 == depth {
                let start = open[open.len() - 1].0;
                assert(st.open.last().start == start);
                open.pop();
                counts.insert(start, idx - start - 1);
            }
        }
        if opening && idx != 0 {
            open.push((idx, before));
        }
        if opening {
            depth += 1;
        }
        proof {
            assert(next.open.len() == open.len());
            assert forall|i: int| 0 <= i < open.len() implies {
                &&& (#[trigger] next.open[i]).start == open[i].0
                &&& next.open[i].depth == open[i].1
                &&& open[i].0 < idx + 1
            } by {
                if i < st.open.len() && i < next.open.len() {
                    assert(next.open[i] == st.open[i] || (opening && idx != 0 && i == open.len()
                        - 1));
                }
            }
        }
        idx += 1;
    }
    counts
}

/// Calculates the number of lines hidden within each collapsible block: a
/// map from the index of the line that starts a block to the number of lines
/// the block contains.
pub fn calculate_collapse_counts(lines: &[String]) -> (counts: HashMap<usize, usize>)
    ensures
        counts@ == collapse_counts(string_views(lines@)),
{
    let mut texts: Vec<Vec<char>> = Vec::new();
    let mut i: usize = 0;
    while i < lines.len()
        invariant
            i <= lines.len(),
            views(texts@) == string_views(lines@).take(i as int),
        decreases lines.len() - i,
    {
        let line = chars_of(lines[i].as_str());
        proof {
            assert(views(texts@.push(line)) =~= views(texts@).push(line@));
            assert(string_views(lines@).take(i + 1) =~= string_views(lines@).take(i as int).push(
                lines[i as int]@,
            ));
        }
        texts.push(line);
        i += 1;
    }
    assert(string_views(lines@).take(lines.len() as int) =~= string_views(lines@));
    count_collapsed(&texts)
}

} // verus!
