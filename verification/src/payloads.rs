//! The list of received payloads as it is shown: newest first, one of them
//! expanded into highlighted lines, the others on one line each.

use vstd::prelude::*;
use serde_json::Value;
use std::collections::HashSet;
use crate::clock::{human_readable_time, human_readable_time_at, time_label};
use crate::highlight::{highlight_json, highlighted, line_views, Line, LineView};
use crate::json::{compact_text, display_text, pair_views, render_pretty, to_compact};

verus! {

/// What a row shows of its payload.
#[derive(Debug)]
pub enum RowBody {
    /// The payload in full, as highlighted lines.
    Expanded(Vec<Line>),
    /// The payload as one line of compact JSON text.
    Collapsed(String),
}

/// The mathematical value of a [`RowBody`].
pub enum RowBodyView {
    Expanded(Seq<LineView>),
    Collapsed(Seq<char>),
}

impl View for RowBody {
    type V = RowBodyView;

    open spec fn view(&self) -> RowBodyView {
        match self {
            RowBody::Expanded(lines) => RowBodyView::Expanded(line_views(lines@)),
            RowBody::Collapsed(text) => RowBodyView::Collapsed(text@),
        }
    }
}

/// One row of the list.
#[derive(Debug)]
pub struct PayloadRow {
    /// The identifier of the payload.
    pub id: String,
    /// How long ago the payload was received, in words.
    pub timestamp: String,
    /// What the row shows of the payload.
    pub body: RowBody,
}

/// The mathematical value of a [`PayloadRow`].
pub struct PayloadRowView {
    pub id: Seq<char>,
    pub timestamp: Seq<char>,
    pub body: RowBodyView,
}

impl View for PayloadRow {
    type V = PayloadRowView;

    open spec fn view(&self) -> PayloadRowView {
        PayloadRowView { id: self.id@, timestamp: self.timestamp@, body: self.body@ }
    }
}

/// The views of a vector of rows.
pub open spec fn row_views(v: Seq<PayloadRow>) -> Seq<PayloadRowView> {
    v.map_values(|r: PayloadRow| r@)
}

/// The identifier of an optional string.
pub open spec fn id_of(id: Option<&String>) -> Option<Seq<char>> {
    match id {
        Some(s) => Some(s@),
        None => None,
    }
}

/// The row of one payload under a given label for its age: expanded where
/// its identifier is the expanded one, else collapsed.
pub open spec fn row_with(
    payload: (Seq<char>, Value),
    expanded: Option<Seq<char>>,
    collapsed_lines: Set<usize>,
    query: Seq<char>,
    timestamp: Seq<char>,
) -> PayloadRowView {
    PayloadRowView {
        id: payload.0,
        timestamp,
        body: if expanded == Some(payload.0) {
            RowBodyView::Expanded(highlighted(display_text(payload.1), collapsed_lines, query))
        } else {
            RowBodyView::Collapsed(compact_text(payload.1))
        },
    }
}

/// The row of one payload as seen at the time `now`.
pub open spec fn row_for(
    payload: (Seq<char>, Value),
    expanded: Option<Seq<char>>,
    collapsed_lines: Set<usize>,
    query: Seq<char>,
    now: i64,
) -> PayloadRowView {
    row_with(payload, expanded, collapsed_lines, query, time_label(payload.0, now))
}

/// The rows of a list of payloads as seen at the time `now`, in the order of
/// the list.
pub open spec fn rows_for(
    payloads: Seq<(Seq<char>, Value)>,
    expanded: Option<Seq<char>>,
    collapsed_lines: Set<usize>,
    query: Seq<char>,
    now: i64,
) -> Seq<PayloadRowView> {
    payloads.map_values(
        |p: (Seq<char>, Value)| row_for(p, expanded, collapsed_lines, query, now),
    )
}

/// The rows of a list of payloads, each as seen at a time of its own, in the
/// order of the list.
pub open spec fn rows_seen(
    payloads: Seq<(Seq<char>, Value)>,
    expanded: Option<Seq<char>>,
    collapsed_lines: Set<usize>,
    query: Seq<char>,
    times: Seq<i64>,
) -> Seq<PayloadRowView> {
    Seq::new(
        payloads.len(),
        |i: int| row_for(payloads[i], expanded, collapsed_lines, query, times[i]),
    )
}

/// Lays out one payload under a given label for its age.
fn payload_row(
    payload: &(String, Value),
    expanded_id: Option<&String>,
    collapsed_json_lines: &HashSet<usize>,
    search_query: &str,
    timestamp: String,
) -> (row: PayloadRow)
    ensures
        row@ == row_with(
            (payload.0@, payload.1),
            id_of(expanded_id),
            collapsed_json_lines@,
            search_query@,
            timestamp@,
        ),
{
    let id = &payload.0;
    let value = &payload.1;
    let is_expanded = match expanded_id {
        Some(expanded) => *expanded == *id,
        None => false,
    };
    let body = if is_expanded {
        let pretty = render_pretty(value);
        RowBody::Expanded(highlight_json(pretty.as_str(), collapsed_json_lines, search_query))
    } else {
        RowBody::Collapsed(to_compact(value))
    };
    PayloadRow { id: id.clone(), timestamp, body }
}

/// Lays out the list of payloads as seen at the time `now`, in milliseconds
/// since the Unix epoch.
pub fn payload_list_at(
    payloads: &[(String, Value)],
    expanded_id: Option<&String>,
    collapsed_json_lines: &HashSet<usize>,
    search_query: &str,
    now: i64,
) -> (rows: Vec<PayloadRow>)
    ensures
        row_views(rows@) == rows_for(
            pair_views(payloads@),
            id_of(expanded_id),
            collapsed_json_lines@,
            search_query@,
            now,
        ),
{
    let ghost want = rows_for(
        pair_views(payloads@),
        id_of(expanded_id),
        collapsed_json_lines@,
        search_query@,
        now,
    );
    let mut rows: Vec<PayloadRow> = Vec::new();
    let mut i: usize = 0;
    assert(row_views(rows@) =~= want.take(0));
    while i < payloads.len()
        invariant
            i <= payloads.len(),
            want == rows_for(
                pair_views(payloads@),
                id_of(expanded_id),
                collapsed_json_lines@,
                search_query@,
                now,
            ),
            row_views(rows@) == want.take(i as int),
        decreases payloads.len() - i,
    {
        let timestamp = human_readable_time_at(payloads[i].0.as_str(), now);
        let row = payload_row(
            &payloads[i],
            expanded_id,
            collapsed_json_lines,
            search_query,
            timestamp,
        );
        proof {
            assert(pair_views(payloads@)[i as int] == (payloads@[i as int].0@, payloads@[i as int].1));
            assert(row@ == want[i as int]);
            assert(row_views(rows@.push(row)) =~= row_views(rows@).push(row@));
            assert(want.take(i + 1) =~= want.take(i as int).push(want[i as int]));
        }
        rows.push(row);
        i += 1;
    }
    assert(want.take(payloads.len() as int) =~= want);
    rows
}

/// Lays out the list of payloads as seen now. The clock is read for each
/// payload whose identifier names an instant, when its row is laid out.
pub fn payload_list(
    payloads: &[(String, Value)],
    expanded_id: Option<&String>,
    collapsed_json_lines: &HashSet<usize>,
    search_query: &str,
) -> (rows: Vec<PayloadRow>)
    ensures
        exists|times: Seq<i64>|
            times.len() == payloads.len() && row_views(rows@) == #[trigger] rows_seen(
                pair_views(payloads@),
                id_of(expanded_id),
                collapsed_json_lines@,
                search_query@,
                times,
            ),
{
    let ghost list = pair_views(payloads@);
    let ghost mut times: Seq<i64> = Seq::empty();
    let mut rows: Vec<PayloadRow> = Vec::new();
    let mut i: usize = 0;
    while i < payloads.len()
        invariant
            i <= payloads.len(),
            list == pair_views(payloads@),
            times.len() == i,
            rows.len() == i,
            forall|k: int|
                0 <= k < i ==> (#[trigger] rows@[k])@ == row_for(
                    list[k],
                    id_of(expanded_id),
                    collapsed_json_lines@,
                    search_query@,
                    times[k],
                ),
        decreases payloads.len() - i,
    {
        let timestamp = human_readable_time(payloads[i].0.as_str());
        let ghost now = choose|now: i64| timestamp@ == #[trigger] time_label(payloads@[i as int].0@, now);
        let row = payload_row(
            &payloads[i],
            expanded_id,
            collapsed_json_lines,
            search_query,
            timestamp,
        );
        proof {
            assert(list[i as int] == (payloads@[i as int].0@, payloads@[i as int].1));
            times = times.push(now);
        }
        rows.push(row);
        i += 1;
    }
    proof {
        assert(row_views(rows@) =~= rows_seen(
            list,
            id_of(expanded_id),
            collapsed_json_lines@,
            search_query@,
            times,
        ));
    }
    rows
}

} // verus!
