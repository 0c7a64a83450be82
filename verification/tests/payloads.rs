use dbug_desktop::payloads::{payload_list, payload_list_at, PayloadRow, RowBody};
use serde_json::Value;
use std::collections::HashSet;

const LIST_NOW: i64 = 1_700_000_000_000;

fn listed() -> Vec<(String, Value)> {
    vec![
        ((LIST_NOW - 30_000).to_string(), serde_json::from_str("{\"a\": [1, 2]}").unwrap()),
        ((LIST_NOW - 600_000).to_string(), serde_json::from_str("{\"b\": \"text\"}").unwrap()),
        ("garbage".to_string(), Value::Null),
    ]
}

fn body_lines(row: &PayloadRow) -> Vec<usize> {
    match &row.body {
        RowBody::Expanded(lines) => lines.iter().map(|l| l.index).collect(),
        RowBody::Collapsed(text) => panic!("collapsed: {}", text),
    }
}

fn body_text(row: &PayloadRow) -> String {
    match &row.body {
        RowBody::Collapsed(text) => text.clone(),
        RowBody::Expanded(_) => panic!("expanded"),
    }
}

#[test]
fn collapsed_rows_show_the_compact_text() {
    let payloads = listed();
    let rows = payload_list_at(&payloads, None, &HashSet::new(), "", LIST_NOW);
    assert_eq!(rows.len(), 3);
    assert_eq!(body_text(&rows[0]), "{\"a\":[1,2]}");
    assert_eq!(body_text(&rows[1]), "{\"b\":\"text\"}");
    assert_eq!(body_text(&rows[2]), "null");
    assert_eq!(rows[0].id, payloads[0].0);
    assert_eq!(rows[2].id, "garbage");
}

#[test]
fn every_row_tells_its_age() {
    let payloads = listed();
    let rows = payload_list_at(&payloads, None, &HashSet::new(), "", LIST_NOW);
    assert_eq!(rows[0].timestamp, "less than a minute ago");
    assert_eq!(rows[1].timestamp, "10 minutes ago");
    assert_eq!(rows[2].timestamp, "Invalid timestamp");
}

#[test]
fn the_expanded_row_shows_highlighted_lines() {
    let payloads = listed();
    let id = payloads[0].0.clone();
    let rows = payload_list_at(&payloads, Some(&id), &HashSet::new(), "", LIST_NOW);
    assert_eq!(body_lines(&rows[0]), vec![0, 1, 2, 3, 4, 5]);
    assert_eq!(body_text(&rows[1]), "{\"b\":\"text\"}");
}

#[test]
fn collapsed_lines_and_the_query_apply_to_the_expanded_row() {
    let payloads = listed();
    let id = payloads[0].0.clone();
    let collapsed: HashSet<usize> = [1usize].into_iter().collect();
    let rows = payload_list_at(&payloads, Some(&id), &collapsed, "A", LIST_NOW);
    assert_eq!(body_lines(&rows[0]), vec![0, 1, 5]);
    match &rows[0].body {
        RowBody::Expanded(lines) => {
            assert!(lines[1].is_match);
            assert!(!lines[0].is_match);
            assert_eq!(lines[1].summary.unwrap().hidden_lines, 2);
        }
        RowBody::Collapsed(_) => panic!("collapsed"),
    }
}

#[test]
fn every_row_of_the_expanded_identifier_is_expanded() {
    let value: Value = serde_json::from_str("[]").unwrap();
    let payloads = vec![
        ("5".to_string(), value.clone()),
        ("6".to_string(), value.clone()),
        ("5".to_string(), value),
    ];
    let id = "5".to_string();
    let rows = payload_list_at(&payloads, Some(&id), &HashSet::new(), "", LIST_NOW);
    assert_eq!(body_lines(&rows[0]), vec![0]);
    assert_eq!(body_text(&rows[1]), "[]");
    assert_eq!(body_lines(&rows[2]), vec![0]);
}

#[test]
fn an_unknown_expanded_identifier_expands_nothing() {
    let payloads = listed();
    let id = "nobody".to_string();
    let rows = payload_list_at(&payloads, Some(&id), &HashSet::new(), "", LIST_NOW);
    assert!(rows.iter().all(|r| matches!(r.body, RowBody::Collapsed(_))));
    assert!(payload_list_at(&[], Some(&id), &HashSet::new(), "", LIST_NOW).is_empty());
}

#[test]
fn the_list_as_seen_now() {
    let now = std::time::SystemTime::now()
        .duration_since(std::time::UNIX_EPOCH)
        .unwrap()
        .as_millis() as i64;
    let payloads = vec![((now - 3 * 3_600_000 - 60_000).to_string(), Value::from(1))];
    let rows = payload_list(&payloads, None, &HashSet::new(), "");
    assert_eq!(rows[0].timestamp, "about 3 hours ago");
    assert_eq!(body_text(&rows[0]), "1");
}
