use dbug_desktop::highlight::{highlight_json, segments, style_tokens, Line, Summary};
use dbug_desktop::tokens::TokenKind;
use std::collections::HashSet;

fn segment_list(text: &str, query: &str) -> Vec<(String, bool)> {
    let text: Vec<char> = text.chars().collect();
    let query: Vec<char> = query.chars().collect();
    segments(&text, &query).into_iter().map(|s| (s.text, s.matched)).collect()
}

fn expected_segments(list: &[(&str, bool)]) -> Vec<(String, bool)> {
    list.iter().map(|(t, m)| (t.to_string(), *m)).collect()
}

fn collapsed_set(lines: &[usize]) -> HashSet<usize> {
    lines.iter().copied().collect()
}

fn line_text(line: &Line) -> String {
    line.tokens
        .iter()
        .map(|t| t.segments.iter().map(|s| s.text.as_str()).collect::<String>())
        .collect::<Vec<String>>()
        .join(" ")
}

const DOCUMENT: &str =
    "{\n  \"a\": {\n    \"b\": 1\n  },\n  \"c\": [\n    1,\n    2\n  ]\n}";

#[test]
fn highlights_a_small_object() {
    let json = "{\n  \"a\": 1\n}";
    let rows = highlight_json(json, &HashSet::new(), "");
    assert_eq!(rows.len(), 3);
    assert_eq!(rows[0].index, 0);
    assert_eq!(rows[0].indent, 0);
    assert!(!rows[0].collapsible);
    assert_eq!(rows[1].indent, 1);
    assert_eq!(rows[1].tokens.len(), 3);
    assert_eq!(rows[1].tokens[0].kind, TokenKind::Key);
    assert_eq!(rows[1].tokens[0].segments[0].text, "a");
    assert_eq!(rows[1].tokens[1].kind, TokenKind::Colon);
    assert_eq!(rows[1].tokens[2].kind, TokenKind::Number);
    assert_eq!(rows[2].indent, 1);
    assert_eq!(rows[2].tokens[0].kind, TokenKind::Bracket);
}

#[test]
fn a_query_cuts_a_token_at_its_matches() {
    assert_eq!(
        segment_list("banana", "an"),
        expected_segments(&[("b", false), ("an", true), ("an", true), ("a", false)])
    );
    assert_eq!(segment_list("banana", "ba"), expected_segments(&[("ba", true), ("nana", false)]));
    assert_eq!(segment_list("banana", "na"), expected_segments(&[("ba", false), ("na", true), ("na", true)]));
    assert_eq!(segment_list("banana", "banana"), expected_segments(&[("banana", true)]));
}

#[test]
fn matches_do_not_overlap() {
    assert_eq!(segment_list("aaa", "aa"), expected_segments(&[("aa", true), ("a", false)]));
    assert_eq!(segment_list("aaaa", "aa"), expected_segments(&[("aa", true), ("aa", true)]));
}

#[test]
fn the_search_ignores_case_and_keeps_the_text() {
    assert_eq!(
        segment_list("Hello WORLD", "world"),
        expected_segments(&[("Hello ", false), ("WORLD", true)])
    );
    assert_eq!(segment_list("hello", "ELL"), expected_segments(&[("h", false), ("ell", true), ("o", false)]));
    assert_eq!(segment_list("ÄÖ", "ö"), expected_segments(&[("Ä", false), ("Ö", true)]));
}

#[test]
fn a_token_without_a_match_is_one_segment() {
    assert_eq!(segment_list("banana", "x"), expected_segments(&[("banana", false)]));
    assert_eq!(segment_list("banana", ""), expected_segments(&[("banana", false)]));
    assert_eq!(segment_list("", "x"), expected_segments(&[("", false)]));
    assert_eq!(segment_list("", ""), expected_segments(&[("", false)]));
    assert_eq!(segment_list("ab", "abc"), expected_segments(&[("ab", false)]));
}

#[test]
fn a_token_whose_lowercase_form_is_longer_is_not_cut() {
    // The lowercase form of the dotted capital I has two characters.
    assert_eq!(segment_list("İstanbul", "stan"), expected_segments(&[("İstanbul", false)]));
}

#[test]
fn the_segments_of_a_token_join_to_its_text() {
    for (text, query) in [("banana", "an"), ("aaa", "aa"), ("Hello", "L"), ("x", "x"), ("", "q"), ("abc", "")] {
        let joined: String = segment_list(text, query).into_iter().map(|(t, _)| t).collect();
        assert_eq!(joined, text);
    }
}

#[test]
fn tokens_are_styled_by_kind() {
    let line: Vec<char> = "\"id\": [\"x\", 5, t]".chars().collect();
    let styled = style_tokens(&line, &[]);
    let kinds: Vec<TokenKind> = styled.iter().map(|t| t.kind).collect();
    assert_eq!(
        kinds,
        vec![
            TokenKind::Key,
            TokenKind::Colon,
            TokenKind::Bracket,
            TokenKind::Key,
            TokenKind::Comma,
            TokenKind::Number,
            TokenKind::Comma,
            TokenKind::Other,
            TokenKind::Bracket,
        ]
    );
}

#[test]
fn lines_are_shown_at_the_depth_before_them() {
    let rows = highlight_json(DOCUMENT, &HashSet::new(), "");
    let shown: Vec<(usize, usize)> = rows.iter().map(|r| (r.index, r.indent)).collect();
    assert_eq!(
        shown,
        vec![(0, 0), (1, 1), (2, 2), (3, 2), (4, 1), (5, 2), (6, 2), (7, 2), (8, 1)]
    );
    let collapsible: Vec<usize> = rows.iter().filter(|r| r.collapsible).map(|r| r.index).collect();
    assert_eq!(collapsible, vec![1, 4]);
    assert!(rows.iter().all(|r| r.summary.is_none() && !r.collapsed && !r.is_match));
}

#[test]
fn a_collapsed_block_hides_its_lines() {
    let rows = highlight_json(DOCUMENT, &collapsed_set(&[1]), "");
    let shown: Vec<(usize, usize)> = rows.iter().map(|r| (r.index, r.indent)).collect();
    assert_eq!(shown, vec![(0, 0), (1, 1), (4, 1), (5, 2), (6, 2), (7, 2), (8, 1)]);
    assert!(rows[1].collapsed && rows[1].collapsible);
    assert_eq!(rows[1].summary, Some(Summary { hidden_lines: 1, closing: '}' }));
    assert_eq!(line_text(&rows[1]), "a : {");
    assert_eq!(rows[2].summary, None);
}

#[test]
fn a_collapsed_array_closes_with_a_square_bracket() {
    let rows = highlight_json(DOCUMENT, &collapsed_set(&[4]), "");
    let shown: Vec<usize> = rows.iter().map(|r| r.index).collect();
    assert_eq!(shown, vec![0, 1, 2, 3, 4, 8]);
    assert_eq!(rows[4].summary, Some(Summary { hidden_lines: 2, closing: ']' }));
    assert_eq!(rows[5].indent, 1);
}

#[test]
fn both_blocks_collapsed() {
    let rows = highlight_json(DOCUMENT, &collapsed_set(&[1, 4]), "");
    let shown: Vec<usize> = rows.iter().map(|r| r.index).collect();
    assert_eq!(shown, vec![0, 1, 4, 8]);
}

#[test]
fn collapsing_a_line_that_opens_nothing_changes_nothing_but_its_mark() {
    let rows = highlight_json(DOCUMENT, &collapsed_set(&[0, 2, 99]), "");
    assert_eq!(rows.len(), 9);
    assert!(rows[0].collapsed && !rows[0].collapsible && rows[0].summary.is_none());
    assert!(rows[2].collapsed && !rows[2].collapsible && rows[2].summary.is_none());
}

#[test]
fn a_collapsed_block_that_is_never_closed_hides_the_rest_and_counts_nothing() {
    let rows = highlight_json("{\n\"a\": [\n1,\n2", &collapsed_set(&[1]), "");
    let shown: Vec<usize> = rows.iter().map(|r| r.index).collect();
    assert_eq!(shown, vec![0, 1]);
    assert_eq!(rows[1].summary, Some(Summary { hidden_lines: 0, closing: ']' }));
}

#[test]
fn a_nested_collapsed_block_inside_a_collapsed_block_stays_hidden() {
    let json = "{\n\"a\": {\n\"b\": {\n\"c\": 1\n}\n},\n\"d\": 2\n}";
    let rows = highlight_json(json, &collapsed_set(&[1, 2]), "");
    let shown: Vec<usize> = rows.iter().map(|r| r.index).collect();
    assert_eq!(shown, vec![0, 1, 6, 7]);
    assert_eq!(rows[1].summary, Some(Summary { hidden_lines: 3, closing: '}' }));
}

#[test]
fn lines_that_hold_the_query_are_marked() {
    let rows = highlight_json(DOCUMENT, &HashSet::new(), "\"B\"");
    let marked: Vec<usize> = rows.iter().filter(|r| r.is_match).map(|r| r.index).collect();
    assert_eq!(marked, vec![2]);
    // The quotes are no part of any token, so no token is cut.
    assert!(rows[2].tokens.iter().all(|t| t.segments.len() == 1 && !t.segments[0].matched));
    let rows = highlight_json(DOCUMENT, &HashSet::new(), "C");
    let marked: Vec<usize> = rows.iter().filter(|r| r.is_match).map(|r| r.index).collect();
    assert_eq!(marked, vec![4]);
    assert!(rows[4].tokens[0].segments[0].matched);
    assert_eq!(rows[4].tokens[0].segments[0].text, "c");
}

#[test]
fn a_query_may_match_the_indentation_of_a_line() {
    let rows = highlight_json(DOCUMENT, &HashSet::new(), "    ");
    let marked: Vec<usize> = rows.iter().filter(|r| r.is_match).map(|r| r.index).collect();
    assert_eq!(marked, vec![2, 5, 6]);
}

#[test]
fn an_empty_text_has_no_lines() {
    assert!(highlight_json("", &HashSet::new(), "x").is_empty());
    let rows = highlight_json("\n", &HashSet::new(), "");
    assert_eq!(rows.len(), 1);
    assert!(rows[0].tokens.is_empty());
}

#[test]
fn carriage_returns_do_not_show() {
    let rows = highlight_json("{\r\n\"a\": [\r\n]\r\n}\r\n", &collapsed_set(&[1]), "");
    let shown: Vec<usize> = rows.iter().map(|r| r.index).collect();
    assert_eq!(shown, vec![0, 1, 3]);
    assert_eq!(line_text(&rows[1]), "a : [");
}

#[test]
fn visible_lines_keep_the_order_of_the_document() {
    let rows = highlight_json(DOCUMENT, &collapsed_set(&[4]), "a");
    assert!(rows.windows(2).all(|w| w[0].index < w[1].index));
}

#[test]
fn line_numbers_are_right_aligned_in_three_columns() {
    let rows = highlight_json(DOCUMENT, &HashSet::new(), "");
    assert_eq!(rows[0].number_label(), "  1 ");
    assert_eq!(rows[8].number_label(), "  9 ");
    let line = |index: usize| Line {
        index,
        indent: 0,
        is_match: false,
        collapsible: false,
        collapsed: false,
        tokens: Vec::new(),
        summary: None,
    };
    assert_eq!(line(9).number_label(), " 10 ");
    assert_eq!(line(98).number_label(), " 99 ");
    assert_eq!(line(99).number_label(), "100 ");
    assert_eq!(line(12344).number_label(), "12345 ");
    assert_eq!(line(usize::MAX).number_label(), format!("{} ", usize::MAX as u128 + 1));
    for index in [0usize, 5, 41, 999, 1000] {
        assert_eq!(line(index).number_label(), format!("{:>3} ", index + 1));
    }
}

#[test]
fn indentation_is_two_spaces_a_level() {
    let rows = highlight_json(DOCUMENT, &HashSet::new(), "");
    assert_eq!(rows[0].indentation(), "");
    assert_eq!(rows[1].indentation(), "  ");
    assert_eq!(rows[2].indentation(), "    ");
}

#[test]
fn a_summary_tells_the_hidden_lines() {
    assert_eq!(Summary { hidden_lines: 0, closing: '}' }.label(), " 0 lines ");
    assert_eq!(Summary { hidden_lines: 12, closing: ']' }.label(), " 12 lines ");
}
