use dbug_desktop::collapse::{calculate_collapse_counts, count_collapsed, ends_opening, starts_closing};
use std::collections::HashMap;

fn collapse_lines(text: &str) -> Vec<String> {
    text.lines().map(|l| l.to_owned()).collect()
}

fn collapse_map(pairs: &[(usize, usize)]) -> HashMap<usize, usize> {
    pairs.iter().copied().collect()
}

#[test]
fn opening_and_closing_lines_are_told_by_their_ends() {
    let chars = |s: &str| s.chars().collect::<Vec<char>>();
    assert!(ends_opening(&chars("{")));
    assert!(ends_opening(&chars("\"a\": [")));
    assert!(!ends_opening(&chars("{ ")));
    assert!(!ends_opening(&chars("")));
    assert!(!ends_opening(&chars("}")));
    assert!(starts_closing(&chars("},")));
    assert!(starts_closing(&chars("]")));
    assert!(!starts_closing(&chars(" }")));
    assert!(!starts_closing(&chars("")));
    assert!(!starts_closing(&chars("{")));
}

#[test]
fn counts_the_lines_inside_each_block() {
    let text = "{\n  \"a\": {\n    \"b\": 1\n  },\n  \"c\": [\n    1,\n    2\n  ]\n}";
    let counts = calculate_collapse_counts(&collapse_lines(text));
    assert_eq!(counts, collapse_map(&[(1, 1), (4, 2)]));
}

#[test]
fn the_first_line_never_starts_a_counted_block() {
    let counts = calculate_collapse_counts(&collapse_lines("{\n  \"a\": 1\n}"));
    assert_eq!(counts, collapse_map(&[]));
    let counts = calculate_collapse_counts(&collapse_lines("[\n  [\n  ]\n]"));
    assert_eq!(counts, collapse_map(&[(1, 0)]));
}

#[test]
fn nested_blocks_are_counted_from_the_inside_out() {
    let text = "{\n\"a\": {\n\"b\": {\n\"c\": [\n1\n]\n}\n}\n}";
    let counts = calculate_collapse_counts(&collapse_lines(text));
    assert_eq!(counts, collapse_map(&[(3, 1), (2, 3), (1, 5)]));
}

#[test]
fn an_unclosed_block_has_no_count() {
    let counts = calculate_collapse_counts(&collapse_lines("{\n  \"a\": {\n    \"b\": 1"));
    assert_eq!(counts, collapse_map(&[]));
}

#[test]
fn a_line_that_closes_and_opens_ends_one_block_and_starts_the_next() {
    // Line 2 closes the block of line 1 and opens its own, which the last
    // line does not close: it began one level deeper than the document.
    let text = "[\n{\n}, {\n}\n]";
    let counts = calculate_collapse_counts(&collapse_lines(text));
    assert_eq!(counts, collapse_map(&[(1, 0)]));
}

#[test]
fn surplus_closing_lines_keep_the_depth_at_zero() {
    let text = "}\n}\nx: {\ny\n}";
    let counts = calculate_collapse_counts(&collapse_lines(text));
    assert_eq!(counts, collapse_map(&[(2, 1)]));
}

#[test]
fn no_lines_no_counts() {
    assert_eq!(calculate_collapse_counts(&[]), collapse_map(&[]));
}

#[test]
fn both_entry_points_agree() {
    let text = "{\n  \"list\": [\n    {\n      \"x\": 1\n    }\n  ]\n}";
    let by_chars = count_collapsed(&text.lines().map(|l| l.chars().collect()).collect());
    assert_eq!(by_chars, calculate_collapse_counts(&collapse_lines(text)));
    assert_eq!(by_chars, collapse_map(&[(2, 1), (1, 3)]));
}

#[test]
fn counted_blocks_lie_apart_or_one_within_the_other() {
    let texts = [
        "{\n\"a\": {\n\"b\": [\n1\n]\n},\n\"c\": [\n],\n\"d\": {\n\"e\": {\n}\n}\n}",
        "[\n{\n}, {\n}\n]",
        "}\nx: {\ny: [\n]\n}\n{\n}",
    ];
    for text in texts {
        let counts = calculate_collapse_counts(&collapse_lines(text));
        for (&a, &hidden_a) in &counts {
            for (&b, &hidden_b) in &counts {
                if a < b {
                    assert!(a + hidden_a < b || b + hidden_b + 1 <= a + hidden_a, "in {:?}", text);
                }
            }
        }
    }
}
