use dbug_desktop::tokens::{classify, tokenize, Token, TokenKind};

fn token_list(line: &str) -> Vec<(String, bool, bool)> {
    let chars: Vec<char> = line.chars().collect();
    tokenize(&chars)
        .into_iter()
        .map(|t| (t.text.iter().collect::<String>(), t.is_key, t.in_string))
        .collect()
}

fn token_of(text: &str, is_key: bool, in_string: bool) -> Token {
    Token { text: text.chars().collect(), is_key, in_string }
}

fn expected_tokens(list: &[(&str, bool, bool)]) -> Vec<(String, bool, bool)> {
    list.iter().map(|(t, k, s)| (t.to_string(), *k, *s)).collect()
}

#[test]
fn a_key_and_a_string_value() {
    assert_eq!(
        token_list("\"name\": \"value\","),
        expected_tokens(&[
            ("name", true, true),
            (":", false, false),
            ("value", false, true),
            (",", false, false),
        ])
    );
}

#[test]
fn every_unquoted_character_is_a_token_of_its_own() {
    assert_eq!(
        token_list("\"n\": 12.5"),
        expected_tokens(&[
            ("n", true, true),
            (":", false, false),
            ("1", false, false),
            ("2", false, false),
            (".", false, false),
            ("5", false, false),
        ])
    );
    assert_eq!(
        token_list("true"),
        expected_tokens(&[("t", true, false), ("r", true, false), ("u", true, false), ("e", true, false)])
    );
}

#[test]
fn brackets_and_commas_make_the_next_token_a_key() {
    assert_eq!(
        token_list("[\"a\", \"b\"]"),
        expected_tokens(&[
            ("[", false, false),
            ("a", true, true),
            (",", false, false),
            ("b", true, true),
            ("]", false, false),
        ])
    );
    assert_eq!(
        token_list("{\"k\": {\"j\": \"v\"}}"),
        expected_tokens(&[
            ("{", false, false),
            ("k", true, true),
            (":", false, false),
            ("{", false, false),
            ("j", true, true),
            (":", false, false),
            ("v", false, true),
            ("}", false, false),
            ("}", false, false),
        ])
    );
}

#[test]
fn a_closing_bracket_leaves_the_key_flag_as_it_was() {
    assert_eq!(
        token_list(": ] \"x\""),
        expected_tokens(&[(":", false, false), ("]", false, false), ("x", false, true)])
    );
}

#[test]
fn an_escaped_quote_stays_in_the_string_without_its_backslash() {
    assert_eq!(token_list("\"a\\\"b\""), expected_tokens(&[("a\"b", true, true)]));
    assert_eq!(token_list("\"a\\nb\""), expected_tokens(&[("a\\nb", true, true)]));
}

#[test]
fn a_quote_after_an_escaped_backslash_is_taken_as_escaped_too() {
    // The scanner looks one character back only.
    assert_eq!(token_list("\"a\\\\\" x"), expected_tokens(&[("a\\\" x", true, false)]));
}

#[test]
fn an_empty_string_is_a_token() {
    assert_eq!(
        token_list("\"\": \"\""),
        expected_tokens(&[("", true, true), (":", false, false), ("", false, true)])
    );
}

#[test]
fn an_unclosed_string_ends_as_an_unquoted_token() {
    assert_eq!(
        token_list("\"k\": \"12 3"),
        expected_tokens(&[("k", true, true), (":", false, false), ("12 3", false, false)])
    );
}

#[test]
fn whitespace_outside_strings_is_dropped_and_inside_kept() {
    assert_eq!(
        token_list("  \"a b\"\t:\u{a0}1 "),
        expected_tokens(&[("a b", true, true), (":", false, false), ("1", false, false)])
    );
    assert_eq!(token_list("   "), expected_tokens(&[]));
    assert_eq!(token_list(""), expected_tokens(&[]));
}

#[test]
fn a_quote_ends_a_pending_unquoted_token() {
    assert_eq!(token_list("x\"y\""), expected_tokens(&[("x", true, false), ("y", true, true)]));
}

#[test]
fn strings_are_keys_or_values() {
    assert_eq!(classify(&token_of("name", true, true)), TokenKind::Key);
    assert_eq!(classify(&token_of("name", false, true)), TokenKind::StringValue);
    assert_eq!(classify(&token_of("{", true, true)), TokenKind::Key);
    assert_eq!(classify(&token_of("12", false, true)), TokenKind::StringValue);
}

#[test]
fn punctuation_is_told_by_its_text() {
    for text in ["{", "}", "[", "]"] {
        assert_eq!(classify(&token_of(text, false, false)), TokenKind::Bracket);
    }
    assert_eq!(classify(&token_of(":", false, false)), TokenKind::Colon);
    assert_eq!(classify(&token_of(",", false, false)), TokenKind::Comma);
    assert_eq!(classify(&token_of(",", true, false)), TokenKind::Comma);
    assert_eq!(classify(&token_of("{{", false, false)), TokenKind::Other);
    assert_eq!(classify(&token_of(" {", false, false)), TokenKind::Other);
}

#[test]
fn unquoted_tokens_are_numbers_or_other() {
    assert_eq!(classify(&token_of("7", false, false)), TokenKind::Number);
    assert_eq!(classify(&token_of(" 1.5e3 ", true, false)), TokenKind::Number);
    assert_eq!(classify(&token_of("nan", false, false)), TokenKind::Number);
    assert_eq!(classify(&token_of(".", false, false)), TokenKind::Other);
    assert_eq!(classify(&token_of("-", false, false)), TokenKind::Other);
    assert_eq!(classify(&token_of("t", false, false)), TokenKind::Other);
    assert_eq!(classify(&token_of("1 2", false, false)), TokenKind::Other);
    assert_eq!(classify(&token_of("", false, false)), TokenKind::Other);
}
