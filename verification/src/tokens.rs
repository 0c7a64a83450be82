//! Splitting one line of JSON text into tokens, and telling the tokens apart.

use vstd::prelude::*;
use crate::literal::{float_literal, is_float_literal};
use crate::text::{char_is_whitespace, is_whitespace, trim, trimmed};

verus! {

/// A piece of a line.
pub struct Token {
    /// The characters of the token. For a quoted string, its content without
    /// the quotes, with `\"` replaced by `"`.
    pub text: Vec<char>,
    /// Whether the token stands where an object key may stand: at the start
    /// of the line or after `{`, `[` or `,`, and not after `:`. Never set for
    /// a punctuation mark.
    pub is_key: bool,
    /// Whether the token is a quoted string that is closed on this line.
    pub in_string: bool,
}

/// The mathematical value of a [`Token`].
pub struct TokenView {
    pub text: Seq<char>,
    pub is_key: bool,
    pub in_string: bool,
}

impl View for Token {
    type V = TokenView;

    open spec fn view(&self) -> TokenView {
        TokenView { text: self.text@, is_key: self.is_key, in_string: self.in_string }
    }
}

/// The views of a vector of tokens.
pub open spec fn token_views(v: Seq<Token>) -> Seq<TokenView> {
    v.map_values(|t: Token| t@)
}

/// The punctuation marks of JSON.
pub open spec fn is_punctuation(c: char) -> bool {
    c == '{' || c == '}' || c == '[' || c == ']' || c == ':' || c == ','
}

/// The state of the scanner between two characters.
pub struct ScanState {
    /// The tokens completed so far.
    pub tokens: Seq<TokenView>,
    /// The characters of the token being read.
    pub current: Seq<char>,
    /// Whether the next token stands where a key may stand.
    pub is_key: bool,
    /// Whether the scanner is inside a quoted string.
    pub in_string: bool,
    /// The character read last.
    pub prev: char,
}

/// The state before the first character: the first token may be a key.
pub open spec fn scan_start() -> ScanState {
    ScanState {
        tokens: Seq::empty(),
        current: Seq::empty(),
        is_key: true,
        in_string: false,
        prev: '\0',
    }
}

/// Completes the unquoted token being read, if there is one.
pub open spec fn flush(st: ScanState) -> ScanState {
    if st.current.len() > 0 {
        ScanState {
            tokens: st.tokens.push(
                TokenView { text: st.current, is_key: st.is_key, in_string: false },
            ),
            current: Seq::empty(),
            ..st
        }
    } else {
        st
    }
}

/// The state after the quote character has been read in state `st`.
///
/// Inside a string, a quote that follows a backslash replaces the backslash
/// and stays in the string; any other quote ends the string. Outside a
/// string, a quote completes the token being read and starts a string.
pub open spec fn scan_quote(st: ScanState) -> ScanState {
    if st.in_string && st.prev != '\\' {
        ScanState {
            tokens: st.tokens.push(
                TokenView { text: st.current, is_key: st.is_key, in_string: true },
            ),
            current: Seq::empty(),
            in_string: false,
            ..st
        }
    } else if !st.in_string {
        ScanState { in_string: true, ..flush(st) }
    } else {
        ScanState {
            current: (if st.current.len() > 0 {
                st.current.drop_last()
            } else {
                st.current
            }).push('"'),
            ..st
        }
    }
}

/// The state after a character other than the quote has been read outside a
/// string: it completes the token being read. A punctuation mark is a token
/// of its own, and decides whether the next token may be a key; whitespace is
/// dropped; any other character starts a token.
pub open spec fn scan_plain(st: ScanState, c: char) -> ScanState {
    let fl = flush(st);
    if is_punctuation(c) {
        ScanState {
            tokens: fl.tokens.push(TokenView { text: seq![c], is_key: false, in_string: false }),
            is_key: if c == ',' || c == '{' || c == '[' {
                true
            } else if c == ':' {
                false
            } else {
                fl.is_key
            },
            ..fl
        }
    } else if !is_whitespace(c) {
        ScanState { current: fl.current.push(c), ..fl }
    } else {
        fl
    }
}

/// The state after character `c` has been read in state `st`.
pub open spec fn scan_step(st: ScanState, c: char) -> ScanState {
    let next = if c == '"' {
        scan_quote(st)
    } else if st.in_string {
        ScanState { current: st.current.push(c), ..st }
    } else {
        scan_plain(st, c)
    };
    ScanState { prev: c, ..next }
}

/// The state after the first `n` characters of `line`.
pub open spec fn scan(line: Seq<char>, n: int) -> ScanState
    decreases n,
{
    if n <= 0 {
        scan_start()
    } else {
        scan_step(scan(line, n - 1), line[n - 1])
    }
}

/// The tokens of a line. What is left at the end of the line, be it an
/// unquoted token or a string that is not closed, is a last unquoted token.
pub open spec fn tokens_of(line: Seq<char>) -> Seq<TokenView> {
    flush(scan(line, line.len() as int)).tokens
}

/// What a token is shown as.
#[derive(Clone, Copy, Debug, PartialEq, Eq, Structural)]
pub enum TokenKind {
    /// A quoted string where a key may stand.
    Key,
    /// Any other quoted string.
    StringValue,
    /// One of `{`, `}`, `[`, `]`.
    Bracket,
    /// `:`
    Colon,
    /// `,`
    Comma,
    /// An unquoted token that reads as a number.
    Number,
    /// Any other unquoted token.
    Other,
}

/// The kind of a token. An unquoted token is told by its text: a single
/// punctuation mark, else a floating-point literal once trimmed, else other.
pub open spec fn kind_of(t: TokenView) -> TokenKind {
    if t.in_string {
        if t.is_key {
            TokenKind::Key
        } else {
            TokenKind::StringValue
        }
    } else if t.text == seq!['{'] || t.text == seq!['}'] || t.text == seq!['['] || t.text
        == seq![']'] {
        TokenKind::Bracket
    } else if t.text == seq![':'] {
        TokenKind::Colon
    } else if t.text == seq![','] {
        TokenKind::Comma
    } else if float_literal(trim(t.text)) {
        TokenKind::Number
    } else {
        TokenKind::Other
    }
}

fn punctuation(c: char) -> (b: bool)
    ensures
        b == is_punctuation(c),
{
    c == '{' || c == '}' || c == '[' || c == ']' || c == ':' || c == ','
}

/// Splits `line` into its tokens.
pub fn tokenize(line: &[char]) -> (tokens: Vec<Token>)
    ensures
        token_views(tokens@) == tokens_of(line@),
{
    let mut tokens: Vec<Token> = Vec::new();
    let mut current: Vec<char> = Vec::new();
    let mut is_key = true;
    let mut in_string = false;
    let mut prev: char = '\0';
    let mut i: usize = 0;
    assert(token_views(tokens@) =~= Seq::<TokenView>::empty());
    while i < line.len()
        invariant
            i <= line.len(),
            scan(line@, i as int) == (ScanState {
                tokens: token_views(tokens@),
                current: current@,
                is_key,
                in_string,
                prev,
            }),
        decreases line.len() - i,
    {
        let c = line[i];
        let ghost st = scan(line@, i as int);
        assert(scan(line@, i + 1) == scan_step(st, c));
        if c == '"' {
            if in_string && prev != '\\' {
                let token = Token { text: current, is_key, in_string: true };
                assert(token_views(tokens@.push(token)) =~= token_views(tokens@).push(token@));
                tokens.push(token);
                current = Vec::new();
                in_string = false;
            } else if !in_string {
                if current.len() > 0 {
                    let token = Token { text: current, is_key, in_string: false };
                    assert(token_views(tokens@.push(token)) =~= token_views(tokens@).push(
                        token@,
                    ));
                    tokens.push(token);
                    current = Vec::new();
                }
                in_string = true;
            } else {
                if current.len() > 0 {
                    current.pop();
                }
                current.push(c);
            }
        } else if in_string {
            current.push(c);
        } else {
            if current.len() > 0 {
                let token = Token { text: current, is_key, in_string: false };
                assert(token_views(tokens@.push(token)) =~= token_views(tokens@).push(token@));
                tokens.push(token);
                current = Vec::new();
            }
            if punctuation(c) {
                let mut text: Vec<char> = Vec::new();
                text.push(c);
                assert(text@ =~= seq![c]);
                let token = Token { text, is_key: false, in_string: false };
                assert(token_views(tokens@.push(token)) =~= token_views(tokens@).push(token@));
                tokens.push(token);
                if c == ',' || c == '{' || c == '[' {
                    is_key = true;
                } else if c == ':' {
                    is_key = false;
                }
            } else if !char_is_whitespace(c) {
                current.push(c);
            }
        }
        prev = c;
        i += 1;
    }
    if current.len() > 0 {
        let token = Token { text: current, is_key, in_string: false };
        assert(token_views(tokens@.push(token)) =~= token_views(tokens@).push(token@));
        tokens.push(token);
    }
    tokens
}

fn is_single(text: &[char], c: char) -> (b: bool)
    ensures
        b == (text@ == seq![c]),
{
    if text.len() == 1 && text[0] == c {
        assert(text@ =~= seq![c]);
        true
    } else {
        assert(seq![c].len() == 1 && seq![c][0] == c);
        false
    }
}

/// Tells what `token` is shown as.
pub fn classify(token: &Token) -> (kind: TokenKind)
    ensures
        kind == kind_of(token@),
{
    let text = token.text.as_slice();
    if token.in_string {
        if token.is_key {
            TokenKind::Key
        } else {
            TokenKind::StringValue
        }
    } else if is_single(text, '{') || is_single(text, '}') || is_single(text, '[') || is_single(
        text,
        ']',
    ) {
        TokenKind::Bracket
    } else if is_single(text, ':') {
        TokenKind::Colon
    } else if is_single(text, ',') {
        TokenKind::Comma
    } else {
        let t = trimmed(text);
        if is_float_literal(t.as_slice()) {
            TokenKind::Number
        } else {
            TokenKind::Other
        }
    }
}

} // verus!
