//! Recognising a floating-point literal in text.

use vstd::prelude::*;
use crate::number::{all_digits, digit, is_digit, is_sign, sign};
use crate::text::copy_range;

verus! {

/// Whether `c` is the lowercase ASCII letter `letter` or its uppercase form.
pub open spec fn is_letter(c: char, letter: char) -> bool {
    c == letter || c as u32 + 32 == letter as u32
}

/// A mantissa: digits alone, or digits with one decimal point before,
/// between or after them. At least one digit is required.
pub open spec fn is_mantissa(s: Seq<char>) -> bool {
    ||| s.len() > 0 && all_digits(s)
    ||| exists|k: int|
        0 <= k < s.len() && s[k] == '.' && s.len() > 1 && all_digits(#[trigger] s.take(k))
            && all_digits(s.skip(k + 1))
}

/// An exponent: the letter `e` in either case, an optional sign, and at
/// least one digit.
pub open spec fn is_exponent(s: Seq<char>) -> bool {
    s.len() > 0 && is_letter(s[0], 'e') && {
        let digits = if s.len() > 1 && is_sign(s[1]) {
            s.skip(2)
        } else {
            s.skip(1)
        };
        digits.len() > 0 && all_digits(digits)
    }
}

/// A number: a mantissa, optionally followed by an exponent.
pub open spec fn is_number(s: Seq<char>) -> bool {
    exists|m: int|
        0 <= m <= s.len() && is_mantissa(#[trigger] s.take(m)) && (m == s.len() || is_exponent(
            s.skip(m),
        ))
}

/// Whether `s` spells `word`, in either case of each letter.
pub open spec fn is_word(s: Seq<char>, word: Seq<char>) -> bool {
    s.len() == word.len() && forall|k: int|
        0 <= k < word.len() ==> is_letter(#[trigger] s[k], word[k])
}

/// `s` without a sign at its front.
pub open spec fn unsigned_part(s: Seq<char>) -> Seq<char> {
    if s.len() > 0 && is_sign(s[0]) {
        s.skip(1)
    } else {
        s
    }
}

/// Whether `s` is a floating-point literal as `str::parse` accepts one: an
/// optional sign, then either `inf`, `infinity` or `nan` in any case, or a
/// number. Nothing else may stand in `s`, not even whitespace.
pub open spec fn float_literal(s: Seq<char>) -> bool {
    let body = unsigned_part(s);
    is_number(body) || is_word(body, seq!['i', 'n', 'f']) || is_word(
        body,
        seq!['i', 'n', 'f', 'i', 'n', 'i', 't', 'y'],
    ) || is_word(body, seq!['n', 'a', 'n'])
}

/// The end of the run of digits that starts at `i`.
spec fn digits_end(s: Seq<char>, i: int) -> int
    decreases s.len() - i,
{
    if 0 <= i < s.len() && is_digit(s[i]) {
        digits_end(s, i + 1)
    } else {
        i
    }
}

/// The end of the mantissa at the front of `s`, read greedily.
spec fn mantissa_end(s: Seq<char>) -> Option<int> {
    let a = digits_end(s, 0);
    if 0 <= a < s.len() && s[a] == '.' {
        let b = digits_end(s, a + 1);
        if b > 1 {
            Some(b)
        } else {
            None
        }
    } else if a > 0 {
        Some(a)
    } else {
        None
    }
}

/// The end of the exponent that starts at `i`, read greedily.
spec fn exponent_end(s: Seq<char>, i: int) -> Option<int> {
    if 0 <= i < s.len() && is_letter(s[i], 'e') {
        let j = if i + 1 < s.len() && is_sign(s[i + 1]) {
            i + 2
        } else {
            i + 1
        };
        let k = digits_end(s, j);
        if k > j {
            Some(k)
        } else {
            None
        }
    } else {
        None
    }
}

/// Whether reading a mantissa and then an exponent from the front of `s`
/// uses up all of `s`.
spec fn reads_as_number(s: Seq<char>) -> bool {
    match mantissa_end(s) {
        None => false,
        Some(m) => m == s.len() || exponent_end(s, m) == Some(s.len() as int),
    }
}

proof fn lemma_digits_end(s: Seq<char>, i: int)
    requires
        0 <= i <= s.len(),
    ensures
        i <= digits_end(s, i) <= s.len(),
        forall|j: int| i <= j < digits_end(s, i) ==> is_digit(s[j]),
        digits_end(s, i) < s.len() ==> !is_digit(s[digits_end(s, i)]),
    decreases s.len() - i,
{
    if i < s.len() && is_digit(s[i]) {
        lemma_digits_end(s, i + 1);
    }
}

proof fn lemma_digits_run(s: Seq<char>, i: int, j: int)
    requires
        0 <= i <= j <= s.len(),
        forall|k: int| i <= k < j ==> is_digit(s[k]),
        j < s.len() ==> !is_digit(s[j]),
    ensures
        digits_end(s, i) == j,
    decreases j - i,
{
    if i < j {
        lemma_digits_run(s, i + 1, j);
    }
}

proof fn lemma_exponent_read(s: Seq<char>, m: int)
    requires
        0 <= m < s.len(),
    ensures
        is_exponent(s.skip(m)) <==> exponent_end(s, m) == Some(s.len() as int),
{
    let e = s.skip(m);
    assert(e[0] == s[m]);
    if is_letter(s[m], 'e') {
        let signed = m + 1 < s.len() && is_sign(s[m + 1]);
        if m + 1 < s.len() {
            assert(e[1] == s[m + 1]);
        }
        let j = if signed {
            m + 2
        } else {
            m + 1
        };
        let digits = s.skip(j);
        assert(digits =~= if signed {
            e.skip(2)
        } else {
            e.skip(1)
        });
        lemma_digits_end(s, j);
        if digits.len() > 0 && all_digits(digits) {
            assert forall|k: int| j <= k < s.len() implies is_digit(s[k]) by {
                assert(digits[k - j] == s[k]);
            }
            lemma_digits_run(s, j, s.len() as int);
        }
        if exponent_end(s, m) == Some(s.len() as int) {
            assert forall|k: int| 0 <= k < digits.len() implies is_digit(
                #[trigger] digits[k],
            ) by {
                assert(digits[k] == s[j + k]);
            }
        }
    }
}

proof fn lemma_mantissa_read(s: Seq<char>, m: int)
    requires
        0 <= m <= s.len(),
        m < s.len() ==> !is_digit(s[m]) && s[m] != '.',
    ensures
        is_mantissa(s.take(m)) <==> mantissa_end(s) == Some(m),
{
    let front = s.take(m);
    lemma_digits_end(s, 0);
    let a = digits_end(s, 0);
    if a < s.len() && s[a] == '.' {
        lemma_digits_end(s, a + 1);
    }
    if is_mantissa(front) {
        if front.len() > 0 && all_digits(front) {
            assert forall|k: int| 0 <= k < m implies is_digit(s[k]) by {
                assert(front[k] == s[k]);
            }
            lemma_digits_run(s, 0, m);
        } else {
            let k = choose|k: int|
                0 <= k < front.len() && front[k] == '.' && front.len() > 1 && all_digits(
                    #[trigger] front.take(k),
                ) && all_digits(front.skip(k + 1));
            assert(front[k] == s[k]);
            assert forall|i: int| 0 <= i < k implies is_digit(s[i]) by {
                assert(front.take(k)[i] == s[i]);
            }
            lemma_digits_run(s, 0, k);
            assert forall|i: int| k + 1 <= i < m implies is_digit(s[i]) by {
                assert(front.skip(k + 1)[i - k - 1] == s[i]);
            }
            lemma_digits_run(s, k + 1, m);
        }
        assert(mantissa_end(s) == Some(m));
    }
    if mantissa_end(s) == Some(m) {
        if a < s.len() && s[a] == '.' {
            assert(front[a] == '.');
            assert forall|i: int| 0 <= i < front.take(a).len() implies is_digit(
                #[trigger] front.take(a)[i],
            ) by {
                assert(front.take(a)[i] == s[i]);
            }
            assert forall|i: int| 0 <= i < front.skip(a + 1).len() implies is_digit(
                #[trigger] front.skip(a + 1)[i],
            ) by {
                assert(front.skip(a + 1)[i] == s[a + 1 + i]);
            }
            assert(all_digits(front.take(a)));
            assert(all_digits(front.skip(a + 1)));
            assert(is_mantissa(front));
        } else {
            assert forall|i: int| 0 <= i < front.len() implies is_digit(#[trigger] front[i]) by {
                assert(front[i] == s[i]);
            }
            assert(is_mantissa(front));
        }
    }
}

/// Reading greedily finds a number exactly where there is one.
proof fn lemma_number_read(s: Seq<char>)
    ensures
        reads_as_number(s) <==> is_number(s),
{
    lemma_digits_end(s, 0);
    let a = digits_end(s, 0);
    if a < s.len() && s[a] == '.' {
        lemma_digits_end(s, a + 1);
    }
    if reads_as_number(s) {
        let m = mantissa_end(s)->0;
        if m < s.len() {
            lemma_exponent_read(s, m);
        }
        lemma_mantissa_read(s, m);
    }
    if is_number(s) {
        let m = choose|m: int|
            0 <= m <= s.len() && is_mantissa(#[trigger] s.take(m)) && (m == s.len() || is_exponent(
                s.skip(m),
            ));
        if m < s.len() {
            assert(s.skip(m)[0] == s[m]);
            lemma_exponent_read(s, m);
        }
        lemma_mantissa_read(s, m);
    }
}

fn letter(c: char, lower: char) -> (b: bool)
    ensures
        b == is_letter(c, lower),
{
    c == lower || c as u32 + 32 == lower as u32
}

fn scan_digits(s: &[char], from: usize) -> (end: usize)
    requires
        from <= s.len(),
    ensures
        end == digits_end(s@, from as int),
        from <= end <= s.len(),
{
    let mut i: usize = from;
    while i < s.len() && digit(s[i])
        invariant
            from <= i <= s.len(),
            digits_end(s@, from as int) == digits_end(s@, i as int),
        decreases s.len() - i,
    {
        i += 1;
    }
    i
}

fn scan_mantissa(s: &[char]) -> (end: Option<usize>)
    ensures
        end matches Some(e) ==> mantissa_end(s@) == Some(e as int) && 0 < e <= s.len(),
        end is None ==> mantissa_end(s@) is None,
{
    let a = scan_digits(s, 0);
    if a < s.len() && s[a] == '.' {
        let b = scan_digits(s, a + 1);
        if b > 1 {
            Some(b)
        } else {
            None
        }
    } else if a > 0 {
        Some(a)
    } else {
        None
    }
}

fn scan_exponent(s: &[char], from: usize) -> (end: Option<usize>)
    requires
        from <= s.len(),
    ensures
        end matches Some(e) ==> exponent_end(s@, from as int) == Some(e as int) && e <= s.len(),
        end is None ==> exponent_end(s@, from as int) is None,
{
    if from < s.len() && letter(s[from], 'e') {
        let j: usize = if from + 1 < s.len() && sign(s[from + 1]) {
            from + 2
        } else {
            from + 1
        };
        let k = scan_digits(s, j);
        if k > j {
            Some(k)
        } else {
            None
        }
    } else {
        None
    }
}

fn number(s: &[char]) -> (b: bool)
    ensures
        b == is_number(s@),
{
    proof {
        lemma_number_read(s@);
    }
    match scan_mantissa(s) {
        None => false,
        Some(m) => {
            if m == s.len() {
                true
            } else {
                match scan_exponent(s, m) {
                    None => false,
                    Some(e) => e == s.len(),
                }
            }
        },
    }
}

fn spells(s: &[char], letters: &[char]) -> (b: bool)
    ensures
        b == is_word(s@, letters@),
{
    if s.len() != letters.len() {
        return false;
    }
    let mut k: usize = 0;
    while k < letters.len()
        invariant
            k <= letters.len(),
            s.len() == letters.len(),
            forall|j: int| 0 <= j < k ==> is_letter(#[trigger] s@[j], letters@[j]),
        decreases letters.len() - k,
    {
        if !letter(s[k], letters[k]) {
            return false;
        }
        k += 1;
    }
    true
}

/// Decides whether `s` is a floating-point literal.
pub fn is_float_literal(s: &[char]) -> (b: bool)
    ensures
        b == float_literal(s@),
{
    let from: usize = if s.len() > 0 && sign(s[0]) {
        1
    } else {
        0
    };
    let body = copy_range(s, from, s.len());
    assert(body@ =~= unsigned_part(s@));
    if number(body.as_slice()) {
        return true;
    }
    let inf: [char; 3] = ['i', 'n', 'f'];
    let infinity: [char; 8] = ['i', 'n', 'f', 'i', 'n', 'i', 't', 'y'];
    let nan: [char; 3] = ['n', 'a', 'n'];
    assert(inf@ =~= seq!['i', 'n', 'f']);
    assert(infinity@ =~= seq!['i', 'n', 'f', 'i', 'n', 'i', 't', 'y']);
    assert(nan@ =~= seq!['n', 'a', 'n']);
    spells(body.as_slice(), &inf) || spells(body.as_slice(), &infinity) || spells(
        body.as_slice(),
        &nan,
    )
}

} // verus!
