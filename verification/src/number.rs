//! Decimal integers in text: reading and writing them.

use vstd::prelude::*;
use crate::text::string_of;

verus! {

/// Whether `c` is a decimal digit.
pub open spec fn is_digit(c: char) -> bool {
    '0' <= c && c <= '9'
}

/// Whether `c` is a plus or a minus sign.
pub open spec fn is_sign(c: char) -> bool {
    c == '+' || c == '-'
}

/// Whether every character of `s` is a decimal digit.
pub open spec fn all_digits(s: Seq<char>) -> bool {
    forall|i: int| 0 <= i < s.len() ==> is_digit(#[trigger] s[i])
}

/// Decides whether `c` is a decimal digit.
pub(crate) fn digit(c: char) -> (b: bool)
    ensures
        b == is_digit(c),
{
    '0' <= c && c <= '9'
}

/// Decides whether `c` is a plus or a minus sign.
pub(crate) fn sign(c: char) -> (b: bool)
    ensures
        b == is_sign(c),
{
    c == '+' || c == '-'
}

/// The value of a decimal digit.
pub open spec fn digit_value(c: char) -> nat {
    (c as u32 - '0' as u32) as nat
}

/// The decimal digit of a value below ten.
pub open spec fn digit_char(d: nat) -> char {
    (('0' as u32 + d) as u32) as char
}

/// The number that a string of decimal digits denotes.
pub open spec fn digits_value(s: Seq<char>) -> nat
    decreases s.len(),
{
    if s.len() == 0 {
        0
    } else {
        digits_value(s.drop_last()) * 10 + digit_value(s.last())
    }
}

/// The integer that `s` denotes when it is an optional sign followed by at
/// least one decimal digit and nothing else.
pub open spec fn parse_signed(s: Seq<char>) -> Option<int> {
    let signed = s.len() > 0 && is_sign(s[0]);
    let body = if signed {
        s.skip(1)
    } else {
        s
    };
    if body.len() == 0 || !all_digits(body) {
        None
    } else if signed && s[0] == '-' {
        Some(-(digits_value(body) as int))
    } else {
        Some(digits_value(body) as int)
    }
}

/// The natural number that `s` denotes when it is an optional plus sign
/// followed by at least one decimal digit and nothing else.
pub open spec fn parse_unsigned(s: Seq<char>) -> Option<int> {
    if s.len() > 0 && s[0] == '-' {
        None
    } else {
        parse_signed(s)
    }
}

/// What reading `s` as an `i64` gives: its value when it is a signed decimal
/// integer within range.
pub open spec fn parse_i64_spec(s: Seq<char>) -> Option<i64> {
    match parse_signed(s) {
        Some(v) => if i64::MIN <= v <= i64::MAX {
            Some(v as i64)
        } else {
            None
        },
        None => None,
    }
}

/// What reading `s` as a `u16` gives: its value when it is an unsigned
/// decimal integer within range.
pub open spec fn parse_u16_spec(s: Seq<char>) -> Option<u16> {
    match parse_unsigned(s) {
        Some(v) => if v <= u16::MAX {
            Some(v as u16)
        } else {
            None
        },
        None => None,
    }
}

/// A string of digits denotes at least what any of its prefixes denotes.
pub proof fn lemma_digits_value_prefix(s: Seq<char>, k: int)
    requires
        0 <= k <= s.len(),
    ensures
        digits_value(s.take(k)) <= digits_value(s),
    decreases s.len() - k,
{
    if k < s.len() {
        lemma_digits_value_prefix(s, k + 1);
        assert(s.take(k + 1).drop_last() =~= s.take(k));
    } else {
        assert(s.take(k) =~= s);
    }
}

/// Reads the digits of `s` from `from` on. `None` when there is none, when a
/// character is no digit, or when the value passes `limit`.
fn read_digits(s: &[char], from: usize, limit: u64) -> (out: Option<u64>)
    requires
        from <= s.len(),
    ensures
        out == if from < s.len() && all_digits(s@.skip(from as int)) && digits_value(
            s@.skip(from as int),
        ) <= limit {
            Some(digits_value(s@.skip(from as int)) as u64)
        } else {
            None
        },
{
    if from >= s.len() {
        return None;
    }
    let ghost body = s@.skip(from as int);
    let mut acc: u128 = 0;
    let mut i: usize = from;
    assert(body.take(0) =~= Seq::<char>::empty());
    while i < s.len()
        invariant
            from <= i <= s.len(),
            body == s@.skip(from as int),
            all_digits(body.take(i - from)),
            acc == digits_value(body.take(i - from)),
            acc <= limit,
        decreases s.len() - i,
    {
        let c = s[i];
        if !digit(c) {
            assert(body[i - from] == c);
            return None;
        }
        let d: u128 = (c as u32 - '0' as u32) as u128;
        let next: u128 = acc * 10 + d;
        proof {
            assert(body.take(i - from + 1).drop_last() =~= body.take(i - from));
            assert(body.take(i - from + 1).last() == c);
            assert(next == digits_value(body.take(i - from + 1)));
        }
        if next > limit as u128 {
            proof {
                lemma_digits_value_prefix(body, i - from + 1);
            }
            return None;
        }
        acc = next;
        i += 1;
    }
    assert(body.take(i - from) =~= body);
    Some(acc as u64)
}

/// Reads `s` as an `i64`, as `str::parse` does.
pub fn parse_i64(s: &[char]) -> (out: Option<i64>)
    ensures
        out == parse_i64_spec(s@),
{
    let signed = s.len() > 0 && sign(s[0]);
    let from: usize = if signed {
        1
    } else {
        0
    };
    let negative = signed && s[0] == '-';
    assert(s@.skip(0) =~= s@);
    let limit: u64 = if negative {
        0x8000_0000_0000_0000
    } else {
        0x7fff_ffff_ffff_ffff
    };
    match read_digits(s, from, limit) {
        None => None,
        Some(v) => {
            if negative {
                if v == 0x8000_0000_0000_0000 {
                    Some(i64::MIN)
                } else {
                    Some(-(v as i64))
                }
            } else {
                Some(v as i64)
            }
        },
    }
}

/// Reads `s` as a `u16`, as `str::parse` does.
pub fn parse_u16(s: &[char]) -> (out: Option<u16>)
    ensures
        out == parse_u16_spec(s@),
{
    if s.len() > 0 && s[0] == '-' {
        return None;
    }
    let from: usize = if s.len() > 0 && s[0] == '+' {
        1
    } else {
        0
    };
    assert(s@.skip(0) =~= s@);
    match read_digits(s, from, 0xffff) {
        None => None,
        Some(v) => Some(v as u16),
    }
}

/// The decimal digits of `n`, without leading zeros.
pub open spec fn digits_of(n: nat) -> Seq<char>
    decreases n,
{
    if n < 10 {
        seq![digit_char(n)]
    } else {
        digits_of(n / 10).push(digit_char(n % 10))
    }
}

/// The decimal form of `n`: a minus sign when it is negative, then its digits.
pub open spec fn decimal_of(n: int) -> Seq<char> {
    if n < 0 {
        seq!['-'] + digits_of((-n) as nat)
    } else {
        digits_of(n as nat)
    }
}

/// The digits of a number are digits, at least one, and denote the number.
pub proof fn lemma_digits_of(n: nat)
    ensures
        digits_of(n).len() > 0,
        all_digits(digits_of(n)),
        digits_value(digits_of(n)) == n,
    decreases n,
{
    if n < 10 {
        let s = digits_of(n);
        assert(s.drop_last() =~= Seq::<char>::empty());
        assert(digits_value(s.drop_last()) == 0);
    } else {
        lemma_digits_of(n / 10);
        let s = digits_of(n);
        assert(s.drop_last() =~= digits_of(n / 10));
        assert(s.last() == digit_char(n % 10));
        assert forall|i: int| 0 <= i < s.len() implies is_digit(#[trigger] s[i]) by {
            if i < s.len() - 1 {
                assert(s[i] == digits_of(n / 10)[i]);
            }
        }
    }
}

/// Reading the decimal form of an integer gives the integer back.
pub proof fn lemma_parse_decimal(n: int)
    ensures
        parse_signed(decimal_of(n)) == Some(n),
{
    if n < 0 {
        let m = (-n) as nat;
        lemma_digits_of(m);
        assert(decimal_of(n).skip(1) =~= digits_of(m));
    } else {
        lemma_digits_of(n as nat);
        let s = digits_of(n as nat);
        assert(is_digit(s[0]));
    }
}

/// Reading the decimal form of an `i64` as an `i64` gives it back.
pub proof fn lemma_parse_i64_of_decimal(n: i64)
    ensures
        parse_i64_spec(decimal_of(n as int)) == Some(n),
{
    lemma_parse_decimal(n as int);
}

/// The decimal digits of `n`.
pub fn digits(n: u128) -> (out: Vec<char>)
    ensures
        out@ == digits_of(n as nat),
{
    // Digits from the least significant one up.
    let mut reversed: Vec<char> = Vec::new();
    let mut rest: u128 = n;
    while rest >= 10
        invariant
            rest <= n,
            reversed@.len() > 0 ==> digits_of(n as nat) == digits_of(rest as nat)
                + reversed@.reverse(),
            reversed@.len() == 0 ==> rest == n,
        decreases rest,
    {
        let d: u8 = (rest % 10) as u8;
        let c: char = (48u8 + d) as char;
        proof {
            assert(c == digit_char((rest % 10) as nat));
            let old_rev = reversed@;
            let new_rev = old_rev.push(c);
            assert(digits_of(rest as nat) == digits_of((rest / 10) as nat).push(c));
            assert(new_rev.reverse() =~= seq![c] + old_rev.reverse());
            if old_rev.len() == 0 {
                assert(old_rev.reverse() =~= Seq::<char>::empty());
            }
            assert(digits_of(n as nat) =~= digits_of((rest / 10) as nat) + new_rev.reverse());
        }
        reversed.push(c);
        rest = rest / 10;
    }
    let first: char = (48u8 + (rest as u8)) as char;
    assert(first == digit_char(rest as nat));
    let mut out: Vec<char> = Vec::new();
    out.push(first);
    let ghost rev = reversed@;
    let mut i: usize = reversed.len();
    while i > 0
        invariant
            i <= reversed.len(),
            rev == reversed@,
            out@ == seq![first] + rev.reverse().take(rev.len() - i),
        decreases i,
    {
        i -= 1;
        out.push(reversed[i]);
        proof {
            let r = rev.reverse();
            assert(r[rev.len() - i - 1] == rev[i as int]);
            assert(r.take(rev.len() - i) =~= r.take(rev.len() - i - 1).push(rev[i as int]));
            assert(out@ =~= seq![first] + r.take(rev.len() - i));
        }
    }
    proof {
        let r = rev.reverse();
        assert(r.take(rev.len() as int) =~= r);
        assert(digits_of(rest as nat) =~= seq![first]);
        if rev.len() == 0 {
            assert(r =~= Seq::<char>::empty());
        }
        assert(digits_of(n as nat) =~= seq![first] + r);
    }
    out
}

/// The decimal form of `n`, as `i64::to_string` writes it.
pub fn decimal_string(n: i64) -> (out: String)
    ensures
        out@ == decimal_of(n as int),
{
    let mut chars: Vec<char> = Vec::new();
    let magnitude: u128 = if n < 0 {
        chars.push('-');
        (-(n as i128)) as u128
    } else {
        n as u128
    };
    let mut tail = digits(magnitude);
    let ghost head = chars@;
    let ghost body = tail@;
    chars.append(&mut tail);
    proof {
        if n < 0 {
            assert(head =~= seq!['-']);
        } else {
            assert(head =~= Seq::<char>::empty());
            assert(head + body =~= body);
        }
    }
    string_of(chars.as_slice())
}

} // verus!
