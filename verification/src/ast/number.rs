use crate::ast::text::to_chars;
use vstd::prelude::*;

verus! {

/// An ASCII decimal digit.
pub open spec fn is_digit(c: char) -> bool {
    '0' <= c && c <= '9'
}

/// The number a decimal digit stands for.
pub open spec fn digit_value(c: char) -> int {
    c as int - '0' as int
}

/// The decimal digit that stands for `d`, for `d` below ten.
pub open spec fn digit_char(d: int) -> char {
    (d + '0' as int) as char
}

/// Every character of `s` is a decimal digit.
pub open spec fn all_digits(s: Seq<char>) -> bool {
    forall|i: int| 0 <= i < s.len() ==> is_digit(#[trigger] s[i])
}

/// The number that a run of decimal digits denotes, most significant digit first.
pub open spec fn digits_value(s: Seq<char>) -> int
    decreases s.len(),
{
    if s.len() == 0 {
        0
    } else {
        10 * digits_value(s.drop_last()) + digit_value(s.last())
    }
}

/// The shortest decimal spelling of `v`.
pub open spec fn decimal_text(v: nat) -> Seq<char>
    decreases v,
{
    if v < 10 {
        seq![digit_char(v as int)]
    } else {
        decimal_text(v / 10).push(digit_char((v % 10) as int))
    }
}

/// What a text means as a signed 64-bit integer: an optional sign, then one or more
/// decimal digits whose value fits; `None` for any other text.
pub open spec fn parse_i64_spec(s: Seq<char>) -> Option<i64> {
    let signed = s.len() > 0 && (s[0] == '-' || s[0] == '+');
    let body = if signed { s.skip(1) } else { s };
    let v = if s.len() > 0 && s[0] == '-' { -digits_value(body) } else { digits_value(body) };
    if body.len() > 0 && all_digits(body) && i64::MIN <= v <= i64::MAX {
        Some(v as i64)
    } else {
        None
    }
}

/// Whether a character is a decimal digit.
pub fn is_digit_char(c: char) -> (b: bool)
    ensures
        b == is_digit(c),
{
    c >= '0' && c <= '9'
}

/// The value of a decimal digit.
pub(crate) fn digit_of(c: char) -> (d: u8)
    requires
        is_digit(c),
    ensures
        d == digit_value(c),
        d < 10,
{
    (c as u32 - '0' as u32) as u8
}

/// The digit for a value below ten.
fn char_of_digit(d: u8) -> (c: char)
    requires
        d < 10,
    ensures
        c == digit_char(d as int),
        is_digit(c),
{
    (d + 48u8) as char
}

/// Digits only ever add to a number: a run of digits is worth at least as much as any
/// of its prefixes, and never less than nothing.
pub proof fn lemma_digits_value_monotone(s: Seq<char>, k: int)
    requires
        all_digits(s),
        0 <= k <= s.len(),
    ensures
        0 <= digits_value(s.take(k)) <= digits_value(s),
    decreases s.len(),
{
    if k == s.len() {
        assert(s.take(k) =~= s);
        if s.len() > 0 {
            lemma_digits_value_monotone(s.drop_last(), k - 1);
        }
    } else {
        assert(s.drop_last().take(k) =~= s.take(k));
        lemma_digits_value_monotone(s.drop_last(), k);
    }
}

/// Reading one more digit multiplies by ten and adds the digit.
pub proof fn lemma_digits_value_step(s: Seq<char>, k: int)
    requires
        0 <= k < s.len(),
    ensures
        digits_value(s.take(k + 1)) == 10 * digits_value(s.take(k)) + digit_value(s[k]),
{
    assert(s.take(k + 1).drop_last() =~= s.take(k));
}

/// Reads a text as a signed 64-bit integer, as `parse_i64_spec` defines it.
pub fn parse_i64(s: &str) -> (r: Option<i64>)
    ensures
        r == parse_i64_spec(s@),
{
    let chars = to_chars(s);
    let n = chars.len();
    if n == 0 {
        return None;
    }
    let negative = chars[0] == '-';
    let start: usize = if negative || chars[0] == '+' {
        1
    } else {
        0
    };
    let ghost body = s@.skip(start as int);
    let mut acc: u64 = 0;
    let mut i: usize = start;
    while i < n
        invariant
            start <= i <= n,
            n == chars.len(),
            n > 0,
            chars@ == s@,
            negative == (s@[0] == '-'),
            start == if s@[0] == '-' || s@[0] == '+' { 1int } else { 0int },
            body == s@.skip(start as int),
            start == 0 ==> body == s@,
            all_digits(body.take(i - start)),
            acc == digits_value(body.take(i - start)),
            acc <= 0x8000_0000_0000_0000,
        decreases n - i,
    {
        let c = chars[i];
        assert(body[i - start] == c);
        if !is_digit_char(c) {
            return None;
        }
        let d = digit_of(c);
        let next: u128 = acc as u128 * 10 + d as u128;
        proof {
            lemma_digits_value_step(body, i - start);
            assert(all_digits(body.take(i + 1 - start)));
            if all_digits(body) {
                lemma_digits_value_monotone(body, i + 1 - start);
            }
        }
        if next > 0x8000_0000_0000_0000 {
            return None;
        }
        acc = next as u64;
        i = i + 1;
    }
    assert(body.take(n - start) =~= body);
    if i == start {
        None
    } else if negative {
        if acc == 0x8000_0000_0000_0000 {
            Some(i64::MIN)
        } else {
            Some(-(acc as i64))
        }
    } else if acc <= 0x7fff_ffff_ffff_ffff {
        Some(acc as i64)
    } else {
        None
    }
}

/// Appends the shortest decimal spelling of `v` to `out`.
pub fn push_decimal(out: &mut String, v: u64)
    ensures
        final(out)@ == old(out)@ + decimal_text(v as nat),
    decreases v,
{
    if v < 10 {
        out.push(char_of_digit(v as u8));
    } else {
        push_decimal(out, v / 10);
        out.push(char_of_digit((v % 10) as u8));
    }
}

/// The shortest decimal spelling of `v`, as a string.
pub fn decimal_string(v: u64) -> (s: String)
    ensures
        s@ == decimal_text(v as nat),
{
    let mut s = String::new();
    push_decimal(&mut s, v);
    s
}

/// A decimal spelling is a non-empty run of digits worth the number spelled.
pub proof fn lemma_decimal_text_digits(v: nat)
    ensures
        decimal_text(v).len() > 0,
        all_digits(decimal_text(v)),
        digits_value(decimal_text(v)) == v,
    decreases v,
{
    if v < 10 {
        assert(digits_value(decimal_text(v).drop_last()) == 0);
    } else {
        lemma_decimal_text_digits(v / 10);
        assert(decimal_text(v).drop_last() =~= decimal_text(v / 10));
    }
}

/// Spelling a number and reading the spelling back gives the number.
pub proof fn lemma_decimal_round_trip(v: nat)
    requires
        v <= i64::MAX,
    ensures
        parse_i64_spec(decimal_text(v)) == Some(v as i64),
{
    lemma_decimal_text_digits(v);
}

} // verus!
