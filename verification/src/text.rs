//! Text primitives of std that the configuration reader and the image
//! writer use, each with a contract stated over the characters of the
//! strings, and the decimal notation shared by parsing and printing.

use std::num::ParseIntError;
use std::str::ParseBoolError;
use vstd::prelude::*;

verus! {

/// A character with the Unicode `White_Space` property, the whitespace that
/// `str::trim` removes.
pub open spec fn is_white_space(c: char) -> bool {
    ||| '\u{9}' <= c <= '\u{d}'
    ||| c == ' '
    ||| c == '\u{85}'
    ||| c == '\u{a0}'
    ||| c == '\u{1680}'
    ||| '\u{2000}' <= c <= '\u{200a}'
    ||| c == '\u{2028}'
    ||| c == '\u{2029}'
    ||| c == '\u{202f}'
    ||| c == '\u{205f}'
    ||| c == '\u{3000}'
}

/// `s` without its leading whitespace.
pub open spec fn spec_trim_start(s: Seq<char>) -> Seq<char>
    decreases s.len(),
{
    if s.len() > 0 && is_white_space(s[0]) {
        spec_trim_start(s.drop_first())
    } else {
        s
    }
}

/// `s` without its trailing whitespace.
pub open spec fn spec_trim_end(s: Seq<char>) -> Seq<char>
    decreases s.len(),
{
    if s.len() > 0 && is_white_space(s.last()) {
        spec_trim_end(s.drop_last())
    } else {
        s
    }
}

/// `s` without its leading and trailing whitespace.
pub open spec fn spec_trim(s: Seq<char>) -> Seq<char> {
    spec_trim_end(spec_trim_start(s))
}

/// `str::trim`: the slice without leading and trailing whitespace.
#[verifier::external_body]
pub(crate) fn trim(s: &str) -> (r: &str)
    ensures
        r@ == spec_trim(s@),
{
    s.trim()
}

/// `s` is `before`, then `delim`, then `after`, and `before` holds no
/// `delim`: the split at the first occurrence of `delim`.
pub open spec fn is_split_at_first(s: Seq<char>, delim: char, before: Seq<char>, after: Seq<char>) -> bool {
    &&& s == before + seq![delim] + after
    &&& !before.contains(delim)
}

/// `str::split_once` with a `char` pattern: the text before and after the
/// first occurrence of `delim`, or `None` when it does not occur.
#[verifier::external_body]
pub(crate) fn split_once(s: &str, delim: char) -> (r: Option<(&str, &str)>)
    ensures
        r is None <==> !s@.contains(delim),
        r matches Some((before, after)) ==> is_split_at_first(s@, delim, before@, after@),
{
    s.split_once(delim)
}

/// At most one split at the first occurrence of a delimiter exists.
pub proof fn lemma_split_at_first_unique(
    s: Seq<char>,
    delim: char,
    b1: Seq<char>,
    a1: Seq<char>,
    b2: Seq<char>,
    a2: Seq<char>,
)
    requires
        is_split_at_first(s, delim, b1, a1),
        is_split_at_first(s, delim, b2, a2),
    ensures
        b1 == b2,
        a1 == a2,
{
    if b1.len() < b2.len() {
        assert(s[b1.len() as int] == delim);
        assert(b2[b1.len() as int] == s[b1.len() as int]);
        assert(b2.contains(delim));
    } else if b2.len() < b1.len() {
        assert(s[b2.len() as int] == delim);
        assert(b1[b2.len() as int] == s[b2.len() as int]);
        assert(b1.contains(delim));
    } else {
        assert(b1 =~= s.take(b1.len() as int));
        assert(b2 =~= s.take(b2.len() as int));
        assert(a1 =~= s.skip(b1.len() + 1int));
        assert(a2 =~= s.skip(b2.len() + 1int));
    }
}

/// A decimal digit.
pub open spec fn is_digit(c: char) -> bool {
    '0' <= c <= '9'
}

/// The value of the decimal digit `c`.
pub open spec fn digit_value(c: char) -> nat {
    (c as int - '0' as int) as nat
}

/// The value of a string of decimal digits.
pub open spec fn digits_value(s: Seq<char>) -> nat
    decreases s.len(),
{
    if s.len() == 0 {
        0
    } else {
        digits_value(s.drop_last()) * 10 + digit_value(s.last())
    }
}

/// The number written by `s` in the notation that std parses unsigned
/// integers from: an optional `+`, then one or more decimal digits.
pub open spec fn spec_parse_unsigned(s: Seq<char>) -> Option<nat> {
    let digits = if s.len() > 0 && s[0] == '+' {
        s.drop_first()
    } else {
        s
    };
    if digits.len() > 0 && (forall|i: int| 0 <= i < digits.len() ==> is_digit(#[trigger] digits[i])) {
        Some(digits_value(digits))
    } else {
        None
    }
}

/// `s` holds an unsigned number no greater than `max`.
pub open spec fn parses_within(s: Seq<char>, max: nat) -> bool {
    spec_parse_unsigned(s) matches Some(v) && v <= max
}

/// `<usize as FromStr>::from_str`: succeeds exactly on an optional `+`
/// followed by decimal digits whose value fits in `usize`, with that value.
/// Nothing is promised of the error value.
#[verifier::external_body]
pub(crate) fn parse_usize(s: &str) -> (r: Result<usize, ParseIntError>)
    ensures
        r is Ok <==> parses_within(s@, usize::MAX as nat),
        r matches Ok(n) ==> spec_parse_unsigned(s@) == Some(n as nat),
{
    s.parse::<usize>()
}

/// `<u64 as FromStr>::from_str`: succeeds exactly on an optional `+`
/// followed by decimal digits whose value fits in `u64`, with that value.
/// Nothing is promised of the error value.
#[verifier::external_body]
pub(crate) fn parse_u64(s: &str) -> (r: Result<u64, ParseIntError>)
    ensures
        r is Ok <==> parses_within(s@, u64::MAX as nat),
        r matches Ok(n) ==> spec_parse_unsigned(s@) == Some(n as nat),
{
    s.parse::<u64>()
}

/// `<u32 as FromStr>::from_str`: succeeds exactly on an optional `+`
/// followed by decimal digits whose value fits in `u32`, with that value.
/// Nothing is promised of the error value.
#[verifier::external_body]
pub(crate) fn parse_u32(s: &str) -> (r: Result<u32, ParseIntError>)
    ensures
        r is Ok <==> parses_within(s@, u32::MAX as nat),
        r matches Ok(n) ==> spec_parse_unsigned(s@) == Some(n as nat),
{
    s.parse::<u32>()
}

/// The boolean that `<bool as FromStr>::from_str` reads from `s`: `true`
/// and `false` only.
pub open spec fn spec_parse_bool(s: Seq<char>) -> Option<bool> {
    if s == seq!['t', 'r', 'u', 'e'] {
        Some(true)
    } else if s == seq!['f', 'a', 'l', 's', 'e'] {
        Some(false)
    } else {
        None
    }
}

/// `<bool as FromStr>::from_str`: `true` or `false`, and an error for any
/// other text. Nothing is promised of the error value.
#[verifier::external_body]
pub(crate) fn parse_bool(s: &str) -> (r: Result<bool, ParseBoolError>)
    ensures
        r is Ok <==> spec_parse_bool(s@) is Some,
        r matches Ok(b) ==> spec_parse_bool(s@) == Some(b),
{
    s.parse::<bool>()
}

/// The character of the decimal digit `d`.
pub open spec fn digit_char(d: nat) -> char {
    (d + '0' as nat) as char
}

/// The decimal notation of `n`, without sign or leading zeros.
pub open spec fn spec_decimal(n: nat) -> Seq<char>
    decreases n,
{
    if n < 10 {
        seq![digit_char(n)]
    } else {
        spec_decimal(n / 10).push(digit_char(n % 10))
    }
}

/// `<usize as ToString>::to_string`: the decimal notation of `n`.
#[verifier::external_body]
pub(crate) fn usize_to_string(n: usize) -> (r: String)
    ensures
        r@ == spec_decimal(n as nat),
{
    n.to_string()
}

/// Decimal notation consists of digits and denotes the number it was made
/// from.
pub proof fn lemma_decimal_digits(n: nat)
    ensures
        spec_decimal(n).len() > 0,
        forall|i: int| 0 <= i < spec_decimal(n).len() ==> is_digit(#[trigger] spec_decimal(n)[i]),
        digits_value(spec_decimal(n)) == n,
    decreases n,
{
    let d = spec_decimal(n);
    assert(digit_value(digit_char(n % 10)) == n % 10);
    if n < 10 {
        assert(d.drop_last() =~= Seq::<char>::empty());
        assert(n % 10 == n);
        assert(d.last() == digit_char(n));
        assert(digits_value(d.drop_last()) == 0);
        assert(digits_value(d) == digits_value(d.drop_last()) * 10 + digit_value(d.last()));
    } else {
        assert((n / 10) * 10 + n % 10 == n) by (nonlinear_arith);
        lemma_decimal_digits(n / 10);
        let p = spec_decimal(n / 10);
        assert(d.drop_last() =~= p);
        assert(forall|i: int| 0 <= i < p.len() ==> d[i] == p[i]);
        assert(d.last() == digit_char(n % 10));
        assert(digits_value(d) == digits_value(d.drop_last()) * 10 + digit_value(d.last()));
    }
}

/// Printing a number in decimal and parsing it back gives the number.
pub proof fn lemma_parse_decimal_roundtrip(n: nat)
    ensures
        spec_parse_unsigned(spec_decimal(n)) == Some(n),
{
    lemma_decimal_digits(n);
    assert(spec_decimal(n)[0] != '+');
}

} // verus!
