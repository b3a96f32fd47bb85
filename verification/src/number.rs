//! The syntax of decimal numbers with a fraction or an exponent, as event
//! arguments carry them. Only the syntax is judged here: what number a text
//! stands for plays no part in the rules.

use vstd::prelude::*;

use crate::text::{all_digits, ascii, is_digit};

verus! {

/// An ASCII letter in lower case; any other byte as it is.
pub open spec fn lower(b: u8) -> u8 {
    if 65 <= b <= 90 {
        (b + 32) as u8
    } else {
        b
    }
}

/// `s` with its ASCII letters in lower case.
pub open spec fn lowered(s: Seq<u8>) -> Seq<u8> {
    Seq::new(s.len(), |i: int| lower(s[i]))
}

/// How many digits `s` begins with.
pub open spec fn digits_len(s: Seq<u8>) -> int
    decreases s.len(),
{
    if s.len() > 0 && is_digit(s[0]) {
        1 + digits_len(s.skip(1))
    } else {
        0
    }
}

/// An exponent: the letter `e` in either case, an optional sign, and at least
/// one digit.
pub open spec fn is_exponent(s: Seq<u8>) -> bool {
    s.len() >= 2 && lower(s[0]) == 101 && {
        let digits = if s[1] == 43 || s[1] == 45 {
            s.skip(2)
        } else {
            s.skip(1)
        };
        digits.len() > 0 && all_digits(digits)
    }
}

/// What follows the whole part of a number: nothing, or a point and the
/// digits of the fraction.
pub open spec fn fraction_len(s: Seq<u8>) -> int {
    if s.len() > 0 && s[0] == 46 {
        1 + digits_len(s.skip(1))
    } else {
        0
    }
}

/// A number without sign: digits with at most one point among them, at least
/// one digit in all, and after them nothing or an exponent.
pub open spec fn is_unsigned_number(s: Seq<u8>) -> bool {
    let whole = digits_len(s);
    let fraction = fraction_len(s.skip(whole));
    let rest = s.skip(whole + fraction);
    (whole > 0 || fraction > 1) && (rest.len() == 0 || is_exponent(rest))
}

/// What is left of a number text after one leading sign.
pub open spec fn unsigned_part(s: Seq<u8>) -> Seq<u8> {
    if s.len() > 0 && (s[0] == 43 || s[0] == 45) {
        s.skip(1)
    } else {
        s
    }
}

/// Whether `s` is the text of a number: after an optional sign, one of the
/// words `inf`, `infinity` and `nan` in any mix of cases, or a number without
/// sign.
pub open spec fn is_number_text(s: Seq<u8>) -> bool {
    let body = unsigned_part(s);
    lowered(body) == ascii("inf") || lowered(body) == ascii("infinity") || lowered(body) == ascii(
        "nan",
    ) || is_unsigned_number(body)
}

/// `digits_len` stays within the text, covers digits only, and stops at the
/// end or before a byte that is no digit.
pub proof fn digits_len_is_the_run(s: Seq<u8>)
    ensures
        0 <= digits_len(s) <= s.len(),
        forall|i: int| 0 <= i < digits_len(s) ==> is_digit(#[trigger] s[i]),
        digits_len(s) < s.len() ==> !is_digit(s[digits_len(s)]),
    decreases s.len(),
{
    if s.len() > 0 && is_digit(s[0]) {
        digits_len_is_the_run(s.skip(1));
        assert forall|i: int| 0 <= i < digits_len(s) implies is_digit(#[trigger] s[i]) by {
            if i > 0 {
                assert(s.skip(1)[i - 1] == s[i]);
            }
        }
    }
}

/// A run of digits that ends at the end of the text or before a byte that is
/// no digit is the run that `digits_len` measures.
pub proof fn digits_len_unique(s: Seq<u8>, n: int)
    requires
        0 <= n <= s.len(),
        forall|i: int| 0 <= i < n ==> is_digit(#[trigger] s[i]),
        n < s.len() ==> !is_digit(s[n]),
    ensures
        digits_len(s) == n,
{
    digits_len_is_the_run(s);
    let m = digits_len(s);
    if m < n {
        assert(is_digit(s[m]));
    } else if n < m {
        assert(is_digit(s[n]));
    }
}

/// The lower-case form of a letter.
pub fn to_lower(b: u8) -> (r: u8)
    ensures
        r == lower(b),
{
    if 65 <= b && b <= 90 {
        b + 32
    } else {
        b
    }
}

/// Whether `s` is `word`, cases apart. `word` is written in lower case.
pub fn is_word(s: &[u8], word: &str) -> (r: bool)
    ensures
        r == (lowered(s@) == ascii(word)),
{
    let bytes = word.as_bytes();
    if s.len() != bytes.len() {
        return false;
    }
    let mut i: usize = 0;
    while i < s.len()
        invariant
            i <= s.len(),
            s.len() == bytes.len(),
            bytes@ == ascii(word),
            forall|k: int| 0 <= k < i ==> lower(s@[k]) == bytes@[k],
        decreases s.len() - i,
    {
        if to_lower(s[i]) != bytes[i] {
            assert(lowered(s@)[i as int] != ascii(word)[i as int]);
            return false;
        }
        i += 1;
    }
    assert(lowered(s@) =~= ascii(word));
    true
}

/// How many digits `s` holds from `from` on, up to the first byte that is no
/// digit.
pub fn count_digits(s: &[u8], from: usize) -> (n: usize)
    requires
        from <= s.len(),
    ensures
        n == digits_len(s@.skip(from as int)),
        from + n <= s.len(),
{
    let mut i: usize = from;
    while i < s.len() && 48 <= s[i] && s[i] <= 57
        invariant
            from <= i <= s.len(),
            forall|k: int| from <= k < i ==> is_digit(#[trigger] s@[k]),
        decreases s.len() - i,
    {
        i += 1;
    }
    proof {
        digits_len_unique(s@.skip(from as int), i - from);
    }
    i - from
}

/// Whether `s` holds digits only.
pub fn only_digits(s: &[u8]) -> (r: bool)
    ensures
        r == all_digits(s@),
{
    let n = count_digits(s, 0);
    proof {
        assert(s@.skip(0) =~= s@);
        digits_len_is_the_run(s@);
    }
    n == s.len()
}

/// Whether `s` is an exponent.
pub fn exponent(s: &[u8]) -> (r: bool)
    ensures
        r == is_exponent(s@),
{
    if s.len() < 2 || to_lower(s[0]) != 101 {
        return false;
    }
    let from: usize = if s[1] == 43 || s[1] == 45 {
        2
    } else {
        1
    };
    let digits = &s[from..s.len()];
    assert(digits@ =~= s@.skip(from as int));
    digits.len() > 0 && only_digits(digits)
}

/// Whether `s` is a number without sign.
pub fn unsigned_number(s: &[u8]) -> (r: bool)
    ensures
        r == is_unsigned_number(s@),
{
    let whole = count_digits(s, 0);
    assert(s@.skip(0) =~= s@);
    let fraction: usize = if whole < s.len() && s[whole] == 46 {
        let digits = count_digits(s, whole + 1);
        assert(s@.skip(whole as int).skip(1) =~= s@.skip(whole + 1));
        1 + digits
    } else {
        0
    };
    assert(fraction == fraction_len(s@.skip(whole as int)));
    if whole == 0 && fraction <= 1 {
        return false;
    }
    let rest = &s[whole + fraction..s.len()];
    assert(rest@ =~= s@.skip(whole + fraction));
    rest.len() == 0 || exponent(rest)
}

/// Whether `s` is the text of a number.
pub fn number_text(s: &[u8]) -> (r: bool)
    ensures
        r == is_number_text(s@),
{
    let from: usize = if s.len() > 0 && (s[0] == 43 || s[0] == 45) {
        1
    } else {
        0
    };
    let body = &s[from..s.len()];
    assert(body@ =~= unsigned_part(s@));
    is_word(body, "inf") || is_word(body, "infinity") || is_word(body, "nan") || unsigned_number(
        body,
    )
}

} // verus!
