//! Byte-level text helpers for the wire protocol: literals, decimal numbers,
//! trimming and field splitting. Every payload is handled as ASCII bytes.

use vstd::prelude::*;
use vstd::string::StringSliceAdditionalSpecFns;

verus! {

/// The bytes of a literal, as they travel on the wire.
pub open spec fn ascii(s: &str) -> Seq<u8> {
    s.spec_bytes()
}

/// The contents of a list of byte strings.
pub open spec fn views(list: Seq<Vec<u8>>) -> Seq<Seq<u8>> {
    Seq::new(list.len(), |i: int| list[i]@)
}

/// The ASCII digit that stands for `d`, for `d` below ten.
pub open spec fn digit(d: nat) -> u8 {
    (48 + d) as u8
}

/// `b` is one of the ten ASCII digits.
pub open spec fn is_digit(b: u8) -> bool {
    48 <= b <= 57
}

/// The shortest base-10 text of `n`.
pub open spec fn decimal(n: nat) -> Seq<u8>
    decreases n,
{
    if n < 10 {
        seq![digit(n)]
    } else {
        decimal(n / 10).push(digit(n % 10))
    }
}

/// `n` written with exactly `width` digits, the high ones cut off.
pub open spec fn fixed_width(n: nat, width: nat) -> Seq<u8>
    decreases width,
{
    if width == 0 {
        Seq::empty()
    } else {
        fixed_width(n / 10, (width - 1) as nat).push(digit(n % 10))
    }
}

/// Appends the bytes of a literal.
pub fn push_str(out: &mut Vec<u8>, s: &str)
    ensures
        final(out)@ == old(out)@ + ascii(s),
{
    out.extend_from_slice(s.as_bytes());
    assert(out@ =~= old(out)@ + ascii(s));
}

/// Appends a copy of `s`.
pub fn push_bytes(out: &mut Vec<u8>, s: &[u8])
    ensures
        final(out)@ == old(out)@ + s@,
{
    out.extend_from_slice(s);
    assert(out@ =~= old(out)@ + s@);
}

/// An owned copy of `s`.
pub fn to_vec(s: &[u8]) -> (out: Vec<u8>)
    ensures
        out@ == s@,
{
    let mut out: Vec<u8> = Vec::new();
    push_bytes(&mut out, s);
    assert(out@ =~= s@);
    out
}

/// An owned copy of the bytes of a literal.
pub fn literal(s: &str) -> (out: Vec<u8>)
    ensures
        out@ == ascii(s),
{
    let mut out: Vec<u8> = Vec::new();
    push_str(&mut out, s);
    assert(out@ =~= ascii(s));
    out
}

/// Appends the shortest base-10 text of `n`.
pub fn push_decimal(out: &mut Vec<u8>, n: u64)
    ensures
        final(out)@ == old(out)@ + decimal(n as nat),
    decreases n,
{
    if n >= 10 {
        push_decimal(out, n / 10);
    }
    let d: u8 = 48 + (n % 10) as u8;
    out.push(d);
    assert(out@ =~= old(out)@ + decimal(n as nat));
}

/// Appends `n` as exactly `width` digits, zero-padded on the left.
pub fn push_fixed_width(out: &mut Vec<u8>, n: u64, width: u8)
    ensures
        final(out)@ == old(out)@ + fixed_width(n as nat, width as nat),
    decreases width,
{
    if width > 0 {
        push_fixed_width(out, n / 10, width - 1);
        let d: u8 = 48 + (n % 10) as u8;
        out.push(d);
    }
    assert(out@ =~= old(out)@ + fixed_width(n as nat, width as nat));
}

/// Whether two byte strings hold the same bytes.
pub fn same_bytes(a: &[u8], b: &[u8]) -> (r: bool)
    ensures
        r == (a@ == b@),
{
    if a.len() != b.len() {
        return false;
    }
    let mut i: usize = 0;
    while i < a.len()
        invariant
            i <= a.len(),
            a.len() == b.len(),
            forall|j: int| 0 <= j < i ==> a@[j] == b@[j],
        decreases a.len() - i,
    {
        if a[i] != b[i] {
            return false;
        }
        i += 1;
    }
    assert(a@ =~= b@);
    true
}

/// Whether `s` begins with the bytes of `prefix`.
pub open spec fn has_prefix(s: Seq<u8>, prefix: Seq<u8>) -> bool {
    prefix.len() <= s.len() && s.take(prefix.len() as int) == prefix
}

/// Whether `s` begins with the bytes of `prefix`.
pub fn starts_with(s: &[u8], prefix: &[u8]) -> (r: bool)
    ensures
        r == has_prefix(s@, prefix@),
{
    if prefix.len() > s.len() {
        return false;
    }
    let head = &s[0..prefix.len()];
    assert(head@ =~= s@.take(prefix.len() as int));
    same_bytes(head, prefix)
}

/// White space as trimming sees it: the space and the controls from tab to
/// carriage return.
pub open spec fn is_space(b: u8) -> bool {
    b == 32 || (9 <= b <= 13)
}

/// `s` without its leading white space.
pub open spec fn trim_start(s: Seq<u8>) -> Seq<u8>
    decreases s.len(),
{
    if s.len() > 0 && is_space(s[0]) {
        trim_start(s.skip(1))
    } else {
        s
    }
}

/// `s` without its trailing white space.
pub open spec fn trim_end(s: Seq<u8>) -> Seq<u8>
    decreases s.len(),
{
    if s.len() > 0 && is_space(s.last()) {
        trim_end(s.drop_last())
    } else {
        s
    }
}

/// `s` without white space at either end.
pub open spec fn trimmed(s: Seq<u8>) -> Seq<u8> {
    trim_end(trim_start(s))
}

/// Whether `b` is white space.
pub fn space(b: u8) -> (r: bool)
    ensures
        r == is_space(b),
{
    b == 32 || (9 <= b && b <= 13)
}

/// The part of `s` between its leading and trailing white space.
pub fn trim(s: &[u8]) -> (r: &[u8])
    ensures
        r@ == trimmed(s@),
{
    let mut start: usize = 0;
    assert(s@.skip(0) =~= s@);
    while start < s.len() && space(s[start])
        invariant
            start <= s.len(),
            trim_start(s@) == trim_start(s@.skip(start as int)),
        decreases s.len() - start,
    {
        assert(s@.skip(start as int).skip(1) =~= s@.skip(start + 1));
        start += 1;
    }
    let mut end: usize = s.len();
    assert(s@.subrange(start as int, end as int) =~= s@.skip(start as int));
    while end > start && space(s[end - 1])
        invariant
            start <= end <= s.len(),
            trimmed(s@) == trim_end(s@.subrange(start as int, end as int)),
        decreases end,
    {
        assert(s@.subrange(start as int, end as int).drop_last() =~= s@.subrange(
            start as int,
            end - 1,
        ));
        end -= 1;
    }
    &s[start..end]
}

/// Where `b` first occurs in `s`; the length of `s` where it does not.
pub open spec fn index_of(s: Seq<u8>, b: u8) -> int
    decreases s.len(),
{
    if s.len() == 0 {
        0
    } else if s[0] == b {
        0
    } else {
        1 + index_of(s.skip(1), b)
    }
}

/// `index_of` stays within the string, lands on `b` where it lands inside, and
/// passes over no `b`.
pub proof fn index_of_is_first(s: Seq<u8>, b: u8)
    ensures
        0 <= index_of(s, b) <= s.len(),
        index_of(s, b) < s.len() ==> s[index_of(s, b)] == b,
        forall|j: int| 0 <= j < index_of(s, b) ==> s[j] != b,
    decreases s.len(),
{
    if s.len() > 0 && s[0] != b {
        index_of_is_first(s.skip(1), b);
        assert forall|j: int| 0 <= j < index_of(s, b) implies s[j] != b by {
            if j > 0 {
                assert(s.skip(1)[j - 1] == s[j]);
            }
        }
    }
}

/// Any place that holds the first `b` of `s` is `index_of`.
pub proof fn index_of_unique(s: Seq<u8>, b: u8, k: int)
    requires
        0 <= k <= s.len(),
        k < s.len() ==> s[k] == b,
        forall|j: int| 0 <= j < k ==> s[j] != b,
    ensures
        index_of(s, b) == k,
{
    index_of_is_first(s, b);
    let i = index_of(s, b);
    if i < k {
        assert(s[i] != b);
    } else if k < i {
        assert(s[k] != b);
    }
}

/// The place of the first `b` at or after `from`; the length of `s` where
/// there is none.
pub fn find(s: &[u8], from: usize, b: u8) -> (r: usize)
    requires
        from <= s.len(),
    ensures
        r == from + index_of(s@.skip(from as int), b),
        from <= r <= s.len(),
{
    let mut i: usize = from;
    while i < s.len() && s[i] != b
        invariant
            from <= i <= s.len(),
            forall|j: int| from <= j < i ==> s@[j] != b,
        decreases s.len() - i,
    {
        i += 1;
    }
    proof {
        index_of_unique(s@.skip(from as int), b, i - from);
    }
    i
}

/// The `n`-th piece of `s` when it is cut at every `sep`, counting from zero;
/// `None` where `s` has fewer pieces.
pub open spec fn field(s: Seq<u8>, sep: u8, n: nat) -> Option<Seq<u8>>
    decreases n,
{
    let k = index_of(s, sep);
    if n == 0 {
        Some(s.take(k))
    } else if k >= s.len() {
        None
    } else {
        field(s.skip(k + 1), sep, (n - 1) as nat)
    }
}

/// What follows the `n`-th `sep` of `s`, later separators included; `None`
/// where `s` has fewer than `n` of them.
pub open spec fn tail(s: Seq<u8>, sep: u8, n: nat) -> Option<Seq<u8>>
    decreases n,
{
    let k = index_of(s, sep);
    if n == 0 {
        Some(s)
    } else if k >= s.len() {
        None
    } else {
        tail(s.skip(k + 1), sep, (n - 1) as nat)
    }
}

/// The start of what follows the `n`-th `sep` of `s`.
pub fn tail_start(s: &[u8], sep: u8, n: usize) -> (r: Option<usize>)
    ensures
        match r {
            Some(at) => at <= s.len() && tail(s@, sep, n as nat) == Some(s@.skip(at as int)),
            None => tail(s@, sep, n as nat) is None,
        },
{
    let mut at: usize = 0;
    let mut left: usize = n;
    assert(s@.skip(0) =~= s@);
    while left > 0
        invariant
            at <= s.len(),
            tail(s@, sep, n as nat) == tail(s@.skip(at as int), sep, left as nat),
        decreases left,
    {
        let k = find(s, at, sep);
        if k >= s.len() {
            return None;
        }
        assert(s@.skip(at as int).skip(k - at + 1) =~= s@.skip(k + 1));
        at = k + 1;
        left -= 1;
    }
    Some(at)
}

/// What follows the `n`-th `sep` of `s`.
pub fn nth_tail(s: &[u8], sep: u8, n: usize) -> (r: Option<&[u8]>)
    ensures
        match r {
            Some(t) => tail(s@, sep, n as nat) == Some(t@),
            None => tail(s@, sep, n as nat) is None,
        },
{
    match tail_start(s, sep, n) {
        Some(at) => {
            let t = &s[at..s.len()];
            assert(t@ =~= s@.skip(at as int));
            Some(t)
        },
        None => None,
    }
}

/// A field is the start of the tail that begins with it.
pub proof fn field_of_tail(s: Seq<u8>, sep: u8, n: nat)
    ensures
        field(s, sep, n) == match tail(s, sep, n) {
            Some(t) => Some(t.take(index_of(t, sep))),
            None => None,
        },
    decreases n,
{
    let k = index_of(s, sep);
    if n > 0 && k < s.len() {
        field_of_tail(s.skip(k + 1), sep, (n - 1) as nat);
    }
}

/// The `n`-th piece of `s` when it is cut at every `sep`.
pub fn nth_field(s: &[u8], sep: u8, n: usize) -> (r: Option<&[u8]>)
    ensures
        match r {
            Some(f) => field(s@, sep, n as nat) == Some(f@),
            None => field(s@, sep, n as nat) is None,
        },
{
    proof {
        field_of_tail(s@, sep, n as nat);
    }
    match tail_start(s, sep, n) {
        Some(at) => {
            let k = find(s, at, sep);
            let f = &s[at..k];
            assert(f@ =~= s@.skip(at as int).take(k - at));
            Some(f)
        },
        None => None,
    }
}

/// Every byte of `s` is a digit.
pub open spec fn all_digits(s: Seq<u8>) -> bool {
    forall|i: int| 0 <= i < s.len() ==> is_digit(#[trigger] s[i])
}

/// The number that a string of digits writes in base 10.
pub open spec fn digits_value(s: Seq<u8>) -> nat
    decreases s.len(),
{
    if s.len() == 0 {
        0
    } else {
        digits_value(s.drop_last()) * 10 + (s.last() - 48) as nat
    }
}

/// The digits of a number text: the text itself, or what follows one leading
/// plus sign.
pub open spec fn unsigned_digits(s: Seq<u8>) -> Seq<u8> {
    if s.len() > 0 && s[0] == 43 {
        s.skip(1)
    } else {
        s
    }
}

/// What a byte-sized base-10 number text stands for: digits after an optional
/// plus sign, at least one, worth at most 255.
pub open spec fn u8_of_text(s: Seq<u8>) -> Option<u8> {
    let body = unsigned_digits(s);
    if body.len() > 0 && all_digits(body) && digits_value(body) <= 255 {
        Some(digits_value(body) as u8)
    } else {
        None
    }
}

/// Dropping digits from the end never raises the value.
pub proof fn digits_value_grows(s: Seq<u8>, k: int)
    requires
        all_digits(s),
        0 <= k <= s.len(),
    ensures
        digits_value(s.take(k)) <= digits_value(s),
    decreases s.len() - k,
{
    if k < s.len() {
        digits_value_grows(s, k + 1);
        assert(s.take(k + 1).drop_last() =~= s.take(k));
        assert(is_digit(s[k]));
        assert(s.take(k + 1).last() == s[k]);
    } else {
        assert(s.take(k) =~= s);
    }
}

/// Reads a byte-sized base-10 number.
#[verifier::rlimit(50)]
pub fn parse_u8(s: &[u8]) -> (r: Option<u8>)
    ensures
        r == u8_of_text(s@),
{
    let start: usize = if s.len() > 0 && s[0] == 43 {
        1
    } else {
        0
    };
    let ghost body = unsigned_digits(s@);
    assert(body =~= s@.skip(start as int));
    if start == s.len() {
        return None;
    }
    let mut value: u16 = 0;
    let mut i: usize = start;
    assert(body.take(0) =~= Seq::<u8>::empty());
    while i < s.len()
        invariant
            start <= i <= s.len(),
            body == s@.skip(start as int),
            body == unsigned_digits(s@),
            all_digits(body.take(i - start)),
            value == digits_value(body.take(i - start)),
            value <= 255,
        decreases s.len() - i,
    {
        let b = s[i];
        assert(body[i - start] == b);
        if b < 48 || b > 57 {
            assert(!is_digit(body[i - start]));
            return None;
        }
        let ghost next = body.take(i - start + 1);
        assert(next.drop_last() =~= body.take(i - start));
        assert(next.last() == b);
        assert(all_digits(next)) by {
            assert forall|j: int| 0 <= j < next.len() implies is_digit(#[trigger] next[j]) by {
                if j < i - start {
                    assert(body.take(i - start)[j] == next[j]);
                }
            }
        }
        let wide: u16 = value * 10 + (b - 48) as u16;
        assert(digits_value(next) == wide);
        if wide > 255 {
            proof {
                if all_digits(body) {
                    digits_value_grows(body, i - start + 1);
                }
            }
            return None;
        }
        value = wide;
        i += 1;
    }
    assert(body.take(i - start) =~= body);
    Some(value as u8)
}

/// `s` without the zeros at its end.
pub open spec fn strip_zeros(s: Seq<u8>) -> Seq<u8>
    decreases s.len(),
{
    if s.len() > 0 && s.last() == 48 {
        strip_zeros(s.drop_last())
    } else {
        s
    }
}

/// The size of `v` without its sign.
pub open spec fn magnitude(v: i64) -> nat {
    if v < 0 {
        (-v) as nat
    } else {
        v as nat
    }
}

/// A number of millionths as a decimal number: a minus sign where it is
/// negative, the whole part, and, where the rest is not zero, a point and up to
/// six digits without zeros at the end.
pub open spec fn millionths_text(v: i64) -> Seq<u8> {
    let whole = magnitude(v) / 1000000;
    let part = magnitude(v) % 1000000;
    (if v < 0 {
        seq![45u8]
    } else {
        Seq::<u8>::empty()
    }) + decimal(whole) + (if part == 0 {
        Seq::<u8>::empty()
    } else {
        seq![46u8] + strip_zeros(fixed_width(part, 6))
    })
}

/// Appends a number of millionths as a decimal number.
#[verifier::rlimit(50)]
pub fn push_millionths(out: &mut Vec<u8>, v: i64)
    ensures
        final(out)@ == old(out)@ + millionths_text(v),
{
    let size: u64 = if v < 0 {
        (-(v as i128)) as u64
    } else {
        v as u64
    };
    assert(size == magnitude(v));
    if v < 0 {
        out.push(45);
    }
    push_decimal(out, size / 1000000);
    let part = size % 1000000;
    if part != 0 {
        out.push(46);
        let mut digits: Vec<u8> = Vec::new();
        push_fixed_width(&mut digits, part, 6);
        assert(digits@ =~= fixed_width(part as nat, 6));
        while digits.len() > 0 && digits[digits.len() - 1] == 48
            invariant
                strip_zeros(digits@) == strip_zeros(fixed_width(part as nat, 6)),
            decreases digits.len(),
        {
            let ghost before = digits@;
            let _ = digits.pop();
            assert(digits@ =~= before.drop_last());
        }
        push_bytes(out, digits.as_slice());
    }
    assert(out@ =~= old(out)@ + millionths_text(v));
}

} // verus!
