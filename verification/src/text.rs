//! Byte-level text helpers: scanning, trimming, case folding and decimal
//! numbers, each with a mathematical definition over `Seq<u8>`.

use vstd::prelude::*;
use vstd::string::StringSliceAdditionalSpecFns;

verus! {

/// Line feed.
pub const LF: u8 = 0x0a;

/// Carriage return.
pub const CR: u8 = 0x0d;

/// Space.
pub const SPACE: u8 = 0x20;

/// Colon.
pub const COLON: u8 = 0x3a;

/// Plus sign.
pub const PLUS: u8 = 0x2b;

/// The digit zero.
pub const DIGIT_ZERO: u8 = 0x30;

/// White space as far as it lies in ASCII: tab, line feed, vertical tab,
/// form feed, carriage return and space.
pub open spec fn is_space(b: u8) -> bool {
    b == 0x20 || (0x09 <= b && b <= 0x0d)
}

/// A decimal digit.
pub open spec fn is_digit(b: u8) -> bool {
    0x30 <= b && b <= 0x39
}

/// The lower-case form of an ASCII letter; every other byte is unchanged.
pub open spec fn fold_byte(b: u8) -> u8 {
    if 0x41 <= b && b <= 0x5a {
        (b + 0x20) as u8
    } else {
        b
    }
}

/// `s` with every ASCII letter in lower case.
pub open spec fn fold(s: Seq<u8>) -> Seq<u8> {
    Seq::new(s.len(), |i: int| fold_byte(s[i]))
}

/// The first index at or after `from` whose byte is `b`, or `s.len()`.
pub open spec fn first_byte(s: Seq<u8>, from: int, b: u8) -> int
    decreases s.len() - from,
{
    if from >= s.len() {
        s.len() as int
    } else if s[from] == b {
        from
    } else {
        first_byte(s, from + 1, b)
    }
}

/// The first index at or after `from` whose byte is white space, or `s.len()`.
pub open spec fn first_space(s: Seq<u8>, from: int) -> int
    decreases s.len() - from,
{
    if from >= s.len() {
        s.len() as int
    } else if is_space(s[from]) {
        from
    } else {
        first_space(s, from + 1)
    }
}

/// The first index at or after `from` whose byte is no white space, or `s.len()`.
pub open spec fn first_non_space(s: Seq<u8>, from: int) -> int
    decreases s.len() - from,
{
    if from >= s.len() {
        s.len() as int
    } else if !is_space(s[from]) {
        from
    } else {
        first_non_space(s, from + 1)
    }
}

/// The end of `s[lo..hi]` once trailing white space is cut off.
pub open spec fn trimmed_end(s: Seq<u8>, lo: int, hi: int) -> int
    decreases hi - lo,
{
    if hi <= lo {
        lo
    } else if !is_space(s[hi - 1]) {
        hi
    } else {
        trimmed_end(s, lo, hi - 1)
    }
}

/// `s` without leading and trailing white space.
pub open spec fn trim(s: Seq<u8>) -> Seq<u8> {
    let a = first_non_space(s, 0);
    s.subrange(a, trimmed_end(s, a, s.len() as int))
}

/// Whether `s` begins with `prefix`.
pub open spec fn starts_with(s: Seq<u8>, prefix: Seq<u8>) -> bool {
    prefix.len() <= s.len() && s.subrange(0, prefix.len() as int) == prefix
}

/// The first index that holds `b` lies between `from` and the end, holds
/// `b` unless it is the end, and no index before it holds `b`.
pub proof fn lemma_first_byte(s: Seq<u8>, from: int, b: u8)
    requires
        0 <= from <= s.len(),
    ensures
        from <= first_byte(s, from, b) <= s.len(),
        first_byte(s, from, b) < s.len() ==> s[first_byte(s, from, b)] == b,
        forall|i: int| from <= i < first_byte(s, from, b) ==> s[i] != b,
    decreases s.len() - from,
{
    if from < s.len() && s[from] != b {
        lemma_first_byte(s, from + 1, b);
    }
}

/// Whether `b` is white space.
pub fn byte_is_space(b: u8) -> (r: bool)
    ensures
        r == is_space(b),
{
    b == 0x20 || (0x09 <= b && b <= 0x0d)
}

/// The first index at or after `from` that holds `b`, or the length of `s`.
pub fn find_byte(s: &[u8], from: usize, b: u8) -> (r: usize)
    ensures
        r == first_byte(s@, from as int, b),
        r <= s.len(),
        from <= s.len() ==> from <= r,
{
    let mut i: usize = if from < s.len() {
        from
    } else {
        s.len()
    };
    while i < s.len() && s[i] != b
        invariant
            i <= s.len(),
            from <= s.len() ==> from <= i,
            first_byte(s@, from as int, b) == first_byte(s@, i as int, b),
        decreases s.len() - i,
    {
        i += 1;
    }
    i
}

/// The first index at or after `from` that holds no white space, or the
/// length of `s`.
pub fn skip_spaces(s: &[u8], from: usize) -> (r: usize)
    ensures
        r == first_non_space(s@, from as int),
        r <= s.len(),
        from <= s.len() ==> from <= r,
{
    let mut i: usize = if from < s.len() {
        from
    } else {
        s.len()
    };
    while i < s.len() && byte_is_space(s[i])
        invariant
            i <= s.len(),
            from <= s.len() ==> from <= i,
            first_non_space(s@, from as int) == first_non_space(s@, i as int),
        decreases s.len() - i,
    {
        i += 1;
    }
    i
}

/// The first index at or after `from` that holds white space, or the length
/// of `s`.
pub fn skip_non_spaces(s: &[u8], from: usize) -> (r: usize)
    ensures
        r == first_space(s@, from as int),
        r <= s.len(),
        from <= s.len() ==> from <= r,
{
    let mut i: usize = if from < s.len() {
        from
    } else {
        s.len()
    };
    while i < s.len() && !byte_is_space(s[i])
        invariant
            i <= s.len(),
            from <= s.len() ==> from <= i,
            first_space(s@, from as int) == first_space(s@, i as int),
        decreases s.len() - i,
    {
        i += 1;
    }
    i
}

/// A copy of `s[lo..hi]`.
pub fn copy_range(s: &[u8], lo: usize, hi: usize) -> (r: Vec<u8>)
    requires
        lo <= hi <= s.len(),
    ensures
        r@ == s@.subrange(lo as int, hi as int),
{
    let mut out: Vec<u8> = Vec::new();
    let mut i: usize = lo;
    while i < hi
        invariant
            lo <= i <= hi <= s.len(),
            out@ == s@.subrange(lo as int, i as int),
        decreases hi - i,
    {
        out.push(s[i]);
        i += 1;
    }
    out
}

/// The bytes of a text that holds ASCII only.
pub open spec fn ascii(text: Seq<char>) -> Seq<u8> {
    Seq::new(text.len(), |i: int| text[i] as u8)
}

/// The bytes of `text`.
pub fn text_bytes(text: &str) -> (r: Vec<u8>)
    ensures
        r@ == text.spec_bytes(),
        text.is_ascii() ==> r@ == ascii(text@),
{
    broadcast use vstd::string::is_ascii_spec_bytes;

    copy_bytes(text.as_bytes())
}

/// A copy of `s`.
pub fn copy_bytes(s: &[u8]) -> (r: Vec<u8>)
    ensures
        r@ == s@,
{
    assert(s@.subrange(0, s.len() as int) == s@);
    copy_range(s, 0, s.len())
}

/// Appends `src` to `dst`.
pub fn append_bytes(dst: &mut Vec<u8>, src: &[u8])
    ensures
        final(dst)@ == old(dst)@ + src@,
{
    let mut i: usize = 0;
    while i < src.len()
        invariant
            i <= src.len(),
            dst@ == old(dst)@ + src@.subrange(0, i as int),
        decreases src.len() - i,
    {
        dst.push(src[i]);
        i += 1;
    }
    assert(src@.subrange(0, src.len() as int) == src@);
}

/// Whether `a` and `b` hold the same bytes.
pub fn bytes_equal(a: &[u8], b: &[u8]) -> (r: bool)
    ensures
        r == (a@ == b@),
{
    if a.len() != b.len() {
        return false;
    }
    let mut i: usize = 0;
    while i < a.len()
        invariant
            i <= a.len(),
            a.len() == b.len(),
            a@.subrange(0, i as int) == b@.subrange(0, i as int),
        decreases a.len() - i,
    {
        if a[i] != b[i] {
            return false;
        }
        assert(a@.subrange(0, i + 1) == a@.subrange(0, i as int).push(a@[i as int]));
        assert(b@.subrange(0, i + 1) == b@.subrange(0, i as int).push(b@[i as int]));
        i += 1;
    }
    assert(a@.subrange(0, a.len() as int) == a@);
    assert(b@.subrange(0, b.len() as int) == b@);
    true
}

/// Whether `s` begins with `prefix`.
pub fn has_prefix(s: &[u8], prefix: &[u8]) -> (r: bool)
    ensures
        r == starts_with(s@, prefix@),
{
    if prefix.len() > s.len() {
        return false;
    }
    let head = vstd::slice::slice_subrange(s, 0, prefix.len());
    bytes_equal(head, prefix)
}

/// `s` with every ASCII letter in lower case.
pub fn fold_bytes(s: &[u8]) -> (r: Vec<u8>)
    ensures
        r@ == fold(s@),
{
    let mut out: Vec<u8> = Vec::new();
    let mut i: usize = 0;
    while i < s.len()
        invariant
            i <= s.len(),
            out@ == fold(s@.subrange(0, i as int)),
        decreases s.len() - i,
    {
        let b: u8 = s[i];
        let lower: u8 = if 0x41 <= b && b <= 0x5a {
            b + 0x20
        } else {
            b
        };
        out.push(lower);
        assert(out@ == fold(s@.subrange(0, i + 1)));
        i += 1;
    }
    assert(s@.subrange(0, s.len() as int) == s@);
    out
}

/// `s` without leading and trailing white space.
pub fn trim_bytes(s: &[u8]) -> (r: Vec<u8>)
    ensures
        r@ == trim(s@),
{
    let a: usize = skip_spaces(s, 0);
    let mut b: usize = s.len();
    while b > a && byte_is_space(s[b - 1])
        invariant
            a <= b <= s.len(),
            trimmed_end(s@, a as int, s.len() as int) == trimmed_end(s@, a as int, b as int),
        decreases b - a,
    {
        b -= 1;
    }
    copy_range(s, a, b)
}

/// The number that a run of decimal digits spells.
pub open spec fn digits_value(s: Seq<u8>) -> nat
    decreases s.len(),
{
    if s.len() == 0 {
        0
    } else {
        digits_value(s.drop_last()) * 10 + (s.last() - 0x30) as nat
    }
}

/// Every byte of `s` is a decimal digit.
pub open spec fn all_digits(s: Seq<u8>) -> bool {
    forall|i: int| 0 <= i < s.len() ==> is_digit(#[trigger] s[i])
}

/// `s` without one leading plus sign, if it has one.
pub open spec fn unsigned_digits(s: Seq<u8>) -> Seq<u8> {
    if s.len() > 0 && s[0] == 0x2b {
        s.subrange(1, s.len() as int)
    } else {
        s
    }
}

/// The number that `s` spells: an optional plus sign, then one or more
/// decimal digits, nothing else, and a value of at most `max`.
pub open spec fn parse_unsigned(s: Seq<u8>, max: nat) -> Option<nat> {
    let d = unsigned_digits(s);
    if d.len() > 0 && all_digits(d) && digits_value(d) <= max {
        Some(digits_value(d))
    } else {
        None
    }
}

/// A run of digits spells at least what any of its prefixes spells.
pub proof fn lemma_digits_value_prefix(s: Seq<u8>, k: int)
    requires
        0 <= k <= s.len(),
        all_digits(s),
    ensures
        digits_value(s.subrange(0, k)) <= digits_value(s),
    decreases s.len(),
{
    if k == s.len() {
        assert(s.subrange(0, k) == s);
    } else {
        let t = s.drop_last();
        assert(t.subrange(0, k) == s.subrange(0, k));
        lemma_digits_value_prefix(t, k);
    }
}

/// The number that `s` spells, if it spells one of at most `max`.
pub fn read_unsigned(s: &[u8], max: u64) -> (r: Option<u64>)
    ensures
        match parse_unsigned(s@, max as nat) {
            Some(v) => r == Some(v as u64),
            None => r is None,
        },
{
    let start: usize = if s.len() > 0 && s[0] == PLUS {
        1
    } else {
        0
    };
    if start == s.len() {
        return None;
    }
    let ghost d = s@.subrange(start as int, s.len() as int);
    assert(d == unsigned_digits(s@));
    let mut acc: u64 = 0;
    let mut i: usize = start;
    while i < s.len()
        invariant
            start <= i <= s.len(),
            d == s@.subrange(start as int, s.len() as int),
            d == unsigned_digits(s@),
            all_digits(d.subrange(0, i - start)),
            acc == digits_value(d.subrange(0, i - start)),
            acc <= max,
        decreases s.len() - i,
    {
        let b: u8 = s[i];
        if !(DIGIT_ZERO <= b && b <= 0x39) {
            assert(!is_digit(d[i - start]));
            return None;
        }
        let next: u128 = acc as u128 * 10 + (b - DIGIT_ZERO) as u128;
        let ghost grown = d.subrange(0, i + 1 - start);
        assert(grown.drop_last() == d.subrange(0, i - start));
        assert(grown.last() == b);
        assert(next == digits_value(grown));
        assert(all_digits(grown)) by {
            assert forall|j: int| 0 <= j < grown.len() implies is_digit(#[trigger] grown[j]) by {
                if j < grown.len() - 1 {
                    assert(grown[j] == d.subrange(0, i - start)[j]);
                }
            }
        }
        if next > max as u128 {
            proof {
                if all_digits(d) {
                    lemma_digits_value_prefix(d, i + 1 - start);
                }
            }
            return None;
        }
        acc = next as u64;
        i += 1;
    }
    assert(d.subrange(0, d.len() as int) == d);
    Some(acc)
}

/// The decimal digits of `n`, without leading zeros.
pub open spec fn decimal(n: nat) -> Seq<u8>
    decreases n,
{
    if n < 10 {
        seq![(0x30 + n) as u8]
    } else {
        decimal(n / 10).push((0x30 + n % 10) as u8)
    }
}

/// Appends the decimal digits of `n` to `out`.
pub fn push_decimal(out: &mut Vec<u8>, n: u64)
    ensures
        final(out)@ == old(out)@ + decimal(n as nat),
    decreases n,
{
    if n >= 10 {
        push_decimal(out, n / 10);
    }
    let digit: u8 = (n % 10) as u8;
    out.push(DIGIT_ZERO + digit);
    assert(out@ == old(out)@ + decimal(n as nat));
}

/// `s` with every occurrence of `pat` replaced by `rep`, found from the left
/// and without overlap. With an empty `pat` nothing is replaced.
pub open spec fn replace_all(s: Seq<u8>, pat: Seq<u8>, rep: Seq<u8>) -> Seq<u8>
    decreases s.len(),
{
    if pat.len() == 0 || s.len() < pat.len() {
        s
    } else if s.subrange(0, pat.len() as int) == pat {
        rep + replace_all(s.subrange(pat.len() as int, s.len() as int), pat, rep)
    } else {
        seq![s[0]] + replace_all(s.subrange(1, s.len() as int), pat, rep)
    }
}

/// `s` with every occurrence of `pat` replaced by `rep`.
pub fn replace_every(s: &[u8], pat: &[u8], rep: &[u8]) -> (r: Vec<u8>)
    ensures
        r@ == replace_all(s@, pat@, rep@),
{
    let mut out: Vec<u8> = Vec::new();
    if pat.len() == 0 {
        append_bytes(&mut out, s);
        return out;
    }
    let mut i: usize = 0;
    assert(s@.subrange(0, s.len() as int) == s@);
    assert(out@ + s@ == s@);
    while s.len() - i >= pat.len()
        invariant
            i <= s.len(),
            pat.len() > 0,
            out@ + replace_all(s@.subrange(i as int, s.len() as int), pat@, rep@) == replace_all(
                s@,
                pat@,
                rep@,
            ),
        decreases s.len() - i,
    {
        let ghost rest = s@.subrange(i as int, s.len() as int);
        let window = vstd::slice::slice_subrange(s, i, i + pat.len());
        assert(window@ == rest.subrange(0, pat.len() as int));
        if bytes_equal(window, pat) {
            assert(rest.subrange(pat.len() as int, rest.len() as int) == s@.subrange(
                i + pat.len(),
                s.len() as int,
            ));
            append_bytes(&mut out, rep);
            i += pat.len();
        } else {
            assert(rest.subrange(1, rest.len() as int) == s@.subrange(i + 1, s.len() as int));
            out.push(s[i]);
            i += 1;
        }
    }
    let tail = vstd::slice::slice_subrange(s, i, s.len());
    append_bytes(&mut out, tail);
    out
}

/// `r` is the first index from `from` on that holds `b` when it holds `b` or
/// is the end, and no index before it holds `b`.
pub proof fn lemma_first_byte_is(s: Seq<u8>, from: int, b: u8, r: int)
    requires
        0 <= from <= r <= s.len(),
        forall|i: int| from <= i < r ==> s[i] != b,
        r < s.len() ==> s[r] == b,
    ensures
        first_byte(s, from, b) == r,
    decreases r - from,
{
    if from < r {
        lemma_first_byte_is(s, from + 1, b, r);
    }
}

/// `r` is the first index from `from` on that holds white space when it
/// holds white space or is the end, and no index before it does.
pub proof fn lemma_first_space_is(s: Seq<u8>, from: int, r: int)
    requires
        0 <= from <= r <= s.len(),
        forall|i: int| from <= i < r ==> !is_space(s[i]),
        r < s.len() ==> is_space(s[r]),
    ensures
        first_space(s, from) == r,
    decreases r - from,
{
    if from < r {
        lemma_first_space_is(s, from + 1, r);
    }
}

/// `r` is the first index from `from` on that holds no white space when it
/// holds none or is the end, and every index before it holds white space.
pub proof fn lemma_first_non_space_is(s: Seq<u8>, from: int, r: int)
    requires
        0 <= from <= r <= s.len(),
        forall|i: int| from <= i < r ==> is_space(s[i]),
        r < s.len() ==> !is_space(s[r]),
    ensures
        first_non_space(s, from) == r,
    decreases r - from,
{
    if from < r {
        lemma_first_non_space_is(s, from + 1, r);
    }
}

/// `r` is the end of `s[lo..hi]` without trailing white space when only
/// white space lies from `r` to `hi` and none lies just before `r`.
pub proof fn lemma_trimmed_end_is(s: Seq<u8>, lo: int, hi: int, r: int)
    requires
        0 <= lo <= r <= hi <= s.len(),
        forall|i: int| r <= i < hi ==> is_space(s[i]),
        r > lo ==> !is_space(s[r - 1]),
    ensures
        trimmed_end(s, lo, hi) == r,
    decreases hi - r,
{
    if r < hi {
        lemma_trimmed_end_is(s, lo, hi - 1, r);
    }
}

/// White space around a text that has none at its ends is what trimming
/// cuts off.
pub proof fn lemma_trim_padded(before: Seq<u8>, text: Seq<u8>, after: Seq<u8>)
    requires
        forall|i: int| 0 <= i < before.len() ==> is_space(before[i]),
        forall|i: int| 0 <= i < after.len() ==> is_space(after[i]),
        text.len() > 0 ==> !is_space(text[0]) && !is_space(text.last()),
    ensures
        trim(before + text + after) == text,
{
    let s = before + text + after;
    let a = before.len() as int;
    let b = a + text.len();
    assert forall|i: int| 0 <= i < a implies is_space(s[i]) by {
        assert(s[i] == before[i]);
    }
    assert forall|i: int| b <= i < s.len() implies is_space(s[i]) by {
        assert(s[i] == after[i - b]);
    }
    if text.len() > 0 {
        assert(s[a] == text[0]);
        assert(s[b - 1] == text.last());
        lemma_first_non_space_is(s, 0, a);
        lemma_trimmed_end_is(s, a, s.len() as int, b);
        assert(s.subrange(a, b) == text);
    } else {
        lemma_first_non_space_is(s, 0, s.len() as int);
        assert(s.subrange(s.len() as int, s.len() as int) == text);
    }
}

/// The digits of a number spell it.
pub proof fn lemma_decimal_spells(n: nat)
    ensures
        decimal(n).len() > 0,
        all_digits(decimal(n)),
        digits_value(decimal(n)) == n,
    decreases n,
{
    if n < 10 {
        let d = decimal(n);
        assert(d.drop_last() == Seq::<u8>::empty());
        assert(digits_value(d.drop_last()) == 0);
    } else {
        lemma_decimal_spells(n / 10);
        let d = decimal(n);
        assert(d.drop_last() == decimal(n / 10));
        assert forall|i: int| 0 <= i < d.len() implies is_digit(#[trigger] d[i]) by {
            if i < d.len() - 1 {
                assert(d[i] == decimal(n / 10)[i]);
            }
        }
    }
}

/// Reading the digits of a number gives the number, if it is within `max`.
pub proof fn lemma_parse_decimal(n: nat, max: nat)
    ensures
        parse_unsigned(decimal(n), max) == if n <= max {
            Some(n)
        } else {
            None
        },
{
    lemma_decimal_spells(n);
    assert(is_digit(decimal(n)[0]));
}

} // verus!
