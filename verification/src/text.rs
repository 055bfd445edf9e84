//! Small verified helpers on text: comparing, trimming, slicing by characters and reading
//! numbers.

use vstd::prelude::*;
use vstd::string::StrSliceExecFns;

verus! {

/// True if the two texts hold the same characters.
pub fn str_eq(a: &str, b: &str) -> (r: bool)
    ensures
        r == (a@ == b@),
{
    let n = a.unicode_len();
    let m = b.unicode_len();
    if n != m {
        return false;
    }
    let mut i: usize = 0;
    while i < n
        invariant
            n == a@.len(),
            m == b@.len(),
            n == m,
            0 <= i <= n,
            a@.subrange(0, i as int) == b@.subrange(0, i as int),
        decreases n - i,
    {
        if a.get_char(i) != b.get_char(i) {
            proof {
                assert(a@[i as int] != b@[i as int]);
            }
            return false;
        }
        proof {
            assert(a@.subrange(0, i + 1) =~= a@.subrange(0, i as int).push(a@[i as int]));
            assert(b@.subrange(0, i + 1) =~= b@.subrange(0, i as int).push(b@[i as int]));
        }
        i = i + 1;
    }
    proof {
        assert(a@ =~= a@.subrange(0, n as int));
        assert(b@ =~= b@.subrange(0, n as int));
    }
    true
}

/// Position of the first `c` in `s`, if any.
pub open spec fn first_index_of(s: Seq<char>, c: char) -> Option<int> {
    if exists|i: int| 0 <= i < s.len() && s[i] == c {
        Some(choose|i: int| 0 <= i < s.len() && s[i] == c && forall|j: int| 0 <= j < i ==> s[j] != c)
    } else {
        None
    }
}

/// Position of the first `c` in `s`, if any.
pub fn find_char(s: &str, c: char) -> (r: Option<usize>)
    ensures
        match r {
            Some(i) => i < s@.len() && s@[i as int] == c && forall|j: int| 0 <= j < i ==> s@[j] != c,
            None => forall|j: int| 0 <= j < s@.len() ==> s@[j] != c,
        },
{
    let n = s.unicode_len();
    let mut i: usize = 0;
    while i < n
        invariant
            n == s@.len(),
            0 <= i <= n,
            forall|j: int| 0 <= j < i ==> s@[j] != c,
        decreases n - i,
    {
        if s.get_char(i) == c {
            return Some(i);
        }
        i = i + 1;
    }
    None
}

/// Split `s` around the first `c`: the text before it and the text after it.
pub fn split_once_char(s: &str, c: char) -> (r: Option<(&str, &str)>)
    ensures
        match r {
            Some((a, b)) => exists|i: int| 0 <= i < s@.len() && s@[i] == c
                && (forall|j: int| 0 <= j < i ==> s@[j] != c)
                && a@ == s@.subrange(0, i) && b@ == s@.subrange(i + 1, s@.len() as int),
            None => forall|j: int| 0 <= j < s@.len() ==> s@[j] != c,
        },
{
    match find_char(s, c) {
        Some(i) => {
            let n = s.unicode_len();
            let a = s.substring_char(0, i);
            let b = s.substring_char(i + 1, n);
            Some((a, b))
        },
        None => None,
    }
}

/// `s` without the `c`s at its end.
pub open spec fn trim_end_spec(s: Seq<char>, c: char) -> Seq<char>
    decreases s.len(),
{
    if s.len() > 0 && s.last() == c {
        trim_end_spec(s.drop_last(), c)
    } else {
        s
    }
}

/// `s` without the `c`s at its end.
pub fn trim_end_char(s: &str, c: char) -> (r: &str)
    ensures
        r@ == trim_end_spec(s@, c),
{
    let mut n = s.unicode_len();
    proof {
        assert(s@.subrange(0, n as int) =~= s@);
    }
    while n > 0 && s.get_char(n - 1) == c
        invariant
            0 <= n <= s@.len(),
            trim_end_spec(s@.subrange(0, n as int), c) == trim_end_spec(s@, c),
        decreases n,
    {
        proof {
            assert(s@.subrange(0, n as int).drop_last() =~= s@.subrange(0, n - 1));
        }
        n = n - 1;
    }
    s.substring_char(0, n)
}

/// Value of a decimal digit character.
pub open spec fn digit_value(c: char) -> int {
    (c as int) - ('0' as int)
}

pub open spec fn is_digit(c: char) -> bool {
    '0' <= c && c <= '9'
}

/// Value of a string of decimal digits.
pub open spec fn digits_value(s: Seq<char>) -> int
    decreases s.len(),
{
    if s.len() == 0 {
        0
    } else {
        digits_value(s.drop_last()) * 10 + digit_value(s.last())
    }
}

/// The digits part of a number: without its leading `+`, if it has one.
pub open spec fn digits_of(s: Seq<char>) -> Seq<char> {
    if s.len() > 0 && s[0] == '+' {
        s.subrange(1, s.len() as int)
    } else {
        s
    }
}

pub open spec fn all_digits(d: Seq<char>) -> bool {
    forall|i: int| 0 <= i < d.len() ==> is_digit(#[trigger] d[i])
}

/// What parsing `s` as a `u16` gives, as the standard library does it: an optional `+`,
/// then one or more decimal digits, with a value that fits in 16 bits.
pub open spec fn parse_u16_spec(s: Seq<char>) -> Option<u16> {
    if digits_of(s).len() > 0 && all_digits(digits_of(s)) && digits_value(digits_of(s)) <= u16::MAX {
        Some(digits_value(digits_of(s)) as u16)
    } else {
        None
    }
}

proof fn lemma_digits_value_nonneg(s: Seq<char>)
    requires
        forall|i: int| 0 <= i < s.len() ==> is_digit(#[trigger] s[i]),
    ensures
        digits_value(s) >= 0,
    decreases s.len(),
{
    if s.len() > 0 {
        lemma_digits_value_nonneg(s.drop_last());
    }
}

proof fn lemma_digits_value_grows(s: Seq<char>, k: int)
    requires
        0 <= k <= s.len(),
        forall|i: int| 0 <= i < s.len() ==> is_digit(#[trigger] s[i]),
    ensures
        digits_value(s.subrange(0, k)) <= digits_value(s),
    decreases s.len() - k,
{
    if k < s.len() {
        lemma_digits_value_grows(s, k + 1);
        let p = s.subrange(0, k + 1);
        assert(p.drop_last() =~= s.subrange(0, k));
        assert(p.last() == s[k]);
        lemma_digits_value_nonneg(s.subrange(0, k));
    } else {
        assert(s.subrange(0, k) =~= s);
    }
}

#[verifier::spinoff_prover]
proof fn lemma_parse_u16_none(s: Seq<char>, d: Seq<char>, k: int)
    requires
        d == digits_of(s),
        0 <= k < d.len(),
        !is_digit(d[k]),
    ensures
        parse_u16_spec(s) is None,
{
    assert(!all_digits(d));
}

#[verifier::spinoff_prover]
proof fn lemma_parse_u16_big(s: Seq<char>, d: Seq<char>)
    requires
        d == digits_of(s),
        digits_value(d) > u16::MAX,
    ensures
        parse_u16_spec(s) is None,
{
}

/// Parse `s` as a `u16`, as `str::parse::<u16>` does.
pub fn parse_u16(s: &str) -> (r: Option<u16>)
    ensures
        r == parse_u16_spec(s@),
{
    let n = s.unicode_len();
    let start: usize = if n > 0 && s.get_char(0) == '+' { 1 } else { 0 };
    let ghost d = digits_of(s@);
    proof {
        if start == 0 {
            assert(d =~= s@.subrange(0, n as int));
        }
    }
    if start >= n {
        return None;
    }
    let mut value: u32 = 0;
    let mut i: usize = start;
    while i < n
        invariant
            n == s@.len(),
            start <= i <= n,
            d == s@.subrange(start as int, n as int),
            d == digits_of(s@),
            forall|j: int| 0 <= j < i - start ==> is_digit(#[trigger] d[j]),
            value == digits_value(d.subrange(0, i - start)),
            value <= u16::MAX,
        decreases n - i,
    {
        let c = s.get_char(i);
        if !('0' <= c && c <= '9') {
            proof {
                assert(d[i - start] == c);
                assert(!is_digit(d[i - start]));
                lemma_parse_u16_none(s@, d, (i - start) as int);
            }
            return None;
        }
        let digit = (c as u32) - ('0' as u32);
        let next = value * 10 + digit;
        proof {
            let p = d.subrange(0, i + 1 - start);
            assert(p.drop_last() =~= d.subrange(0, i - start));
            assert(p.last() == c);
            assert(digits_value(p) == value * 10 + digit);
        }
        if next > 65535 {
            proof {
                let p = d.subrange(0, i + 1 - start);
                assert(forall|j: int| 0 <= j < i + 1 - start ==> is_digit(#[trigger] d[j]));
                if forall|j: int| 0 <= j < d.len() ==> is_digit(#[trigger] d[j]) {
                    lemma_digits_value_grows(d, i + 1 - start);
                    assert(digits_value(p) > u16::MAX);
                    assert(digits_value(d) > u16::MAX);
                    lemma_parse_u16_big(s@, d);
                } else {
                    let k = choose|k: int| 0 <= k < d.len() && !is_digit(#[trigger] d[k]);
                    lemma_parse_u16_none(s@, d, k);
                }
            }
            return None;
        }
        value = next;
        i = i + 1;
    }
    proof {
        assert(d.subrange(0, n - start) =~= d);
    }
    Some(value as u16)
}

/// The characters of `s` from `start` up to `end`, when `start` is within `s`: empty when
/// `end` is not past `start`, and `None` when `end` is past the end of `s`.
pub open spec fn utf8_slice_spec(s: Seq<char>, start: usize, end: usize) -> Option<Seq<char>> {
    if start > s.len() {
        None
    } else if end <= start {
        Some(Seq::empty())
    } else if end > s.len() {
        None
    } else {
        Some(s.subrange(start as int, end as int))
    }
}

/// Slice `s` by character positions `[start, end)`.
pub fn utf8_slice(s: &str, start: usize, end: usize) -> (r: Option<&str>)
    ensures
        match r {
            Some(t) => utf8_slice_spec(s@, start, end) == Some(t@),
            None => utf8_slice_spec(s@, start, end) is None,
        },
{
    let n = s.unicode_len();
    if start > n {
        None
    } else if end <= start {
        Some(s.substring_char(start, start))
    } else if end > n {
        None
    } else {
        Some(s.substring_char(start, end))
    }
}

/// Slicing by characters: two adjacent slices make up the slice that spans both.
pub proof fn lemma_utf8_slice_concat(s: Seq<char>, a: usize, b: usize, c: usize)
    requires
        a <= b <= c <= s.len(),
    ensures
        utf8_slice_spec(s, a, b) is Some,
        utf8_slice_spec(s, b, c) is Some,
        utf8_slice_spec(s, a, c) is Some,
        utf8_slice_spec(s, a, b).unwrap() + utf8_slice_spec(s, b, c).unwrap() == utf8_slice_spec(s, a, c).unwrap(),
{
    assert(s.subrange(a as int, b as int) + s.subrange(b as int, c as int) =~= s.subrange(a as int, c as int));
    assert(s.subrange(a as int, a as int) =~= Seq::<char>::empty());
    assert(s.subrange(b as int, b as int) =~= Seq::<char>::empty());
    assert(Seq::<char>::empty() + s.subrange(b as int, c as int) =~= s.subrange(b as int, c as int));
    assert(s.subrange(a as int, b as int) + Seq::<char>::empty() =~= s.subrange(a as int, b as int));
}

} // verus!
