//! A line of text and the styles of its parts, kept as a list of phrases: each phrase gives
//! the style from its start up to the start of the next one.

use vstd::prelude::*;
use std::hash::Hasher;
use fnv::FnvHasher;
use std::ops::Range;
use vstd::string::{StringSliceAdditionalSpecFns, StrSliceExecFns};
use vstd::std_specs::iter::IteratorSpec;
use vstd::utf8::{encode_utf8, encode_scalar};
use crate::text::{utf8_slice, utf8_slice_spec};

verus! {

/// Terminal colors.
#[derive(Copy, Clone, Debug, PartialEq, Eq)]
pub enum Color {
    Reset,
    Black,
    DarkGrey,
    Red,
    DarkRed,
    Green,
    DarkGreen,
    Yellow,
    DarkYellow,
    Blue,
    DarkBlue,
    Magenta,
    DarkMagenta,
    Cyan,
    DarkCyan,
    White,
    Grey,
    Rgb { r: u8, g: u8, b: u8 },
    AnsiValue(u8),
}

/// The style of a part of a line.
#[derive(Copy, Clone, Debug, PartialEq, Eq)]
pub enum PattColor {
    /// No pattern possible for this line.
    NoPattern,
    /// Default terminal colors.
    Plain,
    Normal,
    Semantic,
    Highlight,
    Inverse,
    Timestamp,
    Pid(Color),
    Number(Color),
    Error,
    Fail,
    Info,
    NoCrumb,
    Module(Color),
}

/// A style and where in the line it starts.
#[derive(Copy, Clone, Debug, PartialEq, Eq)]
pub struct Phrase {
    pub start: usize,
    pub patt: PattColor,
}

impl Phrase {
    pub fn new(start: usize, patt: PattColor) -> (r: Self)
        ensures
            r == (Phrase { start, patt }),
    {
        Phrase { start, patt }
    }
}

/// The FNV-1a 64-bit hash of `bytes`: from the offset basis, each byte in turn is xored in
/// and the hash multiplied by the FNV prime, wrapping at 64 bits.
pub open spec fn fnv_hash(bytes: Seq<u8>) -> u64
    decreases bytes.len(),
{
    if bytes.len() == 0 {
        0xcbf29ce484222325u64
    } else {
        (((fnv_hash(bytes.drop_last()) ^ (bytes.last() as u64)) as int * 0x100000001b3int)
            % 0x1_0000_0000_0000_0000int) as u64
    }
}

/// Hash `bytes` with `fnv::FnvHasher`: its `default` starts from the offset basis and its
/// `write` xors in each byte and then multiplies by the prime with `wrapping_mul`, which is
/// the FNV-1a hash `fnv_hash` states.
#[verifier::external_body]
fn fnv64(bytes: &[u8]) -> (r: u64)
    ensures
        r == fnv_hash(bytes@),
{
    let mut hasher = FnvHasher::default();
    hasher.write(bytes);
    hasher.finish()
}

/// Number of phrases that start before `x`.
pub open spec fn count_lt(v: Seq<Phrase>, x: usize) -> int
    decreases v.len(),
{
    if v.len() == 0 {
        0
    } else {
        count_lt(v.drop_last(), x) + (if v.last().start < x { 1int } else { 0 })
    }
}

/// Phrase starts never go down, and the first phrase starts the line.
pub open spec fn phrases_ok(v: Seq<Phrase>) -> bool {
    &&& v.len() > 0
    &&& v[0].start == 0
    &&& forall|i: int, j: int| 0 <= i <= j < v.len() ==> #[trigger] v[i].start <= #[trigger] v[j].start
}

/// The phrases after styling `[s, e)` with `p`: the phrases before `s` stay, the new phrase
/// starts at `s`, and the style in force at `e` resumes there; phrases inside are dropped.
pub open spec fn pushed(v: Seq<Phrase>, s: usize, e: usize, p: PattColor) -> Seq<Phrase> {
    let n = v.len();
    let left = count_lt(v, s);
    let sl = !(left < n && v[left].start == s);
    let right = count_lt(v, e);
    let sr = !(right < n && v[right].start == e);
    let count = right - left;
    let a = v.take(left);
    let np = Phrase { start: s, patt: p };
    if count == 0 && sl && sr {
        a + seq![np, Phrase { start: e, patt: v[left - 1].patt }] + v.skip(left)
    } else if count < 2 && (sl || sr) {
        a + seq![np, Phrase { start: e, patt: v[left].patt }] + v.skip(left + 1)
    } else if sr {
        a + seq![np, Phrase { start: e, patt: v[right - 1].patt }] + v.skip(right)
    } else {
        a + seq![np] + v.skip(right)
    }
}

proof fn lemma_count_lt(v: Seq<Phrase>, x: usize, i: int)
    requires
        0 <= i <= v.len(),
        forall|j: int| 0 <= j < i ==> v[j].start < x,
        i == v.len() || v[i].start >= x,
        forall|a: int, b: int| 0 <= a <= b < v.len() ==> #[trigger] v[a].start <= #[trigger] v[b].start,
    ensures
        count_lt(v, x) == i,
    decreases v.len(),
{
    if v.len() > 0 {
        if i == v.len() {
            lemma_count_lt(v.drop_last(), x, i - 1);
        } else {
            assert(v.last().start >= x) by {
                assert(v[i].start <= v[v.len() - 1].start);
            }
            lemma_count_lt(v.drop_last(), x, i);
        }
    }
}

/// Number of phrases that start at or before `x`.
pub open spec fn count_le(v: Seq<Phrase>, x: usize) -> int
    decreases v.len(),
{
    if v.len() == 0 {
        0
    } else {
        count_le(v.drop_last(), x) + (if v.last().start <= x { 1int } else { 0 })
    }
}

/// The style in force at position `x`: that of the last phrase starting at or before it.
pub open spec fn style_at(v: Seq<Phrase>, x: usize) -> PattColor {
    v[count_le(v, x) - 1].patt
}

proof fn lemma_count_le(v: Seq<Phrase>, x: usize, i: int)
    requires
        0 <= i <= v.len(),
        forall|j: int| 0 <= j < i ==> v[j].start <= x,
        i == v.len() || v[i].start > x,
        forall|a: int, b: int| 0 <= a <= b < v.len() ==> #[trigger] v[a].start <= #[trigger] v[b].start,
    ensures
        count_le(v, x) == i,
    decreases v.len(),
{
    if v.len() > 0 {
        if i == v.len() {
            lemma_count_le(v.drop_last(), x, i - 1);
        } else {
            assert(v.last().start > x) by {
                assert(v[i].start <= v[v.len() - 1].start);
            }
            lemma_count_le(v.drop_last(), x, i);
        }
    }
}

/// In sorted phrases, the ones starting before `x` come first.
proof fn lemma_lt_split(v: Seq<Phrase>, x: usize)
    requires
        forall|a: int, b: int| 0 <= a <= b < v.len() ==> #[trigger] v[a].start <= #[trigger] v[b].start,
    ensures
        0 <= count_lt(v, x) <= v.len(),
        forall|j: int| 0 <= j < count_lt(v, x) ==> #[trigger] v[j].start < x,
        forall|j: int| count_lt(v, x) <= j < v.len() ==> #[trigger] v[j].start >= x,
    decreases v.len(),
{
    if v.len() > 0 {
        let d = v.drop_last();
        lemma_lt_split(d, x);
        let c = count_lt(d, x);
        assert forall|j: int| 0 <= j < count_lt(v, x) implies #[trigger] v[j].start < x by {
            if j < d.len() {
                assert(v[j] == d[j]);
            }
        }
        assert forall|j: int| count_lt(v, x) <= j < v.len() implies #[trigger] v[j].start >= x by {
            if j < d.len() {
                assert(v[j] == d[j]);
            } else if c < d.len() {
                assert(d[c].start >= x);
                assert(v[c].start <= v[j].start);
            }
        }
    }
}

/// In sorted phrases, the ones starting at or before `x` come first.
proof fn lemma_le_split(v: Seq<Phrase>, x: usize)
    requires
        forall|a: int, b: int| 0 <= a <= b < v.len() ==> #[trigger] v[a].start <= #[trigger] v[b].start,
    ensures
        0 <= count_le(v, x) <= v.len(),
        forall|j: int| 0 <= j < count_le(v, x) ==> #[trigger] v[j].start <= x,
        forall|j: int| count_le(v, x) <= j < v.len() ==> #[trigger] v[j].start > x,
    decreases v.len(),
{
    if v.len() > 0 {
        let d = v.drop_last();
        lemma_le_split(d, x);
        let c = count_le(d, x);
        assert forall|j: int| 0 <= j < count_le(v, x) implies #[trigger] v[j].start <= x by {
            if j < d.len() {
                assert(v[j] == d[j]);
            }
        }
        assert forall|j: int| count_le(v, x) <= j < v.len() implies #[trigger] v[j].start > x by {
            if j < d.len() {
                assert(v[j] == d[j]);
            } else if c < d.len() {
                assert(d[c].start > x);
                assert(v[c].start <= v[j].start);
            }
        }
    }
}

/// `c` is where the phrases starting after `x` begin.
proof fn lemma_le_at(w: Seq<Phrase>, x: usize, c: int)
    requires
        forall|a: int, b: int| 0 <= a <= b < w.len() ==> #[trigger] w[a].start <= #[trigger] w[b].start,
        0 <= c <= w.len(),
        forall|j: int| 0 <= j < c ==> #[trigger] w[j].start <= x,
        c == w.len() || w[c].start > x,
    ensures
        count_le(w, x) == c,
{
    lemma_le_split(w, x);
    let k = count_le(w, x);
    if k < c {
        assert(w[k].start > x);
    } else if k > c {
        assert(w[c].start <= x);
    }
}

proof fn lemma_push_setup(v: Seq<Phrase>, s: usize, e: usize)
    requires
        phrases_ok(v),
        s < e,
    ensures
        0 <= count_lt(v, s) <= count_lt(v, e) <= v.len(),
        forall|j: int| 0 <= j < count_lt(v, s) ==> #[trigger] v[j].start < s,
        forall|j: int| count_lt(v, s) <= j < v.len() ==> #[trigger] v[j].start >= s,
        forall|j: int| 0 <= j < count_lt(v, e) ==> #[trigger] v[j].start < e,
        forall|j: int| count_lt(v, e) <= j < v.len() ==> #[trigger] v[j].start >= e,
        !(count_lt(v, s) < v.len() && v[count_lt(v, s)].start == s) ==> count_lt(v, s) > 0,
{
    lemma_lt_split(v, s);
    lemma_lt_split(v, e);
    let left = count_lt(v, s);
    let right = count_lt(v, e);
    if right < left {
        assert(v[right].start < s);
    }
    if left == 0 {
        assert(v[0].start == 0);
    }
}

/// Where the phrases of `v` kept after the new ones start, and where they land.
pub open spec fn push_rest(v: Seq<Phrase>, s: usize, e: usize) -> (int, int) {
    let n = v.len();
    let left = count_lt(v, s);
    let sl = !(left < n && v[left].start == s);
    let right = count_lt(v, e);
    let sr = !(right < n && v[right].start == e);
    let count = right - left;
    if count == 0 && sl && sr {
        (left, left + 2)
    } else if count < 2 && (sl || sr) {
        (left + 1, left + 2)
    } else if sr {
        (right, left + 2)
    } else {
        (right, left + 1)
    }
}

proof fn lemma_pushed_shape(v: Seq<Phrase>, s: usize, e: usize, p: PattColor)
    requires
        phrases_ok(v),
        s < e,
    ensures
        ({
            let r = pushed(v, s, e, p);
            let (rest, m) = push_rest(v, s, e);
            let left = count_lt(v, s);
            &&& r.len() == m + v.len() - rest
            &&& left < m <= left + 2
            &&& left <= rest <= v.len()
            &&& forall|j: int| 0 <= j < left ==> #[trigger] r[j] == v[j]
            &&& r[left] == (Phrase { start: s, patt: p })
            &&& m == left + 2 ==> r[left + 1].start == e
            &&& forall|j: int| m <= j < r.len() ==> #[trigger] r[j] == v[j - m + rest]
            &&& forall|j: int| rest <= j < v.len() ==> #[trigger] v[j].start >= e
            &&& (m == left + 1 ==> rest < v.len() && v[rest].start == e)
        }),
{
    lemma_push_setup(v, s, e);
    let n = v.len() as int;
    let left = count_lt(v, s);
    let right = count_lt(v, e);
    let sl = !(left < n && v[left].start == s);
    let sr = !(right < n && v[right].start == e);
    let count = right - left;
    let (rest, m) = push_rest(v, s, e);
    assert forall|j: int| rest <= j < v.len() implies #[trigger] v[j].start >= e by {
        if count == 0 && sl && sr {
        } else if count < 2 && (sl || sr) {
            if count == 0 {
                assert(v[left].start == e);
            }
            assert(right <= left + 1);
        }
    }
}

proof fn lemma_pushed_ok(v: Seq<Phrase>, s: usize, e: usize, p: PattColor)
    requires
        phrases_ok(v),
        s < e,
    ensures
        phrases_ok(pushed(v, s, e, p)),
{
    lemma_push_setup(v, s, e);
    lemma_pushed_shape(v, s, e, p);
    let r = pushed(v, s, e, p);
    let (rest, m) = push_rest(v, s, e);
    let left = count_lt(v, s);
    assert(r[0].start == 0) by {
        if left > 0 {
            assert(r[0] == v[0]);
        }
    }
    assert forall|a: int, b: int| 0 <= a <= b < r.len() implies #[trigger] r[a].start <= #[trigger] r[b].start by {
        if b >= m {
            assert(r[b] == v[b - m + rest]);
            if a >= m {
                assert(r[a] == v[a - m + rest]);
            } else if a < left {
                assert(r[a] == v[a]);
            }
        } else if a < left && b < left {
            assert(r[a] == v[a] && r[b] == v[b]);
        } else if a < left {
            assert(r[a] == v[a]);
        }
    }
}

/// Styling `[s, e)` gives that region the new style and leaves the style of every other
/// position as it was.
pub proof fn lemma_push_styles_region(v: Seq<Phrase>, s: usize, e: usize, p: PattColor, x: usize)
    requires
        phrases_ok(v),
        s < e,
    ensures
        phrases_ok(pushed(v, s, e, p)),
        s <= x < e ==> style_at(pushed(v, s, e, p), x) == p,
        x < s || e <= x ==> style_at(pushed(v, s, e, p), x) == style_at(v, x),
{
    lemma_push_setup(v, s, e);
    lemma_pushed_shape(v, s, e, p);
    lemma_pushed_ok(v, s, e, p);
    let r = pushed(v, s, e, p);
    let (rest, m) = push_rest(v, s, e);
    let left = count_lt(v, s);
    let n = v.len() as int;
    lemma_le_split(v, x);
    let c = count_le(v, x);
    assert(c >= 1) by {
        assert(v[0].start <= x);
    }
    if x < s {
        assert(c <= left) by {
            if c > left {
                assert(v[left].start <= x);
            }
        }
        assert forall|j: int| 0 <= j < c implies #[trigger] r[j].start <= x by {
            assert(r[j] == v[j]);
        }
        assert(r[c].start > x) by {
            if c < left {
                assert(r[c] == v[c]);
            }
        }
        lemma_le_at(r, x, c);
        assert(r[c - 1] == v[c - 1]);
    } else if x < e {
        assert forall|j: int| 0 <= j < left + 1 implies #[trigger] r[j].start <= x by {
            if j < left {
                assert(r[j] == v[j]);
            }
        }
        assert(left + 1 == r.len() || r[left + 1].start > x) by {
            if m == left + 1 && left + 1 < r.len() {
                assert(r[left + 1] == v[rest]);
            }
        }
        lemma_le_at(r, x, left + 1);
    } else {
        lemma_push_after(v, s, e, p, x);
    }
}

proof fn lemma_push_after(v: Seq<Phrase>, s: usize, e: usize, p: PattColor, x: usize)
    requires
        phrases_ok(v),
        s < e,
        e <= x,
    ensures
        style_at(pushed(v, s, e, p), x) == style_at(v, x),
{
    lemma_push_setup(v, s, e);
    lemma_pushed_shape(v, s, e, p);
    lemma_pushed_ok(v, s, e, p);
    let r = pushed(v, s, e, p);
    let (rest, m) = push_rest(v, s, e);
    let left = count_lt(v, s);
    let right = count_lt(v, e);
    let n = v.len() as int;
    lemma_le_split(v, x);
    let c = count_le(v, x);
    assert(c >= right) by {
        if c < right {
            assert(v[c].start > x);
        }
    }
    if c < rest {
        // The last phrase of `v` starting by `x` was dropped: the resumed one stands for it.
        assert(m == left + 2);
        assert(r[left + 1].patt == v[c - 1].patt) by {
            let sl = !(left < n && v[left].start == s);
            let sr = !(right < n && v[right].start == e);
            let count = right - left;
            if count == 0 && sl && sr {
                assert(c == left);
            } else if count < 2 && (sl || sr) {
                assert(c == left + 1) by {
                    if count == 0 {
                        assert(v[left].start == e);
                    }
                }
            } else {
                assert(c == right);
            }
        }
        assert forall|j: int| 0 <= j < left + 2 implies #[trigger] r[j].start <= x by {
            if j < left {
                assert(r[j] == v[j]);
            }
        }
        if m < r.len() {
            assert(r[m] == v[rest]);
            assert(v[rest].start > x);
        }
        lemma_le_at(r, x, left + 2);
    } else {
        let k = m + (c - rest);
        assert forall|j: int| 0 <= j < k implies #[trigger] r[j].start <= x by {
            if j < left {
                assert(r[j] == v[j]);
            } else if j >= m {
                assert(r[j] == v[j - m + rest]);
            }
        }
        if c < n {
            assert(r[k] == v[c]);
        }
        lemma_le_at(r, x, k);
        if k - 1 >= m {
            assert(r[k - 1] == v[c - 1]);
        } else {
            // `c == rest`: the phrase of `v` in force at `x` is the one resumed at `e`.
            assert(c >= 1) by {
                assert(v[0].start <= x);
            }
            if m == left + 1 {
                assert(v[rest].start <= x);
                assert(false);
            }
            let sl = !(left < n && v[left].start == s);
            let sr = !(right < n && v[right].start == e);
            let count = right - left;
            assert(r[left + 1].patt == v[rest - 1].patt);
        }
    }
}

/// Bytes a character takes in UTF-8.
pub open spec fn char_width(c: char) -> int {
    if (c as u32) < 0x80 {
        1
    } else if (c as u32) < 0x800 {
        2
    } else if (c as u32) < 0x10000 {
        3
    } else {
        4
    }
}

/// Bytes a text takes in UTF-8.
pub open spec fn byte_len(s: Seq<char>) -> int
    decreases s.len(),
{
    if s.len() == 0 {
        0
    } else {
        byte_len(s.drop_last()) + char_width(s.last())
    }
}

/// An uppercase hexadecimal digit.
pub open spec fn hex_digit(d: u32) -> char {
    if d < 10 {
        ((48 + d) as u8) as char
    } else {
        ((55 + d) as u8) as char
    }
}

/// What a character shows as when `col` bytes of the shown line come before it: newlines
/// vanish, a tab fills to the next tab stop, escape shows as `ESC`, other control characters
/// as `^` and a letter, delete as `^?`, the characters 0x80 to 0xFF by their code, and the
/// rest as themselves.
pub open spec fn shown_as(c: char, col: int) -> Seq<char> {
    let v = c as u32;
    if c == '\n' {
        Seq::empty()
    } else if c == '\t' {
        Seq::new((TAB_SIZE - col % (TAB_SIZE as int)) as nat, |i: int| ' ')
    } else if v == 0x1b {
        seq!['E', 'S', 'C']
    } else if v <= 0x1f {
        seq!['^', ((v + 0x40) as u8) as char]
    } else if v == 0x7f {
        seq!['^', '?']
    } else if 0x80 <= v <= 0xff {
        seq!['<', '0', 'x', hex_digit(v / 16), hex_digit(v % 16), '>']
    } else {
        seq![c]
    }
}

/// The line `s` as it is shown.
pub open spec fn sanitized(s: Seq<char>) -> Seq<char>
    decreases s.len(),
{
    if s.len() == 0 {
        Seq::empty()
    } else {
        let before = sanitized(s.drop_last());
        before + shown_as(s.last(), byte_len(before))
    }
}

/// Byte `x` of the line `s` is where one of its characters starts.
pub open spec fn starts_char(s: Seq<char>, x: int) -> bool {
    exists|k: int| 0 <= k < s.len() && byte_len(s.take(k)) == x
}

/// Where the character starting at byte `x` of `s` lands in the shown line.
pub open spec fn shown_pos(s: Seq<char>, x: int) -> int {
    let k = choose|k: int| 0 <= k < s.len() && byte_len(s.take(k)) == x;
    byte_len(sanitized(s.take(k)))
}

/// The first phrase from `i` on that does not start at a character of `s`, or `v.len()`.
pub open spec fn placed_from(s: Seq<char>, v: Seq<Phrase>, i: int) -> int
    decreases v.len() - i,
{
    if i >= v.len() {
        v.len() as int
    } else if !starts_char(s, v[i].start as int) {
        i
    } else {
        placed_from(s, v, i + 1)
    }
}

/// The phrases after showing the line: those before the first that does not start at a
/// character move with their character; that one keeps its start unless it lies at or past
/// the end of the line, and it and the ones after it start at the end of the shown line.
pub open spec fn sanitized_phrases(s: Seq<char>, v: Seq<Phrase>) -> Seq<Phrase> {
    let first = placed_from(s, v, 0);
    let end = byte_len(sanitized(s));
    Seq::new(
        v.len(),
        |i: int|
            if i < first {
                Phrase { start: shown_pos(s, v[i].start as int) as usize, patt: v[i].patt }
            } else if i == first && v[i].start < byte_len(s) {
                v[i]
            } else {
                Phrase { start: end as usize, patt: v[i].patt }
            },
    )
}

proof fn lemma_byte_len_concat(a: Seq<char>, b: Seq<char>)
    ensures
        byte_len(a + b) == byte_len(a) + byte_len(b),
    decreases b.len(),
{
    if b.len() == 0 {
        assert(a + b =~= a);
    } else {
        lemma_byte_len_concat(a, b.drop_last());
        assert((a + b).drop_last() =~= a + b.drop_last());
    }
}

proof fn lemma_byte_len_min(s: Seq<char>)
    ensures
        byte_len(s) >= s.len(),
    decreases s.len(),
{
    if s.len() > 0 {
        lemma_byte_len_min(s.drop_last());
    }
}

/// Character starts grow with the characters before them.
proof fn lemma_offsets_grow(s: Seq<char>, a: int, b: int)
    requires
        0 <= a <= b <= s.len(),
    ensures
        byte_len(s.take(a)) + (b - a) <= byte_len(s.take(b)),
{
    assert(s.take(b) =~= s.take(a) + s.subrange(a, b));
    lemma_byte_len_concat(s.take(a), s.subrange(a, b));
    lemma_byte_len_min(s.subrange(a, b));
}

proof fn lemma_byte_len_utf8(s: Seq<char>)
    ensures
        byte_len(s) == encode_utf8(s).len(),
    decreases s.len(),
{
    if s.len() > 0 {
        let first = seq![s[0]];
        lemma_byte_len_utf8(s.drop_first());
        assert(s =~= first + s.drop_first());
        lemma_byte_len_concat(first, s.drop_first());
        assert(first.drop_last() =~= Seq::<char>::empty());
        assert(byte_len(Seq::<char>::empty()) == 0);
        assert(byte_len(first) == char_width(s[0]));
        vstd::utf8::char_is_scalar(s[0]);
        assert(encode_utf8(s).len() == encode_scalar(s[0] as u32).len() + encode_utf8(s.drop_first()).len());
    }
}

proof fn lemma_sanitized_step(s: Seq<char>, k: int)
    requires
        0 <= k < s.len(),
    ensures
        sanitized(s.take(k + 1)) == sanitized(s.take(k)) + shown_as(s[k], byte_len(sanitized(s.take(k)))),
{
    assert(s.take(k + 1).drop_last() =~= s.take(k));
}

proof fn lemma_sanitized_grows(s: Seq<char>, k: int)
    requires
        0 <= k <= s.len(),
    ensures
        byte_len(sanitized(s.take(k))) <= byte_len(sanitized(s)),
    decreases s.len() - k,
{
    if k < s.len() {
        lemma_sanitized_step(s, k);
        let before = sanitized(s.take(k));
        lemma_byte_len_concat(before, shown_as(s[k], byte_len(before)));
        lemma_byte_len_min(shown_as(s[k], byte_len(before)));
        lemma_sanitized_grows(s, k + 1);
    } else {
        assert(s.take(k) =~= s);
    }
}

/// A character that shows as itself.
pub open spec fn printable(c: char) -> bool {
    let v = c as u32;
    v >= 0x20 && v != 0x7f && !(0x80 <= v <= 0xff)
}

/// A line of printable characters shows as itself, and each character stays at its byte.
pub proof fn lemma_sanitize_printable(s: Seq<char>)
    requires
        forall|i: int| 0 <= i < s.len() ==> printable(#[trigger] s[i]),
    ensures
        sanitized(s) == s,
        forall|x: int| #[trigger] starts_char(s, x) ==> shown_pos(s, x) == x,
    decreases s.len(),
{
    if s.len() > 0 {
        let d = s.drop_last();
        assert forall|i: int| 0 <= i < d.len() implies printable(#[trigger] d[i]) by {
            assert(d[i] == s[i]);
        }
        lemma_sanitize_printable(d);
        assert(printable(s[s.len() - 1]));
        assert(d.push(s.last()) =~= s);
        assert forall|x: int| #[trigger] starts_char(s, x) implies shown_pos(s, x) == x by {
            let k = choose|k: int| 0 <= k < s.len() && byte_len(s.take(k)) == x;
            let t = s.take(k);
            assert forall|i: int| 0 <= i < t.len() implies printable(#[trigger] t[i]) by {
                assert(t[i] == s[i]);
            }
            lemma_sanitize_printable(t);
        }
    }
}

/// The characters of `s`.
pub(crate) fn char_vec(s: &str) -> (r: Vec<char>)
    ensures
        r@ == s@,
{
    broadcast use vstd::string::axiom_spec_iter, vstd::string::next_postcondition;

    let m = s.unicode_len();
    let mut it = s.chars();
    let mut out: Vec<char> = Vec::new();
    loop
        invariant
            out@ + it.remaining() == s@,
            m == s@.len(),
        ensures
            out@ == s@,
        decreases m - out@.len(),
    {
        match it.next() {
            Some(c) => {
                out.push(c);
            },
            None => {
                break;
            },
        }
    }
    out
}

/// Byte `x` of `s` is where a character starts, or the end of `s`.
pub open spec fn at_char_start(s: Seq<char>, x: int) -> bool {
    exists|k: int| 0 <= k <= s.len() && byte_len(s.take(k)) == x
}

/// The number of characters before byte `x` of `s`, where `x` is such a place.
pub open spec fn char_index_of(s: Seq<char>, x: int) -> int {
    choose|k: int| 0 <= k <= s.len() && byte_len(s.take(k)) == x
}

/// The characters of `s` between bytes `a` and `b`, as `&s[a..b]` gives them; `None` where
/// that would panic: `a` after `b`, or either not at a character start or the end.
pub open spec fn byte_slice_spec(s: Seq<char>, a: usize, b: usize) -> Option<Seq<char>> {
    if a <= b && at_char_start(s, a as int) && at_char_start(s, b as int) {
        Some(s.subrange(char_index_of(s, a as int), char_index_of(s, b as int)))
    } else {
        None
    }
}

/// Only one count of characters ends at a given byte.
proof fn lemma_char_index_unique(s: Seq<char>, k: int)
    requires
        0 <= k <= s.len(),
    ensures
        at_char_start(s, byte_len(s.take(k))),
        char_index_of(s, byte_len(s.take(k))) == k,
{
    let x = byte_len(s.take(k));
    assert(0 <= k <= s.len() && byte_len(s.take(k)) == x);
    let kk = char_index_of(s, x);
    if kk < k {
        lemma_offsets_grow(s, kk, k);
    } else if kk > k {
        lemma_offsets_grow(s, k, kk);
    }
}

/// The number of characters of `s` before byte `x`, if `x` is a character start or the end.
fn char_index(cs: &Vec<char>, x: usize, Ghost(total): Ghost<int>) -> (r: Option<usize>)
    requires
        byte_len(cs@) == total,
        total <= usize::MAX,
    ensures
        r matches Some(k) ==> k <= cs@.len() && byte_len(cs@.take(k as int)) == x,
        r is None ==> !at_char_start(cs@, x as int),
{
    let ghost s = cs@;
    let m = cs.len();
    let mut off: usize = 0;
    let mut k: usize = 0;
    proof {
        assert(s.take(0) =~= Seq::<char>::empty());
    }
    while k < m && off < x
        invariant
            s == cs@,
            m == s.len(),
            0 <= k <= m,
            off == byte_len(s.take(k as int)),
            byte_len(s) == total,
            total <= usize::MAX,
            k > 0 ==> byte_len(s.take(k - 1)) < x,
        decreases m - k,
    {
        proof {
            assert(s.take(k + 1).drop_last() =~= s.take(k as int));
            lemma_offsets_grow(s, k + 1, m as int);
            assert(s.take(m as int) =~= s);
        }
        off = off + width_of(cs[k]);
        k = k + 1;
    }
    if off == x {
        Some(k)
    } else {
        proof {
            if at_char_start(s, x as int) {
                let kk = char_index_of(s, x as int);
                if kk < k {
                    if k > 0 {
                        lemma_offsets_grow(s, kk, k - 1);
                    }
                } else if kk > k {
                    lemma_offsets_grow(s, k as int, kk);
                }
            }
        }
        None
    }
}

/// `&s[a..b]`, or `None` where that would panic.
pub fn byte_slice(s: &str, a: usize, b: usize) -> (r: Option<&str>)
    ensures
        match r {
            Some(t) => byte_slice_spec(s@, a, b) == Some(t@),
            None => byte_slice_spec(s@, a, b) is None,
        },
{
    let cs = char_vec(s);
    let total = s.as_bytes().len();
    proof {
        lemma_byte_len_utf8(s@);
    }
    if a > b {
        return None;
    }
    let ka = match char_index(&cs, a, Ghost(total as int)) {
        Some(k) => k,
        None => return None,
    };
    let kb = match char_index(&cs, b, Ghost(total as int)) {
        Some(k) => k,
        None => return None,
    };
    proof {
        lemma_char_index_unique(s@, ka as int);
        lemma_char_index_unique(s@, kb as int);
        if ka > kb {
            lemma_offsets_grow(s@, kb as int, ka as int);
        }
    }
    Some(s.substring_char(ka, kb))
}

/// A `String` holding the characters of `v`, as collecting them gives it.
#[verifier::external_body]
pub(crate) fn string_of(v: &Vec<char>) -> (r: String)
    ensures
        r@ == v@,
{
    v.iter().collect()
}

fn width_of(c: char) -> (r: usize)
    ensures
        r == char_width(c),
{
    if (c as u32) < 0x80 {
        1
    } else if (c as u32) < 0x800 {
        2
    } else if (c as u32) < 0x10000 {
        3
    } else {
        4
    }
}

fn hex_of(d: u32) -> (r: char)
    requires
        d < 16,
    ensures
        r == hex_digit(d),
{
    if d < 10 {
        ((48 + d) as u8) as char
    } else {
        ((55 + d) as u8) as char
    }
}

/// Append `add` to `out`, keeping `bytes` its length in bytes.
fn push_all(out: &mut Vec<char>, bytes: &mut usize, add: &Vec<char>)
    requires
        *old(bytes) == byte_len(old(out)@),
        byte_len(old(out)@ + add@) <= usize::MAX,
    ensures
        final(out)@ == old(out)@ + add@,
        *final(bytes) == byte_len(final(out)@),
{
    let ghost start = out@;
    let mut t: usize = 0;
    while t < add.len()
        invariant
            0 <= t <= add@.len(),
            out@ == start + add@.take(t as int),
            *bytes == byte_len(out@),
            byte_len(start + add@) <= usize::MAX,
        decreases add@.len() - t,
    {
        let c = add[t];
        proof {
            let next = start + add@.take(t + 1);
            assert(next =~= out@.push(c));
            assert(next.drop_last() =~= out@);
            assert(start + add@ =~= next + add@.skip(t + 1));
            lemma_byte_len_concat(next, add@.skip(t + 1));
            lemma_byte_len_min(add@.skip(t + 1));
        }
        let w = width_of(c);
        out.push(c);
        *bytes = *bytes + w;
        t = t + 1;
    }
    proof {
        assert(add@.take(add@.len() as int) =~= add@);
    }
}

/// What `c` shows as after `col` bytes of shown line.
fn shown_chars(c: char, col: usize) -> (r: Vec<char>)
    ensures
        r@ == shown_as(c, col as int),
{
    let v = c as u32;
    let r = if c == '\n' {
        Vec::new()
    } else if c == '\t' {
        let count = TAB_SIZE - col % TAB_SIZE;
        let mut spaces: Vec<char> = Vec::new();
        let mut t: usize = 0;
        while t < count
            invariant
                0 <= t <= count,
                spaces@ =~= Seq::new(t as nat, |i: int| ' '),
            decreases count - t,
        {
            spaces.push(' ');
            t = t + 1;
        }
        spaces
    } else if v == 0x1b {
        vec!['E', 'S', 'C']
    } else if v <= 0x1f {
        vec!['^', ((v + 0x40) as u8) as char]
    } else if v == 0x7f {
        vec!['^', '?']
    } else if 0x80 <= v && v <= 0xff {
        vec!['<', '0', 'x', hex_of(v / 16), hex_of(v % 16), '>']
    } else {
        vec![c]
    };
    proof {
        assert(r@ =~= shown_as(c, col as int));
    }
    r
}

proof fn lemma_placed_from(s: Seq<char>, v: Seq<Phrase>, i: int)
    requires
        0 <= i <= v.len(),
    ensures
        i <= placed_from(s, v, i) <= v.len(),
        forall|t: int| i <= t < placed_from(s, v, i) ==> starts_char(s, #[trigger] v[t].start as int),
        placed_from(s, v, i) < v.len() ==> !starts_char(s, v[placed_from(s, v, i)].start as int),
    decreases v.len() - i,
{
    if i < v.len() && starts_char(s, v[i].start as int) {
        lemma_placed_from(s, v, i + 1);
    }
}

/// A line with one style from its start to its end can be shown: its first phrase moves
/// with the first character, and the phrases stay in order.
pub proof fn lemma_fresh_shown(s: Seq<char>, patt: PattColor)
    requires
        encode_utf8(s).len() <= usize::MAX,
    ensures
        ({
            let v = seq![Phrase { start: 0, patt }, Phrase { start: encode_utf8(s).len() as usize, patt }];
            &&& placed_from(s, v, 0) < v.len()
            &&& forall|i: int| placed_from(s, v, 0) < i < v.len() ==> v[i].start <= byte_len(sanitized(s))
            &&& phrases_ok(sanitized_phrases(s, v))
        }),
{
    let v = seq![Phrase { start: 0, patt }, Phrase { start: encode_utf8(s).len() as usize, patt }];
    lemma_byte_len_utf8(s);
    lemma_placed_from(s, v, 0);
    if s.len() > 0 {
        assert(s.take(0) =~= Seq::<char>::empty());
        assert(starts_char(s, 0));
        assert(!starts_char(s, byte_len(s) as int)) by {
            if starts_char(s, byte_len(s) as int) {
                let k = choose|k: int| 0 <= k < s.len() && byte_len(s.take(k)) == byte_len(s);
                lemma_offsets_grow(s, k, s.len() as int);
                assert(s.take(s.len() as int) =~= s);
            }
        }
        assert(v[1].start == byte_len(s));
        assert(placed_from(s, v, 2) == 2);
        assert(placed_from(s, v, 1) == 1);
        assert(placed_from(s, v, 0) == 1);
        lemma_shown_pos(s, 0);
        assert(sanitized(s.take(0)) =~= sanitized(Seq::<char>::empty()));
    } else {
        assert(!starts_char(s, 0));
        assert(placed_from(s, v, 0) == 0);
    }
    let w = sanitized_phrases(s, v);
    assert(w[0].start == 0) by {
        if s.len() > 0 {
            assert(byte_len(sanitized(Seq::<char>::empty())) == 0);
        }
    }
    assert(w[0].start <= w[1].start);
}

/// The character starting at byte `byte_len(s.take(k))` is the `k`th.
proof fn lemma_shown_pos(s: Seq<char>, k: int)
    requires
        0 <= k < s.len(),
    ensures
        shown_pos(s, byte_len(s.take(k))) == byte_len(sanitized(s.take(k))),
{
    let x = byte_len(s.take(k));
    assert(0 <= k < s.len() && byte_len(s.take(k)) == x);
    let kk = choose|kk: int| 0 <= kk < s.len() && byte_len(s.take(kk)) == x;
    if kk < k {
        lemma_offsets_grow(s, kk, k);
    } else if kk > k {
        lemma_offsets_grow(s, k, kk);
    }
}

/// A character start past the `k`th character's is at or past the next one.
proof fn lemma_next_start(s: Seq<char>, x: int, k: int)
    requires
        0 <= k < s.len(),
        starts_char(s, x),
        x > byte_len(s.take(k)),
    ensures
        x >= byte_len(s.take(k + 1)),
{
    let kk = choose|kk: int| 0 <= kk < s.len() && byte_len(s.take(kk)) == x;
    if kk <= k {
        lemma_offsets_grow(s, kk, k);
    } else {
        lemma_offsets_grow(s, k + 1, kk);
    }
}

pub open spec fn min_usize(a: usize, b: usize) -> usize {
    if a < b {
        a
    } else {
        b
    }
}

/// How a region of text is drawn: colors and attributes.
#[derive(Copy, Clone, Debug, PartialEq, Eq)]
pub struct TextStyle {
    pub fg: Option<Color>,
    pub bg: Option<Color>,
    pub bold: bool,
    pub italic: bool,
    pub negative: bool,
}

/// Black, the background of most styles.
pub open spec fn rgb_black() -> Color {
    Color::Rgb { r: 0, g: 0, b: 0 }
}

pub open spec fn plain_style() -> TextStyle {
    TextStyle { fg: None, bg: None, bold: false, italic: false, negative: false }
}

/// The drawing style of each pattern style (the two that are not drawn have none).
pub open spec fn style_of(patt: PattColor) -> TextStyle {
    let on_black = |c: Color| TextStyle { fg: Some(c), bg: Some(rgb_black()), ..plain_style() };
    match patt {
        PattColor::Normal => on_black(Color::Green),
        PattColor::Highlight => TextStyle { fg: Some(Color::Yellow), bg: Some(Color::Blue), bold: true, ..plain_style() },
        PattColor::Inverse => TextStyle { negative: true, ..plain_style() },
        PattColor::Timestamp => on_black(Color::Green),
        PattColor::Pid(c) => TextStyle { italic: true, ..on_black(c) },
        PattColor::Number(c) => on_black(c),
        PattColor::Error => on_black(Color::Yellow),
        PattColor::Fail => TextStyle {
            fg: Some(Color::Red),
            bg: Some(Color::Blue),
            bold: true,
            italic: true,
            negative: false,
        },
        PattColor::Info => on_black(Color::White),
        PattColor::NoCrumb => on_black(Color::White),
        PattColor::Module(c) => TextStyle { bold: true, ..on_black(c) },
        _ => plain_style(),
    }
}

/// The drawing style of `patt`, which must be one that is drawn.
pub fn to_style(patt: PattColor) -> (r: TextStyle)
    requires
        !(patt is NoPattern),
        !(patt is Semantic),
    ensures
        r == style_of(patt),
{
    let plain = TextStyle { fg: None, bg: None, bold: false, italic: false, negative: false };
    let black = Color::Rgb { r: 0, g: 0, b: 0 };
    match patt {
        PattColor::Plain => plain,
        PattColor::Normal => TextStyle { fg: Some(Color::Green), bg: Some(black), ..plain },
        PattColor::Highlight => TextStyle { fg: Some(Color::Yellow), bg: Some(Color::Blue), bold: true, ..plain },
        PattColor::Inverse => TextStyle { negative: true, ..plain },
        PattColor::Timestamp => TextStyle { fg: Some(Color::Green), bg: Some(black), ..plain },
        PattColor::Pid(c) => TextStyle { fg: Some(c), bg: Some(black), italic: true, ..plain },
        PattColor::Number(c) => TextStyle { fg: Some(c), bg: Some(black), ..plain },
        PattColor::Error => TextStyle { fg: Some(Color::Yellow), bg: Some(black), ..plain },
        PattColor::Fail => TextStyle { fg: Some(Color::Red), bg: Some(Color::Blue), bold: true, italic: true, ..plain },
        PattColor::Info => TextStyle { fg: Some(Color::White), bg: Some(black), ..plain },
        PattColor::NoCrumb => TextStyle { fg: Some(Color::White), bg: Some(black), ..plain },
        PattColor::Module(c) => TextStyle { fg: Some(c), bg: Some(black), bold: true, ..plain },
        _ => plain,
    }
}

/// A part of a shown line: plain text, or text with the style to draw it in.
pub enum Piece {
    Plain(String),
    Styled(TextStyle, String),
}

pub open spec fn piece_view(p: Piece) -> (Option<TextStyle>, Seq<char>) {
    match p {
        Piece::Plain(t) => (None, t@),
        Piece::Styled(st, t) => (Some(st), t@),
    }
}

/// The phrase starting at `i` covers part of `[start, end)` and is not empty.
pub open spec fn window_shown(v: Seq<Phrase>, i: int, start: usize, end: usize) -> bool {
    v[i].start < end && v[i + 1].start > start && v[i].start < v[i + 1].start
}

/// The piece the phrase at `i` gives: with no pattern, the whole span `[start, end)` plain;
/// else its part of the span in its style (empty where the span cannot be cut there).
pub open spec fn window_piece(line: Seq<char>, v: Seq<Phrase>, i: int, start: usize, end: usize) -> (Option<TextStyle>, Seq<char>) {
    let p = v[i];
    let q = v[i + 1];
    if p.patt is NoPattern {
        (None, utf8_slice_spec(line, start, end).unwrap())
    } else {
        let from = if start > p.start { start } else { p.start };
        let to = if end < q.start { end } else { q.start };
        (
            Some(style_of(p.patt)),
            match utf8_slice_spec(line, from, to) {
                Some(t) => t,
                None => Seq::empty(),
            },
        )
    }
}

/// The pieces of the first `n` phrase windows.
pub open spec fn pieces_upto(line: Seq<char>, v: Seq<Phrase>, start: usize, end: usize, n: int) -> Seq<(Option<TextStyle>, Seq<char>)>
    decreases n,
{
    if n <= 0 {
        Seq::empty()
    } else {
        let rest = pieces_upto(line, v, start, end, n - 1);
        if window_shown(v, n - 1, start, end) {
            rest.push(window_piece(line, v, n - 1, start, end))
        } else {
            rest
        }
    }
}

/// Each shown window either has no pattern and a span that can be cut, or a drawn style.
pub open spec fn windows_drawable(line: Seq<char>, v: Seq<Phrase>, start: usize, end: usize) -> bool {
    forall|i: int|
        0 <= i < v.len() - 1 && #[trigger] window_shown(v, i, start, end) ==> {
            &&& !(v[i].patt is Semantic)
            &&& v[i].patt is NoPattern ==> utf8_slice_spec(line, start, end) is Some
        }
}

/// A line of text and the styles of its parts.
#[derive(Clone)]
pub struct StyledLine {
    pub line: String,
    pub phrases: Vec<Phrase>,
}

/// Spaces a tab stands for.
pub const TAB_SIZE: usize = 8;

impl StyledLine {
    pub open spec fn wf(&self) -> bool {
        phrases_ok(self.phrases@)
    }

    /// A line with one style from its start to its end.
    pub fn new(line: &str, patt: PattColor) -> (r: Self)
        ensures
            r.line@ == line@,
            r.phrases@ == seq![Phrase { start: 0, patt }, Phrase { start: line.spec_bytes().len() as usize, patt }],
            r.wf(),
    {
        let mut phrases: Vec<Phrase> = Vec::new();
        phrases.push(Phrase::new(0, patt));
        phrases.push(Phrase::new(line.len(), patt));
        StyledLine { line: line.to_owned(), phrases }
    }

    /// Show the line as text: tabs expanded, newlines dropped, control and high characters
    /// spelled out; the phrases move with the characters they start at.
    pub fn sanitize_basic(&mut self)
        requires
            old(self).wf(),
            placed_from(old(self).line@, old(self).phrases@, 0) < old(self).phrases@.len(),
            byte_len(sanitized(old(self).line@)) <= usize::MAX,
            forall|i: int|
                placed_from(old(self).line@, old(self).phrases@, 0) < i < old(self).phrases@.len()
                    ==> old(self).phrases@[i].start <= byte_len(sanitized(old(self).line@)),
        ensures
            final(self).line@ == sanitized(old(self).line@),
            final(self).phrases@ == sanitized_phrases(old(self).line@, old(self).phrases@),
    {
        let ghost s = self.line@;
        let ghost v = self.phrases@;
        let ghost first = placed_from(s, v, 0);
        let ghost total = byte_len(sanitized(s));
        proof {
            lemma_placed_from(s, v, 0);
        }
        let cs = char_vec(self.line.as_str());
        let line_bytes = self.line.as_str().as_bytes().len();
        proof {
            lemma_byte_len_utf8(s);
        }
        let m = cs.len();
        let n = self.phrases.len();
        let mut out: Vec<char> = Vec::new();
        let mut out_bytes: usize = 0;
        let mut offset: usize = 0;
        let mut j: usize = 0;
        let mut phrases: Vec<Phrase> = Vec::new();
        let mut k: usize = 0;
        proof {
            assert(s.take(0) =~= Seq::<char>::empty());
        }
        while k < m
            invariant
                cs@ == s,
                m == s.len(),
                n == v.len(),
                self.phrases@ == v,
                self.line@ == s,
                phrases_ok(v),
                line_bytes == byte_len(s),
                0 <= k <= m,
                offset == byte_len(s.take(k as int)),
                out@ == sanitized(s.take(k as int)),
                out_bytes == byte_len(out@),
                total == byte_len(sanitized(s)),
                total <= usize::MAX,
                first == placed_from(s, v, 0),
                first < n,
                forall|i: int| 0 <= i < first ==> starts_char(s, #[trigger] v[i].start as int),
                !starts_char(s, v[first].start as int),
                0 <= j <= first,
                phrases@.len() == j,
                forall|i: int| 0 <= i < j ==> #[trigger] phrases@[i] == (Phrase { start: shown_pos(s, v[i].start as int) as usize, patt: v[i].patt }),
                j < first ==> v[j as int].start >= offset,
            decreases m - k,
        {
            let c = cs[k];
            proof {
                lemma_sanitized_grows(s, k as int);
            }
            while j < n && self.phrases[j].start == offset
                invariant
                    cs@ == s,
                    m == s.len(),
                    n == v.len(),
                    self.phrases@ == v,
                    phrases_ok(v),
                    0 <= k < m,
                    offset == byte_len(s.take(k as int)),
                    out@ == sanitized(s.take(k as int)),
                    out_bytes == byte_len(out@),
                    first == placed_from(s, v, 0),
                    first < n,
                    forall|i: int| 0 <= i < first ==> starts_char(s, #[trigger] v[i].start as int),
                    !starts_char(s, v[first].start as int),
                    0 <= j <= first,
                    phrases@.len() == j,
                    forall|i: int| 0 <= i < j ==> #[trigger] phrases@[i] == (Phrase { start: shown_pos(s, v[i].start as int) as usize, patt: v[i].patt }),
                    j < first ==> v[j as int].start >= offset,
                decreases n - j,
            {
                proof {
                    assert(starts_char(s, v[j as int].start as int));
                    lemma_shown_pos(s, k as int);
                }
                phrases.push(Phrase { start: out_bytes, patt: self.phrases[j].patt });
                j = j + 1;
                proof {
                    if j < first {
                        assert(v[j - 1].start <= v[j as int].start);
                    }
                }
            }
            proof {
                lemma_sanitized_step(s, k as int);
                lemma_offsets_grow(s, k as int, k + 1);
                lemma_offsets_grow(s, k + 1, m as int);
                assert(s.take(m as int) =~= s);
                assert(s.take(k + 1).drop_last() =~= s.take(k as int));
                if j < first {
                    lemma_next_start(s, v[j as int].start as int, k as int);
                }
                lemma_sanitized_grows(s, k + 1);
            }
            let add = shown_chars(c, out_bytes);
            push_all(&mut out, &mut out_bytes, &add);
            offset = offset + width_of(c);
            k = k + 1;
        }
        proof {
            if j < first {
                assert(starts_char(s, v[j as int].start as int));
                let kk = choose|kk: int| 0 <= kk < s.len() && byte_len(s.take(kk)) == v[j as int].start as int;
                lemma_offsets_grow(s, kk, m as int);
                assert(s.take(m as int) =~= s);
            }
            assert(s.take(m as int) =~= s);
        }
        if self.phrases[j].start >= line_bytes {
            phrases.push(Phrase { start: out_bytes, patt: self.phrases[j].patt });
        } else {
            phrases.push(self.phrases[j]);
        }
        let mut i: usize = j + 1;
        while i < n
            invariant
                n == v.len(),
                self.phrases@ == v,
                first < n,
                j == first,
                first == placed_from(s, v, 0),
                first + 1 <= i <= n,
                phrases@.len() == i,
                out_bytes == byte_len(sanitized(s)),
                forall|t: int| 0 <= t < i ==> #[trigger] phrases@[t] == sanitized_phrases(s, v)[t],
            decreases n - i,
        {
            proof {
                assert(sanitized_phrases(s, v)[i as int] == Phrase { start: out_bytes, patt: v[i as int].patt });
            }
            phrases.push(Phrase { start: out_bytes, patt: self.phrases[i].patt });
            i = i + 1;
        }
        proof {
            assert(phrases@ =~= sanitized_phrases(s, v));
        }
        self.line = string_of(&out);
        self.phrases = phrases;
    }

    /// The first position of a phrase starting at `x` or later.
    fn lower_bound(&self, x: usize) -> (r: usize)
        requires
            self.wf(),
        ensures
            r == count_lt(self.phrases@, x),
            r <= self.phrases@.len(),
            forall|j: int| 0 <= j < r ==> self.phrases@[j].start < x,
            forall|j: int| r <= j < self.phrases@.len() ==> self.phrases@[j].start >= x,
    {
        let v = &self.phrases;
        let n = v.len();
        let mut lo: usize = 0;
        let mut hi: usize = n;
        while lo < hi
            invariant
                0 <= lo <= hi <= n,
                n == v@.len(),
                phrases_ok(v@),
                forall|j: int| 0 <= j < lo ==> v@[j].start < x,
                forall|j: int| hi <= j < n ==> v@[j].start >= x,
            decreases hi - lo,
        {
            let mid = lo + (hi - lo) / 2;
            if v[mid].start < x {
                proof {
                    assert forall|j: int| 0 <= j <= mid implies v@[j].start < x by {
                        assert(v@[j].start <= v@[mid as int].start);
                    }
                }
                lo = mid + 1;
            } else {
                proof {
                    assert forall|j: int| mid <= j < n implies v@[j].start >= x by {
                        assert(v@[mid as int].start <= v@[j].start);
                    }
                }
                hi = mid;
            }
        }
        proof {
            lemma_count_lt(v@, x, lo as int);
        }
        lo
    }

    /// Style the region `[start, end)` with `patt`, clipping the phrases it overlaps.
    pub fn push(&mut self, start: usize, end: usize, patt: PattColor)
        requires
            old(self).wf(),
            start <= end,
        ensures
            start == end ==> *final(self) == *old(self),
            start < end ==> final(self).phrases@ == pushed(old(self).phrases@, start, end, patt),
            final(self).line == old(self).line,
            final(self).wf(),
    {
        if end == start {
            return;
        }
        let ghost v = self.phrases@;
        let phrase = Phrase::new(start, patt);
        let n = self.phrases.len();
        let left = self.lower_bound(start);
        let split_left = !(left < n && self.phrases[left].start == start);
        let right = self.lower_bound(end);
        let split_right = !(right < n && self.phrases[right].start == end);
        proof {
            assert(left <= right) by {
                if right < left {
                    assert(v[right as int].start >= end);
                    assert(v[right as int].start < start);
                }
            }
            if split_left {
                assert(left > 0) by {
                    if left == 0 {
                        assert(v[0].start == 0);
                        if start == 0 {
                            assert(n > 0 && v[0].start == start);
                        }
                    }
                }
            }
        }
        let count = right - left;
        // The phrases before our start stay as they are.
        let mut out: Vec<Phrase> = Vec::new();
        let mut i: usize = 0;
        while i < left
            invariant
                0 <= i <= left <= n,
                n == self.phrases@.len(),
                self.phrases@ == v,
                out@ == v.take(i as int),
            decreases left - i,
        {
            out.push(self.phrases[i]);
            i = i + 1;
            proof {
                assert(out@ =~= v.take(i as int));
            }
        }
        out.push(phrase);
        let rest = if count == 0 && split_left && split_right {
            // We lie inside one phrase: it resumes after our end.
            out.push(Phrase { start: end, patt: self.phrases[left - 1].patt });
            left
        } else if count < 2 && (split_left || split_right) {
            // We overlap one phrase: it resumes at our end.
            out.push(Phrase { start: end, patt: self.phrases[left].patt });
            left + 1
        } else if split_right {
            // We cover several phrases: the last one resumes at our end.
            out.push(Phrase { start: end, patt: self.phrases[right - 1].patt });
            right
        } else {
            // We end where a phrase starts.
            right
        };
        let ghost mid = out@;
        let mut k = rest;
        while k < n
            invariant
                rest <= k <= n,
                n == self.phrases@.len(),
                self.phrases@ == v,
                out@ == mid + v.subrange(rest as int, k as int),
            decreases n - k,
        {
            out.push(self.phrases[k]);
            k = k + 1;
            proof {
                assert(out@ =~= mid + v.subrange(rest as int, k as int));
            }
        }
        proof {
            assert(v.subrange(rest as int, n as int) =~= v.skip(rest as int));
            assert(out@ == pushed(v, start, end, patt));
            lemma_pushed_ok(v, start, end, patt);
        }
        self.phrases = out;
    }

    /// A color from the hash of `text`: each channel in the upper half of its range.
    pub fn hash_color(text: &str) -> (r: Color)
        ensures
            ({
                let h = fnv_hash(text.spec_bytes());
                r == Color::Rgb {
                    r: ((h % 256) as u8) | 0x80,
                    g: (((h / 256) % 256) as u8) | 0x80,
                    b: (((h / 65536) % 256) as u8) | 0x80,
                }
            }),
    {
        let hash = fnv64(text.as_bytes());
        let base: u8 = 0x80;
        let red = ((hash & 0xFF) as u8) | base;
        let green = (((hash >> 8) & 0xFF) as u8) | base;
        let blue = (((hash >> 16) & 0xFF) as u8) | base;
        proof {
            assert(hash & 0xFF == hash % 256) by (bit_vector);
            assert((hash >> 8) & 0xFF == (hash / 256) % 256) by (bit_vector);
            assert((hash >> 16) & 0xFF == (hash / 65536) % 256) by (bit_vector);
        }
        Color::Rgb { r: red, g: green, b: blue }
    }

    /// Style the matched region `range` with `patt`; a semantic style takes its color from the
    /// text matched, and no style leaves the line as it is.
    pub fn apply(&mut self, match_string: &str, range: Range<usize>, patt: PattColor)
        requires
            old(self).wf(),
            range.start <= range.end,
        ensures
            final(self).wf(),
            final(self).line == old(self).line,
            patt is NoPattern || range.start == range.end ==> *final(self) == *old(self),
            !(patt is NoPattern) && range.start < range.end ==> final(self).phrases@ == pushed(
                old(self).phrases@,
                range.start,
                range.end,
                if patt is Semantic { PattColor::Number(final(self).semantic_color(match_string)) } else { patt },
            ),
    {
        let pattern = match patt {
            PattColor::NoPattern => return,
            PattColor::Semantic => PattColor::Number(Self::hash_color(match_string)),
            _ => patt,
        };
        self.push(range.start, range.end, pattern);
    }

    /// The part of the line from `start` that fits `width`, as the pieces of its phrases.
    pub fn to_string(&self, start: usize, width: usize) -> (r: Vec<Piece>)
        requires
            start + width <= usize::MAX,
            windows_drawable(
                self.line@,
                self.phrases@,
                start,
                min_usize(encode_utf8(self.line@).len() as usize, (start + width) as usize),
            ),
        ensures
            r@.map_values(|p: Piece| piece_view(p)) == pieces_upto(
                self.line@,
                self.phrases@,
                start,
                min_usize(encode_utf8(self.line@).len() as usize, (start + width) as usize),
                self.phrases@.len() - 1,
            ),
    {
        let line_len = self.line.as_str().len();
        let end = if line_len < start + width { line_len } else { start + width };
        let n = self.phrases.len();
        let ghost v = self.phrases@;
        let ghost line = self.line@;
        let mut out: Vec<Piece> = Vec::new();
        let mut i: usize = 0;
        while i + 1 < n
            invariant
                v == self.phrases@,
                line == self.line@,
                n == v.len(),
                0 <= i,
                i + 1 <= n || (n == 0 && i == 0),
                end == min_usize(encode_utf8(line).len() as usize, (start + width) as usize),
                windows_drawable(line, v, start, end),
                out@.map_values(|p: Piece| piece_view(p)) == pieces_upto(line, v, start, end, i as int),
            decreases n - i,
        {
            let p = self.phrases[i];
            let q = self.phrases[i + 1];
            let ghost before = out@;
            if p.start < end && q.start > start && p.start < q.start {
                proof {
                    assert(window_shown(v, i as int, start, end));
                }
                let piece = match p.patt {
                    PattColor::NoPattern => {
                        let text = match utf8_slice(self.line.as_str(), start, end) {
                            Some(t) => t,
                            None => {
                                proof {
                                    assert(false);
                                }
                                ""
                            },
                        };
                        Piece::Plain(text.to_owned())
                    },
                    _ => {
                        let from = if start > p.start { start } else { p.start };
                        let to = if end < q.start { end } else { q.start };
                        let style = to_style(p.patt);
                        let text = match utf8_slice(self.line.as_str(), from, to) {
                            Some(t) => t.to_owned(),
                            None => String::new(),
                        };
                        Piece::Styled(style, text)
                    },
                };
                out.push(piece);
                proof {
                    assert(out@.map_values(|p: Piece| piece_view(p)) =~= before.map_values(|p: Piece| piece_view(p)).push(
                        window_piece(line, v, i as int, start, end),
                    ));
                }
            }
            i = i + 1;
        }
        proof {
            if n == 0 {
                assert(pieces_upto(line, v, start, end, -1) == Seq::<(Option<TextStyle>, Seq<char>)>::empty());
            }
        }
        out
    }

    /// The color a semantic style gives `text`.
    pub open spec fn semantic_color(&self, text: &str) -> Color {
        let h = fnv_hash(text.spec_bytes());
        Color::Rgb {
            r: ((h % 256) as u8) | 0x80,
            g: (((h / 256) % 256) as u8) | 0x80,
            b: (((h / 65536) % 256) as u8) | 0x80,
        }
    }

    /// The starts of the phrases, in order.
    pub fn starts(&self) -> (r: Vec<usize>)
        ensures
            r@.len() == self.phrases@.len(),
            forall|i: int| 0 <= i < r@.len() ==> r@[i] == #[trigger] self.phrases@[i].start,
    {
        let mut r: Vec<usize> = Vec::new();
        let n = self.phrases.len();
        let mut i: usize = 0;
        while i < n
            invariant
                0 <= i <= n,
                n == self.phrases@.len(),
                r@.len() == i,
                forall|j: int| 0 <= j < i ==> r@[j] == #[trigger] self.phrases@[j].start,
            decreases n - i,
        {
            r.push(self.phrases[i].start);
            i = i + 1;
        }
        r
    }
}

} // verus!

