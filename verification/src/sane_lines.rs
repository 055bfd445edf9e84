//! SaneLines walks the lines of an in-memory log through a SaneIndex, indexing the log as
//! it goes, forwards or backwards, within a range of offsets.

use vstd::prelude::*;
use std::ops::Range;
use crate::cursor_log_file::{
    CursorLogFile, line_end, lemma_line_end_bounds, starts_line, first_line_from,
    lemma_line_end_starts, lemma_first_line, lemma_first_line_skip,
};
use vstd::utf8::{valid_utf8, decode_utf8};
use crate::cursor_log_file::lossy_text;
use crate::sane_index::{SaneIndex, covers, gap_fill};
use crate::waypoint::{Position, VirtualPosition, Waypoint};

verus! {

/// How many bytes to scan at once when a gap must be indexed.
pub const CHUNK_SIZE: usize = 1048576;

/// A line read from the log: its offset and its text.
pub type Line = (usize, String);

/// The text of the line of `s` that starts at `o`.
pub open spec fn line_text(s: Seq<u8>, o: int) -> Seq<char> {
    lossy_text(s.subrange(o, line_end(s, o)))
}

/// The lines of `s` starting at `starts`, each with its text.
pub open spec fn with_text(s: Seq<u8>, starts: Seq<int>) -> Seq<(int, Seq<char>)> {
    starts.map_values(|o: int| (o, line_text(s, o)))
}

/// A line as a pair of plain values.
pub open spec fn line_view(l: Line) -> (int, Seq<char>) {
    (l.0 as int, l.1@)
}

/// The index matches the log `s`: every explored waypoint is a whole line of `s`, and every
/// waypoint starts where a line does, or at or past the end of `s`.
pub open spec fn lines_of(v: Seq<Waypoint>, s: Seq<u8>) -> bool {
    &&& forall|k: int| 0 <= k < v.len() && #[trigger] v[k].spec_is_mapped() ==> v[k].lo() < s.len()
        && v[k].hi() == line_end(s, v[k].lo() as int)
    &&& forall|k: int| 0 <= k < v.len() ==> starts_line(s, #[trigger] v[k].lo() as int) || v[k].lo() >= s.len()
}

/// A fresh index, one gap over all offsets, matches the lines of any log.
pub proof fn lemma_fresh_index_lines(s: Seq<u8>)
    ensures
        lines_of(seq![Waypoint::Unmapped(0..usize::MAX)], s),
{
}

/// The line starts of `s` in `[a, b)`, in order.
pub open spec fn line_starts(s: Seq<u8>, a: int, b: int) -> Seq<int>
    decreases s.len() - a,
{
    let f = first_line_from(s, a);
    if a < 0 || a >= b || f >= b || f >= s.len() {
        Seq::empty()
    } else {
        proof {
            lemma_first_line(s, a);
            lemma_line_end_bounds(s, f);
        }
        seq![f].add(line_starts(s, line_end(s, f), b))
    }
}

/// The last line start of `s` in `[a, b)`, if any.
pub open spec fn last_line_before(s: Seq<u8>, a: int, b: int) -> Option<int>
    decreases b - a,
{
    if b <= a {
        None
    } else if b - 1 < s.len() && starts_line(s, b - 1) {
        Some(b - 1)
    } else {
        last_line_before(s, a, b - 1)
    }
}

/// Where a backwards walk over the window `[a, b)` of `s` stops looking: the window's end,
/// or, when that lies past the data, one before the end of the data.
pub open spec fn back_end(s: Seq<u8>, b: int) -> int {
    if b > s.len() {
        s.len() - 1
    } else {
        b
    }
}

/// No line starts in `[c, b)`: the last line start in `[a, b)` is the last in `[a, c)`.
proof fn lemma_last_line_skip(s: Seq<u8>, a: int, c: int, b: int)
    requires
        a <= c <= b,
        forall|x: int| c <= x < b && x < s.len() ==> !starts_line(s, x),
    ensures
        last_line_before(s, a, b) == last_line_before(s, a, c),
    decreases b - c,
{
    if c < b {
        lemma_last_line_skip(s, a, c, b - 1);
    }
}

/// The last line start in `[a, b)` lies in `[a, b)`, before the end of the data, and starts a
/// line, and none follows it in `[a, b)`; when there is none, no line starts in `[a, b)`.
pub proof fn lemma_last_line_bounds(s: Seq<u8>, a: int, b: int)
    ensures
        last_line_before(s, a, b) matches Some(o) ==> a <= o < b && o < s.len() && starts_line(s, o)
            && forall|x: int| o < x < b && x < s.len() ==> !starts_line(s, x),
        last_line_before(s, a, b) is None ==> forall|x: int| a <= x < b && x < s.len() ==> !starts_line(s, x),
    decreases b - a,
{
    if b > a && !(b - 1 < s.len() && starts_line(s, b - 1)) {
        lemma_last_line_bounds(s, a, b - 1);
    }
}

/// The line starts of `s` in `[a, b)`, last first.
pub open spec fn line_starts_back(s: Seq<u8>, a: int, b: int) -> Seq<int>
    decreases b - a,
{
    if b <= a {
        Seq::empty()
    } else if let Some(o) = last_line_before(s, a, b) {
        proof {
            lemma_last_line_bounds(s, a, b);
        }
        seq![o].add(line_starts_back(s, a, o))
    } else {
        Seq::empty()
    }
}

/// There are no more line starts in `[a, b)` than offsets.
proof fn lemma_line_starts_back_len(s: Seq<u8>, a: int, b: int)
    ensures
        line_starts_back(s, a, b).len() <= if b > a { b - a } else { 0 },
    decreases b - a,
{
    if b > a {
        lemma_last_line_bounds(s, a, b);
        if let Some(o) = last_line_before(s, a, b) {
            lemma_line_starts_back_len(s, a, o);
        }
    }
}

/// Splitting a range of offsets at `c` splits its line starts there.
proof fn lemma_line_starts_split(s: Seq<u8>, a: int, c: int, b: int)
    requires
        0 <= a <= c <= b,
        c <= s.len(),
    ensures
        line_starts(s, a, b) == line_starts(s, a, c) + line_starts(s, c, b),
    decreases s.len() - a,
{
    let f = first_line_from(s, a);
    lemma_first_line(s, a);
    if f >= c {
        lemma_first_line_skip(s, a, c);
        assert(line_starts(s, a, c) =~= Seq::<int>::empty());
        assert(line_starts(s, a, b) =~= line_starts(s, a, c) + line_starts(s, c, b));
    } else {
        let g = line_end(s, f);
        lemma_line_end_bounds(s, f);
        lemma_line_end_starts(s, f);
        if g <= c {
            lemma_line_starts_split(s, g, c, b);
            assert(line_starts(s, a, b) =~= line_starts(s, a, c) + line_starts(s, c, b));
        } else {
            lemma_first_line_skip(s, c, g);
            assert(line_starts(s, g, c) =~= Seq::<int>::empty());
            assert(line_starts(s, g, b) == line_starts(s, c, b));
            assert(line_starts(s, a, b) =~= line_starts(s, a, c) + line_starts(s, c, b));
        }
    }
}

/// A line start followed by no other before `b` is the only line start in `[o, b)`.
proof fn lemma_line_starts_single(s: Seq<u8>, o: int, b: int)
    requires
        0 <= o < b,
        o < s.len(),
        starts_line(s, o),
        forall|x: int| o < x < b && x < s.len() ==> !starts_line(s, x),
    ensures
        line_starts(s, o, b) == seq![o],
{
    let g = line_end(s, o);
    lemma_line_end_bounds(s, o);
    lemma_line_end_starts(s, o);
    assert(first_line_from(s, o) == o);
    if g < b && g < s.len() {
        assert(!starts_line(s, g));
    }
    assert(line_starts(s, g, b) =~= Seq::<int>::empty());
    assert(line_starts(s, o, b) =~= seq![o]);
}

/// Past the end of the data there are no line starts.
proof fn lemma_line_starts_past_end(s: Seq<u8>, a: int, b: int)
    requires
        0 <= a,
        b >= s.len(),
    ensures
        line_starts(s, a, b) == line_starts(s, a, s.len() as int),
    decreases s.len() - a,
{
    let f = first_line_from(s, a);
    if a < s.len() {
        lemma_first_line(s, a);
        if f < s.len() {
            lemma_line_end_bounds(s, f);
            lemma_line_starts_past_end(s, line_end(s, f), b);
        }
    }
}

/// Up to the end of the data, the line starts last first are the line starts in reverse.
proof fn lemma_line_starts_reverse(s: Seq<u8>, a: int, b: int)
    requires
        0 <= a,
        b <= s.len(),
    ensures
        line_starts_back(s, a, b).reverse() == line_starts(s, a, b),
    decreases b - a,
{
    lemma_last_line_bounds(s, a, b);
    if b <= a {
        assert(line_starts(s, a, b) =~= Seq::<int>::empty());
        assert(line_starts_back(s, a, b).reverse() =~= Seq::<int>::empty());
    } else if let Some(o) = last_line_before(s, a, b) {
        lemma_line_starts_reverse(s, a, o);
        lemma_line_starts_split(s, a, o, b);
        lemma_line_starts_single(s, o, b);
        assert(line_starts_back(s, a, b).reverse() =~= line_starts_back(s, a, o).reverse() + seq![o]);
    } else {
        lemma_first_line(s, a);
        lemma_first_line_skip(s, a, b);
        assert(line_starts(s, a, b) =~= Seq::<int>::empty());
    }
}

/// Walking a window of the log backwards gives the lines, with their texts, that walking it
/// forwards gives, in reverse order, under the condition of `lemma_backwards_reverses`.
pub proof fn lemma_backwards_lines(s: Seq<u8>, a: int, b: int)
    requires
        0 <= a,
        b <= s.len() || s.len() == 0 || !starts_line(s, s.len() - 1) || s.len() - 1 < a,
    ensures
        with_text(s, line_starts_back(s, a, back_end(s, b))).reverse() == with_text(s, line_starts(s, a, b)),
{
    lemma_backwards_reverses(s, a, b);
    let x = line_starts_back(s, a, back_end(s, b));
    assert(with_text(s, x).reverse() =~= with_text(s, x.reverse()));
}

/// Walking a window of the log backwards meets the lines that walking it forwards meets, in
/// reverse order, unless the window reaches past the data and the data ends with a line of a
/// single byte, which the backwards walk does not see.
pub proof fn lemma_backwards_reverses(s: Seq<u8>, a: int, b: int)
    requires
        0 <= a,
        b <= s.len() || s.len() == 0 || !starts_line(s, s.len() - 1) || s.len() - 1 < a,
    ensures
        line_starts_back(s, a, back_end(s, b)).reverse() == line_starts(s, a, b),
{
    if b <= s.len() {
        lemma_line_starts_reverse(s, a, b);
    } else {
        lemma_line_starts_past_end(s, a, b);
        if s.len() == 0 {
            assert(line_starts(s, a, b) =~= Seq::<int>::empty());
            assert(line_starts_back(s, a, back_end(s, b)).reverse() =~= Seq::<int>::empty());
        } else if s.len() - 1 < a {
            assert(line_starts(s, a, s.len() as int) =~= Seq::<int>::empty());
            assert(line_starts_back(s, a, back_end(s, b)).reverse() =~= Seq::<int>::empty());
        } else {
            let e = s.len() - 1;
            lemma_line_starts_reverse(s, a, e);
            lemma_line_starts_split(s, a, e, s.len() as int);
            lemma_first_line(s, e);
            assert(line_starts(s, e, s.len() as int) =~= Seq::<int>::empty());
            assert(line_starts(s, a, s.len() as int) =~= line_starts(s, a, e));
        }
    }
}

/// There are no more line starts from `a` on than bytes.
proof fn lemma_line_starts_len(s: Seq<u8>, a: int, b: int)
    requires
        0 <= a,
    ensures
        line_starts(s, a, b).len() <= if a < s.len() { s.len() - a } else { 0 },
    decreases s.len() - a,
{
    let f = first_line_from(s, a);
    if a < b && a < s.len() {
        lemma_first_line(s, a);
        if f < b && f < s.len() {
            lemma_line_end_bounds(s, f);
            lemma_line_starts_len(s, line_end(s, f), b);
        }
    }
}

/// Mapping a whole line of `s` inside a gap keeps the waypoints tiling the offsets and
/// matching the lines of `s`.
proof fn lemma_insert_line(v: Seq<Waypoint>, s: Seq<u8>, k: int, range: Range<usize>)
    requires
        covers(v),
        lines_of(v, s),
        0 <= k < v.len(),
        !v[k].spec_is_mapped(),
        v[k].lo() <= range.start < range.end <= v[k].hi(),
        range.start < s.len(),
        starts_line(s, range.start as int),
        range.end == line_end(s, range.start as int),
    ensures
        covers(v.take(k) + gap_fill(v[k], range) + v.skip(k + 1)),
        lines_of(v.take(k) + gap_fill(v[k], range) + v.skip(k + 1), s),
{
    let w = v[k];
    let g = gap_fill(w, range);
    let a = v.take(k);
    let b = v.skip(k + 1);
    let v2 = a + g + b;
    lemma_line_end_starts(s, range.start as int);
    assert(g.len() >= 1);
    assert(g[0].lo() == w.lo());
    assert(g.last().hi() == w.hi());
    assert forall|j: int| 0 <= j < g.len() - 1 implies #[trigger] g[j].hi() == g[j + 1].lo() by {}
    assert forall|j: int| 0 <= j < v2.len() - 1 implies #[trigger] v2[j].hi() == v2[j + 1].lo() by {
        if j < k - 1 {
            assert(v2[j] == v[j] && v2[j + 1] == v[j + 1]);
        } else if j == k - 1 {
            assert(v2[j] == v[k - 1] && v2[j + 1] == g[0]);
        } else if j < k + g.len() - 1 {
            assert(v2[j] == g[j - k] && v2[j + 1] == g[j - k + 1]);
        } else if j == k + g.len() - 1 {
            assert(v2[j] == g[g.len() - 1]);
            assert(v2[j + 1] == v[k + 1]);
        } else {
            assert(v2[j] == v[j - g.len() + 1]);
            assert(v2[j + 1] == v[j - g.len() + 2]);
        }
    }
    assert(v2[0].lo() == 0) by {
        if k > 0 {
            assert(v2[0] == v[0]);
        }
    }
    assert(v2.last().hi() == usize::MAX) by {
        if k + 1 < v.len() {
            assert(v2.last() == v.last());
        } else {
            assert(v2.last() == g.last());
        }
    }
    assert forall|j: int| 0 <= j < v2.len() && #[trigger] v2[j].spec_is_mapped() implies v2[j].lo() < s.len()
        && v2[j].hi() == line_end(s, v2[j].lo() as int) by {
        if j < k {
            assert(v2[j] == v[j]);
        } else if j >= k + g.len() {
            assert(v2[j] == v[j - g.len() + 1]);
        } else {
            assert(v2[j] == g[j - k]);
        }
    }
    assert forall|j: int| 0 <= j < v2.len() implies starts_line(s, #[trigger] v2[j].lo() as int) || v2[j].lo() >= s.len() by {
        if j < k {
            assert(v2[j] == v[j]);
        } else if j >= k + g.len() {
            assert(v2[j] == v[j - g.len() + 1]);
        } else {
            assert(v2[j] == g[j - k]);
            assert(starts_line(s, w.lo() as int) || w.lo() >= s.len());
        }
    }
}

pub struct SaneLines<'a> {
    index: &'a mut SaneIndex,
    source: &'a mut CursorLogFile,
    range: Range<usize>,
}

impl<'a> SaneLines<'a> {
    /// The bytes of the log.
    pub closed spec fn src(&self) -> Seq<u8> {
        self.source@
    }

    /// The offsets still to walk: lines starting in `[start, end)`.
    pub closed spec fn window(&self) -> Range<usize> {
        self.range
    }

    /// The log fits in memory: its length is a `usize`.
    pub proof fn lemma_src_fits(&self)
        ensures
            self.src().len() <= usize::MAX,
    {
        self.source.lemma_len_fits();
    }

    /// The index is well formed, tiles the offsets, and matches the lines of the log.
    pub closed spec fn inv(&self) -> bool {
        &&& self.index.wf()
        &&& covers(self.index@)
        &&& lines_of(self.index@, self.source@)
    }

    /// Walk the lines of `source` that start in `range`, through `index`, which must be
    /// well formed, tile the offsets and match the lines of `source`: a fresh index does.
    pub fn new(index: &'a mut SaneIndex, source: &'a mut CursorLogFile, range: Range<usize>) -> (r: Self)
        requires
            old(index).wf(),
            covers(old(index)@),
            lines_of(old(index)@, old(source)@),
        ensures
            r.inv(),
            r.window() == range,
            r.src() == old(source)@,
    {
        SaneLines { index, source, range }
    }

    /// Index the lines found in `gap`, scanning from its first line start. Returns the number
    /// of bytes mapped to lines. When `gap` begins a gap of the index before the end of the
    /// log, the line there gets mapped.
    fn resolve_gap(&mut self, gap: Range<usize>) -> (r: usize)
        requires
            old(self).inv(),
        ensures
            final(self).inv(),
            final(self).src() == old(self).src(),
            final(self).window() == old(self).window(),
            final(self).index.stats_bytes() == old(self).index.stats_bytes() + r,
            r == 0 ==> final(self).index@ == old(self).index@,
            (gap.start < gap.end && gap.start < old(self).src().len() && exists|k: int|
                0 <= k < old(self).index@.len() && !(#[trigger] old(self).index@[k]).spec_is_mapped()
                && old(self).index@[k].lo() == gap.start)
                ==> final(self).index.stats_bytes() > old(self).index.stats_bytes(),
    {
        let len = self.source.len();
        let ghost s = self.source@;
        let ghost v0 = self.index@;
        let ghost bytes0 = self.index.stats_bytes();
        let ghost hyp = gap.start < gap.end && gap.start < s.len() && exists|k: int|
            0 <= k < v0.len() && !(#[trigger] v0[k]).spec_is_mapped() && v0[k].lo() == gap.start;
        let first = if gap.start > len {
            len
        } else if self.source.is_line_start(gap.start) {
            gap.start
        } else {
            self.source.line_end_at(gap.start)
        };
        proof {
            lemma_line_end_bounds(s, gap.start as int);
            if gap.start < len && !starts_line(s, gap.start as int) {
                lemma_line_end_starts(s, gap.start as int);
            }
            if hyp {
                let k0 = choose|k: int| 0 <= k < v0.len() && !(#[trigger] v0[k]).spec_is_mapped() && v0[k].lo() == gap.start;
                assert(starts_line(s, v0[k0].lo() as int) || v0[k0].lo() >= s.len());
                assert(first == gap.start);
            }
        }
        let mut offset = first;
        while offset < gap.end && offset < len
            invariant
                self.inv(),
                first <= offset <= len,
                len == s.len(),
                s == self.source@,
                self.source@ == old(self).src(),
                self.range == old(self).window(),
                starts_line(s, offset as int) || offset == len,
                self.index.stats_bytes() == bytes0 + (offset - first),
                offset > first ==> self.index.stats_bytes() > bytes0,
                offset == first ==> self.index@ == v0,
                hyp ==> first == gap.start && gap.start < gap.end && gap.start < len,
                hyp ==> exists|k: int| 0 <= k < v0.len() && !(#[trigger] v0[k]).spec_is_mapped() && v0[k].lo() == gap.start,
            ensures
                hyp ==> offset > first,
            decreases len - offset,
        {
            let (bytes, _) = self.source.read_line_at(offset);
            proof {
                lemma_line_end_bounds(s, offset as int);
                lemma_line_end_starts(s, offset as int);
            }
            let (holder, _) = self.index.holder_at(offset);
            let ghost v = self.index@;
            let ghost k = choose|k: int| 0 <= k < v.len() && holder == #[trigger] v[k] && holder.lo() <= offset < holder.hi();
            proof {
                if hyp && offset == first {
                    // The gap that `gap` begins holds its first line, which fits in it.
                    let k0 = choose|k: int| 0 <= k < v0.len() && !(#[trigger] v0[k]).spec_is_mapped() && v0[k].lo() == gap.start;
                    self.index.lemma_not_empty(k0);
                    self.index.lemma_one_holder(offset, k, k0);
                    if k0 + 1 < v.len() {
                        assert(v[k0].hi() == v[k0 + 1].lo());
                        assert(starts_line(s, v[k0 + 1].lo() as int) || v[k0 + 1].lo() >= s.len());
                    } else {
                        assert(v[k0].hi() == v.last().hi());
                    }
                    assert(offset + bytes <= v[k0].hi());
                    self.index.lemma_gap_spot_at(offset, k0);
                    assert(self.index.insertable(offset..(offset + bytes) as usize));
                }
                assert(hyp && offset == first ==> !holder.spec_is_mapped()
                    && self.index.insertable(offset..(offset + bytes) as usize));
            }
            if holder.is_mapped() {
                break;
            }
            proof {
                self.index.lemma_gap_spot_at(offset, k);
            }
            match self.index.insert_checked(&(offset..offset + bytes)) {
                Some(_) => {},
                None => {
                    break;
                },
            }
            proof {
                lemma_insert_line(v, s, k, offset..(offset + bytes) as usize);
            }
            offset = offset + bytes;
        }
        offset - first
    }

    /// Read the line at `offset`: the bytes it takes, newline included, and the line, if
    /// there is one there.
    fn read_line(&mut self, offset: usize) -> (r: (usize, Option<Line>))
        ensures
            *final(self) == *old(self),
            offset < old(self).src().len() ==> offset + r.0 == line_end(old(self).src(), offset as int),
            offset < old(self).src().len() ==> (r.1 matches Some(l) && l.0 == offset && (l.1@ == lossy_text(
                old(self).src().subrange(offset as int, line_end(old(self).src(), offset as int)),
            ) && (valid_utf8(
                old(self).src().subrange(offset as int, line_end(old(self).src(), offset as int)),
            ) ==> l.1@ == decode_utf8(
                old(self).src().subrange(offset as int, line_end(old(self).src(), offset as int)),
            )))),
            offset >= old(self).src().len() ==> r.0 == 0 && r.1 is None,
    {
        let (bytes, line) = self.source.read_line_at(offset);
        proof { lemma_line_end_bounds(self.source@, offset as int); }
        let logline = if bytes > 0 {
            Some((offset, line))
        } else {
            None
        };
        (bytes, logline)
    }

    /// Read the line at `offset` and move the start of the window past it.
    fn next_line(&mut self, offset: usize) -> (r: Option<Line>)
        requires
            offset < old(self).src().len(),
        ensures
            final(self).inv() == old(self).inv(),
            final(self).src() == old(self).src(),
            final(self).window() == ((line_end(old(self).src(), offset as int) as usize)..old(self).window().end),
            r matches Some(l) && l.0 == offset && (l.1@ == lossy_text(old(self).src().subrange(offset as int,
                line_end(old(self).src(), offset as int))) && (valid_utf8(old(self).src().subrange(offset as int,
                line_end(old(self).src(), offset as int))) ==> l.1@ == decode_utf8(
                old(self).src().subrange(offset as int, line_end(old(self).src(), offset as int)),
            ))),
    {
        let len = self.source.len();
        let (bytes, line) = self.read_line(offset);
        proof { lemma_line_end_bounds(self.source@, offset as int); }
        self.range.start = offset + bytes;
        line
    }

    /// Read the line at `offset` and move the end of the window to it.
    fn prev_line(&mut self, offset: usize) -> (r: Option<Line>)
        requires
            offset < old(self).src().len(),
        ensures
            final(self).inv() == old(self).inv(),
            final(self).src() == old(self).src(),
            final(self).window() == (old(self).window().start..offset),
            r matches Some(l) && l.0 == offset && (l.1@ == lossy_text(old(self).src().subrange(offset as int,
                line_end(old(self).src(), offset as int))) && (valid_utf8(old(self).src().subrange(offset as int,
                line_end(old(self).src(), offset as int))) ==> l.1@ == decode_utf8(
                old(self).src().subrange(offset as int, line_end(old(self).src(), offset as int)),
            ))),
    {
        let (_, line) = self.read_line(offset);
        self.range.end = offset;
        line
    }

    /// The first line starting in the window, indexing the log as needed; the window then
    /// starts after it. `None` when no line of the log starts in the window.
    pub fn next(&mut self) -> (r: Option<Line>)
        requires
            old(self).inv(),
        ensures
            final(self).inv(),
            final(self).src() == old(self).src(),
            ({
                let s = old(self).src();
                let w = old(self).window();
                let f = first_line_from(s, w.start as int);
                if w.start < w.end && f < w.end && f < s.len() {
                    &&& r matches Some(l) && l.0 == f && (l.1@ == lossy_text(s.subrange(f, line_end(s, f))) && (valid_utf8(s.subrange(f, line_end(s, f))) ==> l.1@
                        == decode_utf8(s.subrange(f, line_end(s, f)))))
                    &&& final(self).window() == ((line_end(s, f) as usize)..w.end)
                } else {
                    r is None && final(self).window() == w
                }
            }),
    {
        loop
            invariant
                self.inv(),
                self.src() == old(self).src(),
                self.window() == old(self).window(),
            decreases usize::MAX - self.index.stats_bytes(),
        {
            let start = self.range.start;
            let end = self.range.end;
            if start >= end {
                return None;
            }
            let len = self.source.len();
            let ghost s = self.source@;
            let ghost f = first_line_from(s, start as int);
            let (w, after) = self.index.holder_at(start);
            let ghost v = self.index@;
            let ghost k = choose|k: int| {
                &&& 0 <= k < v.len()
                &&& w == #[trigger] v[k]
                &&& w.lo() <= start < w.hi()
                &&& if k + 1 < v.len() { after == Some(v[k + 1]) } else { after is None }
            };
            let before = w.is_mapped() && w.region().start < start;
            proof {
                if start <= len {
                    lemma_first_line(s, start as int);
                }
                if before {
                    // No line starts inside the line that holds `start`.
                    lemma_line_end_starts(s, w.lo() as int);
                    assert(forall|x: int| start <= x < w.hi() ==> !starts_line(s, x));
                    if k + 1 < v.len() {
                        assert(v[k].hi() == v[k + 1].lo());
                    } else {
                        assert(v[k].hi() == v.last().hi());
                    }
                    lemma_line_end_bounds(s, w.lo() as int);
                    if w.hi() >= len {
                        lemma_first_line_skip(s, start as int, len as int);
                    } else {
                        lemma_first_line_skip(s, start as int, w.hi() as int);
                    }
                }
            }
            let cur = if before { after } else { Some(w) };
            match cur {
                None => {
                    return None;
                },
                Some(Waypoint::Mapped(line)) => {
                    let ls = line.start;
                    proof {
                        if before {
                            assert(starts_line(s, v[k + 1].lo() as int) || v[k + 1].lo() >= s.len());
                            assert(v[k + 1].spec_is_mapped());
                        } else {
                            assert(v[k].spec_is_mapped());
                        }
                    }
                    if ls < start || ls >= end || ls >= len {
                        return None;
                    }
                    return self.next_line(ls);
                },
                Some(Waypoint::Unmapped(gap)) => {
                    if gap.start >= len {
                        return None;
                    }
                    let wide = if gap.end > len { gap.end } else { len };
                    let limit = if gap.start <= usize::MAX - CHUNK_SIZE { gap.start + CHUNK_SIZE } else { usize::MAX };
                    let stop = if wide < limit { wide } else { limit };
                    proof {
                        let kk = if before { k + 1 } else { k };
                        self.index.lemma_not_empty(kk);
                        assert(!v[kk].spec_is_mapped() && v[kk].lo() == gap.start);
                        assert(gap.start < stop);
                    }
                    self.resolve_gap(gap.start..stop);
                },
            }
        }
    }

    /// The last line starting in the window, indexing the log as needed; the window then
    /// ends at it. A window reaching past the data ends one byte before the end of the data,
    /// so a last line of a single byte is not seen. `None` when no line starts in the window.
    pub fn next_back(&mut self) -> (r: Option<Line>)
        requires
            old(self).inv(),
        ensures
            final(self).inv(),
            final(self).src() == old(self).src(),
            final(self).window().start == old(self).window().start,
            ({
                let s = old(self).src();
                let w = old(self).window();
                match last_line_before(s, w.start as int, back_end(s, w.end as int)) {
                    Some(o) => {
                        &&& s.len() > 0
                        &&& r matches Some(l) && l.0 == o && (l.1@ == lossy_text(s.subrange(o, line_end(s, o))) && (valid_utf8(s.subrange(o, line_end(s, o))) ==> l.1@
                            == decode_utf8(s.subrange(o, line_end(s, o)))))
                        &&& final(self).window().end == o
                    },
                    None => r is None,
                }
            }),
    {
        let ghost s = self.src();
        let ghost w0 = self.window();
        let ghost e = back_end(s, w0.end as int);
        loop
            invariant
                self.inv(),
                self.src() == s,
                s == old(self).src(),
                w0 == old(self).window(),
                e == back_end(s, w0.end as int),
                self.window().start == w0.start,
                self.window().end == w0.end || (self.window().end == e && w0.end > s.len() && s.len() > 0),
            decreases usize::MAX - self.index.stats_bytes(), self.range.end,
        {
            let start = self.range.start;
            let end = self.range.end;
            if start >= end {
                proof {
                    assert(last_line_before(s, start as int, e) is None);
                }
                return None;
            }
            let len = self.source.len();
            let (w, _) = self.index.holder_at(end - 1);
            let ghost v = self.index@;
            let ghost k = choose|k: int| 0 <= k < v.len() && w == #[trigger] v[k] && w.lo() <= end - 1 < w.hi();
            match w {
                Waypoint::Mapped(line) => {
                    let ls = line.start;
                    proof {
                        assert(v[k].spec_is_mapped());
                        lemma_line_end_starts(s, ls as int);
                        lemma_line_end_bounds(s, ls as int);
                        assert(starts_line(s, ls as int));
                        // The line holding `end - 1` ends by the end of the data, so the window
                        // has not gone past it.
                        assert(end <= s.len());
                        assert(self.window().end as int == e);
                        if ls >= start {
                            lemma_last_line_skip(s, start as int, ls + 1, end as int);
                            assert(last_line_before(s, start as int, ls + 1) == Some(ls as int));
                        } else {
                            lemma_last_line_skip(s, start as int, start as int, end as int);
                        }
                    }
                    if ls < start || ls >= end || ls >= len {
                        return None;
                    }
                    return self.prev_line(ls);
                },
                Waypoint::Unmapped(gap) => {
                    if gap.start >= len {
                        if len == 0 {
                            return None;
                        }
                        // Nothing to read past the end of the log.
                        self.range.end = if len - 1 < self.range.end { len - 1 } else { self.range.end };
                    } else {
                        let stop = if gap.end < len { gap.end } else { len };
                        let from = if stop > CHUNK_SIZE && gap.start < stop - CHUNK_SIZE {
                            stop - CHUNK_SIZE
                        } else {
                            gap.start
                        };
                        proof {
                            self.index.lemma_not_empty(k);
                        }
                        let mapped = self.resolve_gap(from..stop);
                        if mapped == 0 && from > gap.start {
                            // No line starts in the last chunk: index the gap from its start.
                            self.resolve_gap(gap.start..stop);
                        }
                    }
                },
            }
        }
    }

    /// Walk the rest of the window forwards and count the lines.
    pub fn count(&mut self) -> (r: usize)
        requires
            old(self).inv(),
        ensures
            final(self).inv(),
            r == line_starts(old(self).src(), old(self).window().start as int, old(self).window().end as int).len(),
    {
        let ghost s = self.src();
        let ghost start0 = self.window().start;
        let ghost end = self.window().end;
        let mut n: usize = 0;
        let len = self.source.len();
        proof {
            lemma_line_starts_len(s, start0 as int, end as int);
        }
        loop
            invariant
                self.inv(),
                self.src() == s,
                s == old(self).src(),
                start0 == old(self).window().start,
                end == old(self).window().end,
                self.window().end == end,
                s.len() <= usize::MAX,
                n + line_starts(s, self.window().start as int, end as int).len()
                    == line_starts(s, start0 as int, end as int).len(),
                line_starts(s, start0 as int, end as int).len() <= s.len(),
            decreases (if self.window().end > self.window().start { self.window().end - self.window().start } else { 0 }),
        {
            let ghost before = self.window().start;
            match self.next() {
                Some(l) => {
                    proof {
                        lemma_first_line(s, before as int);
                        lemma_line_end_bounds(s, l.0 as int);
                    }
                    n = n + 1;
                },
                None => {
                    proof {
                        assert(line_starts(s, before as int, end as int) =~= Seq::<int>::empty());
                    }
                    return n;
                },
            }
        }
    }

    /// Walk the rest of the window backwards and count the lines.
    pub fn count_back(&mut self) -> (r: usize)
        requires
            old(self).inv(),
        ensures
            final(self).inv(),
            r == line_starts_back(
                old(self).src(),
                old(self).window().start as int,
                back_end(old(self).src(), old(self).window().end as int),
            ).len(),
    {
        let ghost s = self.src();
        let ghost start = self.window().start as int;
        let ghost total = line_starts_back(s, start, back_end(s, self.window().end as int));
        let mut n: usize = 0;
        let len = self.source.len();
        proof {
            lemma_line_starts_back_len(s, start, back_end(s, self.window().end as int));
        }
        loop
            invariant
                self.inv(),
                self.src() == s,
                s == old(self).src(),
                start == old(self).window().start,
                self.window().start == start,
                total == line_starts_back(s, start, back_end(s, old(self).window().end as int)),
                total.len() <= s.len() <= usize::MAX,
                n + line_starts_back(s, start, back_end(s, self.window().end as int)).len() == total.len(),
            decreases (if self.window().end > self.window().start { self.window().end - self.window().start } else { 0 }),
        {
            let ghost b = back_end(s, self.window().end as int);
            match self.next_back() {
                Some(l) => {
                    proof {
                        lemma_last_line_bounds(s, start, b);
                    }
                    n = n + 1;
                },
                None => {
                    return n;
                },
            }
        }
    }

    /// The rest of the lines in the window, in order.
    pub fn collect_lines(&mut self) -> (r: Vec<Line>)
        requires
            old(self).inv(),
        ensures
            final(self).inv(),
            r@.map_values(|l: Line| l.0 as int) == line_starts(
                old(self).src(),
                old(self).window().start as int,
                old(self).window().end as int,
            ),
            r@.map_values(|l: Line| line_view(l)) == with_text(
                old(self).src(),
                line_starts(old(self).src(), old(self).window().start as int, old(self).window().end as int),
            ),
    {
        let ghost s = self.src();
        let ghost start0 = self.window().start;
        let ghost end = self.window().end;
        let mut out: Vec<Line> = Vec::new();
        let len = self.source.len();
        loop
            invariant
                self.inv(),
                self.src() == s,
                s == old(self).src(),
                start0 == old(self).window().start,
                end == old(self).window().end,
                s.len() <= usize::MAX,
                self.window().end == end,
                out@.map_values(|l: Line| l.0 as int) + line_starts(s, self.window().start as int, end as int)
                    == line_starts(s, start0 as int, end as int),
                out@.map_values(|l: Line| line_view(l)) == with_text(s, out@.map_values(|l: Line| l.0 as int)),
            decreases (if self.window().end > self.window().start { self.window().end - self.window().start } else { 0 }),
        {
            let ghost before = self.window().start;
            let ghost prev = out@;
            match self.next() {
                Some(l) => {
                    proof {
                        lemma_first_line(s, before as int);
                        lemma_line_end_bounds(s, l.0 as int);
                    }
                    let ghost o = l.0 as int;
                    let ghost lv = line_view(l);
                    out.push(l);
                    proof {
                        assert(lv == (o, line_text(s, o)));
                        assert(out@.map_values(|l: Line| l.0 as int) =~= prev.map_values(|l: Line| l.0 as int).push(o));
                        assert(out@.map_values(|l: Line| line_view(l)) =~= prev.map_values(|l: Line| line_view(l)).push(lv));
                        assert(with_text(s, out@.map_values(|l: Line| l.0 as int)) =~= with_text(
                            s,
                            prev.map_values(|l: Line| l.0 as int),
                        ).push((o, line_text(s, o))));
                        assert(line_starts(s, before as int, end as int) =~= seq![o].add(line_starts(s, line_end(s, o), end as int)));
                    }
                },
                None => {
                    proof {
                        assert(line_starts(s, before as int, end as int) =~= Seq::<int>::empty());
                        assert(out@.map_values(|l: Line| l.0 as int) =~= out@.map_values(|l: Line| l.0 as int)
                            + Seq::<int>::empty());
                    }
                    return out;
                },
            }
        }
    }

    /// The rest of the lines in the window, last line first. These are the lines
    /// `collect_lines` gives, in reverse order, as `lemma_backwards_lines` proves, but for a
    /// final line of one byte when the window reaches past the data.
    pub fn collect_lines_back(&mut self) -> (r: Vec<Line>)
        requires
            old(self).inv(),
        ensures
            final(self).inv(),
            r@.map_values(|l: Line| l.0 as int) == line_starts_back(
                old(self).src(),
                old(self).window().start as int,
                back_end(old(self).src(), old(self).window().end as int),
            ),
            r@.map_values(|l: Line| line_view(l)) == with_text(
                old(self).src(),
                line_starts_back(
                    old(self).src(),
                    old(self).window().start as int,
                    back_end(old(self).src(), old(self).window().end as int),
                ),
            ),
    {
        let ghost s = self.src();
        let ghost start = self.window().start as int;
        let ghost total = line_starts_back(s, start, back_end(s, self.window().end as int));
        let mut out: Vec<Line> = Vec::new();
        loop
            invariant
                self.inv(),
                self.src() == s,
                s == old(self).src(),
                start == old(self).window().start,
                self.window().start == start,
                total == line_starts_back(s, start, back_end(s, old(self).window().end as int)),
                out@.map_values(|l: Line| l.0 as int) + line_starts_back(s, start, back_end(s, self.window().end as int))
                    == total,
                out@.map_values(|l: Line| line_view(l)) == with_text(s, out@.map_values(|l: Line| l.0 as int)),
            decreases (if self.window().end > self.window().start { self.window().end - self.window().start } else { 0 }),
        {
            let ghost b = back_end(s, self.window().end as int);
            let ghost prev = out@;
            match self.next_back() {
                Some(l) => {
                    proof {
                        lemma_last_line_bounds(s, start, b);
                    }
                    let ghost o = l.0 as int;
                    let ghost lv = line_view(l);
                    out.push(l);
                    proof {
                        assert(lv == (o, line_text(s, o)));
                        assert(out@.map_values(|l: Line| l.0 as int) =~= prev.map_values(|l: Line| l.0 as int).push(o));
                        assert(out@.map_values(|l: Line| line_view(l)) =~= prev.map_values(|l: Line| line_view(l)).push(lv));
                        assert(with_text(s, out@.map_values(|l: Line| l.0 as int)) =~= with_text(
                            s,
                            prev.map_values(|l: Line| l.0 as int),
                        ).push((o, line_text(s, o))));
                        assert(line_starts_back(s, start, b) =~= seq![o].add(line_starts_back(s, start, o)));
                    }
                },
                None => {
                    proof {
                        assert(line_starts_back(s, start, b) =~= Seq::<int>::empty());
                        assert(out@.map_values(|l: Line| l.0 as int) =~= out@.map_values(|l: Line| l.0 as int)
                            + Seq::<int>::empty());
                    }
                    return out;
                },
            }
        }
    }
}

} // verus!
