//! Index: the line starts found in one explored stretch `[start, end)` of a file.

use vstd::prelude::*;
use std::ops::Range;

verus! {

/// Offsets strictly increasing, all within `[lo, hi]`.
pub open spec fn offsets_ok(v: Seq<usize>, lo: usize, hi: usize) -> bool {
    &&& forall|i: int, j: int| 0 <= i < j < v.len() ==> #[trigger] v[i] < #[trigger] v[j]
    &&& forall|i: int| 0 <= i < v.len() ==> lo <= #[trigger] v[i] <= hi
}

/// Number of offsets of `v` that are at most `o`.
pub open spec fn count_le(v: Seq<usize>, o: usize) -> int
    decreases v.len(),
{
    if v.len() == 0 {
        0
    } else {
        count_le(v.drop_last(), o) + (if v.last() <= o { 1int } else { 0 })
    }
}

pub struct Index {
    start: usize,
    end: usize,
    line_offsets: Vec<usize>,
}

impl Clone for Index {
    fn clone(&self) -> (r: Self)
        ensures
            r.lo() == self.lo(),
            r.hi() == self.hi(),
            r.offsets() == self.offsets(),
    {
        Index { start: self.start, end: self.end, line_offsets: self.line_offsets.clone() }
    }
}

impl Index {
    /// First byte of the explored range.
    pub fn start(&self) -> (r: usize)
        ensures
            r == self.lo(),
    {
        self.start
    }

    /// One past the last byte of the explored range.
    pub fn end(&self) -> (r: usize)
        ensures
            r == self.hi(),
    {
        self.end
    }

    /// First byte of the explored range.
    pub closed spec fn lo(&self) -> usize {
        self.start
    }

    /// One past the last byte of the explored range.
    pub closed spec fn hi(&self) -> usize {
        self.end
    }

    /// The line starts recorded, in increasing order.
    pub closed spec fn offsets(&self) -> Seq<usize> {
        self.line_offsets@
    }

    /// A vector never holds more than `usize::MAX` line starts.
    pub proof fn lemma_len_bound(&self)
        ensures
            self.offsets().len() <= usize::MAX,
    {
        assert(self.line_offsets.len() == self.line_offsets@.len());
    }

    /// The explored range is well ordered and holds every line start recorded.
    pub open spec fn wf(&self) -> bool {
        &&& self.lo() <= self.hi()
        &&& offsets_ok(self.offsets(), self.lo(), self.hi())
    }

    pub fn new() -> (r: Self)
        ensures
            r.wf(),
            r.lo() == 0,
            r.hi() == 0,
            r.offsets().len() == 0,
    {
        Index { start: 0, end: 0, line_offsets: Vec::new() }
    }

    /// An empty explored range at `offset`.
    pub fn at(offset: usize) -> (r: Self)
        ensures
            r.wf(),
            r.lo() == offset,
            r.hi() == offset,
            r.offsets().len() == 0,
    {
        Index { start: offset, end: offset, line_offsets: Vec::new() }
    }

    /// No line starts recorded.
    pub fn is_empty(&self) -> (r: bool)
        ensures
            r == (self.offsets().len() == 0),
    {
        self.line_offsets.len() == 0
    }

    /// Number of line starts recorded.
    pub fn len(&self) -> (r: usize)
        ensures
            r == self.offsets().len(),
    {
        self.line_offsets.len()
    }

    /// Number of line starts recorded.
    pub fn lines(&self) -> (r: usize)
        ensures
            r == self.offsets().len(),
    {
        self.line_offsets.len()
    }

    /// Number of bytes explored.
    pub fn bytes(&self) -> (r: usize)
        requires
            self.wf(),
        ensures
            r == self.hi() - self.lo(),
    {
        self.end - self.start
    }

    pub fn range(&self) -> (r: Range<usize>)
        ensures
            r == (self.lo()..self.hi()),
    {
        self.start..self.end
    }

    /// The offset of line `line`.
    pub fn get(&self, line: usize) -> (r: usize)
        requires
            line < self.offsets().len(),
        ensures
            r == self.offsets()[line as int],
    {
        self.line_offsets[line]
    }

    /// `offset` lies in the explored range or just at its end.
    pub fn touches(&self, offset: usize) -> (r: bool)
        ensures
            r == (self.lo() <= offset <= self.hi()),
    {
        self.start <= offset && offset <= self.end
    }

    /// `offset` lies in the explored range.
    pub fn indexes(&self, offset: usize) -> (r: bool)
        ensures
            r == (self.lo() <= offset < self.hi()),
    {
        self.start <= offset && offset < self.end
    }

    /// The explored range ends where `range` starts or starts where it ends.
    pub fn adjacent(&self, range: &Range<usize>) -> (r: bool)
        ensures
            r == (self.hi() == range.start || self.lo() == range.end),
    {
        self.end == range.start || self.start == range.end
    }

    /// The explored range lies wholly before `offset`.
    pub fn is_before(&self, offset: usize) -> (r: bool)
        ensures
            r == (self.hi() <= offset),
    {
        self.end <= offset
    }

    /// The explored range lies wholly after `offset`.
    pub fn is_after(&self, offset: usize) -> (r: bool)
        ensures
            r == (self.lo() > offset),
    {
        self.start > offset
    }

    /// The line holding `offset`: the last line starting at or before it, or the first line
    /// if none does. `None` if `offset` is not in the explored range.
    pub fn find(&self, offset: usize) -> (r: Option<usize>)
        requires
            self.wf(),
        ensures
            !(self.lo() <= offset < self.hi()) ==> r is None,
            self.lo() <= offset < self.hi() ==> r == Some(
                (if count_le(self.offsets(), offset) > 0 { count_le(self.offsets(), offset) - 1 } else { 0int }) as usize,
            ),
    {
        if !(self.start <= offset && offset < self.end) {
            return None;
        }
        let n = self.line_offsets.len();
        let mut i: usize = 0;
        while i < n && self.line_offsets[i] <= offset
            invariant
                0 <= i <= n,
                n == self.offsets().len(),
                self.wf(),
                count_le(self.offsets().take(i as int), offset) == i,
                forall|j: int| 0 <= j < i ==> self.offsets()[j] <= offset,
            decreases n - i,
        {
            proof {
                assert(self.offsets().take(i + 1).drop_last() =~= self.offsets().take(i as int));
            }
            i = i + 1;
        }
        proof {
            lemma_count_le_rest(self.offsets(), offset, i as int);
        }
        if i > 0 {
            Some(i - 1)
        } else {
            Some(0)
        }
    }

    /// Explore `range`, which must touch the explored range, and record the line start
    /// `offset` found in it, if any. Returns the line number of `offset`, or, with no
    /// offset, the number of lines that start before `range`.
    pub fn insert(&mut self, range: &Range<usize>, offset: Option<usize>) -> (r: usize)
        requires
            old(self).wf(),
            range.start <= range.end,
            old(self).touches_spec(range.start) || old(self).touches_spec(range.end),
            offset matches Some(o) ==> range.start <= o <= range.end,
        ensures
            final(self).wf(),
            final(self).lo() == (if range.start < old(self).lo() { range.start } else { old(self).lo() }),
            final(self).hi() == (if range.end > old(self).hi() { range.end } else { old(self).hi() }),
            match offset {
                Some(o) => {
                    &&& final(self).offsets().to_set() == old(self).offsets().to_set().insert(o)
                    &&& r < final(self).offsets().len()
                    &&& final(self).offsets()[r as int] == o
                },
                None => final(self).offsets() == old(self).offsets() && r == count_below(old(self).offsets(), range.start),
            },
    {
        if range.start < self.start {
            self.start = range.start;
        }
        if range.end > self.end {
            self.end = range.end;
        }
        let n = self.line_offsets.len();
        match offset {
            None => {
                let mut i: usize = 0;
                while i < n && self.line_offsets[i] < range.start
                    invariant
                        0 <= i <= n,
                        n == self.offsets().len(),
                        forall|j: int| 0 <= j < i ==> self.offsets()[j] < range.start,
                    decreases n - i,
                {
                    i = i + 1;
                }
                proof {
                    lemma_count_below(self.offsets(), range.start, i as int);
                }
                i
            },
            Some(o) => {
                let mut i: usize = 0;
                while i < n && self.line_offsets[i] < o
                    invariant
                        0 <= i <= n,
                        n == self.offsets().len(),
                        forall|j: int| 0 <= j < i ==> self.offsets()[j] < o,
                    decreases n - i,
                {
                    i = i + 1;
                }
                let ghost v = self.offsets();
                if i < n && self.line_offsets[i] == o {
                    proof {
                        assert(v.to_set().insert(o) =~= v.to_set());
                    }
                    i
                } else {
                    self.line_offsets.insert(i, o);
                    proof {
                        let w = self.offsets();
                        assert(w =~= v.insert(i as int, o));
                        assert forall|x: usize| w.to_set().contains(x) <==> v.to_set().insert(o).contains(x) by {
                            if w.to_set().contains(x) {
                                let k = choose|k: int| 0 <= k < w.len() && w[k] == x;
                                if k < i {
                                    assert(v[k] == x);
                                } else if k > i {
                                    assert(v[k - 1] == x);
                                }
                            }
                            if v.to_set().contains(x) {
                                let k = choose|k: int| 0 <= k < v.len() && v[k] == x;
                                if k < i {
                                    assert(w[k] == x);
                                } else {
                                    assert(w[k + 1] == x);
                                }
                            }
                            if x == o {
                                assert(w[i as int] == o);
                            }
                        }
                        assert(w.to_set() =~= v.to_set().insert(o));
                        assert forall|a: int, b: int| 0 <= a < b < w.len() implies #[trigger] w[a] < #[trigger] w[b] by {
                            if b < i {
                            } else if a < i && b == i {
                            } else if a < i && b > i {
                                assert(w[b] == v[b - 1]);
                                if i < n {
                                    assert(v[i as int] > o);
                                }
                            } else if a == i {
                                assert(w[b] == v[b - 1]);
                                assert(v[i as int] > o);
                                if b - 1 > i {
                                    assert(v[i as int] < v[b - 1]);
                                }
                            } else {
                                assert(w[a] == v[a - 1]);
                                assert(w[b] == v[b - 1]);
                            }
                        }
                    }
                    i
                }
            },
        }
    }

    pub open spec fn touches_spec(&self, offset: usize) -> bool {
        self.lo() <= offset <= self.hi()
    }

    /// Take in `other`, an index of the stretch just after this one (or just before it).
    pub fn merge(&mut self, other: &Index)
        requires
            old(self).wf(),
            other.wf(),
            old(self).hi() == other.lo() || old(self).lo() == other.hi(),
        ensures
            final(self).wf(),
            old(self).hi() == other.lo() ==> final(self).lo() == old(self).lo() && final(self).hi() == other.hi(),
            old(self).hi() != other.lo() ==> final(self).lo() == other.lo() && final(self).hi() == old(self).hi(),
            final(self).offsets().to_set() == old(self).offsets().to_set() + other.offsets().to_set(),
    {
        let ghost a = self.offsets();
        let ghost b = other.offsets();
        let (first, second) = if self.end == other.start {
            (self.line_offsets.clone(), other.line_offsets.clone())
        } else {
            (other.line_offsets.clone(), self.line_offsets.clone())
        };
        let ghost f = first@;
        let ghost g = second@;
        let mut merged = first;
        let n = second.len();
        let mut i: usize = 0;
        // The two stretches share at most their boundary, where both may record a line start.
        if n > 0 && merged.len() > 0 && merged[merged.len() - 1] == second[0] {
            i = 1;
        }
        proof {
            if i == 1 {
                assert(f.last() == g[0]);
            }
        }
        let lo = if self.end == other.start { self.start } else { other.start };
        let hi = if self.end == other.start { other.end } else { self.end };
        let mid = if self.end == other.start { self.end } else { self.start };
        proof {
            assert(offsets_ok(f, lo, mid));
            assert(offsets_ok(g, mid, hi));
            assert(f.to_set() + g.to_set() =~= a.to_set() + b.to_set());
        }
        while i < n
            invariant
                0 <= i <= n,
                n == g.len(),
                second@ == g,
                offsets_ok(f, lo, mid),
                offsets_ok(g, mid, hi),
                lo <= mid <= hi,
                merged@.len() >= f.len(),
                merged@.subrange(0, f.len() as int) == f,
                merged@.len() == f.len() + i - (if f.len() > 0 && g.len() > 0 && f.last() == g[0] { 1int } else { 0 }),
                i == 0 ==> !(f.len() > 0 && g.len() > 0 && f.last() == g[0]),
                forall|k: int| f.len() <= k < merged@.len() ==> #[trigger] merged@[k] == g[k - f.len() + (if f.len() > 0 && g.len() > 0 && f.last() == g[0] { 1int } else { 0 })],
                offsets_ok(merged@, lo, hi),
                merged@.to_set() == f.to_set() + g.subrange(0, i as int).to_set(),
            decreases n - i,
        {
            let ghost before = merged@;
            merged.push(second[i]);
            proof {
                let m = merged@;
                assert(m.subrange(0, f.len() as int) =~= f);
                assert forall|x: int, y: int| 0 <= x < y < m.len() implies #[trigger] m[x] < #[trigger] m[y] by {
                    if y == m.len() - 1 && x < y {
                        if x >= f.len() {
                            assert(m[x] == g[x - f.len() + (if f.len() > 0 && g.len() > 0 && f.last() == g[0] { 1int } else { 0 })]);
                        } else {
                            assert(m[x] == f[x]);
                            assert(f[x] <= mid);
                            if f.len() > 0 && g.len() > 0 && f.last() == g[0] {
                                assert(f[x] <= f.last());
                                if x < f.len() - 1 {
                                    assert(f[x] < f[f.len() - 1]);
                                }
                                assert(g[0] < g[i as int]);
                            } else {
                                if i > 0 {
                                    assert(g[0] <= g[i as int]);
                                }
                                assert(mid <= g[0]);
                                if f[x] == mid && g[i as int] == mid {
                                    assert(g[i as int] == g[0]);
                                    assert(i == 0);
                                    assert(x == f.len() - 1);
                                }
                            }
                        }
                    } else {
                        assert(m[x] == before[x]);
                        assert(m[y] == before[y]);
                    }
                }
                assert(g.subrange(0, i + 1) =~= g.subrange(0, i as int).push(g[i as int]));
                assert(m =~= before.push(g[i as int]));
                before.lemma_push_to_set_commute(g[i as int]);
                g.subrange(0, i as int).lemma_push_to_set_commute(g[i as int]);
                assert(m.to_set() =~= before.to_set().insert(g[i as int]));
                assert(g.subrange(0, i + 1).to_set() =~= g.subrange(0, i as int).to_set().insert(g[i as int]));
            }
            i = i + 1;
        }
        proof {
            assert(g.subrange(0, n as int) =~= g);
            if f.len() > 0 && g.len() > 0 && f.last() == g[0] {
                assert(f.to_set().contains(g[0]));
            }
        }
        self.start = lo;
        self.end = hi;
        self.line_offsets = merged;
        proof {
            assert(self.offsets().to_set() =~= a.to_set() + b.to_set());
        }
    }
}

/// Number of offsets of `v` below `o`.
pub open spec fn count_below(v: Seq<usize>, o: usize) -> int
    decreases v.len(),
{
    if v.len() == 0 {
        0
    } else {
        count_below(v.drop_last(), o) + (if v.last() < o { 1int } else { 0 })
    }
}

proof fn lemma_count_below(v: Seq<usize>, o: usize, i: int)
    requires
        0 <= i <= v.len(),
        forall|j: int| 0 <= j < i ==> v[j] < o,
        i == v.len() || v[i] >= o,
        forall|a: int, b: int| 0 <= a < b < v.len() ==> #[trigger] v[a] < #[trigger] v[b],
    ensures
        count_below(v, o) == i,
    decreases v.len(),
{
    if v.len() > 0 {
        if i == v.len() {
            lemma_count_below(v.drop_last(), o, i - 1);
        } else {
            assert(v.last() >= o) by {
                if i < v.len() - 1 {
                    assert(v[i] < v[v.len() - 1]);
                }
            }
            lemma_count_below(v.drop_last(), o, i);
        }
    }
}

/// In increasing offsets `v`, the first `count_le(v, o)` are at most `o` and the rest are
/// above it.
pub proof fn lemma_count_le_split(v: Seq<usize>, o: usize)
    requires
        forall|a: int, b: int| 0 <= a < b < v.len() ==> #[trigger] v[a] < #[trigger] v[b],
    ensures
        0 <= count_le(v, o) <= v.len(),
        forall|j: int| 0 <= j < count_le(v, o) ==> v[j] <= o,
        forall|j: int| count_le(v, o) <= j < v.len() ==> v[j] > o,
    decreases v.len(),
{
    if v.len() > 0 {
        let d = v.drop_last();
        lemma_count_le_split(d, o);
        if v.last() <= o {
            assert forall|j: int| 0 <= j < d.len() implies d[j] <= o by {
                assert(v[j] < v[v.len() - 1]);
            }
            if count_le(d, o) < d.len() {
                assert(d[count_le(d, o)] <= o);
            }
            assert forall|j: int| 0 <= j < count_le(v, o) implies v[j] <= o by {
                if j < d.len() {
                    assert(v[j] == d[j]);
                }
            }
        } else {
            assert forall|j: int| 0 <= j < count_le(v, o) implies v[j] <= o by {
                assert(v[j] == d[j]);
            }
            assert forall|j: int| count_le(v, o) <= j < v.len() implies v[j] > o by {
                if j < d.len() {
                    assert(v[j] == d[j]);
                }
            }
        }
    }
}

proof fn lemma_count_le_rest(v: Seq<usize>, o: usize, i: int)
    requires
        0 <= i <= v.len(),
        forall|j: int| 0 <= j < i ==> v[j] <= o,
        i == v.len() || v[i] > o,
        forall|a: int, b: int| 0 <= a < b < v.len() ==> #[trigger] v[a] < #[trigger] v[b],
    ensures
        count_le(v, o) == i,
    decreases v.len(),
{
    if v.len() > 0 {
        if i == v.len() {
            lemma_count_le_rest(v.drop_last(), o, i - 1);
        } else {
            assert(v.last() > o) by {
                if i < v.len() - 1 {
                    assert(v[i] < v[v.len() - 1]);
                }
            }
            lemma_count_le_rest(v.drop_last(), o, i);
        }
    }
}

} // verus!
