//! EventualIndex: an index of some lines of a file, possibly with gaps, that eventually
//! becomes a whole index. It is a list of `Index` stretches ordered by offset.

use vstd::prelude::*;
use std::ops::Range;
use crate::index::{Index, count_le, lemma_count_le_split};

verus! {

/// A cursor: a location in the EventualIndex.
#[derive(Debug, Copy, Clone, PartialEq, Eq)]
pub enum Location {
    /// A conceptual location, like "start of file". `resolve` turns it into a real one.
    Virtual(VirtualLocation),
    /// A location we have indexed before; we know where it is.
    Indexed(IndexRef),
    /// A location not indexed yet; more of the file must be read.
    Gap(GapRange),
    /// A location that will never exist.
    Invalid,
}

/// Delineates `[start, end)` of a region of the file.
#[derive(Debug, Copy, Clone, PartialEq, Eq)]
pub enum Missing {
    /// The range has a start and an end; the end is not inclusive.
    Bounded(usize, usize),
    /// The range has a start; its end is unknown.
    Unbounded(usize),
}

/// A reference by subscript to a line of an Index of the EventualIndex. It goes stale when
/// the EventualIndex changes.
#[derive(Debug, Copy, Clone)]
pub struct IndexRef {
    pub index: usize,
    pub line: usize,
    pub offset: usize,
    pub next: TargetOffset,
}

impl PartialEq for IndexRef {
    fn eq(&self, other: &Self) -> (r: bool) {
        self.offset == other.offset
    }
}

impl vstd::std_specs::cmp::PartialEqSpecImpl for IndexRef {
    open spec fn obeys_eq_spec() -> bool {
        true
    }

    open spec fn eq_spec(&self, other: &Self) -> bool {
        self.offset == other.offset
    }
}

impl Eq for IndexRef {}

/// A logical location in a file, like "Start".
#[derive(Debug, Copy, Clone, PartialEq, Eq)]
pub enum VirtualLocation {
    Start,
    End,
    Before(usize),
    AtOrAfter(usize),
}

/// The offset we want to reach when filling a gap.
#[derive(Debug, Copy, Clone, PartialEq, Eq)]
pub enum TargetOffset {
    AtOrBefore(usize),
    AtOrAfter(usize),
}

/// A cursor to a gap in the indexed coverage: the position at `target` is not indexed; the
/// region `gap` must be indexed first.
#[derive(Debug, Copy, Clone, PartialEq, Eq)]
pub struct GapRange {
    /// The offset we want to reach.
    pub target: TargetOffset,
    /// The index after the gap, or the number of indexes if none is after it.
    pub index: usize,
    /// The kind and size of the gap.
    pub gap: Missing,
}

impl TargetOffset {
    pub open spec fn spec_value(self) -> usize {
        match self {
            TargetOffset::AtOrAfter(x) => x,
            TargetOffset::AtOrBefore(x) => x,
        }
    }

    pub open spec fn spec_reached(self, offset: usize) -> bool {
        match self {
            TargetOffset::AtOrAfter(x) => offset >= x,
            TargetOffset::AtOrBefore(x) => offset <= x,
        }
    }

    pub open spec fn spec_next_exclusive(self, offset: usize) -> TargetOffset {
        match self {
            TargetOffset::AtOrAfter(_) => TargetOffset::AtOrAfter((offset + 1) as usize),
            TargetOffset::AtOrBefore(_) => TargetOffset::AtOrBefore(if offset > 0 { (offset - 1) as usize } else { 0 }),
        }
    }

    pub fn value(&self) -> (r: usize)
        ensures
            r == self.spec_value(),
    {
        match self {
            TargetOffset::AtOrAfter(x) => *x,
            TargetOffset::AtOrBefore(x) => *x,
        }
    }

    pub fn is_after(&self) -> (r: bool)
        ensures
            r == (*self is AtOrAfter),
    {
        match self {
            TargetOffset::AtOrAfter(_) => true,
            TargetOffset::AtOrBefore(_) => false,
        }
    }

    /// The target just past `offset`, in the direction of this target.
    pub fn next_exclusive(&self, offset: usize) -> (r: TargetOffset)
        requires
            *self is AtOrAfter ==> offset < usize::MAX,
        ensures
            r == self.spec_next_exclusive(offset),
    {
        match self {
            TargetOffset::AtOrAfter(_) => TargetOffset::AtOrAfter(offset + 1),
            TargetOffset::AtOrBefore(_) => TargetOffset::AtOrBefore(offset.saturating_sub(1)),
        }
    }

    /// `offset` is at or past the target, in the direction of the target.
    pub fn reached(&self, offset: usize) -> (r: bool)
        ensures
            r == self.spec_reached(offset),
    {
        match self {
            TargetOffset::AtOrAfter(x) => offset >= *x,
            TargetOffset::AtOrBefore(x) => offset <= *x,
        }
    }
}

impl VirtualLocation {
    pub fn is_before(&self) -> (r: bool)
        ensures
            r == (*self is Before),
    {
        matches!(self, VirtualLocation::Before(_))
    }

    pub fn is_after(&self) -> (r: bool)
        ensures
            r == (*self is AtOrAfter),
    {
        matches!(self, VirtualLocation::AtOrAfter(_))
    }

    pub fn offset(&self) -> (r: usize)
        ensures
            r == (match *self {
                VirtualLocation::Before(x) => x,
                VirtualLocation::AtOrAfter(x) => x,
                VirtualLocation::Start => 0,
                VirtualLocation::End => usize::MAX,
            }),
    {
        match self {
            VirtualLocation::Before(x) => *x,
            VirtualLocation::AtOrAfter(x) => *x,
            VirtualLocation::Start => 0,
            VirtualLocation::End => usize::MAX,
        }
    }
}

impl Location {
    pub open spec fn spec_offset(self) -> usize {
        match self {
            Location::Virtual(VirtualLocation::Start) => 0,
            Location::Virtual(VirtualLocation::End) => usize::MAX,
            Location::Virtual(VirtualLocation::Before(off)) => if off > 0 { (off - 1) as usize } else { 0 },
            Location::Virtual(VirtualLocation::AtOrAfter(off)) => off,
            Location::Indexed(iref) => iref.offset,
            Location::Gap(g) => g.target.spec_value(),
            Location::Invalid => 0,
        }
    }

    pub open spec fn spec_reached(self) -> bool {
        match self {
            Location::Indexed(r) => r.next.spec_reached(r.offset),
            _ => false,
        }
    }

    /// The offset of the located line, or `None` if no line is located yet.
    pub fn found_offset(&self) -> (r: Option<usize>)
        ensures
            r == (match *self {
                Location::Indexed(r) => Some(r.offset),
                _ => None,
            }),
    {
        match self {
            Location::Indexed(r) => Some(r.offset),
            _ => None,
        }
    }

    /// The located line is at or past the offset it was heading for.
    pub fn reached(&self) -> (r: bool)
        ensures
            r == self.spec_reached(),
    {
        match self {
            Location::Indexed(r) => r.next.reached(r.offset),
            _ => false,
        }
    }

    pub fn is_gap(&self) -> (r: bool)
        ensures
            r == (*self is Gap),
    {
        matches!(self, Location::Gap(_))
    }

    pub fn is_virtual(&self) -> (r: bool)
        ensures
            r == (*self is Virtual),
    {
        matches!(self, Location::Virtual(_))
    }

    pub fn is_indexed(&self) -> (r: bool)
        ensures
            r == (*self is Indexed),
    {
        matches!(self, Location::Indexed(_))
    }

    pub fn is_invalid(&self) -> (r: bool)
        ensures
            r == (*self is Invalid),
    {
        matches!(self, Location::Invalid)
    }

    /// The offset in the file of the next byte to scan.
    pub fn offset(&self) -> (r: usize)
        requires
            !(*self is Invalid),
        ensures
            r == self.spec_offset(),
    {
        match self {
            Location::Virtual(VirtualLocation::Start) => 0,
            Location::Virtual(VirtualLocation::End) => usize::MAX,
            Location::Virtual(VirtualLocation::Before(off)) => off.saturating_sub(1),
            Location::Virtual(VirtualLocation::AtOrAfter(off)) => *off,
            Location::Indexed(iref) => iref.offset,
            Location::Gap(g) => g.target.value(),
            Location::Invalid => unreached(),
        }
    }

    /// A portable location for another EventualIndex: the target, brought within the gap.
    pub fn gap_to_target(self) -> (r: VirtualLocation)
        requires
            self is Gap,
            self->Gap_0.target matches TargetOffset::AtOrBefore(off) ==> off < usize::MAX,
        ensures
            ({
                let g = self->Gap_0;
                let (start, end) = match g.gap {
                    Missing::Bounded(s, e) => (s, e),
                    Missing::Unbounded(s) => (s, (usize::MAX - 1) as usize),
                };
                r == match g.target {
                    TargetOffset::AtOrBefore(off) => VirtualLocation::Before(if end < off + 1 { end } else { (off + 1) as usize }),
                    TargetOffset::AtOrAfter(off) => VirtualLocation::AtOrAfter(if start > off { start } else { off }),
                }
            }),
    {
        match self {
            Location::Gap(GapRange { target, gap, .. }) => {
                let (start, end) = match gap {
                    Missing::Bounded(start, end) => (start, end),
                    Missing::Unbounded(start) => (start, usize::MAX - 1),
                };
                match target {
                    TargetOffset::AtOrBefore(off) => VirtualLocation::Before(if end < off + 1 { end } else { off + 1 }),
                    TargetOffset::AtOrAfter(off) => VirtualLocation::AtOrAfter(if start > off { start } else { off }),
                }
            },
            _ => unreached(),
        }
    }
}

/// An index of some lines in a file, possibly with gaps, but eventually a whole index.
pub struct EventualIndex {
    indexes: Vec<Index>,
}

/// Sum of the explored bytes of the stretches.
pub open spec fn sum_bytes(v: Seq<Index>) -> int
    decreases v.len(),
{
    if v.len() == 0 {
        0
    } else {
        sum_bytes(v.drop_last()) + (v.last().hi() - v.last().lo())
    }
}

/// Sum of the line starts of the stretches.
pub open spec fn sum_lines(v: Seq<Index>) -> int
    decreases v.len(),
{
    if v.len() == 0 {
        0
    } else {
        sum_lines(v.drop_last()) + v.last().offsets().len()
    }
}

/// Inserting a stretch anywhere adds its lines and bytes to the totals.
pub proof fn lemma_sums_insert(v: Seq<Index>, k: int, x: Index)
    requires
        0 <= k <= v.len(),
    ensures
        sum_lines(v.insert(k, x)) == sum_lines(v) + x.offsets().len(),
        sum_bytes(v.insert(k, x)) == sum_bytes(v) + (x.hi() - x.lo()),
    decreases v.len(),
{
    let w = v.insert(k, x);
    if k == v.len() {
        assert(w.drop_last() =~= v);
    } else {
        assert(w.drop_last() =~= v.drop_last().insert(k, x));
        assert(w.last() == v.last());
        lemma_sums_insert(v.drop_last(), k, x);
    }
}

impl EventualIndex {
    /// The stretches, in order.
    pub closed spec fn ix(&self) -> Seq<Index> {
        self.indexes@
    }

    /// A vector never holds more than `usize::MAX` stretches.
    pub proof fn lemma_count_bound(&self)
        ensures
            self.ix().len() <= usize::MAX,
    {
        assert(self.indexes.len() == self.indexes@.len());
    }

    /// Every stretch is well formed and they are sorted by start.
    pub open spec fn sound(&self) -> bool {
        &&& forall|k: int| 0 <= k < self.ix().len() ==> #[trigger] self.ix()[k].wf()
        &&& forall|k: int, l: int| 0 <= k < l < self.ix().len() ==> #[trigger] self.ix()[k].lo() <= #[trigger] self.ix()[l].lo()
    }

    /// Sound, and no stretch overlaps the next one.
    pub open spec fn wf(&self) -> bool {
        &&& self.sound()
        &&& forall|k: int, l: int| 0 <= k < l < self.ix().len() ==> #[trigger] self.ix()[k].hi() <= #[trigger] self.ix()[l].lo()
    }

    pub fn new() -> (r: Self)
        ensures
            r.wf(),
            r.ix().len() == 0,
    {
        EventualIndex { indexes: Vec::new() }
    }

    /// Number of stretches.
    pub fn count(&self) -> (r: usize)
        ensures
            r == self.ix().len(),
    {
        self.indexes.len()
    }

    /// Take in the index of another explored stretch. It is kept in order of start offset,
    /// after any stretch that starts at the same offset.
    pub fn merge(&mut self, other: Index)
        requires
            old(self).sound(),
            other.wf(),
        ensures
            final(self).sound(),
            exists|k: int| 0 <= k <= old(self).ix().len() && final(self).ix() == old(self).ix().insert(k, other)
                && (forall|j: int| 0 <= j < k ==> #[trigger] old(self).ix()[j].lo() <= other.lo())
                && (forall|j: int| k <= j < old(self).ix().len() ==> #[trigger] old(self).ix()[j].lo() > other.lo()),
            sum_lines(final(self).ix()) == sum_lines(old(self).ix()) + other.offsets().len(),
            sum_bytes(final(self).ix()) == sum_bytes(old(self).ix()) + (other.hi() - other.lo()),
    {
        let n = self.indexes.len();
        let lo = other.start();
        let mut k: usize = 0;
        while k < n && self.indexes[k].start() <= lo
            invariant
                0 <= k <= n,
                n == self.ix().len(),
                forall|j: int| 0 <= j < k ==> #[trigger] self.ix()[j].lo() <= lo,
            decreases n - k,
        {
            k = k + 1;
        }
        let ghost v = self.ix();
        proof {
            assert forall|j: int| k <= j < n implies #[trigger] v[j].lo() > lo by {
                if j > k {
                    assert(v[k as int].lo() <= v[j].lo());
                }
            }
        }
        self.indexes.insert(k, other);
        proof {
            let w = self.ix();
            assert(w =~= v.insert(k as int, other));
            lemma_sums_insert(v, k as int, other);
            assert forall|a: int| 0 <= a < w.len() implies #[trigger] w[a].wf() by {
                if a < k {
                    assert(w[a] == v[a]);
                } else if a > k {
                    assert(w[a] == v[a - 1]);
                }
            }
            assert forall|a: int, b: int| 0 <= a < b < w.len() implies #[trigger] w[a].lo() <= #[trigger] w[b].lo() by {
                if a < k && b < k {
                } else if a < k && b == k {
                } else if a < k {
                    assert(w[b] == v[b - 1]);
                } else if a == k {
                    assert(w[b] == v[b - 1]);
                } else {
                    assert(w[a] == v[a - 1]);
                    assert(w[b] == v[b - 1]);
                }
            }
        }
    }

    /// Total explored bytes.
    pub fn bytes(&self) -> (r: usize)
        requires
            self.sound(),
            sum_bytes(self.ix()) <= usize::MAX,
        ensures
            r == sum_bytes(self.ix()),
    {
        let n = self.indexes.len();
        let mut total: usize = 0;
        let mut k: usize = 0;
        while k < n
            invariant
                0 <= k <= n,
                n == self.ix().len(),
                self.sound(),
                sum_bytes(self.ix()) <= usize::MAX,
                total == sum_bytes(self.ix().take(k as int)),
            decreases n - k,
        {
            proof {
                let t = self.ix().take(k + 1);
                assert(t.drop_last() =~= self.ix().take(k as int));
                lemma_sum_bytes_prefix(self.ix(), k + 1);
                assert(self.ix()[k as int].wf());
            }
            total = total + self.indexes[k].bytes();
            k = k + 1;
        }
        proof { assert(self.ix().take(n as int) =~= self.ix()); }
        total
    }

    /// Total line starts recorded.
    pub fn lines(&self) -> (r: usize)
        requires
            sum_lines(self.ix()) <= usize::MAX,
        ensures
            r == sum_lines(self.ix()),
    {
        let n = self.indexes.len();
        let mut total: usize = 0;
        let mut k: usize = 0;
        while k < n
            invariant
                0 <= k <= n,
                n == self.ix().len(),
                sum_lines(self.ix()) <= usize::MAX,
                total == sum_lines(self.ix().take(k as int)),
            decreases n - k,
        {
            proof {
                let t = self.ix().take(k + 1);
                assert(t.drop_last() =~= self.ix().take(k as int));
                lemma_sum_lines_prefix(self.ix(), k + 1);
            }
            total = total + self.indexes[k].lines();
            k = k + 1;
        }
        proof { assert(self.ix().take(n as int) =~= self.ix()); }
        total
    }

    /// The first indexed byte.
    pub fn start(&self) -> (r: usize)
        ensures
            r == (if self.ix().len() > 0 { self.ix()[0].lo() } else { 0 }),
    {
        if self.indexes.len() > 0 {
            self.indexes[0].start()
        } else {
            0
        }
    }

    /// One past the last indexed byte.
    pub fn end(&self) -> (r: usize)
        ensures
            r == (if self.ix().len() > 0 { self.ix().last().hi() } else { 0 }),
    {
        let n = self.indexes.len();
        if n > 0 {
            self.indexes[n - 1].end()
        } else {
            0
        }
    }
}

impl EventualIndex {
    /// The gap before stretch `index` that must be filled to reach `target`, `Invalid` when the
    /// file has no lines at all, or `None` when there is no gap there.
    pub open spec fn gap_spec(&self, index: usize, target: TargetOffset) -> Option<Location> {
        let v = self.ix();
        if v.len() == 0 {
            Some(Location::Gap(GapRange { target, index: 0, gap: Missing::Unbounded(0) }))
        } else if index == 0 {
            let next = v[0].lo();
            if next > 0 {
                Some(Location::Gap(GapRange { target, index: 0, gap: Missing::Bounded(0, next) }))
            } else if v[0].offsets().len() == 0 {
                Some(Location::Invalid)
            } else {
                None
            }
        } else {
            let prev = v[index - 1].hi();
            if v[index - 1].lo() <= target.spec_value() < v[index - 1].hi() {
                None
            } else if index == v.len() {
                Some(Location::Gap(GapRange { target, index, gap: Missing::Unbounded(prev) }))
            } else if v[index as int].lo() > prev {
                Some(Location::Gap(GapRange { target, index, gap: Missing::Bounded(prev, v[index as int].lo()) }))
            } else {
                None
            }
        }
    }

    /// The location of line `line` (or the last line, if there are fewer) of stretch `index`.
    pub open spec fn loc_spec(&self, index: usize, line: usize, target: TargetOffset) -> Location {
        let j = self.ix()[index as int];
        let l = if line < j.offsets().len() - 1 { line } else { (j.offsets().len() - 1) as usize };
        Location::Indexed(IndexRef { index, line: l, offset: j.offsets()[l as int], next: target })
    }

    /// `r` names a line of this index as it is now.
    pub open spec fn fresh(&self, r: IndexRef) -> bool {
        &&& r.index < self.ix().len()
        &&& r.line < self.ix()[r.index as int].offsets().len()
        &&& self.ix()[r.index as int].offsets()[r.line as int] == r.offset
    }

    /// Where the line after (or before) the fresh reference `r` is, in the direction of its
    /// target: the next line of the same stretch, the gap that must be filled, the nearest
    /// line of the next stretch (its first going forwards, its last going backwards), or
    /// `Invalid` before the start of the file.
    pub open spec fn step_spec(&self, r: IndexRef) -> Location {
        let i = self.ix()[r.index as int];
        let t2 = r.next.spec_next_exclusive(r.offset);
        let (next_line, gap_index, next_index) = match r.next {
            TargetOffset::AtOrAfter(_) => ((r.line + 1) as usize, (r.index + 1) as usize, (r.index + 1) as usize),
            TargetOffset::AtOrBefore(_) => (
                if r.line > 0 { (r.line - 1) as usize } else { 0usize },
                r.index,
                if r.index > 0 { (r.index - 1) as usize } else { 0usize },
            ),
        };
        if next_line != r.line && next_line < i.offsets().len() {
            self.loc_spec(r.index, next_line, t2)
        } else {
            match self.gap_spec(gap_index, t2) {
                Some(g) => g,
                None => if next_index != r.index {
                    self.loc_spec(next_index, if r.next is AtOrAfter { 0usize } else { usize::MAX }, t2)
                } else {
                    Location::Invalid
                },
            }
        }
    }

    /// Some line of the index starts strictly between offsets `a` and `b`.
    pub open spec fn line_between(&self, a: usize, b: usize) -> bool {
        exists|k: int, l: int|
            0 <= k < self.ix().len() && 0 <= l < self.ix()[k].offsets().len() && ({
                let x = #[trigger] self.ix()[k].offsets()[l];
                (a < x < b) || (b < x < a)
            })
    }

    /// A step lands on the neighbouring line: stepping from a line of the index to a line
    /// goes the way its target heads (at or after the line going forwards, at or before it
    /// going backwards), keeps that heading, and passes over no line of the index.
    pub proof fn lemma_step_adjacent(&self, r: IndexRef)
        requires
            self.wf(),
            self.fresh(r),
            self.step_ok(r),
        ensures
            self.step_spec(r) matches Location::Indexed(s) ==> {
                &&& self.fresh(s)
                &&& (s.next is AtOrAfter) == (r.next is AtOrAfter)
                &&& r.next is AtOrAfter ==> r.offset <= s.offset
                &&& r.next is AtOrBefore ==> s.offset <= r.offset
                &&& !self.line_between(r.offset, s.offset)
                &&& self.ends_open() ==> s.offset != r.offset
            },
            !(self.step_spec(r) is Virtual),
    {
        let v = self.ix();
        let i = r.index as int;
        let oi = v[i].offsets();
        let t2 = r.next.spec_next_exclusive(r.offset);
        assert(v[i].wf());
        self.lemma_count_bound();
        v[i].lemma_len_bound();
        if i + 1 < v.len() {
            v[i + 1].lemma_len_bound();
        }
        if i > 0 {
            v[i - 1].lemma_len_bound();
        }
        if r.next is AtOrAfter {
            if r.line + 1 < oi.len() {
                assert(self.step_spec(r) == self.loc_spec(r.index, (r.line + 1) as usize, t2));
            } else if self.gap_spec((r.index + 1) as usize, t2) is None {
                assert(self.step_spec(r) == self.loc_spec((r.index + 1) as usize, 0usize, t2));
            }
        } else {
            if r.line > 0 {
                assert(self.step_spec(r) == self.loc_spec(r.index, (r.line - 1) as usize, t2));
            } else if self.gap_spec(r.index, t2) is None && r.index > 0 {
                assert(self.step_spec(r) == self.loc_spec((r.index - 1) as usize, usize::MAX, t2));
            }
        }
        if let Location::Indexed(s) = self.step_spec(r) {
            let j = s.index as int;
            assert(v[j].wf());
            let oj = v[j].offsets();
            assert(s.offset == oj[s.line as int]);
            if j == i {
                assert(s.line == r.line + 1 || s.line + 1 == r.line);
            } else if j == i + 1 {
                assert(r.next is AtOrAfter && r.line == oi.len() - 1 && s.line == 0);
            } else {
                assert(j == i - 1);
                assert(r.next is AtOrBefore && r.line == 0 && s.line == oj.len() - 1);
            }
            if self.ends_open() {
                if j == i + 1 {
                    assert(oi[r.line as int] < v[i].hi() && v[i].hi() <= v[j].lo());
                } else if j == i - 1 {
                    assert(oj[s.line as int] < v[j].hi() && v[j].hi() <= v[i].lo());
                }
            }
            assert forall|k: int, l: int| 0 <= k < v.len() && 0 <= l < v[k].offsets().len() implies ({
                let x = #[trigger] v[k].offsets()[l];
                !((r.offset < x < s.offset) || (s.offset < x < r.offset))
            }) by {
                assert(v[k].wf());
                let x = v[k].offsets()[l];
                if k < i && k < j {
                    assert(v[k].hi() <= v[i].lo() && v[k].hi() <= v[j].lo());
                } else if k > i && k > j {
                    assert(v[i].hi() <= v[k].lo() && v[j].hi() <= v[k].lo());
                } else if k == i && k == j {
                } else if k == i {
                    if j > i {
                        assert(x <= oi[r.line as int]);
                    } else {
                        assert(x >= oi[0]);
                    }
                } else {
                    assert(k == j);
                    if j > i {
                        assert(x >= oj[0]);
                    } else {
                        assert(x <= oj[s.line as int]);
                    }
                }
            }
        }
    }

    /// Stepping from `r` stays within bounds: moving forwards is possible past its offset,
    /// and a stretch moved into has lines.
    pub open spec fn step_ok(&self, r: IndexRef) -> bool {
        let i = self.ix()[r.index as int];
        let t2 = r.next.spec_next_exclusive(r.offset);
        let (next_line, gap_index, next_index) = match r.next {
            TargetOffset::AtOrAfter(_) => ((r.line + 1) as usize, (r.index + 1) as usize, (r.index + 1) as usize),
            TargetOffset::AtOrBefore(_) => (
                if r.line > 0 { (r.line - 1) as usize } else { 0usize },
                r.index,
                if r.index > 0 { (r.index - 1) as usize } else { 0usize },
            ),
        };
        &&& (r.next is AtOrAfter ==> r.offset < usize::MAX)
        &&& (!(next_line != r.line && next_line < i.offsets().len()) && self.gap_spec(gap_index, t2) is None
            && next_index != r.index ==> next_index < self.ix().len()
            && self.ix()[next_index as int].offsets().len() > 0)
    }

    /// Describe the gap before stretch `index` that must be filled to reach `target`.
    pub fn try_gap_at(&self, index: usize, target: TargetOffset) -> (r: Option<Location>)
        requires
            self.wf(),
            index <= self.ix().len(),
        ensures
            r == self.gap_spec(index, target),
    {
        let n = self.indexes.len();
        if n == 0 {
            Some(Location::Gap(GapRange { target, index: 0, gap: Missing::Unbounded(0) }))
        } else if index == 0 {
            let next = self.indexes[0].start();
            if next > 0 {
                Some(Location::Gap(GapRange { target, index: 0, gap: Missing::Bounded(0, next) }))
            } else if self.indexes[0].is_empty() {
                // No gap, but no lines in the file either.
                Some(Location::Invalid)
            } else {
                None
            }
        } else {
            let prev_index = &self.indexes[index - 1];
            let prev = prev_index.end();
            if prev_index.indexes(target.value()) {
                // The target is already indexed.
                None
            } else if index == n {
                // The gap is at the end of the file.
                Some(Location::Gap(GapRange { target, index, gap: Missing::Unbounded(prev) }))
            } else {
                let next = self.indexes[index].start();
                if next > prev {
                    Some(Location::Gap(GapRange { target, index, gap: Missing::Bounded(prev, next) }))
                } else {
                    None
                }
            }
        }
    }

    /// The gap before stretch `index`, which must exist.
    pub fn gap_at(&self, index: usize, target: TargetOffset) -> (r: Location)
        requires
            self.wf(),
            index <= self.ix().len(),
            self.gap_spec(index, target) is Some,
        ensures
            Some(r) == self.gap_spec(index, target),
    {
        match self.try_gap_at(index, target) {
            Some(g) => g,
            None => unreached(),
        }
    }

    /// The location of line `line` of stretch `index`, which must have lines.
    pub fn get_location(&self, index: usize, line: usize, target: TargetOffset) -> (r: Location)
        requires
            self.wf(),
            index < self.ix().len(),
            self.ix()[index as int].offsets().len() > 0,
        ensures
            r == self.loc_spec(index, line, target),
            self.fresh(r->Indexed_0),
    {
        let j = &self.indexes[index];
        let n = j.len();
        let l = if line < n - 1 { line } else { n - 1 };
        let offset = j.get(l);
        proof { assert(self.ix()[index as int].wf()); }
        Location::Indexed(IndexRef { index, line: l, offset, next: target })
    }

    /// Move from the fresh reference `r` to the next line in the direction of its target.
    fn step(&self, r: IndexRef) -> (p: Location)
        requires
            self.wf(),
            self.fresh(r),
            self.step_ok(r),
        ensures
            p == self.step_spec(r),
            p matches Location::Indexed(q) ==> self.fresh(q),
            !(p is Virtual),
    {
        let IndexRef { index, line, offset, next } = r;
        let count = self.indexes.len();
        let i = &self.indexes[index];
        let lines = i.len();
        let t2 = next.next_exclusive(offset);
        let (next_line, gap_index, next_index) = match next {
            TargetOffset::AtOrAfter(_) => (line + 1, index + 1, index + 1),
            TargetOffset::AtOrBefore(_) => (line.saturating_sub(1), index, index.saturating_sub(1)),
        };
        if next_line != line && next_line < lines {
            // The next line is in the same stretch.
            self.get_location(index, next_line, t2)
        } else if let Some(gap) = self.try_gap_at(gap_index, t2) {
            // The next line is not indexed yet.
            gap
        } else if next_index != index {
            // The next line is in the next stretch: its first line going forwards, its last
            // going backwards.
            let line = match next {
                TargetOffset::AtOrAfter(_) => 0,
                TargetOffset::AtOrBefore(_) => usize::MAX,
            };
            self.get_location(next_index, line, t2)
        } else {
            // No gap before this stretch and no lines before it: the start of the file.
            Location::Invalid
        }
    }
}

impl EventualIndex {
    /// Lines recorded before line `r.line` of stretch `r.index`.
    pub open spec fn gpos(&self, r: IndexRef) -> int {
        sum_lines(self.ix().take(r.index as int)) + r.line
    }

    /// How far a location can still move towards the end its target points to.
    pub open spec fn measure(&self, p: Location) -> nat {
        match p {
            Location::Indexed(r) => {
                let m = if r.next is AtOrAfter { sum_lines(self.ix()) - self.gpos(r) } else { self.gpos(r) };
                if m < 0 { 1 } else { (m + 1) as nat }
            },
            _ => 0,
        }
    }

    /// Stepping from `p` until it reaches its target (or leaves the indexed lines) never
    /// goes out of bounds.
    pub open spec fn settles(&self, p: Location) -> bool
        decreases self.measure(p),
    {
        match p {
            Location::Indexed(r) => if r.next.spec_reached(r.offset) {
                true
            } else {
                &&& self.fresh(r)
                &&& self.step_ok(r)
                &&& (self.measure(self.step_spec(r)) < self.measure(p) ==> self.settles(self.step_spec(r)))
            },
            _ => true,
        }
    }

    /// A step from a fresh reference goes on in the same direction and gets closer to the
    /// end of the lines in that direction.
    pub proof fn lemma_step_progress(&self, r: IndexRef)
        requires
            self.wf(),
            self.fresh(r),
            self.step_ok(r),
        ensures
            self.step_spec(r) is Indexed ==> self.fresh(self.step_spec(r)->Indexed_0),
            self.step_spec(r) is Indexed ==> (self.step_spec(r)->Indexed_0.next is AtOrAfter) == (r.next is AtOrAfter),
            self.step_spec(r) is Indexed ==> self.measure(self.step_spec(r)) < self.measure(Location::Indexed(r)),
    {
        let v = self.ix();
        let k = r.index as int;
        let len = v[k].offsets().len();
        v[k].lemma_len_bound();
        self.lemma_count_bound();
        let t2 = r.next.spec_next_exclusive(r.offset);
        lemma_sum_lines_prefix(v, k + 1);
        let sk = sum_lines(v.take(k));
        lemma_sum_lines_nonneg(v.take(k));
        if k > 0 {
            lemma_sum_lines_nonneg(v.take(k - 1));
        }
        assert(sum_lines(v.take(k + 1)) == sk + len);
        assert(self.gpos(r) == sk + r.line);
        match r.next {
            TargetOffset::AtOrAfter(_) => {
                if r.line + 1 < len {
                    let q = IndexRef { index: r.index, line: (r.line + 1) as usize, offset: v[k].offsets()[r.line + 1], next: t2 };
                    assert(self.step_spec(r) == Location::Indexed(q));
                    assert(self.gpos(q) == sk + r.line + 1);
                    assert(self.fresh(q));
                    assert(sum_lines(v) >= sk + len);
                    assert(self.measure(Location::Indexed(q)) < self.measure(Location::Indexed(r)));
                    assert(self.measure(self.step_spec(r)) < self.measure(Location::Indexed(r)));
                    assert(q.next is AtOrAfter);
                } else if self.gap_spec((r.index + 1) as usize, t2) is None {
                    let kq = k + 1;
                    let q = IndexRef { index: (r.index + 1) as usize, line: 0, offset: v[kq].offsets()[0], next: t2 };
                    assert(v[kq].offsets().len() > 0);
                    assert(self.step_spec(r) == Location::Indexed(q));
                    lemma_sum_lines_prefix(v, kq + 1);
                    assert(self.gpos(q) == sk + len);
                    assert(self.fresh(q));
                    assert(sum_lines(v) >= sk + len);
                    assert(self.measure(Location::Indexed(q)) < self.measure(Location::Indexed(r)));
                    assert(self.measure(self.step_spec(r)) < self.measure(Location::Indexed(r)));
                } else {
                    let g = self.gap_spec((r.index + 1) as usize, t2);
                    assert(g matches Some(x) && !(x is Indexed));
                    assert(!(self.step_spec(r) is Indexed));
                }
            },
            TargetOffset::AtOrBefore(_) => {
                if r.line > 0 {
                    let q = IndexRef { index: r.index, line: (r.line - 1) as usize, offset: v[k].offsets()[r.line - 1], next: t2 };
                    assert(self.step_spec(r) == Location::Indexed(q));
                    assert(self.gpos(q) == sk + r.line - 1);
                    assert(self.fresh(q));
                    assert(self.measure(self.step_spec(r)) < self.measure(Location::Indexed(r)));
                } else if self.gap_spec(r.index, t2) is None && k > 0 {
                    let kq = k - 1;
                    lemma_sum_lines_prefix(v, k);
                    let lq = v[kq].offsets().len();
                    v[kq].lemma_len_bound();
                    assert(lq > 0);
                    let q = IndexRef { index: (r.index - 1) as usize, line: (lq - 1) as usize, offset: v[kq].offsets()[lq - 1], next: t2 };
                    assert(self.step_spec(r) == Location::Indexed(q));
                    assert(self.gpos(q) == sum_lines(v.take(kq)) + lq - 1);
                    assert(sum_lines(v.take(k)) == sum_lines(v.take(kq)) + lq);
                    assert(self.fresh(q));
                    assert(self.measure(self.step_spec(r)) < self.measure(Location::Indexed(r)));
                } else if self.gap_spec(r.index, t2) is None {
                    assert(self.step_spec(r) == Location::Invalid);
                } else {
                    let g = self.gap_spec(r.index, t2);
                    assert(g matches Some(x) && !(x is Indexed));
                    assert(!(self.step_spec(r) is Indexed));
                }
            },
        }
    }

    /// Find the line near the hinted one that reaches `target`.
    pub fn find_location(&self, index: usize, line: usize, target: TargetOffset) -> (r: Location)
        requires
            self.wf(),
            index < self.ix().len(),
            self.ix()[index as int].offsets().len() == 0 ==> match target {
                TargetOffset::AtOrAfter(_) => index + 1 <= self.ix().len() && self.gap_spec((index + 1) as usize, target) is Some,
                TargetOffset::AtOrBefore(_) => self.gap_spec(index, target) is Some,
            },
            self.ix()[index as int].offsets().len() > 0 ==> self.settles(self.loc_spec(index, line, target)),
        ensures
            self.ix()[index as int].offsets().len() == 0 ==> Some(r) == match target {
                TargetOffset::AtOrAfter(_) => self.gap_spec((index + 1) as usize, target),
                TargetOffset::AtOrBefore(_) => self.gap_spec(index, target),
            },
            self.ix()[index as int].offsets().len() > 0 ==> r == self.settled(self.loc_spec(index, line, target)),
            r matches Location::Indexed(q) ==> self.fresh(q) && q.next.spec_reached(q.offset),
            !(r is Virtual),
    {
        let count = self.indexes.len();
        if self.indexes[index].is_empty() {
            // No lines recorded here: the gap next to this stretch is where to look.
            match target {
                TargetOffset::AtOrAfter(_) => self.gap_at(index + 1, target),
                TargetOffset::AtOrBefore(_) => self.gap_at(index, target),
            }
        } else {
            let mut pos = self.get_location(index, line, target);
            let ghost start = pos;
            while pos.is_indexed() && !pos.reached()
                invariant
                    self.wf(),
                    self.settles(pos),
                    pos matches Location::Indexed(q) ==> self.fresh(q),
                    self.settled(pos) == self.settled(start),
                    !(pos is Virtual),
                decreases self.measure(pos),
            {
                let r = match pos {
                    Location::Indexed(r) => r,
                    _ => unreached(),
                };
                proof {
                    self.lemma_step_progress(r);
                    self.lemma_settled_step(r);
                }
                pos = self.step(r);
            }
            pos
        }
    }
}

impl EventualIndex {
    /// Where stepping from `p` stops: at the first location that reaches its target or is
    /// not an indexed line.
    pub open spec fn settled(&self, p: Location) -> Location
        decreases self.measure(p),
    {
        match p {
            Location::Indexed(r) => if r.next.spec_reached(r.offset) {
                p
            } else if self.measure(self.step_spec(r)) < self.measure(p) {
                self.settled(self.step_spec(r))
            } else {
                p
            },
            _ => p,
        }
    }

    /// The stretch whose explored range holds `offset`, if any.
    pub open spec fn holder(&self, offset: usize) -> Option<int> {
        if exists|k: int| 0 <= k < self.ix().len() && #[trigger] self.ix()[k].lo() <= offset < self.ix()[k].hi() {
            Some(choose|k: int| 0 <= k < self.ix().len() && #[trigger] self.ix()[k].lo() <= offset < self.ix()[k].hi())
        } else {
            None
        }
    }

    /// Number of stretches that end at or before `offset`.
    pub open spec fn ends_before(&self, offset: usize) -> int {
        choose|c: int| #[trigger] self.splits_at(c, offset)
    }

    /// The first `c` stretches end at or before `offset` and the others after it.
    pub open spec fn splits_at(&self, c: int, offset: usize) -> bool {
        &&& 0 <= c <= self.ix().len()
        &&& forall|k: int| 0 <= k < c ==> #[trigger] self.ix()[k].hi() <= offset
        &&& forall|k: int| c <= k < self.ix().len() ==> #[trigger] self.ix()[k].hi() > offset
    }

    /// The line a search for `offset` starts from in stretch `k`.
    pub open spec fn hint(&self, k: int, offset: usize) -> usize {
        let c = count_le(self.ix()[k].offsets(), offset);
        (if c > 0 { c - 1 } else { 0int }) as usize
    }

    /// What `locate` finds for `target`: the settled line near it, or the gap before it.
    pub open spec fn locate_spec(&self, target: TargetOffset) -> Location {
        let o = target.spec_value();
        match self.holder(o) {
            Some(k) => if self.ix()[k].offsets().len() == 0 {
                match target {
                    TargetOffset::AtOrAfter(_) => self.gap_spec((k + 1) as usize, target).unwrap(),
                    TargetOffset::AtOrBefore(_) => self.gap_spec(k as usize, target).unwrap(),
                }
            } else {
                self.settled(self.loc_spec(k as usize, self.hint(k, o), target))
            },
            None => self.gap_spec(self.ends_before(o) as usize, target).unwrap(),
        }
    }

    /// Some line of the index starts in `[a, b)`.
    pub open spec fn line_in(&self, a: int, b: int) -> bool {
        exists|k: int, l: int|
            0 <= k < self.ix().len() && 0 <= l < self.ix()[k].offsets().len() && a
                <= #[trigger] self.ix()[k].offsets()[l] < b
    }

    /// No stretch records a line start at its end: a line starting there belongs to what
    /// follows.
    pub open spec fn ends_open(&self) -> bool {
        forall|k: int, l: int|
            0 <= k < self.ix().len() && 0 <= l < self.ix()[k].offsets().len() ==> #[trigger] self.ix()[k].offsets()[l]
                < self.ix()[k].hi()
    }

    /// `locate` finds the nearest line in the direction of its target: going forwards, a
    /// line at or after the target with no line of the index from the target up to it; going
    /// backwards, a line at or before the target with none after it up to the target.
    pub proof fn lemma_locate_nearest(&self, target: TargetOffset)
        requires
            self.wf(),
            self.ends_open(),
            self.locate_ok(target),
        ensures
            !(self.locate_spec(target) is Virtual),
            self.locate_spec(target) matches Location::Indexed(s) ==> {
                &&& self.fresh(s)
                &&& (s.next is AtOrAfter) == (target is AtOrAfter)
                &&& target is AtOrAfter ==> target.spec_value() <= s.offset
                    && !self.line_in(target.spec_value() as int, s.offset as int)
                &&& target is AtOrBefore ==> s.offset <= target.spec_value()
                    && !self.line_in(s.offset + 1, target.spec_value() + 1)
            },
    {
        let o = target.spec_value();
        let v = self.ix();
        if let Some(k) = self.holder(o) {
            if v[k].offsets().len() > 0 {
                assert(0 <= k < v.len() && v[k].lo() <= o < v[k].hi());
                assert(v[k].wf());
                v[k].lemma_len_bound();
                self.lemma_count_bound();
                let oi = v[k].offsets();
                lemma_count_le_split(oi, o);
                let c = count_le(oi, o);
                let h = self.hint(k, o);
                assert(h < oi.len());
                let p = self.loc_spec(k as usize, h, target);
                let r = p->Indexed_0;
                assert(r.line == h && r.offset == oi[h as int] && r.next == target && r.index == k);
                assert(self.locate_spec(target) == self.settled(p));
                if target.spec_reached(r.offset) {
                    assert(self.settled(p) == p);
                    if target is AtOrAfter {
                        assert(c > 0 ==> oi[h as int] == o);
                        assert forall|k2: int, l: int| 0 <= k2 < v.len() && 0 <= l < v[k2].offsets().len() implies !(o
                            <= #[trigger] v[k2].offsets()[l] < r.offset) by {
                            assert(v[k2].wf());
                            if k2 < k {
                                assert(v[k2].hi() <= v[k].lo());
                            } else if k2 > k {
                                assert(v[k].hi() <= v[k2].lo());
                            } else if c == 0 {
                                if l > 0 {
                                    assert(oi[0] < oi[l]);
                                }
                            }
                        }
                    } else {
                        assert(c > 0);
                        assert forall|k2: int, l: int| 0 <= k2 < v.len() && 0 <= l < v[k2].offsets().len() implies !(r.offset
                            + 1 <= #[trigger] v[k2].offsets()[l] < o + 1) by {
                            assert(v[k2].wf());
                            if k2 < k {
                                assert(v[k2].hi() <= v[k].lo());
                            } else if k2 > k {
                                assert(v[k].hi() <= v[k2].lo());
                            } else if l > h {
                                assert(l >= c);
                            } else if l < h {
                                assert(oi[l] < oi[h as int]);
                            }
                        }
                    }
                } else {
                    assert(self.fresh(r) && self.step_ok(r));
                    self.lemma_step_adjacent(r);
                    self.lemma_step_progress(r);
                    let q = self.step_spec(r);
                    assert(self.measure(q) < self.measure(p));
                    assert(self.settled(p) == self.settled(q));
                    let t2 = r.next.spec_next_exclusive(r.offset);
                    if target is AtOrAfter {
                        assert(c > 0 && h == c - 1);
                        if r.line + 1 < oi.len() {
                            assert(q == self.loc_spec(r.index, (r.line + 1) as usize, t2));
                            assert(oi[h + 1] > o);
                        } else if self.gap_spec((r.index + 1) as usize, t2) is None {
                            assert(q == self.loc_spec((r.index + 1) as usize, 0usize, t2));
                            assert(v[k].hi() <= v[k + 1].lo());
                            assert(v[k + 1].wf());
                            v[k + 1].lemma_len_bound();
                        }
                    } else {
                        assert(c == 0 && h == 0);
                        if self.gap_spec(r.index, t2) is None && r.index > 0 {
                            assert(q == self.loc_spec((r.index - 1) as usize, usize::MAX, t2));
                            assert(v[k - 1].hi() <= v[k].lo());
                            assert(v[k - 1].wf());
                            v[k - 1].lemma_len_bound();
                        }
                    }
                    if !(q is Indexed) {
                        assert(self.settled(q) == q);
                    }
                    if let Location::Indexed(s) = q {
                        assert(s.next.spec_reached(s.offset));
                        assert(self.settled(q) == q);
                        if target is AtOrAfter {
                            assert forall|k2: int, l: int| 0 <= k2 < v.len() && 0 <= l < v[k2].offsets().len() implies !(o
                                <= #[trigger] v[k2].offsets()[l] < s.offset) by {
                                let x = v[k2].offsets()[l];
                                if o <= x < s.offset {
                                    assert(r.offset < x < s.offset);
                                    assert(self.line_between(r.offset, s.offset));
                                }
                            }
                        } else {
                            assert forall|k2: int, l: int| 0 <= k2 < v.len() && 0 <= l < v[k2].offsets().len() implies !(s.offset
                                + 1 <= #[trigger] v[k2].offsets()[l] < o + 1) by {
                                let x = v[k2].offsets()[l];
                                if s.offset + 1 <= x < o + 1 {
                                    assert(s.offset < x < r.offset);
                                    assert(self.line_between(r.offset, s.offset));
                                }
                            }
                        }
                    }
                }
            }
        }
    }

    /// `locate` stays within bounds for `target`.
    pub open spec fn locate_ok(&self, target: TargetOffset) -> bool {
        let o = target.spec_value();
        match self.holder(o) {
            Some(k) => if self.ix()[k].offsets().len() == 0 {
                match target {
                    TargetOffset::AtOrAfter(_) => self.gap_spec((k + 1) as usize, target) is Some,
                    TargetOffset::AtOrBefore(_) => self.gap_spec(k as usize, target) is Some,
                }
            } else {
                self.settles(self.loc_spec(k as usize, self.hint(k, o), target))
            },
            None => self.gap_spec(self.ends_before(o) as usize, target) is Some,
        }
    }

    /// Stepping from a location that settles ends where `settled` says.
    pub proof fn lemma_settled_step(&self, r: IndexRef)
        requires
            self.wf(),
            self.fresh(r),
            self.settles(Location::Indexed(r)),
            !r.next.spec_reached(r.offset),
        ensures
            self.settled(Location::Indexed(r)) == self.settled(self.step_spec(r)),
            self.settles(self.step_spec(r)),
    {
        self.lemma_step_progress(r);
    }

    /// Find the line holding the target, or the gap that must be filled to have it.
    pub fn locate(&self, target: TargetOffset) -> (r: Location)
        requires
            self.wf(),
            self.locate_ok(target),
        ensures
            r == self.locate_spec(target),
            !(r is Virtual),
    {
        let offset = target.value();
        let n = self.indexes.len();
        let mut lo: usize = 0;
        let mut hi: usize = n;
        let mut found: Option<usize> = None;
        while lo < hi
            invariant_except_break
                found is None,
            invariant
                self.wf(),
                n == self.ix().len(),
                0 <= lo <= hi <= n,
                forall|k: int| 0 <= k < lo ==> #[trigger] self.ix()[k].hi() <= offset,
                forall|k: int| hi <= k < n ==> #[trigger] self.ix()[k].lo() > offset,
            ensures
                found is None ==> lo >= hi,
                forall|k: int| 0 <= k < lo ==> #[trigger] self.ix()[k].hi() <= offset,
                forall|k: int| hi <= k < n ==> #[trigger] self.ix()[k].lo() > offset,
                found matches Some(k) ==> k < n && self.ix()[k as int].lo() <= offset < self.ix()[k as int].hi(),
            decreases hi - lo,
        {
            let mid = lo + (hi - lo) / 2;
            if self.indexes[mid].is_before(offset) {
                proof {
                    assert forall|k: int| 0 <= k <= mid implies #[trigger] self.ix()[k].hi() <= offset by {
                        if k < mid {
                            assert(self.ix()[k].hi() <= self.ix()[mid as int].lo());
                            assert(self.ix()[mid as int].wf());
                        }
                    }
                }
                lo = mid + 1;
            } else if self.indexes[mid].is_after(offset) {
                proof {
                    assert forall|k: int| mid <= k < n implies #[trigger] self.ix()[k].lo() > offset by {
                        if k > mid {
                            assert(self.ix()[mid as int].lo() <= self.ix()[k].lo());
                        }
                    }
                }
                hi = mid;
            } else {
                found = Some(mid);
                assert(self.ix()[mid as int].lo() <= offset < self.ix()[mid as int].hi());
                break;
            }
        }
        let ghost o = offset;
        proof {
            self.lemma_holder_unique(o);
        }
        match found {
            Some(k) => {
                proof {
                    assert(self.holder(o) == Some(k as int));
                    assert(self.ix()[k as int].wf());
                }
                let line = match self.indexes[k].find(offset) {
                    Some(l) => l,
                    None => unreached(),
                };
                self.find_location(k, line, target)
            },
            None => {
                proof {
                    assert(self.holder(o) is None) by {
                        if exists|k: int| 0 <= k < self.ix().len() && #[trigger] self.ix()[k].lo() <= o < self.ix()[k].hi() {
                            let k = choose|k: int| 0 <= k < self.ix().len() && #[trigger] self.ix()[k].lo() <= o < self.ix()[k].hi();
                            if k < lo {
                            } else if k >= hi {
                            }
                        }
                    }
                    assert(lo == hi);
                    assert forall|k: int| lo <= k < n implies #[trigger] self.ix()[k].hi() > o by {
                        assert(self.ix()[k].wf());
                    }
                    assert(self.splits_at(lo as int, o));
                    let c = self.ends_before(o);
                    assert(self.splits_at(c, o));
                    if c != lo {
                        if c < lo {
                            assert(self.ix()[c].hi() <= o);
                        } else {
                            assert(self.ix()[lo as int].hi() <= o);
                        }
                    }
                }
                self.gap_at(lo, target)
            },
        }
    }

    /// At most one stretch holds an offset.
    pub proof fn lemma_holder_unique(&self, o: usize)
        requires
            self.wf(),
        ensures
            forall|k: int| 0 <= k < self.ix().len() && #[trigger] self.ix()[k].lo() <= o < self.ix()[k].hi()
                ==> self.holder(o) == Some(k),
    {
        assert forall|k: int| 0 <= k < self.ix().len() && #[trigger] self.ix()[k].lo() <= o < self.ix()[k].hi()
            implies self.holder(o) == Some(k) by {
            let c = choose|c: int| 0 <= c < self.ix().len() && #[trigger] self.ix()[c].lo() <= o < self.ix()[c].hi();
            if c < k {
                assert(self.ix()[c].hi() <= self.ix()[k].lo());
            } else if c > k {
                assert(self.ix()[k].hi() <= self.ix()[c].lo());
            }
        }
    }
}

impl EventualIndex {
    /// Where `next` goes from `find`: the next line in the direction of its target (found
    /// again by offset if the reference went stale); other locations stay where they are.
    pub open spec fn next_spec(&self, find: Location) -> Location {
        match find {
            Location::Indexed(r) => if self.fresh(r) {
                self.step_spec(r)
            } else {
                self.locate_spec(r.next.spec_next_exclusive(r.offset))
            },
            _ => find,
        }
    }

    /// `next` moves to the adjacent line in the direction of the location's target: from a
    /// line it lands on a line strictly past it that way (or, heading back from offset 0, on
    /// offset 0 again), keeping its heading, with no line of the index in between; from a
    /// line it never gives a virtual location; any other location comes back as it is.
    pub proof fn lemma_next_adjacent(&self, find: Location)
        requires
            self.wf(),
            self.ends_open(),
            self.next_ok(find),
        ensures
            !(find is Indexed) ==> self.next_spec(find) == find,
            find is Indexed ==> !(self.next_spec(find) is Virtual),
            find matches Location::Indexed(r) ==> (self.next_spec(find) matches Location::Indexed(s) ==> {
                &&& self.fresh(s)
                &&& (s.next is AtOrAfter) == (r.next is AtOrAfter)
                &&& r.next is AtOrAfter ==> r.offset < s.offset
                &&& r.next is AtOrBefore ==> s.offset < r.offset || (s.offset == 0 && r.offset == 0)
                &&& !self.line_between(r.offset, s.offset)
            }),
    {
        if let Location::Indexed(r) = find {
            if self.fresh(r) {
                self.lemma_step_adjacent(r);
            } else {
                let t = r.next.spec_next_exclusive(r.offset);
                self.lemma_locate_nearest(t);
                if let Location::Indexed(s) = self.locate_spec(t) {
                    let v = self.ix();
                    assert forall|k: int, l: int| 0 <= k < v.len() && 0 <= l < v[k].offsets().len() implies ({
                        let x = #[trigger] v[k].offsets()[l];
                        !((r.offset < x < s.offset) || (s.offset < x < r.offset))
                    }) by {
                        let x = v[k].offsets()[l];
                        if r.next is AtOrAfter {
                            if r.offset < x < s.offset {
                                assert(t.spec_value() <= x < s.offset);
                            }
                        } else {
                            if s.offset < x < r.offset {
                                assert(s.offset + 1 <= x < t.spec_value() + 1);
                            }
                        }
                    }
                }
            }
        }
    }

    /// `next` stays within bounds from `find`.
    pub open spec fn next_ok(&self, find: Location) -> bool {
        match find {
            Location::Indexed(r) => {
                &&& r.index < self.ix().len()
                &&& if self.fresh(r) {
                    self.step_ok(r)
                } else {
                    &&& (r.next is AtOrAfter ==> r.offset < usize::MAX)
                    &&& self.locate_ok(r.next.spec_next_exclusive(r.offset))
                }
            },
            _ => true,
        }
    }

    /// Move to the next (or previous) line, in the direction of the location's target.
    pub fn next(&self, find: Location) -> (r: Location)
        requires
            self.wf(),
            self.next_ok(find),
        ensures
            r == self.next_spec(find),
    {
        if let Location::Indexed(iref) = find {
            let IndexRef { index, line, offset, next } = iref;
            let i = &self.indexes[index];
            if line >= i.lines() || i.get(line) != offset {
                // The reference is stale: find the line after this offset again.
                self.locate(next.next_exclusive(offset))
            } else {
                self.step(iref)
            }
        } else {
            find
        }
    }

    /// The last line of the last stretch, heading back from the end of the file.
    pub open spec fn last_spec(&self, end_of_file: usize) -> Location {
        let k = (self.ix().len() - 1) as usize;
        let pos = self.loc_spec(k, (self.ix()[k as int].offsets().len() - 1) as usize, TargetOffset::AtOrBefore(end_of_file));
        if pos->Indexed_0.offset == end_of_file {
            self.next_spec(pos)
        } else {
            pos
        }
    }

    /// What `resolve` makes of `find` in a file of `end_of_file` bytes.
    pub open spec fn resolve_spec(&self, find: Location, end_of_file: usize) -> Location {
        let m = |o: usize| if o < end_of_file { o } else { end_of_file };
        match find {
            Location::Virtual(VirtualLocation::Before(o)) => if o == 0 {
                Location::Invalid
            } else {
                self.locate_spec(TargetOffset::AtOrBefore((m(o) - 1) as usize))
            },
            Location::Virtual(VirtualLocation::AtOrAfter(o)) => self.locate_spec(TargetOffset::AtOrAfter(m(o))),
            Location::Virtual(VirtualLocation::Start) => match self.gap_spec(0, TargetOffset::AtOrAfter(0)) {
                Some(g) => g,
                None => self.loc_spec(0, 0, TargetOffset::AtOrAfter(0)),
            },
            Location::Virtual(VirtualLocation::End) => match self.gap_spec(
                self.ix().len() as usize,
                TargetOffset::AtOrBefore(if end_of_file > 0 { (end_of_file - 1) as usize } else { 0 }),
            ) {
                Some(g) => g,
                None => self.last_spec(end_of_file),
            },
            _ => find,
        }
    }

    /// `resolve` stays within bounds for `find`.
    pub open spec fn resolve_ok(&self, find: Location, end_of_file: usize) -> bool {
        let m = |o: usize| if o < end_of_file { o } else { end_of_file };
        match find {
            Location::Virtual(VirtualLocation::Before(o)) => o == 0 || (m(o) > 0
                && self.locate_ok(TargetOffset::AtOrBefore((m(o) - 1) as usize))),
            Location::Virtual(VirtualLocation::AtOrAfter(o)) => self.locate_ok(TargetOffset::AtOrAfter(m(o))),
            Location::Virtual(VirtualLocation::End) => self.gap_spec(
                self.ix().len() as usize,
                TargetOffset::AtOrBefore(if end_of_file > 0 { (end_of_file - 1) as usize } else { 0 }),
            ) is None ==> {
                let k = self.ix().len() - 1;
                &&& self.ix()[k].offsets().len() > 0
                &&& {
                    let pos = self.loc_spec(k as usize, (self.ix()[k].offsets().len() - 1) as usize, TargetOffset::AtOrBefore(end_of_file));
                    pos->Indexed_0.offset == end_of_file ==> self.next_ok(pos)
                }
            },
            _ => true,
        }
    }

    /// Turn a virtual location into an indexed location or a gap.
    pub fn resolve(&self, find: Location, end_of_file: usize) -> (r: Location)
        requires
            self.wf(),
            self.resolve_ok(find, end_of_file),
        ensures
            r == self.resolve_spec(find, end_of_file),
    {
        match find {
            Location::Virtual(loc) => match loc {
                VirtualLocation::Before(0) => Location::Invalid,
                VirtualLocation::Before(offset) => {
                    let o = if offset < end_of_file { offset } else { end_of_file };
                    self.locate(TargetOffset::AtOrBefore(o - 1))
                },
                VirtualLocation::AtOrAfter(offset) => {
                    let o = if offset < end_of_file { offset } else { end_of_file };
                    self.locate(TargetOffset::AtOrAfter(o))
                },
                VirtualLocation::Start => {
                    if let Some(gap) = self.try_gap_at(0, TargetOffset::AtOrAfter(0)) {
                        gap
                    } else {
                        self.get_location(0, 0, TargetOffset::AtOrAfter(0))
                    }
                },
                VirtualLocation::End => {
                    let n = self.indexes.len();
                    if let Some(gap) = self.try_gap_at(n, TargetOffset::AtOrBefore(end_of_file.saturating_sub(1))) {
                        gap
                    } else {
                        let index = n - 1;
                        let line = self.indexes[index].len() - 1;
                        let mut pos = self.get_location(index, line, TargetOffset::AtOrBefore(end_of_file));
                        // Skip a line that starts at the very end of the file.
                        if let Some(o) = pos.found_offset() {
                            if o == end_of_file {
                                pos = self.next(pos);
                            }
                        }
                        pos
                    }
                },
            },
            _ => find,
        }
    }
}

impl EventualIndex {
    /// The stretch that takes in `range` explored in the gap before stretch `ix`: the one
    /// before the gap if it touches the range, else the one after it if it does, else a new
    /// stretch put at `ix`.
    pub open spec fn chosen(&self, ix: int, range: Range<usize>) -> (int, bool) {
        let v = self.ix();
        if ix > 0 && (v[ix - 1].touches_spec(range.start) || v[ix - 1].touches_spec(range.end)) {
            (ix - 1, false)
        } else if ix < v.len() && (v[ix].touches_spec(range.start) || v[ix].touches_spec(range.end)) {
            (ix, false)
        } else {
            (ix, true)
        }
    }

    /// `range` lies in the gap before stretch `ix`.
    pub open spec fn in_gap(&self, ix: int, range: Range<usize>) -> bool {
        &&& 0 <= ix <= self.ix().len()
        &&& range.start <= range.end
        &&& (ix > 0 ==> self.ix()[ix - 1].hi() <= range.start)
        &&& (ix < self.ix().len() ==> range.end <= self.ix()[ix].lo())
    }

    /// Record `range` as explored, found in the gap `pos`, and the line start `offset` found
    /// in it, if any. Returns where the line was stored, or, with no line, the gap after the
    /// range (or the nearest line if no gap is left there).
    #[verifier::spinoff_prover]
    #[verifier::rlimit(100)]
    pub fn insert(&mut self, pos: &Location, range: &Range<usize>, offset: Option<usize>) -> (r: Location)
        requires
            old(self).wf(),
            *pos is Gap,
            old(self).in_gap(pos->Gap_0.index as int, *range),
            offset matches Some(o) ==> range.start <= o <= range.end,
            offset is None ==> ({
                let (k, f) = old(self).chosen(pos->Gap_0.index as int, *range);
                let v = old(self).ix();
                let t = pos->Gap_0.target.spec_value();
                let lo = if f || range.start < v[k].lo() { range.start } else { v[k].lo() };
                let hi = if f || range.end > v[k].hi() { range.end } else { v[k].hi() };
                let after = if f { k } else { k + 1 };
                ||| (!f && v[k].offsets().len() > 0)
                ||| (!(lo <= t < hi) && (after == v.len() || v[after].lo() > hi))
            }),
        ensures
            final(self).wf(),
            ({
                let (k, fresh_stretch) = old(self).chosen(pos->Gap_0.index as int, *range);
                let v = old(self).ix();
                let w = final(self).ix();
                &&& w.len() == v.len() + (if fresh_stretch { 1int } else { 0 })
                &&& forall|j: int| 0 <= j < k ==> #[trigger] w[j] == v[j]
                &&& forall|j: int| k < j < w.len() ==> #[trigger] w[j] == v[j - (if fresh_stretch { 1int } else { 0 })]
                &&& fresh_stretch ==> w[k].lo() == range.start && w[k].hi() == range.end
                &&& !fresh_stretch ==> w[k].lo() == (if range.start < v[k].lo() { range.start } else { v[k].lo() })
                    && w[k].hi() == (if range.end > v[k].hi() { range.end } else { v[k].hi() })
                &&& match offset {
                    Some(o) => {
                        &&& (fresh_stretch ==> w[k].offsets().to_set() == set![o])
                        &&& (!fresh_stretch ==> w[k].offsets().to_set() == v[k].offsets().to_set().insert(o))
                        &&& r matches Location::Indexed(q) && q.index == k && q.offset == o && q.next == pos->Gap_0.target
                            && final(self).fresh(q)
                    },
                    None => {
                        &&& (fresh_stretch ==> w[k].offsets().len() == 0)
                        &&& (!fresh_stretch ==> w[k].offsets() == v[k].offsets())
                        &&& (final(self).gap_spec((k + 1) as usize, pos->Gap_0.target) matches Some(g) ==> r == g)
                        &&& (final(self).gap_spec((k + 1) as usize, pos->Gap_0.target) is None ==> r is Indexed
                            && r->Indexed_0.index == k && final(self).fresh(r->Indexed_0))
                    },
                }
            }),
    {
        let gap_range = match pos {
            Location::Gap(g) => *g,
            _ => unreached(),
        };
        let ix = gap_range.index;
        let n = self.indexes.len();
        let ghost v = self.ix();
        let index = if ix > 0 && (self.indexes[ix - 1].touches(range.start) || self.indexes[ix - 1].touches(range.end)) {
            // Append to the stretch before the gap.
            ix - 1
        } else if ix < n && (self.indexes[ix].touches(range.start) || self.indexes[ix].touches(range.end)) {
            // Prepend to the stretch after the gap.
            ix
        } else {
            // No stretch touches the range: start a new, empty one where it begins.
            self.indexes.insert(ix, Index::at(range.start));
            ix
        };
        let ghost v1 = self.ix();
        proof {
            assert(v[ix as int - 1].wf() || ix == 0);
            if ix < n {
                assert(v[ix as int].wf());
            }
        }
        let ghost before = self.ix()[index as int];
        let line = self.indexes[index].insert(range, offset);
        proof {
            let w = self.ix();
            assert(w =~= v1.update(index as int, w[index as int]));
            assert forall|a: int| 0 <= a < w.len() implies #[trigger] w[a].wf() by {
                if a != index {
                    if a < ix || v1.len() == v.len() {
                        assert(w[a] == v1[a]);
                    }
                    assert(w[a] == v1[a]);
                    if v1.len() == v.len() || a < ix {
                        assert(v1[a] == v[a]);
                    } else {
                        assert(v1[a] == v[a - 1]);
                    }
                }
            }
            assert forall|a: int, b: int| 0 <= a < b < w.len() implies #[trigger] w[a].hi() <= #[trigger] w[b].lo() by {
                let sa = if v1.len() == v.len() || a < ix { a } else { a - 1 };
                let sb = if v1.len() == v.len() || b < ix { b } else { b - 1 };
                if a != index && b != index {
                    assert(w[a] == v[sa] && w[b] == v[sb]);
                    assert(v[sa].wf());
                } else if a == index {
                    assert(w[b] == v[sb]);
                    if v1.len() == v.len() && index + 1 == ix {
                        if b > ix {
                            assert(v[ix as int].lo() <= v[ix as int].hi());
                            assert(v[ix as int].wf());
                        }
                    }
                } else {
                    assert(w[a] == v[sa]);
                    assert(v[sa].wf());
                    if v1.len() == v.len() && index == ix && a < ix - 1 {
                        assert(v[a].hi() <= v[ix - 1].lo());
                        assert(v[ix - 1].wf());
                    }
                }
            }
            assert forall|a: int, b: int| 0 <= a < b < w.len() implies #[trigger] w[a].lo() <= #[trigger] w[b].lo() by {
                assert(w[a].hi() <= w[b].lo());
                assert(w[a].wf());
            }
        }
        if index > 0 {
            proof {
                assert(self.ix()[index - 1].hi() <= self.ix()[index as int].lo());
            }
        }
        match offset {
            Some(o) => {
                proof {
                    let w = self.ix()[index as int];
                    if v1.len() > v.len() {
                        assert(before.offsets().len() == 0);
                        assert(before.offsets().to_set() =~= Set::<usize>::empty());
                        assert(w.offsets().to_set() =~= set![o]);
                    }
                }
                Location::Indexed(IndexRef { index, line, offset: o, next: gap_range.target })
            },
            None => {
                let n2 = self.indexes.len();
                if let Some(gap) = self.try_gap_at(index + 1, gap_range.target) {
                    gap
                } else {
                    proof {
                        let w = self.ix();
                        if v1.len() > v.len() {
                            assert(w[index as int].lo() == range.start && w[index as int].hi() == range.end);
                        }
                    }
                    self.get_location(index, line, gap_range.target)
                }
            },
        }
    }
}

/// Every line start recorded in the stretches.
pub open spec fn all_offsets(v: Seq<Index>) -> Set<usize>
    decreases v.len(),
{
    if v.len() == 0 {
        Set::empty()
    } else {
        all_offsets(v.drop_last()) + v.last().offsets().to_set()
    }
}

/// Two lists of stretches cover the same ranges with the same line starts, in the same order.
pub open spec fn same_stretches(a: Seq<Index>, b: Seq<Index>) -> bool {
    &&& a.len() == b.len()
    &&& forall|j: int| 0 <= j < a.len() ==> #[trigger] a[j].lo() == b[j].lo() && a[j].hi() == b[j].hi()
        && a[j].offsets() == b[j].offsets()
}

/// Stretches that each hold lines, with a gap between each one and the next.
pub open spec fn chain(s: Seq<Index>) -> bool {
    &&& forall|a: int| 0 <= a < s.len() ==> #[trigger] s[a].wf() && s[a].offsets().len() > 0
    &&& forall|a: int, b: int| 0 <= a < b < s.len() ==> #[trigger] s[a].hi() < #[trigger] s[b].lo()
}

pub proof fn lemma_chain_push(s: Seq<Index>, x: Index)
    requires
        chain(s),
        x.wf(),
        x.offsets().len() > 0,
        s.len() > 0 ==> s.last().hi() < x.lo(),
    ensures
        chain(s.push(x)),
{
    let w = s.push(x);
    assert forall|a: int| 0 <= a < w.len() implies #[trigger] w[a].wf() && w[a].offsets().len() > 0 by {
        if a < s.len() {
            assert(w[a] == s[a]);
        }
    }
    assert forall|a: int, b: int| 0 <= a < b < w.len() implies #[trigger] w[a].hi() < #[trigger] w[b].lo() by {
        if b == s.len() && a < s.len() - 1 {
            assert(s[a].hi() < s[s.len() - 1].lo());
            assert(s[s.len() - 1].wf());
        }
    }
}

pub proof fn lemma_chain_last(s: Seq<Index>, y: Index)
    requires
        chain(s),
        s.len() > 0,
        y.wf(),
        y.offsets().len() > 0,
        y.lo() == s.last().lo(),
    ensures
        chain(s.update(s.len() - 1, y)),
{
    let w = s.update(s.len() - 1, y);
    assert forall|a: int| 0 <= a < w.len() implies #[trigger] w[a].wf() && w[a].offsets().len() > 0 by {
        if a < s.len() - 1 {
            assert(w[a] == s[a]);
        }
    }
    assert forall|a: int, b: int| 0 <= a < b < w.len() implies #[trigger] w[a].hi() < #[trigger] w[b].lo() by {
        assert(w[a] == s[a]);
        if b < s.len() - 1 {
            assert(w[b] == s[b]);
        }
    }
}

pub proof fn lemma_all_offsets_push(s: Seq<Index>, x: Index)
    ensures
        all_offsets(s.push(x)) == all_offsets(s) + x.offsets().to_set(),
{
    assert(s.push(x).drop_last() =~= s);
}

pub proof fn lemma_all_offsets_last(s: Seq<Index>, y: Index)
    requires
        s.len() > 0,
    ensures
        all_offsets(s.update(s.len() - 1, y)) == all_offsets(s.drop_last()) + y.offsets().to_set(),
        all_offsets(s) == all_offsets(s.drop_last()) + s.last().offsets().to_set(),
{
    assert(s.update(s.len() - 1, y).drop_last() =~= s.drop_last());
}

impl EventualIndex {
    /// Consecutive stretches are neither overlapping nor adjacent, and each holds lines.
    pub open spec fn compact(&self) -> bool {
        chain(self.ix())
    }

    /// Drop the stretches without lines and join the ones that touch. With fewer than two
    /// stretches nothing is done.
    pub fn finalize(&mut self)
        requires
            old(self).wf(),
        ensures
            final(self).wf(),
            old(self).ix().len() < 2 ==> final(self).ix() == old(self).ix(),
            old(self).ix().len() >= 2 ==> final(self).compact()
                && all_offsets(final(self).ix()) == all_offsets(old(self).ix()),
            old(self).compact() ==> same_stretches(final(self).ix(), old(self).ix()),
    {
        let n = self.indexes.len();
        if n < 2 {
            return;
        }
        let ghost v = self.ix();
        let mut acc: Vec<Index> = Vec::new();
        let mut k: usize = 0;
        while k < n
            invariant
                0 <= k <= n,
                n == v.len(),
                self.ix() == v,
                self.wf(),
                chain(acc@),
                acc@.len() > 0 ==> forall|j: int| k <= j < n ==> acc@.last().hi() <= #[trigger] v[j].lo(),
                all_offsets(acc@) == all_offsets(v.take(k as int)),
                chain(v) ==> same_stretches(acc@, v.take(k as int)),
            decreases n - k,
        {
            let ghost before = acc@;
            let ghost x = v[k as int];
            proof {
                if chain(v) && k > 0 {
                    let tk = v.take(k as int);
                    assert(before.len() == k);
                    assert(tk[k - 1] == v[k - 1]);
                    assert(before[k - 1].lo() == tk[k - 1].lo());
                    assert(before.last().hi() == v[k - 1].hi());
                    assert(v[k - 1].hi() < x.lo());
                }
            }
            proof {
                assert(v.take(k + 1) =~= v.take(k as int).push(x));
                lemma_all_offsets_push(v.take(k as int), x);
                assert(x.wf());
                assert forall|j: int| k < j < n implies x.hi() <= #[trigger] v[j].lo() by {}
            }
            if self.indexes[k].is_empty() {
                proof {
                    assert(x.offsets().to_set() =~= Set::<usize>::empty());
                    assert(all_offsets(v.take(k + 1)) =~= all_offsets(v.take(k as int)));
                }
            } else {
                let m = acc.len();
                if m > 0 && acc[m - 1].adjacent(&self.indexes[k].range()) {
                    let ghost last = before.last();
                    proof {
                        assert(before[m - 1].wf());
                        assert(last.hi() <= x.lo());
                    }
                    acc[m - 1].merge(&self.indexes[k]);
                    proof {
                        let y = acc@[m - 1];
                        assert(acc@ =~= before.update(m - 1, y));
                        assert(y.lo() == last.lo());
                        assert(y.offsets().len() > 0) by {
                            assert(x.offsets().to_set().contains(x.offsets()[0]));
                            assert(y.offsets().to_set().contains(x.offsets()[0]));
                        }
                        lemma_chain_last(before, y);
                        lemma_all_offsets_last(before, y);
                        assert(all_offsets(acc@) =~= all_offsets(v.take(k + 1)));
                    }
                } else {
                    acc.push(self.indexes[k].clone());
                    proof {
                        let y = acc@[m as int];
                        assert(acc@ == before.push(y));
                        if m > 0 {
                            assert(before.last().hi() < x.lo());
                        }
                        lemma_chain_push(before, y);
                        lemma_all_offsets_push(before, y);
                        if chain(v) {
                            assert(v.take(k + 1) =~= v.take(k as int).push(x));
                            assert(same_stretches(acc@, v.take(k + 1)));
                        }
                    }
                }
            }
            k = k + 1;
        }
        proof {
            assert(v.take(n as int) =~= v);
        }
        self.indexes = acc;
        proof {
            let w = self.ix();
            assert forall|a: int, b: int| 0 <= a < b < w.len() implies #[trigger] w[a].lo() <= #[trigger] w[b].lo() by {
                assert(w[a].hi() < w[b].lo());
                assert(w[a].wf());
            }
            assert forall|a: int, b: int| 0 <= a < b < w.len() implies #[trigger] w[a].hi() <= #[trigger] w[b].lo() by {
                assert(w[a].hi() < w[b].lo());
            }
        }
    }
}

pub proof fn lemma_sum_bytes_prefix(v: Seq<Index>, k: int)
    requires
        0 < k <= v.len(),
        forall|j: int| 0 <= j < v.len() ==> #[trigger] v[j].wf(),
    ensures
        sum_bytes(v.take(k - 1)) <= sum_bytes(v.take(k)) <= sum_bytes(v),
        sum_bytes(v.take(k)) == sum_bytes(v.take(k - 1)) + (v[k - 1].hi() - v[k - 1].lo()),
    decreases v.len() - k,
{
    assert(v.take(k).drop_last() =~= v.take(k - 1));
    assert(v[k - 1].wf());
    if k < v.len() {
        lemma_sum_bytes_prefix(v, k + 1);
        assert(v[k].wf());
    } else {
        assert(v.take(k) =~= v);
    }
}

pub proof fn lemma_sum_lines_nonneg(v: Seq<Index>)
    ensures
        sum_lines(v) >= 0,
    decreases v.len(),
{
    if v.len() > 0 {
        lemma_sum_lines_nonneg(v.drop_last());
    }
}

pub proof fn lemma_sum_lines_prefix(v: Seq<Index>, k: int)
    requires
        0 < k <= v.len(),
    ensures
        sum_lines(v.take(k - 1)) <= sum_lines(v.take(k)) <= sum_lines(v),
        sum_lines(v.take(k)) == sum_lines(v.take(k - 1)) + v[k - 1].offsets().len(),
    decreases v.len() - k,
{
    assert(v.take(k).drop_last() =~= v.take(k - 1));
    if k < v.len() {
        lemma_sum_lines_prefix(v, k + 1);
    } else {
        assert(v.take(k) =~= v);
    }
}

} // verus!
