//! SaneIndex: a map of the explored regions of a file.
//!
//! The map is a sequence of waypoints sorted by offset: mapped waypoints are lines we have
//! read, unmapped waypoints are regions not scanned yet. Initially the whole file is a single
//! unmapped region `[0, usize::MAX)`. The sequence is stored as a vector of rows (a split
//! vector): each row holds either a single unmapped waypoint or one or more mapped ones.

use vstd::prelude::*;
use std::ops::Range;
use crate::waypoint::{Waypoint, Position, VirtualPosition};
use crate::indexed_log::IndexStats;

verus! {

pub type IndexIndex = (usize, usize);

/// Concatenation of all rows.
pub open spec fn flat(rows: Seq<Seq<Waypoint>>) -> Seq<Waypoint>
    decreases rows.len(),
{
    if rows.len() == 0 {
        Seq::empty()
    } else {
        flat(rows.drop_last()) + rows.last()
    }
}

/// Position in the concatenation of the first element of row `i`.
pub open spec fn base(rows: Seq<Seq<Waypoint>>, i: int) -> int {
    flat(rows.take(i)).len() as int
}

/// A row holds a single unmapped waypoint or only mapped ones, and is never empty.
pub open spec fn row_ok(r: Seq<Waypoint>) -> bool {
    &&& r.len() > 0
    &&& (r.len() == 1 && !r[0].spec_is_mapped()) || (forall|j: int|
        0 <= j < r.len() ==> #[trigger] r[j].spec_is_mapped())
}

pub open spec fn rows_ok(rows: Seq<Seq<Waypoint>>) -> bool {
    forall|i: int| 0 <= i < rows.len() ==> #[trigger] row_ok(rows[i])
}

/// Every waypoint is non-empty and waypoints are disjoint and in increasing order.
pub open spec fn sorted(v: Seq<Waypoint>) -> bool {
    &&& forall|k: int| 0 <= k < v.len() ==> #[trigger] v[k].lo() < v[k].hi()
    &&& forall|k: int, l: int| 0 <= k < l < v.len() ==> #[trigger] v[k].hi() <= #[trigger] v[l].lo()
}

/// Number of bytes not explored yet.
pub open spec fn unmapped_bytes(v: Seq<Waypoint>) -> int
    decreases v.len(),
{
    if v.len() == 0 {
        0
    } else {
        unmapped_bytes(v.drop_last()) + (if v.last().spec_is_mapped() {
            0
        } else {
            v.last().hi() - v.last().lo()
        })
    }
}

/// Number of mapped waypoints (lines).
pub open spec fn mapped_count(v: Seq<Waypoint>) -> int
    decreases v.len(),
{
    if v.len() == 0 {
        0
    } else {
        mapped_count(v.drop_last()) + (if v.last().spec_is_mapped() { 1int } else { 0 })
    }
}


/// `k` is where a search for `offset` lands: the first waypoint that ends after `offset`
/// (so it holds `offset`, or it is the next one after it), or the last waypoint if none does.
pub open spec fn search_spot(v: Seq<Waypoint>, offset: usize, k: int) -> bool {
    &&& 0 <= k < v.len()
    &&& (k == 0 || v[k - 1].hi() <= offset)
    &&& (k == v.len() - 1 || offset < v[k].hi())
}


/// What is left of unmapped waypoint `w` once `gap` (which it covers) has been explored:
/// the part before the gap and the part after it, when not empty.
pub open spec fn gap_rest(w: Waypoint, gap: Range<usize>) -> Seq<Waypoint> {
    (if w.lo() < gap.start {
        seq![Waypoint::Unmapped(w.lo()..gap.start)]
    } else {
        Seq::<Waypoint>::empty()
    }) + (if w.hi() > gap.end {
        seq![Waypoint::Unmapped(gap.end..w.hi())]
    } else {
        Seq::<Waypoint>::empty()
    })
}

/// The part of `range` that waypoint `w` covers.
pub open spec fn overlap(w: Waypoint, range: Range<usize>) -> Range<usize> {
    (if w.lo() > range.start { w.lo() } else { range.start })..(if w.hi() < range.end {
        w.hi()
    } else {
        range.end
    })
}

/// Replacing a block of a sorted sequence by sorted waypoints lying within the block's span
/// keeps the sequence sorted.
pub proof fn lemma_sorted_replace(
    p: Seq<Waypoint>,
    x: Seq<Waypoint>,
    m: Seq<Waypoint>,
    q: Seq<Waypoint>,
)
    requires
        sorted(p + x + q),
        x.len() > 0,
        sorted(m),
        forall|j: int| 0 <= j < m.len() ==> x[0].lo() <= #[trigger] m[j].lo() && m[j].hi() <= x.last().hi(),
    ensures
        sorted(p + m + q),
{
    let v = p + x + q;
    let r = p + m + q;
    assert forall|k: int| 0 <= k < r.len() implies #[trigger] r[k].lo() < r[k].hi() by {
        if k < p.len() {
            assert(r[k] == v[k]);
        } else if k < p.len() + m.len() {
            assert(r[k] == m[k - p.len()]);
        } else {
            assert(r[k] == v[k - m.len() + x.len()]);
        }
    }
    assert forall|k: int, l: int| 0 <= k < l < r.len() implies #[trigger] r[k].hi() <= #[trigger] r[l].lo() by {
        let xl = p.len() + x.len() - 1;
        assert(v[p.len() as int] == x[0]);
        assert(v[xl] == x.last());
        if k < p.len() {
            assert(r[k] == v[k]);
            if l < p.len() {
                assert(r[l] == v[l]);
            } else if l < p.len() + m.len() {
                assert(r[l] == m[l - p.len()]);
                assert(x[0].lo() <= m[l - p.len()].lo());
                assert(v[k].hi() <= v[p.len() as int].lo());
            } else {
                assert(r[l] == v[l - m.len() + x.len()]);
            }
        } else if k < p.len() + m.len() {
            assert(r[k] == m[k - p.len()]);
            assert(x[0].lo() <= m[k - p.len()].lo() && m[k - p.len()].hi() <= x.last().hi());
            if l < p.len() + m.len() {
                assert(r[l] == m[l - p.len()]);
                assert(m[k - p.len()].hi() <= m[l - p.len()].lo());
            } else {
                assert(r[l] == v[l - m.len() + x.len()]);
                if xl < l - m.len() + x.len() {
                    assert(v[xl].hi() <= v[l - m.len() + x.len()].lo());
                }
                assert(r[k].hi() <= r[l].lo());
            }
        } else {
            assert(r[k] == v[k - m.len() + x.len()]);
            assert(r[l] == v[l - m.len() + x.len()]);
        }
    }
}


/// The rows that replace the row of unmapped waypoint `w` once `gap` has been explored:
/// one row for each remaining piece, or a single empty row if nothing remains.
pub open spec fn split_rows(w: Waypoint, gap: Range<usize>) -> Seq<Seq<Waypoint>> {
    let l = w.lo() < gap.start;
    let r = w.hi() > gap.end;
    if l && r {
        seq![seq![Waypoint::Unmapped(w.lo()..gap.start)], seq![Waypoint::Unmapped(gap.end..w.hi())]]
    } else if l {
        seq![seq![Waypoint::Unmapped(w.lo()..gap.start)]]
    } else if r {
        seq![seq![Waypoint::Unmapped(gap.end..w.hi())]]
    } else {
        seq![Seq::<Waypoint>::empty()]
    }
}

/// How many rows mapping line `range` into the gap `v[k]` adds: none when the line fills the
/// gap (it takes the gap's row), or when it joins the row of lines just before the gap (the
/// rest of the gap follows the line) or just after it (the rest precedes the line); one for a
/// row of its own otherwise; two when the gap is split in two around the line.
pub open spec fn insert_rows(v: Seq<Waypoint>, k: int, range: Range<usize>) -> int {
    let w = v[k];
    let l = w.lo() < range.start;
    let rt = w.hi() > range.end;
    if !l && !rt {
        0
    } else if !l {
        if k > 0 && v[k - 1].spec_is_mapped() { 0 } else { 1 }
    } else if rt {
        2
    } else {
        if k + 1 < v.len() && v[k + 1].spec_is_mapped() { 0 } else { 1 }
    }
}

/// Both ends of unmapped waypoint `w` survive when `gap` is explored.
pub open spec fn splits_in_two(w: Waypoint, gap: Range<usize>) -> bool {
    w.lo() < gap.start && w.hi() > gap.end
}

pub proof fn lemma_split_rows(w: Waypoint, gap: Range<usize>)
    requires
        !w.spec_is_mapped(),
        w.lo() <= gap.start < gap.end <= w.hi(),
    ensures
        flat(split_rows(w, gap)) == gap_rest(w, gap),
        sorted(gap_rest(w, gap)),
        forall|j: int| 0 <= j < gap_rest(w, gap).len() ==> w.lo() <= #[trigger] gap_rest(w, gap)[j].lo()
            && gap_rest(w, gap)[j].hi() <= w.hi() && !gap_rest(w, gap)[j].spec_is_mapped(),
        unmapped_bytes(gap_rest(w, gap)) == (w.hi() - w.lo()) - (gap.end - gap.start),
        mapped_count(gap_rest(w, gap)) == 0,
        gap_rest(w, gap).len() == (if w.lo() < gap.start { 1int } else { 0 }) + (if w.hi() > gap.end { 1int } else { 0 }),
        rows_ok(split_rows(w, gap)) || gap_rest(w, gap).len() == 0,
{
    let l = Waypoint::Unmapped(w.lo()..gap.start);
    let r = Waypoint::Unmapped(gap.end..w.hi());
    let e = Seq::<Waypoint>::empty();
    lemma_unmapped_single(l);
    lemma_unmapped_single(r);
    if w.lo() < gap.start && w.hi() > gap.end {
        assert(gap_rest(w, gap) =~= seq![l, r]);
        lemma_flat_pair(seq![l], seq![r]);
        assert(seq![l] + seq![r] =~= seq![l, r]);
        assert(seq![l, r] =~= seq![l] + seq![r]);
        lemma_unmapped_append(seq![l], seq![r]);
    } else if w.lo() < gap.start {
        assert(gap_rest(w, gap) =~= seq![l]);
        lemma_flat_single(seq![l]);
    } else if w.hi() > gap.end {
        assert(gap_rest(w, gap) =~= seq![r]);
        lemma_flat_single(seq![r]);
    } else {
        assert(gap_rest(w, gap) =~= e);
        lemma_flat_single(e);
        assert(unmapped_bytes(e) == 0);
        assert(mapped_count(e) == 0);
    }
}

/// What replaces unmapped waypoint `w` once the line `range`, which it covers, is mapped:
/// the part of the gap before the line, the line, and the part of the gap after it.
pub open spec fn gap_fill(w: Waypoint, range: Range<usize>) -> Seq<Waypoint> {
    (if w.lo() < range.start {
        seq![Waypoint::Unmapped(w.lo()..range.start)]
    } else {
        Seq::<Waypoint>::empty()
    }) + seq![Waypoint::Mapped(range)] + (if w.hi() > range.end {
        seq![Waypoint::Unmapped(range.end..w.hi())]
    } else {
        Seq::<Waypoint>::empty()
    })
}

pub proof fn lemma_gap_fill(w: Waypoint, range: Range<usize>)
    requires
        !w.spec_is_mapped(),
        w.lo() <= range.start < range.end <= w.hi(),
    ensures
        sorted(gap_fill(w, range)),
        forall|j: int| 0 <= j < gap_fill(w, range).len() ==> w.lo() <= #[trigger] gap_fill(w, range)[j].lo()
            && gap_fill(w, range)[j].hi() <= w.hi(),
        unmapped_bytes(gap_fill(w, range)) == (w.hi() - w.lo()) - (range.end - range.start),
        mapped_count(gap_fill(w, range)) == 1,
{
    let l = Waypoint::Unmapped(w.lo()..range.start);
    let m = Waypoint::Mapped(range);
    let r = Waypoint::Unmapped(range.end..w.hi());
    let e = Seq::<Waypoint>::empty();
    lemma_unmapped_single(l);
    lemma_unmapped_single(m);
    lemma_unmapped_single(r);
    assert(unmapped_bytes(e) == 0 && mapped_count(e) == 0);
    let a = if w.lo() < range.start { seq![l] } else { e };
    let b = if w.hi() > range.end { seq![r] } else { e };
    lemma_counts_three(a, seq![m], b);
    let g = gap_fill(w, range);
    if w.lo() < range.start && w.hi() > range.end {
        assert(g =~= seq![l, m, r]);
    } else if w.lo() < range.start {
        assert(g =~= seq![l, m]);
    } else if w.hi() > range.end {
        assert(g =~= seq![m, r]);
    } else {
        assert(g =~= seq![m]);
    }
}

/// Stretching waypoint `k` of a sorted sequence up to the start of the next one keeps the
/// sequence sorted.
pub proof fn lemma_sorted_stretch(v: Seq<Waypoint>, k: int, nw: Waypoint)
    requires
        sorted(v),
        0 <= k < v.len(),
        nw.lo() == v[k].lo(),
        v[k].hi() <= nw.hi(),
        k + 1 == v.len() || nw.hi() <= v[k + 1].lo(),
    ensures
        sorted(v.update(k, nw)),
{
    let u = v.update(k, nw);
    assert(v[k].lo() < v[k].hi());
    assert forall|a: int| 0 <= a < u.len() implies #[trigger] u[a].lo() < u[a].hi() by {
        if a != k {
            assert(u[a] == v[a]);
        }
    }
    assert forall|a: int, b: int| 0 <= a < b < u.len() implies #[trigger] u[a].hi() <= #[trigger] u[b].lo() by {
        if a == k && b > k + 1 {
            assert(v[k + 1].hi() <= v[b].lo());
            assert(v[k + 1].lo() < v[k + 1].hi());
        } else if b == k && a < k {
            assert(v[a].hi() <= v[k].lo());
        } else if a != k && b != k {
            assert(u[a] == v[a] && u[b] == v[b]);
        }
    }
}

pub proof fn lemma_unmapped_nonneg(v: Seq<Waypoint>)
    requires
        forall|k: int| 0 <= k < v.len() ==> #[trigger] v[k].lo() <= v[k].hi(),
    ensures
        unmapped_bytes(v) >= 0,
    decreases v.len(),
{
    if v.len() > 0 {
        assert forall|k: int| 0 <= k < v.drop_last().len() implies #[trigger] v.drop_last()[k].lo() <= v.drop_last()[k].hi() by {
            assert(v.drop_last()[k] == v[k]);
        }
        lemma_unmapped_nonneg(v.drop_last());
        assert(v.last() == v[v.len() - 1]);
    }
}

/// The counters of a sequence split around position `k`.
pub proof fn lemma_counts_around(v: Seq<Waypoint>, k: int)
    requires
        0 <= k < v.len(),
    ensures
        v == v.take(k) + seq![v[k]] + v.skip(k + 1),
        unmapped_bytes(v) == unmapped_bytes(v.take(k)) + unmapped_bytes(seq![v[k]]) + unmapped_bytes(v.skip(k + 1)),
        mapped_count(v) == mapped_count(v.take(k)) + mapped_count(seq![v[k]]) + mapped_count(v.skip(k + 1)),
{
    assert(v =~= v.take(k) + seq![v[k]] + v.skip(k + 1));
    lemma_unmapped_append(v.take(k) + seq![v[k]], v.skip(k + 1));
    lemma_unmapped_append(v.take(k), seq![v[k]]);
}

pub proof fn lemma_counts_three(a: Seq<Waypoint>, m: Seq<Waypoint>, b: Seq<Waypoint>)
    ensures
        unmapped_bytes(a + m + b) == unmapped_bytes(a) + unmapped_bytes(m) + unmapped_bytes(b),
        mapped_count(a + m + b) == mapped_count(a) + mapped_count(m) + mapped_count(b),
{
    lemma_unmapped_append(a + m, b);
    lemma_unmapped_append(a, m);
}

pub proof fn lemma_flat_append(a: Seq<Seq<Waypoint>>, b: Seq<Seq<Waypoint>>)
    ensures
        flat(a + b) == flat(a) + flat(b),
    decreases b.len(),
{
    if b.len() == 0 {
        assert(a + b =~= a);
        assert(flat(a) + flat(b) =~= flat(a));
    } else {
        lemma_flat_append(a, b.drop_last());
        assert((a + b).drop_last() =~= a + b.drop_last());
        assert((a + b).last() == b.last());
        assert(flat(a + b) =~= flat(a) + flat(b));
    }
}

pub proof fn lemma_flat_single(r: Seq<Waypoint>)
    ensures
        flat(seq![r]) == r,
{
    assert(seq![r].drop_last() =~= Seq::<Seq<Waypoint>>::empty());
    assert(seq![r].last() == r);
    assert(flat(Seq::<Seq<Waypoint>>::empty()) == Seq::<Waypoint>::empty());
    assert(flat(seq![r]) =~= r);
}

/// The concatenation split around row `i`.
pub proof fn lemma_flat_split(rows: Seq<Seq<Waypoint>>, i: int)
    requires
        0 <= i < rows.len(),
    ensures
        flat(rows) == flat(rows.take(i)) + rows[i] + flat(rows.skip(i + 1)),
{
    assert(rows =~= rows.take(i) + seq![rows[i]] + rows.skip(i + 1));
    lemma_flat_append(rows.take(i) + seq![rows[i]], rows.skip(i + 1));
    lemma_flat_append(rows.take(i), seq![rows[i]]);
    lemma_flat_single(rows[i]);
}


pub proof fn lemma_flat_take_skip(rows: Seq<Seq<Waypoint>>, i: int)
    requires
        0 <= i <= rows.len(),
    ensures
        flat(rows) == flat(rows.take(i)) + flat(rows.skip(i)),
{
    assert(rows =~= rows.take(i) + rows.skip(i));
    lemma_flat_append(rows.take(i), rows.skip(i));
}

/// Replacing rows `[i, j)` by `x`.
pub proof fn lemma_flat_splice(rows: Seq<Seq<Waypoint>>, i: int, j: int, x: Seq<Seq<Waypoint>>)
    requires
        0 <= i <= j <= rows.len(),
    ensures
        flat(rows.take(i) + x + rows.skip(j)) == flat(rows.take(i)) + flat(x) + flat(rows.skip(j)),
{
    lemma_flat_append(rows.take(i) + x, rows.skip(j));
    lemma_flat_append(rows.take(i), x);
}

pub proof fn lemma_flat_pair(a: Seq<Waypoint>, b: Seq<Waypoint>)
    ensures
        flat(seq![a, b]) == a + b,
{
    assert(seq![a, b] =~= seq![a] + seq![b]);
    lemma_flat_append(seq![a], seq![b]);
    lemma_flat_single(a);
    lemma_flat_single(b);
}

pub proof fn lemma_flat_triple(a: Seq<Waypoint>, b: Seq<Waypoint>, c: Seq<Waypoint>)
    ensures
        flat(seq![a, b, c]) == a + b + c,
{
    assert(seq![a, b, c] =~= seq![a, b] + seq![c]);
    lemma_flat_append(seq![a, b], seq![c]);
    lemma_flat_pair(a, b);
    lemma_flat_single(c);
}

pub proof fn lemma_base_next(rows: Seq<Seq<Waypoint>>, i: int)
    requires
        0 <= i < rows.len(),
    ensures
        base(rows, i + 1) == base(rows, i) + rows[i].len(),
        flat(rows.take(i + 1)) == flat(rows.take(i)) + rows[i],
{
    assert(rows.take(i + 1).drop_last() =~= rows.take(i));
}

pub proof fn lemma_base_len(rows: Seq<Seq<Waypoint>>)
    ensures
        base(rows, rows.len() as int) == flat(rows).len(),
        base(rows, 0) == 0,
{
    assert(rows.take(rows.len() as int) =~= rows);
    assert(rows.take(0) =~= Seq::<Seq<Waypoint>>::empty());
}

pub proof fn lemma_base_mono(rows: Seq<Seq<Waypoint>>, i: int, i2: int)
    requires
        0 <= i <= i2 <= rows.len(),
    ensures
        base(rows, i) <= base(rows, i2),
    decreases i2 - i,
{
    if i < i2 {
        lemma_base_mono(rows, i, i2 - 1);
        lemma_base_next(rows, i2 - 1);
    }
}

/// Element `j` of row `i` is at position `base(i) + j` of the concatenation.
pub proof fn lemma_flat_index(rows: Seq<Seq<Waypoint>>, i: int, j: int)
    requires
        0 <= i < rows.len(),
        0 <= j < rows[i].len(),
    ensures
        0 <= base(rows, i) + j < flat(rows).len(),
        flat(rows)[base(rows, i) + j] == rows[i][j],
{
    lemma_flat_split(rows, i);
}

/// Position in the concatenation of element `j` of row `i`.
pub open spec fn place(rows: Seq<Seq<Waypoint>>, i: int, j: int) -> int {
    base(rows, i) + j
}

/// Every position of the concatenation lies in some row.
pub proof fn lemma_flat_locate(rows: Seq<Seq<Waypoint>>, k: int)
    requires
        0 <= k < flat(rows).len(),
    ensures
        exists|i: int, j: int| 0 <= i < rows.len() && 0 <= j < rows[i].len() && #[trigger] place(rows, i, j) == k,
    decreases rows.len(),
{
    let n = rows.len() as int;
    let d = rows.drop_last();
    assert(rows.take(n - 1) =~= d);
    if k < flat(d).len() {
        lemma_flat_locate(d, k);
        let (i, j) = choose|i: int, j: int| 0 <= i < d.len() && 0 <= j < d[i].len() && place(d, i, j) == k;
        assert(rows.take(i) =~= d.take(i));
        assert(rows[i] == d[i]);
        assert(0 <= i < rows.len() && 0 <= j < rows[i].len() && place(rows, i, j) == k);
    } else {
        let j = k - flat(d).len();
        assert(0 <= n - 1 < rows.len() && 0 <= j < rows[n - 1].len() && place(rows, n - 1, j) == k);
    }
}

pub proof fn lemma_unmapped_append(a: Seq<Waypoint>, b: Seq<Waypoint>)
    ensures
        unmapped_bytes(a + b) == unmapped_bytes(a) + unmapped_bytes(b),
        mapped_count(a + b) == mapped_count(a) + mapped_count(b),
    decreases b.len(),
{
    if b.len() == 0 {
        assert(a + b =~= a);
    } else {
        lemma_unmapped_append(a, b.drop_last());
        assert((a + b).drop_last() =~= a + b.drop_last());
    }
}

pub proof fn lemma_unmapped_single(w: Waypoint)
    ensures
        unmapped_bytes(seq![w]) == (if w.spec_is_mapped() { 0 } else { w.hi() - w.lo() }),
        mapped_count(seq![w]) == (if w.spec_is_mapped() { 1int } else { 0 }),
{
    assert(seq![w].drop_last() =~= Seq::<Waypoint>::empty());
    assert(seq![w].last() == w);
    assert(unmapped_bytes(Seq::<Waypoint>::empty()) == 0);
    assert(mapped_count(Seq::<Waypoint>::empty()) == 0);
}

/// In a sorted sequence, the waypoint at position `k` starts at offset `k` or later.
pub proof fn lemma_sorted_lo(v: Seq<Waypoint>, k: int)
    requires
        sorted(v),
        0 <= k < v.len(),
    ensures
        v[k].lo() >= k,
    decreases k,
{
    if k > 0 {
        lemma_sorted_lo(v, k - 1);
        assert(v[k - 1].hi() <= v[k].lo());
    }
}

pub proof fn lemma_mapped_count_le(v: Seq<Waypoint>)
    ensures
        0 <= mapped_count(v) <= v.len(),
        unmapped_bytes(v) >= 0 || !sorted(v),
    decreases v.len(),
{
    if v.len() > 0 {
        lemma_mapped_count_le(v.drop_last());
        if sorted(v) {
            assert(sorted(v.drop_last()));
            assert(v.last() == v[v.len() - 1]);
        }
    }
}

/// The waypoints tile all offsets: the first starts at zero, each ends where the next
/// begins, and the last ends at `usize::MAX`.
pub open spec fn covers(v: Seq<Waypoint>) -> bool {
    &&& v.len() > 0
    &&& v[0].lo() == 0
    &&& v.last().hi() == usize::MAX
    &&& forall|k: int| 0 <= k < v.len() - 1 ==> #[trigger] v[k].hi() == v[k + 1].lo()
}

/// The first unexplored waypoint of `v` at or after place `k`, if any.
pub open spec fn first_gap_from(v: Seq<Waypoint>, k: int) -> Option<int>
    decreases v.len() - k,
{
    if k < 0 || k >= v.len() {
        None
    } else if !v[k].spec_is_mapped() {
        Some(k)
    } else {
        first_gap_from(v, k + 1)
    }
}

/// Explored waypoints in `[k, k2)` do not change where the next gap is.
proof fn lemma_first_gap_skip(v: Seq<Waypoint>, k: int, k2: int)
    requires
        0 <= k <= k2 <= v.len(),
        forall|j: int| k <= j < k2 ==> #[trigger] v[j].spec_is_mapped(),
    ensures
        first_gap_from(v, k) == first_gap_from(v, k2),
    decreases k2 - k,
{
    if k < k2 {
        lemma_first_gap_skip(v, k + 1, k2);
    }
}

/// Holds a map of the explored regions of the file.
pub struct SaneIndex {
    index: Vec<Vec<Waypoint>>,
    pub(crate) stats: IndexStats,
}

impl View for SaneIndex {
    type V = Seq<Waypoint>;

    closed spec fn view(&self) -> Seq<Waypoint> {
        flat(self.rows())
    }
}

impl SaneIndex {
    /// The rows of the split vector.
    pub closed spec fn rows(&self) -> Seq<Seq<Waypoint>> {
        self.index@.map_values(|r: Vec<Waypoint>| r@)
    }

    /// Well-formed: rows are proper, waypoints sorted and disjoint, and the counters agree
    /// with the map (explored bytes plus unexplored bytes make up the whole offset space).
    pub closed spec fn wf(&self) -> bool {
        &&& self.wf_shape()
        &&& self.stats.bytes_indexed + unmapped_bytes(self@) == usize::MAX
        &&& self.stats.lines_indexed == mapped_count(self@)
    }

    /// Rows are proper and waypoints sorted and disjoint.
    pub closed spec fn wf_shape(&self) -> bool {
        &&& rows_ok(self.rows())
        &&& sorted(self@)
    }

    /// Number of waypoints in row `i` of the split vector.
    pub closed spec fn row_len(&self, i: int) -> nat {
        self.rows()[i].len()
    }

    /// An index into the split vector that names a waypoint.
    pub open spec fn valid(&self, idx: IndexIndex) -> bool {
        idx.0 < self.row_count_spec() && idx.1 < self.row_len(idx.0 as int)
    }

    /// The index one waypoint back in row order: the column before, or the last column of
    /// the row before; `None` at the first column of the first row.
    pub open spec fn prev_index(&self, idx: IndexIndex) -> Option<IndexIndex> {
        if idx.1 > 0 {
            Some((idx.0, (idx.1 - 1) as usize))
        } else if idx.0 > 0 {
            Some(((idx.0 - 1) as usize, (self.row_len(idx.0 - 1) - 1) as usize))
        } else {
            None
        }
    }

    /// The index one waypoint on in row order: the column after, or the first column of the
    /// row after; `None` at the last column of the last row.
    pub open spec fn next_index(&self, idx: IndexIndex) -> Option<IndexIndex> {
        if idx.1 + 1 < self.row_len(idx.0 as int) {
            Some((idx.0, (idx.1 + 1) as usize))
        } else if idx.0 + 1 < self.row_count_spec() {
            Some(((idx.0 + 1) as usize, 0usize))
        } else {
            None
        }
    }

    /// Every row of a well-formed index holds a waypoint, and the rows and their lengths fit
    /// in a `usize`.
    pub proof fn lemma_rows_not_empty(&self, i: int)
        requires
            self.wf(),
            0 <= i < self.row_count_spec(),
        ensures
            self.row_len(i) > 0,
            self.row_len(i) <= usize::MAX,
            self.row_count_spec() <= usize::MAX,
    {
        assert(row_ok(self.rows()[i]));
        assert(self.rows()[i] == self.index@[i]@);
        assert(self.index@[i].len() == self.index@[i]@.len());
        assert(self.index.len() == self.index@.len());
    }

    /// Stepping back and stepping on undo each other, and they stop exactly at the ends: there
    /// is no step back from `(0, 0)` alone, and no step on from the last column of the last row
    /// alone.
    pub proof fn lemma_index_steps(&self, idx: IndexIndex)
        requires
            self.wf(),
            self.valid(idx),
        ensures
            (self.prev_index(idx) is None) == (idx == (0usize, 0usize)),
            (self.next_index(idx) is None) == (idx.0 + 1 == self.row_count_spec() && idx.1 + 1 == self.row_len(
                idx.0 as int,
            )),
            self.prev_index(idx) matches Some(p) ==> self.valid(p) && self.next_index(p) == Some(idx),
            self.next_index(idx) matches Some(n) ==> self.valid(n) && self.prev_index(n) == Some(idx),
    {
        self.lemma_rows_not_empty(idx.0 as int);
        if idx.0 > 0 {
            self.lemma_rows_not_empty(idx.0 - 1);
        }
        if idx.0 + 1 < self.row_count_spec() {
            self.lemma_rows_not_empty(idx.0 + 1);
        }
    }

    /// The position in `self@` that `idx` names.
    pub closed spec fn at(&self, idx: IndexIndex) -> int {
        base(self.rows(), idx.0 as int) + idx.1
    }

    pub closed spec fn row_count_spec(&self) -> nat {
        self.rows().len()
    }

    pub closed spec fn stats_bytes(&self) -> usize {
        self.stats.bytes_indexed
    }

    /// The name the counters carry.
    pub closed spec fn stats_name(&self) -> Seq<char> {
        self.stats.name@
    }

    /// The size of the log, as the counters carry it.
    pub closed spec fn stats_total(&self) -> usize {
        self.stats.bytes_total
    }

    pub closed spec fn stats_lines(&self) -> usize {
        self.stats.lines_indexed
    }

    pub proof fn lemma_valid_at(&self, idx: IndexIndex)
        requires
            self.valid(idx),
        ensures
            0 <= self.at(idx) < self@.len(),
    {
        lemma_flat_index(self.rows(), idx.0 as int, idx.1 as int);
    }

    /// Distinct valid indexes name distinct positions.
    pub proof fn lemma_at_injective(&self, a: IndexIndex, b: IndexIndex)
        requires
            self.valid(a),
            self.valid(b),
            a != b,
        ensures
            self.at(a) != self.at(b),
    {
        let rows = self.rows();
        if a.0 < b.0 {
            lemma_base_mono(rows, a.0 + 1, b.0 as int);
            lemma_base_next(rows, a.0 as int);
        } else if b.0 < a.0 {
            lemma_base_mono(rows, b.0 + 1, a.0 as int);
            lemma_base_next(rows, b.0 as int);
        }
    }

    pub fn new() -> (r: Self)
        ensures
            r.wf(),
            r@ == seq![Waypoint::Unmapped(0..usize::MAX)],
            covers(r@),
            r.row_count_spec() == 1,
            r.stats_bytes() == 0,
            r.stats_lines() == 0,
    {
        let mut row: Vec<Waypoint> = Vec::new();
        row.push(Waypoint::Unmapped(0..usize::MAX));
        let mut index: Vec<Vec<Waypoint>> = Vec::new();
        index.push(row);
        let r = SaneIndex { index, stats: IndexStats::default() };
        proof {
            let rows = r.rows();
            assert(rows =~= seq![seq![Waypoint::Unmapped(0..usize::MAX)]]);
            lemma_flat_single(rows[0]);
            lemma_unmapped_single(Waypoint::Unmapped(0..usize::MAX));
        }
        r
    }

    /// A fresh index whose counters carry the name `name` and the size `bytes_total` of the
    /// log it indexes.
    pub fn named(name: String, bytes_total: usize) -> (r: Self)
        ensures
            r.wf(),
            r@ == seq![Waypoint::Unmapped(0..usize::MAX)],
            covers(r@),
            r.stats_name() == name@,
            r.stats_total() == bytes_total,
            r.stats_bytes() == 0,
            r.stats_lines() == 0,
            r.row_count_spec() == 1,
    {
        let mut r = Self::new();
        r.stats.name = name;
        r.stats.bytes_total = bytes_total;
        r
    }

    /// Forget everything explored; the name and size of the log stay.
    pub fn reset(&mut self)
        ensures
            final(self).wf(),
            final(self)@ == seq![Waypoint::Unmapped(0..usize::MAX)],
            final(self).stats_name() == old(self).stats_name(),
            final(self).stats_total() == old(self).stats_total(),
    {
        let name = self.stats.name.clone();
        let total = self.stats.bytes_total;
        *self = Self::named(name, total);
    }

    /// Number of rows in the split vector.
    pub fn row_count(&self) -> (r: usize)
        ensures
            r == self.row_count_spec(),
    {
        self.index.len()
    }

    pub fn index_valid(&self, idx: IndexIndex) -> (r: bool)
        ensures
            r == self.valid(idx),
    {
        let (i, j) = idx;
        i < self.index.len() && j < self.index[i].len()
    }

    pub fn value(&self, idx: IndexIndex) -> (r: &Waypoint)
        requires
            self.valid(idx),
        ensures
            *r == self@[self.at(idx)],
    {
        proof { lemma_flat_index(self.rows(), idx.0 as int, idx.1 as int); }
        let (i, j) = idx;
        &self.index[i][j]
    }

    /// The index of the waypoint before `idx`, if any.
    pub fn index_prev(&self, idx: IndexIndex) -> (r: Option<IndexIndex>)
        requires
            self.wf(),
            self.valid(idx),
        ensures
            r == self.prev_index(idx),
            match r {
                Some(p) => self.valid(p) && self.at(p) == self.at(idx) - 1,
                None => self.at(idx) == 0,
            },
    {
        let (i, j) = idx;
        proof {
            lemma_base_len(self.rows());
            assert(self.rows()[i as int] == self.index@[i as int]@);
        }
        if j > 0 {
            Some((i, j - 1))
        } else if i > 0 {
            proof {
                lemma_base_next(self.rows(), i - 1);
                assert(row_ok(self.rows()[i - 1]));
            }
            Some((i - 1, self.index[i - 1].len() - 1))
        } else {
            None
        }
    }

    /// The index of the waypoint after `idx`, if any.
    pub fn index_next(&self, idx: IndexIndex) -> (r: Option<IndexIndex>)
        requires
            self.wf(),
            self.valid(idx),
        ensures
            r == self.next_index(idx),
            match r {
                Some(p) => self.valid(p) && self.at(p) == self.at(idx) + 1,
                None => self.at(idx) == self@.len() - 1,
            },
    {
        let (i, j) = idx;
        proof {
            lemma_base_next(self.rows(), i as int);
            assert(self.rows()[i as int] == self.index@[i as int]@);
            assert(i < self.index@.len());
            assert(j < self.index@[i as int]@.len());
        }
        let row_len = self.index[i].len();
        let rows_len = self.index.len();
        if j + 1 < row_len {
            Some((i, j + 1))
        } else if i + 1 < rows_len {
            proof {
                assert(row_ok(self.rows()[i + 1]));
            }
            Some((i + 1, 0))
        } else {
            proof {
                lemma_base_len(self.rows());
                assert(self.rows().len() == i + 1);
            }
            None
        }
    }
    /// A step back, then a step forward, comes back: when `p` names the waypoint just before
    /// the one `idx` names (as `index_prev(idx)` returns it), `p` is not the last waypoint, and
    /// `idx` is the one valid index naming the waypoint after `p`'s, which is what
    /// `index_next(p)` returns.
    pub proof fn lemma_prev_then_next(&self, idx: IndexIndex, p: IndexIndex)
        requires
            self.valid(idx),
            self.valid(p),
            self.at(p) == self.at(idx) - 1,
        ensures
            self.at(p) != self@.len() - 1,
            forall|q: IndexIndex| self.valid(q) && #[trigger] self.at(q) == self.at(p) + 1 ==> q == idx,
    {
        self.lemma_valid_at(idx);
        assert forall|q: IndexIndex| self.valid(q) && #[trigger] self.at(q) == self.at(p) + 1 implies q == idx by {
            if q != idx {
                self.lemma_at_injective(q, idx);
            }
        }
    }

    /// A step forward, then a step back, comes back: when `n` names the waypoint just after
    /// the one `idx` names (as `index_next(idx)` returns it), `n` is not the first waypoint, and
    /// `idx` is the one valid index naming the waypoint before `n`'s, which is what
    /// `index_prev(n)` returns.
    pub proof fn lemma_next_then_prev(&self, idx: IndexIndex, n: IndexIndex)
        requires
            self.valid(idx),
            self.valid(n),
            self.at(n) == self.at(idx) + 1,
        ensures
            self.at(n) != 0,
            forall|q: IndexIndex| self.valid(q) && #[trigger] self.at(q) == self.at(n) - 1 ==> q == idx,
    {
        self.lemma_valid_at(idx);
        assert forall|q: IndexIndex| self.valid(q) && #[trigger] self.at(q) == self.at(n) - 1 implies q == idx by {
            if q != idx {
                self.lemma_at_injective(q, idx);
            }
        }
    }

    pub proof fn lemma_empty(&self)
        requires
            self.wf(),
        ensures
            (self@.len() == 0) == (self.rows().len() == 0),
    {
        if self.rows().len() > 0 {
            assert(row_ok(self.rows()[0]));
            lemma_flat_index(self.rows(), 0, 0);
        } else {
            assert(self.rows() =~= Seq::<Seq<Waypoint>>::empty());
        }
    }

    /// Find the waypoint holding the given offset, or the next one after it; the last
    /// waypoint if the offset is past all of them.
    pub fn search(&self, offset: usize) -> (r: IndexIndex)
        requires
            self.wf(),
        ensures
            self@.len() == 0 ==> r == (0usize, 0usize),
            self@.len() > 0 ==> self.valid(r) && search_spot(self@, offset, self.at(r)),
    {
        proof { self.lemma_empty(); }
        let n = self.index.len();
        if n == 0 {
            return (0, 0);
        }
        let ghost rows = self.rows();
        // First row whose last waypoint ends after offset
        let mut lo: usize = 0;
        let mut hi: usize = n;
        while lo < hi
            invariant
                rows == self.rows(),
                n == rows.len(),
                rows_ok(rows),
                0 <= lo <= hi <= n,
                lo == 0 || rows[lo - 1].last().hi() <= offset,
                hi == n || rows[hi as int].last().hi() > offset,
            decreases hi - lo,
        {
            let mid = lo + (hi - lo) / 2;
            let row = &self.index[mid];
            proof {
                assert(rows[mid as int] == self.index@[mid as int]@);
                assert(row_ok(rows[mid as int]));
            }
            let last = row.len() - 1;
            if row[last].end_offset() <= offset {
                lo = mid + 1;
            } else {
                hi = mid;
            }
        }
        let ghost v = self@;
        if lo == n {
            // Offset is past every waypoint; land on the last one.
            let i = n - 1;
            proof {
                assert(rows[i as int] == self.index@[i as int]@);
                assert(row_ok(rows[i as int]));
            }
            let j = self.index[i].len() - 1;
            proof {
                lemma_flat_index(rows, i as int, j as int);
                lemma_base_next(rows, i as int);
                lemma_base_len(rows);
                let k = base(rows, i as int) + j;
                assert(k == v.len() - 1);
                if k > 0 {
                    assert(v[k - 1].hi() <= v[k].lo());
                    assert(v[k] == rows[i as int].last());
                }
            }
            return (i, j);
        }
        let i = lo;
        let row = &self.index[i];
        proof {
            assert(rows[i as int] == self.index@[i as int]@);
            assert(row_ok(rows[i as int]));
        }
        let len = row.len();
        // First waypoint in the row that ends after offset
        let mut jlo: usize = 0;
        let mut jhi: usize = len - 1;
        while jlo < jhi
            invariant
                rows == self.rows(),
                row@ == rows[i as int],
                len == row@.len(),
                0 <= jlo <= jhi < len,
                jlo == 0 || row@[jlo - 1].hi() <= offset,
                row@[jhi as int].hi() > offset,
            decreases jhi - jlo,
        {
            let mid = jlo + (jhi - jlo) / 2;
            if row[mid].end_offset() <= offset {
                jlo = mid + 1;
            } else {
                jhi = mid;
            }
        }
        let j = jlo;
        proof {
            lemma_flat_index(rows, i as int, j as int);
            let k = base(rows, i as int) + j;
            if j > 0 {
                lemma_flat_index(rows, i as int, j - 1);
            } else if i > 0 {
                assert(row_ok(rows[i - 1]));
                lemma_flat_index(rows, i - 1, rows[i - 1].len() - 1);
                lemma_base_next(rows, i - 1);
            }
        }
        (i, j)
    }
    /// Where a search for offset `o` lands, as a position in `self@`.
    pub open spec fn spot(&self, o: usize) -> int {
        spot_of(self@, o)
    }

    /// The index naming position `k` of `self@`.
    pub closed spec fn idx_at(&self, k: int) -> IndexIndex {
        choose|r: IndexIndex| self.valid(r) && self.at(r) == k
    }

    /// A search for `o` in a non-empty index lands on a waypoint: one with no waypoint
    /// before it ending after `o`, that is the last or ends after `o`.
    pub proof fn lemma_spot(&self, o: usize)
        requires
            self@.len() > 0,
        ensures
            search_spot(self@, o, self.spot(o)),
    {
        lemma_spot_from(self@, o, 0);
    }

    pub proof fn lemma_spot_unique(&self, o: usize, k: int)
        requires
            self.wf(),
            search_spot(self@, o, k),
        ensures
            self.spot(o) == k,
    {
        let c = self.spot(o);
        let v = self@;
        assert(search_spot(v, o, c));
        if c < k {
            if c < k - 1 {
                assert(v[c].hi() <= v[k - 1].lo());
            }
        } else if k < c {
            if k < c - 1 {
                assert(v[k].hi() <= v[c - 1].lo());
            }
        }
    }

    pub proof fn lemma_idx_at(&self, r: IndexIndex)
        requires
            self.valid(r),
        ensures
            self.idx_at(self.at(r)) == r,
    {
        let c = self.idx_at(self.at(r));
        assert(self.valid(c) && self.at(c) == self.at(r));
        if c != r {
            self.lemma_at_injective(c, r);
        }
    }

    /// Where a backwards search for offset `o` lands: the waypoint holding `o`, or else the
    /// one before it.
    pub open spec fn back_spot(&self, o: usize) -> int {
        let k = self.spot(o);
        if o < self@[k].lo() && k > 0 {
            k - 1
        } else {
            k
        }
    }

    /// The waypoint at `idx` is still the one a position remembers.
    pub open spec fn fresh(&self, idx: IndexIndex, w: Waypoint) -> bool {
        self.valid(idx) && self@[self.at(idx)] == w
    }

    /// Position at the waypoint in place `k` of `self@`, heading for `t`.
    pub open spec fn existing_at(&self, k: int, t: usize) -> Position {
        Position::Existing(self.idx_at(k), t, self@[k])
    }

    /// A position can be resolved unless it needs a search in an empty index.
    pub open spec fn can_resolve(&self, p: Position) -> bool {
        self@.len() > 0 || p == Position::Virtual(VirtualPosition::Invalid)
    }

    /// The position `p` resolves to.
    pub open spec fn resolve_spec(&self, p: Position) -> Position {
        match p {
            Position::Virtual(v) => match v.spec_offset() {
                Some(o) => self.existing_at(self.spot(o), o),
                None => Position::Virtual(VirtualPosition::Invalid),
            },
            Position::Existing(i, t, w) => if self.fresh(i, w) {
                p
            } else {
                self.existing_at(self.spot(t), t)
            },
        }
    }

    /// The position `p` resolves to, searching backwards.
    pub open spec fn resolve_back_spec(&self, p: Position) -> Position {
        match p {
            Position::Virtual(v) => match v.spec_offset() {
                Some(o) => if self@.len() == 0 {
                    Position::Virtual(VirtualPosition::Invalid)
                } else {
                    self.existing_at(self.back_spot(o), o)
                },
                None => p,
            },
            Position::Existing(i, t, w) => if self.fresh(i, w) {
                p
            } else if self@.len() == 0 {
                Position::Virtual(VirtualPosition::Invalid)
            } else {
                self.existing_at(self.back_spot(t), t)
            },
        }
    }

    /// Position of the waypoint after the one `p` is at.
    pub open spec fn advance_spec(&self, p: Position) -> Position {
        match p {
            Position::Existing(i, _, _) => if self.at(i) + 1 < self@.len() {
                self.existing_at(self.at(i) + 1, self@[self.at(i) + 1].lo())
            } else {
                Position::Virtual(VirtualPosition::Invalid)
            },
            _ => p,
        }
    }

    /// Position of the waypoint before the one `p` is at.
    pub open spec fn advance_back_spec(&self, p: Position) -> Position {
        match p {
            Position::Existing(i, _, _) => if self.at(i) > 0 {
                self.existing_at(self.at(i) - 1, self@[self.at(i) - 1].hi())
            } else {
                Position::Virtual(VirtualPosition::Invalid)
            },
            _ => p,
        }
    }

    /// `p` names a live waypoint of this index (or is virtual).
    pub open spec fn ok_pos(&self, p: Position) -> bool {
        match p {
            Position::Existing(i, _, w) => self.fresh(i, w),
            _ => true,
        }
    }

    /// Position in `self@` of the waypoint that `pos` resolves to.
    pub open spec fn resolved_at(&self, pos: Position) -> int {
        match pos {
            Position::Virtual(v) => self.spot(v.spec_offset().unwrap()),
            Position::Existing(i, t, w) => if self.fresh(i, w) {
                self.at(i)
            } else {
                self.spot(t)
            },
        }
    }

    /// The waypoint that `pos` resolves to.
    pub open spec fn resolved(&self, pos: Position) -> Waypoint {
        self@[self.resolved_at(pos)]
    }

    /// `pos` resolves to an unmapped waypoint which `range` overlaps.
    pub open spec fn clears(&self, pos: Position, range: Range<usize>) -> bool {
        &&& self@.len() > 0
        &&& pos != Position::Virtual(VirtualPosition::Invalid)
        &&& !self.resolved(pos).spec_is_mapped()
        &&& overlap(self.resolved(pos), range).start < overlap(self.resolved(pos), range).end
    }

    /// The explored map after clearing `range` from the gap `pos` resolves to.
    pub open spec fn cleared_view(&self, pos: Position, range: Range<usize>) -> Seq<Waypoint> {
        let k = self.resolved_at(pos);
        let w = self.resolved(pos);
        self@.take(k) + gap_rest(w, overlap(w, range)) + self@.skip(k + 1)
    }

    // Resolves a gap which must be at an unmapped Position::Existing.
    // Splits the gap if `gap` lies in the middle of it and returns the row of the second piece;
    // otherwise shrinks (or empties) the gap's row and returns it.
    fn resolve_gap_at(&mut self, pos: &Position, gap: &Range<usize>) -> (row: usize)
        requires
            old(self).wf_shape(),
            *pos matches Position::Existing(idx, _, w) && old(self).fresh(idx, w) && !w.spec_is_mapped()
                && w.lo() <= gap.start < gap.end <= w.hi(),
        ensures
            ({
                let idx = pos->Existing_0;
                let w = pos->Existing_2;
                let rows = old(self).rows();
                let i = idx.0 as int;
                &&& idx.1 == 0
                &&& rows[i] == seq![w]
                &&& final(self).rows() == rows.take(i) + split_rows(w, *gap) + rows.skip(i + 1)
                &&& row == i + (if splits_in_two(w, *gap) { 1int } else { 0 })
            }),
            final(self).stats == old(self).stats,
    {
        let (ndx, unmapped) = match pos {
            Position::Existing(ndx, _, waypoint) => (*ndx, waypoint),
            Position::Virtual(_) => unreached(),
        };
        let (i, j) = ndx;
        let ghost rows = self.rows();
        proof {
            assert(rows[i as int] == self.index@[i as int]@);
            assert(row_ok(rows[i as int]));
            lemma_flat_index(rows, i as int, j as int);
            if rows[i as int].len() > 1 {
                assert(rows[i as int][j as int].spec_is_mapped());
            }
            assert(rows[i as int] =~= seq![*unmapped]);
        }
        let (left, middle) = unmapped.split_at(gap.start);
        let right = match middle {
            Some(middle) => middle.split_at(gap.end).1,
            None => unreached(),
        };
        let ghost split = split_rows(*unmapped, *gap);
        if left.is_none() && right.is_none() {
            // The gap is completely removed: leave an empty row for the caller.
            self.index.set(i, Vec::new());
            proof {
                assert(self.rows() =~= rows.take(i as int) + split + rows.skip(i + 1));
            }
            i
        } else if left.is_some() && right.is_some() {
            // Split into two gaps on either side of the explored range.
            let mut lrow: Vec<Waypoint> = Vec::new();
            lrow.push(left.unwrap());
            let mut rrow: Vec<Waypoint> = Vec::new();
            rrow.push(right.unwrap());
            let n = self.index.len();
            assert(i < n);
            self.index.set(i, rrow);
            self.index.insert(i, lrow);
            proof {
                assert(self.rows() =~= rows.take(i as int) + split + rows.skip(i + 1));
            }
            i + 1
        } else if left.is_some() {
            let mut lrow: Vec<Waypoint> = Vec::new();
            lrow.push(left.unwrap());
            self.index.set(i, lrow);
            proof {
                assert(self.rows() =~= rows.take(i as int) + split + rows.skip(i + 1));
            }
            i
        } else {
            let mut rrow: Vec<Waypoint> = Vec::new();
            rrow.push(right.unwrap());
            self.index.set(i, rrow);
            proof {
                assert(self.rows() =~= rows.take(i as int) + split + rows.skip(i + 1));
            }
            i
        }
    }

    // Clear the gap at the given Position over `range`. Returns the row where replacements
    // should be inserted.
    fn clear_gap(&mut self, pos: &Position, range: &Range<usize>) -> (row: usize)
        requires
            old(self).wf(),
            old(self).clears(*pos, *range),
        ensures
            ({
                let k = old(self).resolved_at(*pos);
                let w = old(self).resolved(*pos);
                let gap = overlap(w, *range);
                let rows = old(self).rows();
                let idx = old(self).idx_at(k);
                let i = idx.0 as int;
                &&& old(self).valid(idx)
                &&& old(self).at(idx) == k
                &&& idx.1 == 0
                &&& rows[i] == seq![w]
                &&& final(self).rows() == rows.take(i) + split_rows(w, gap) + rows.skip(i + 1)
                &&& row == i + (if splits_in_two(w, gap) { 1int } else { 0 })
                &&& final(self).stats.bytes_indexed == old(self).stats.bytes_indexed + (gap.end - gap.start)
                &&& final(self).stats.lines_indexed == old(self).stats.lines_indexed
            }),
    {
        let mut p = pos.clone();
        p.resolve(self);
        let ghost k = self.resolved_at(*pos);
        let ghost v = self@;
        let (rs, re) = {
            let region = p.region();
            (region.start, region.end)
        };
        let gs = if rs > range.start { rs } else { range.start };
        let ge = if re < range.end { re } else { range.end };
        let gap_range = gs..ge;
        proof {
            let idx = p->Existing_0;
            self.lemma_valid_at(idx);
            self.lemma_idx_at(idx);
            lemma_counts_around(v, k);
            lemma_unmapped_single(v[k]);
            lemma_unmapped_nonneg(v.take(k));
            lemma_unmapped_nonneg(v.skip(k + 1));
        }
        self.stats.bytes_indexed = self.stats.bytes_indexed + (ge - gs);
        self.resolve_gap_at(&p, &gap_range)
    }

    /// The position of waypoint `m` of `self@`, or the end of the file if `m` is past the last.
    pub open spec fn pos_at(&self, m: int) -> Position {
        if m < self@.len() {
            self.existing_at(m, self@[m].lo())
        } else {
            Position::Virtual(VirtualPosition::End)
        }
    }

    /// Facts about the rows around row `i`, a row holding the single waypoint `w`.
    proof fn lemma_single_row(&self, i: int, w: Waypoint)
        requires
            0 <= i < self.rows().len(),
            self.rows()[i] == seq![w],
        ensures
            self@ == flat(self.rows().take(i)) + seq![w] + flat(self.rows().skip(i + 1)),
            self@.take(base(self.rows(), i)) == flat(self.rows().take(i)),
            self@.skip(base(self.rows(), i) + 1) == flat(self.rows().skip(i + 1)),
            self@[base(self.rows(), i)] == w,
    {
        let rows = self.rows();
        lemma_flat_split(rows, i);
        let a = flat(rows.take(i));
        let b = flat(rows.skip(i + 1));
        assert(self@.take(a.len() as int) =~= a);
        assert(self@.skip(a.len() as int + 1) =~= b);
    }

    /// Around row `i`, which holds the single waypoint `w`: a row comes before it exactly when
    /// a waypoint comes before `w`, and holds lines exactly when that waypoint is a line; the
    /// row after it, if any, starts with the waypoint after `w`.
    proof fn lemma_gap_neighbours(&self, i: int, w: Waypoint)
        requires
            rows_ok(self.rows()),
            0 <= i < self.rows().len(),
            self.rows()[i] == seq![w],
        ensures
            ({
                let rows = self.rows();
                let k = base(rows, i);
                &&& (i > 0) == (k > 0)
                &&& i > 0 ==> rows[i - 1][0].spec_is_mapped() == self@[k - 1].spec_is_mapped()
                &&& i + 1 < rows.len() ==> k + 1 < self@.len() && self@[k + 1] == rows[i + 1][0]
            }),
    {
        let rows = self.rows();
        lemma_base_len(rows);
        lemma_base_next(rows, i);
        if i > 0 {
            lemma_base_next(rows, i - 1);
            lemma_base_mono(rows, 0, i - 1);
            assert(row_ok(rows[i - 1]));
            lemma_flat_index(rows, i - 1, rows[i - 1].len() - 1);
        }
        if i + 1 < rows.len() {
            assert(row_ok(rows[i + 1]));
            lemma_flat_index(rows, i + 1, 0);
        }
    }

    /// rows_ok of rows spliced from proper rows and proper new rows.
    proof fn lemma_rows_ok_splice(rows: Seq<Seq<Waypoint>>, i: int, j: int, x: Seq<Seq<Waypoint>>)
        requires
            0 <= i <= j <= rows.len(),
            rows_ok(rows),
            rows_ok(x),
        ensures
            rows_ok(rows.take(i) + x + rows.skip(j)),
    {
        let r = rows.take(i) + x + rows.skip(j);
        assert forall|a: int| 0 <= a < r.len() implies #[trigger] row_ok(r[a]) by {
            if a < i {
                assert(r[a] == rows[a]);
            } else if a < i + x.len() {
                assert(r[a] == x[a - i]);
            } else {
                assert(r[a] == rows[a - i - x.len() + j]);
            }
        }
    }

    /// Remove the gap at the given Position over `range`; no lines are added.
    /// Returns the position of what remains of the gap after the range (or before it, if
    /// nothing remains after it), or of the waypoint after a gap removed completely.
    pub fn erase_gap(&mut self, pos: &Position, range: &Range<usize>) -> (r: Position)
        requires
            old(self).wf(),
            old(self).clears(*pos, *range),
        ensures
            final(self).wf(),
            final(self)@ == old(self).cleared_view(*pos, *range),
            final(self).stats_bytes() == old(self).stats_bytes() + (overlap(old(self).resolved(*pos), *range).end
                - overlap(old(self).resolved(*pos), *range).start),
            final(self).stats_lines() == old(self).stats_lines(),
            r == final(self).pos_at(old(self).resolved_at(*pos) + (if splits_in_two(
                old(self).resolved(*pos),
                overlap(old(self).resolved(*pos), *range),
            ) { 1int } else { 0 })),
            final(self).ok_pos(r),
            final(self).row_count_spec() + 1 == old(self).row_count_spec() + gap_rest(
                old(self).resolved(*pos),
                overlap(old(self).resolved(*pos), *range),
            ).len(),
    {
        let ghost old_self = *self;
        let ghost rows = self.rows();
        let ghost k = self.resolved_at(*pos);
        let ghost w = self.resolved(*pos);
        let ghost gap = overlap(w, *range);
        let ghost idx = self.idx_at(k);
        let ghost i = idx.0 as int;
        let ghost t = rows.take(i);
        let ghost sfx = rows.skip(i + 1);
        let row = self.clear_gap(pos, range);
        proof {
            old_self.lemma_single_row(i, w);
            lemma_split_rows(w, gap);
            lemma_flat_splice(rows, i, i + 1, split_rows(w, gap));
        }
        let ghost rows1 = self.rows();
        let ghost split = split_rows(w, gap);
        proof {
            assert(rows1 == t + split + sfx);
            assert(rows1[row as int] == self.index@[row as int]@);
            if splits_in_two(w, gap) {
                assert(rows1[row as int] == split[1]);
            } else {
                assert(rows1[row as int] == split[0]);
            }
        }
        if self.index[row].len() == 0 {
            let ghost idx1 = self.index@;
            self.index.remove(row);
            proof {
                assert(split =~= seq![Seq::<Waypoint>::empty()]);
                assert(self.index@ =~= idx1.remove(row as int));
                assert(self.rows() =~= rows1.remove(row as int));
                assert(self.rows() =~= t + sfx);
                assert(self.rows() =~= rows.take(i) + Seq::<Seq<Waypoint>>::empty() + rows.skip(i + 1));
                lemma_flat_splice(rows, i, i + 1, Seq::<Seq<Waypoint>>::empty());
                assert(flat(Seq::<Seq<Waypoint>>::empty()) == Seq::<Waypoint>::empty());
                assert(gap_rest(w, gap) =~= Seq::<Waypoint>::empty());
                Self::lemma_rows_ok_splice(rows, i, i + 1, Seq::<Seq<Waypoint>>::empty());
            }
        } else {
            proof {
                assert(gap_rest(w, gap).len() > 0);
                Self::lemma_rows_ok_splice(rows, i, i + 1, split_rows(w, gap));
            }
        }
        proof {
            assert(self.rows().len() + 1 == rows.len() + gap_rest(w, gap).len());
            let v = old_self@;
            assert(self@ == v.take(k) + gap_rest(w, gap) + v.skip(k + 1));
            lemma_sorted_replace(v.take(k), seq![w], gap_rest(w, gap), v.skip(k + 1));
            lemma_counts_around(v, k);
            lemma_counts_three(v.take(k), gap_rest(w, gap), v.skip(k + 1));
            lemma_unmapped_single(w);
        }
        let n = self.index.len();
        if row == n {
            proof {
                lemma_base_len(self.rows());
                assert(self.rows().take(i) == t);
            }
            Position::Virtual(VirtualPosition::End)
        } else {
            proof {
                assert(row_ok(self.rows()[row as int]));
                assert(self.rows()[row as int] == self.index@[row as int]@);
                let rs = self.rows();
                assert(rs.take(i) =~= t);
                if splits_in_two(w, gap) {
                    lemma_base_next(rs, i);
                    assert(rs[i] =~= seq![Waypoint::Unmapped(w.lo()..gap.start)]);
                }
                self.lemma_idx_at((row, 0usize));
                self.lemma_valid_at((row, 0usize));
            }
            Position::new((row, 0), self)
        }
    }
}

impl SaneIndex {
    /// `pos` resolves to an unmapped waypoint that covers the line `range`, and the line does
    /// not end a gap that is the last waypoint while leaving part of it before the line.
    pub open spec fn fills(&self, pos: Position, range: Range<usize>) -> bool {
        let k = self.resolved_at(pos);
        let w = self.resolved(pos);
        &&& self@.len() > 0
        &&& pos != Position::Virtual(VirtualPosition::Invalid)
        &&& !w.spec_is_mapped()
        &&& w.lo() <= range.start < range.end <= w.hi()
        &&& !(w.lo() < range.start && range.end == w.hi() && k == self@.len() - 1)
    }

    /// The explored map after mapping line `range` in the gap `pos` resolves to.
    pub open spec fn filled_view(&self, pos: Position, range: Range<usize>) -> Seq<Waypoint> {
        let k = self.resolved_at(pos);
        self@.take(k) + gap_fill(self.resolved(pos), range) + self@.skip(k + 1)
    }

    /// Insert a new line waypoint covering `range` in the gap that `pos` resolves to.
    /// Returns the position of the new waypoint.
    #[verifier::rlimit(100)]
    #[verifier::spinoff_prover]
    pub fn insert_one(&mut self, pos: &Position, range: &Range<usize>) -> (r: Position)
        requires
            old(self).wf(),
            old(self).fills(*pos, *range),
        ensures
            final(self).wf(),
            final(self)@ == old(self).filled_view(*pos, *range),
            final(self).stats_bytes() == old(self).stats_bytes() + (range.end - range.start),
            final(self).stats_lines() == old(self).stats_lines() + 1,
            r == final(self).existing_at(
                old(self).resolved_at(*pos) + (if old(self).resolved(*pos).lo() < range.start { 1int } else { 0 }),
                range.start,
            ),
            final(self).ok_pos(r),
            final(self).row_count_spec() == old(self).row_count_spec() + insert_rows(
                old(self)@,
                old(self).resolved_at(*pos),
                *range,
            ),
    {
        let ghost old_self = *self;
        let ghost v = self@;
        let ghost rows = self.rows();
        let ghost k = self.resolved_at(*pos);
        let ghost w = self.resolved(*pos);
        let ghost gap = overlap(w, *range);
        let ghost idx = self.idx_at(k);
        let ghost i = idx.0 as int;
        let ghost t = rows.take(i);
        let ghost sfx = rows.skip(i + 1);
        let ghost lw = Waypoint::Unmapped(w.lo()..range.start);
        let ghost rw = Waypoint::Unmapped(range.end..w.hi());
        let ghost mw = Waypoint::Mapped(*range);
        let ghost l = w.lo() < range.start;
        let ghost rt = w.hi() > range.end;
        proof {
            assert(gap == *range);
        }
        let row = self.clear_gap(pos, range);
        proof {
            old_self.lemma_valid_at(idx);
            lemma_counts_around(v, k);
            lemma_unmapped_single(w);
            lemma_mapped_count_le(v.take(k));
            lemma_mapped_count_le(v.skip(k + 1));
            lemma_sorted_lo(v, v.len() - 1);
            old_self.lemma_single_row(i, w);
            lemma_base_len(rows);
            lemma_base_next(rows, i);
            assert(rows.len() > i + 1 || !(l && !rt)) by {
                if rows.len() == i + 1 && l && !rt {
                    assert(base(rows, i) == k);
                }
            }
        }
        self.stats.lines_indexed = self.stats.lines_indexed + 1;
        let ghost rows1 = self.rows();
        proof {
            assert(rows1 == t + split_rows(w, gap) + sfx);
            assert(rows1[row as int] == self.index@[row as int]@);
        }
        let ghost added = insert_rows(v, k, *range);
        proof {
            assert(base(rows, i) == k) by {
                old_self.lemma_existing(k);
            }
            old_self.lemma_gap_neighbours(i, w);
        }
        let waypoint = Waypoint::Mapped(range.start..range.end);
        proof { assert(waypoint == mw); }
        let n = self.index.len();
        let mut col: usize = 0;
        let mut at: usize = row;
        if self.index[row].len() == 0 {
            // The whole gap is gone: its row is left empty for the new line.
            proof {
                if splits_in_two(w, gap) {
                    assert(rows1[row as int] == seq![rw]);
                } else if l {
                    assert(rows1[row as int] == seq![lw]);
                } else if rt {
                    assert(rows1[row as int] == seq![rw]);
                }
                assert(row == i);
                assert(!l && !rt);
            }
            let ghost idx1 = self.index@;
            self.index[row].push(waypoint.clone());
            proof {
                assert(self.index@ =~= idx1.update(row as int, self.index@[row as int]));
                assert(self.index@[row as int]@ =~= seq![mw]);
                assert(split_rows(w, gap) =~= seq![Seq::<Waypoint>::empty()]);
                assert(self.rows() =~= rows1.update(i, seq![mw]));
                assert(rows1.update(i, seq![mw]) =~= t + seq![seq![mw]] + sfx);
                assert(gap_fill(w, *range) =~= seq![mw]);
                lemma_flat_splice(rows, i, i + 1, seq![seq![mw]]);
                lemma_flat_single(seq![mw]);
                assert(self.rows().take(i) =~= t);
                Self::lemma_rows_ok_splice(rows, i, i + 1, seq![seq![mw]]);
            }
        } else {
            let first_start = self.index[row][0].region().start;
            if range.start < first_start {
                // The remainder is after the line: the line goes at the end of the row before,
                // unless that row is a gap (or there is none); then it gets a row of its own.
                proof {
                    assert(rt);
                    if l {
                        assert(row == i + 1);
                        assert(rows1[i] =~= seq![lw]);
                        assert(rows1[i] == self.index@[i]@);
                    } else {
                        assert(row == i);
                    }
                    assert(rows1[row as int] =~= seq![rw]);
                    if row > 0 {
                        assert(rows1[row - 1] == self.index@[row - 1]@);
                        if l {
                            assert(rows1[row - 1] =~= seq![lw]);
                        } else {
                            assert(rows1[row - 1] == rows[row - 1]);
                            assert(row_ok(rows[row - 1]));
                        }
                    }
                }
                if row > 0 && self.index[row - 1][0].is_mapped() {
                    let prev = row - 1;
                    let ghost idx1 = self.index@;
                    proof {
                        assert(!l);
                        assert(rows1[prev as int] == self.index@[prev as int]@);
                        assert(rows1[prev as int] == t.last());
                        assert(row_ok(rows[prev as int]));
                        lemma_flat_take_skip(t, t.len() - 1);
                        assert(t.take(t.len() - 1) =~= t.drop_last());
                        assert(flat(t) == flat(t.drop_last()) + t.last());
                        let q = flat(t.drop_last()).len() as int;
                        assert(flat(t)[q] == t.last()[0]);
                        assert(v[q] == t.last()[0]);
                        assert(v[q].hi() <= v[k].lo());
                    }
                    self.index[prev].push(waypoint.clone());
                    col = self.index[prev].len() - 1;
                    at = prev;
                    proof {
                        let tl = t.last();
                        assert(self.index@ =~= idx1.update(prev as int, self.index@[prev as int]));
                        assert(self.index@[prev as int]@ =~= tl.push(mw));
                        assert(self.rows() =~= rows1.update(prev as int, tl.push(mw)));
                        assert(rows1 =~= t + seq![seq![rw]] + sfx);
                        assert(self.rows() =~= t.drop_last() + seq![tl.push(mw), seq![rw]] + sfx);
                        lemma_flat_append(t.drop_last() + seq![tl.push(mw), seq![rw]], sfx);
                        lemma_flat_append(t.drop_last(), seq![tl.push(mw), seq![rw]]);
                        lemma_flat_pair(tl.push(mw), seq![rw]);
                        assert(gap_fill(w, *range) =~= seq![mw, rw]);
                        assert(self@ =~= flat(t) + gap_fill(w, *range) + flat(sfx));
                        assert(self.rows().take(prev as int) =~= t.drop_last());
                        assert(row_ok(tl.push(mw))) by {
                            assert(tl[0].spec_is_mapped());
                            assert(row_ok(tl));
                        }
                        assert(rows.take(i - 1) =~= t.drop_last());
                        Self::lemma_rows_ok_splice(rows, i - 1, i + 1, seq![tl.push(mw), seq![rw]]);
                    }
                } else {
                    let ins = row;
                    self.index.insert(ins, Vec::new());
                    let ghost idx2 = self.index@;
                    proof { assert(self.rows() =~= rows1.insert(ins as int, Seq::<Waypoint>::empty())); }
                    self.index[ins].push(waypoint.clone());
                    at = ins;
                    proof {
                        assert(self.index@ =~= idx2.update(ins as int, self.index@[ins as int]));
                        assert(self.index@[ins as int]@ =~= seq![mw]);
                        assert(self.rows() =~= rows1.insert(ins as int, seq![mw]));
                        if l {
                            assert(self.rows() =~= t + seq![seq![lw], seq![mw], seq![rw]] + sfx);
                            lemma_flat_splice(rows, i, i + 1, seq![seq![lw], seq![mw], seq![rw]]);
                            lemma_flat_triple(seq![lw], seq![mw], seq![rw]);
                            assert(gap_fill(w, *range) =~= seq![lw, mw, rw]);
                            Self::lemma_rows_ok_splice(rows, i, i + 1, seq![seq![lw], seq![mw], seq![rw]]);
                            assert(self.rows().take(i + 1) =~= t + seq![seq![lw]]);
                            lemma_flat_append(t, seq![seq![lw]]);
                            lemma_flat_single(seq![lw]);
                        } else {
                            assert(self.rows() =~= t + seq![seq![mw], seq![rw]] + sfx);
                            lemma_flat_splice(rows, i, i + 1, seq![seq![mw], seq![rw]]);
                            lemma_flat_pair(seq![mw], seq![rw]);
                            assert(gap_fill(w, *range) =~= seq![mw, rw]);
                            assert(self.rows().take(i) =~= t);
                            Self::lemma_rows_ok_splice(rows, i, i + 1, seq![seq![mw], seq![rw]]);
                        }
                    }
                }
            } else {
                // The remainder is before the line: the line goes at the start of the row after,
                // unless that row is a gap; then it gets a row of its own.
                let next = row + 1;
                proof {
                    assert(l && !rt);
                    assert(row == i);
                    assert(rows1[row as int] =~= seq![lw]);
                    assert(next < n);
                    assert(rows1[next as int] == self.index@[next as int]@);
                    assert(rows1[next as int] == sfx[0]);
                    assert(row_ok(rows[i + 1]));
                }
                if !self.index[next][0].is_mapped() {
                    self.index.insert(next, Vec::new());
                    let ghost idx2 = self.index@;
                    proof { assert(self.rows() =~= rows1.insert(next as int, Seq::<Waypoint>::empty())); }
                    self.index[next].push(waypoint.clone());
                    at = next;
                    proof {
                        assert(self.index@ =~= idx2.update(next as int, self.index@[next as int]));
                        assert(self.index@[next as int]@ =~= seq![mw]);
                        assert(self.rows() =~= rows1.insert(next as int, seq![mw]));
                        assert(self.rows() =~= t + seq![seq![lw], seq![mw]] + sfx);
                        lemma_flat_splice(rows, i, i + 1, seq![seq![lw], seq![mw]]);
                        lemma_flat_pair(seq![lw], seq![mw]);
                        assert(gap_fill(w, *range) =~= seq![lw, mw]);
                        Self::lemma_rows_ok_splice(rows, i, i + 1, seq![seq![lw], seq![mw]]);
                        assert(self.rows().take(i + 1) =~= t + seq![seq![lw]]);
                        lemma_flat_append(t, seq![seq![lw]]);
                        lemma_flat_single(seq![lw]);
                    }
                } else {
                    proof {
                        let s0 = sfx[0];
                        lemma_flat_split(sfx, 0);
                        assert(sfx.take(0) =~= Seq::<Seq<Waypoint>>::empty());
                        assert(flat(sfx)[0] == s0[0]);
                        assert(v[k + 1] == s0[0]);
                        assert(v[k].hi() <= v[k + 1].lo());
                    }
                    let ghost idx2 = self.index@;
                    self.index[next].insert(0, waypoint.clone());
                    at = next;
                    proof {
                        let s0 = sfx[0];
                        let s1 = sfx.skip(1);
                        assert(self.index@ =~= idx2.update(next as int, self.index@[next as int]));
                        assert(self.index@[next as int]@ =~= seq![mw] + s0);
                        assert(self.rows() =~= rows1.update(next as int, seq![mw] + s0));
                        assert(self.rows() =~= t + seq![seq![lw], seq![mw] + s0] + s1);
                        lemma_flat_append(t + seq![seq![lw], seq![mw] + s0], s1);
                        lemma_flat_append(t, seq![seq![lw], seq![mw] + s0]);
                        lemma_flat_pair(seq![lw], seq![mw] + s0);
                        assert(flat(sfx.take(0)) =~= Seq::<Waypoint>::empty());
                        assert(flat(sfx) =~= s0 + flat(s1)) by {
                            assert(sfx.skip(1) == s1);
                        }
                        assert(gap_fill(w, *range) =~= seq![lw, mw]);
                        assert(self@ =~= flat(t) + gap_fill(w, *range) + flat(sfx));
                        assert(row_ok(seq![mw] + s0)) by {
                            assert(row_ok(s0));
                            assert(s0[0].spec_is_mapped());
                        }
                        assert(rows.skip(i + 2) =~= s1);
                        Self::lemma_rows_ok_splice(rows, i, i + 2, seq![seq![lw], seq![mw] + s0]);
                        assert(self.rows().take(i + 1) =~= t + seq![seq![lw]]);
                        lemma_flat_append(t, seq![seq![lw]]);
                        lemma_flat_single(seq![lw]);
                    }
                }
            }
        }
        proof {
            assert(self.rows().len() == rows.len() + added);
            lemma_gap_fill(w, *range);
            lemma_sorted_replace(v.take(k), seq![w], gap_fill(w, *range), v.skip(k + 1));
            lemma_counts_three(v.take(k), gap_fill(w, *range), v.skip(k + 1));
            let kk = k + (if l { 1int } else { 0 });
            assert(self.valid((at, col)));
            assert(self.at((at, col)) == kk);
            lemma_flat_index(self.rows(), at as int, col as int);
            assert(self@[kk] == mw);
            self.lemma_idx_at((at, col));
        }
        Position::Existing((at, col), range.start, waypoint)
    }
}

impl SaneIndex {
    /// Where `find_gap` lands for a range starting at `o`: the waypoint a search for `o` finds,
    /// or the one after it when that one is a line and is not the last.
    pub open spec fn gap_spot(&self, o: usize) -> int {
        gap_spot_of(self@, o)
    }

    /// Find the waypoint where a gap starting at `gap.start` should be: the one holding
    /// `gap.start`, or the one after a line holding it.
    pub fn find_gap(&self, gap: &Range<usize>) -> (r: Position)
        requires
            self.wf(),
            self@.len() > 0,
        ensures
            0 <= self.gap_spot(gap.start) < self@.len(),
            r == self.existing_at(self.gap_spot(gap.start), self@[self.gap_spot(gap.start)].lo()),
            self.ok_pos(r),
    {
        let mut ndx = self.search(gap.start);
        proof { self.lemma_spot_unique(gap.start, self.at(ndx)); }
        if self.value(ndx).is_mapped() {
            if let Some(next) = self.index_next(ndx) {
                ndx = next;
            }
        } else if let Some(prev) = self.index_prev(ndx) {
            if self.value(prev).contains(gap.start) {
                ndx = prev;
            }
        }
        proof {
            self.lemma_valid_at(ndx);
            self.lemma_idx_at(ndx);
        }
        Position::new(ndx, self)
    }

    /// The line `range` fits in the gap that `find_gap` finds for it (see `fills`).
    pub open spec fn insertable(&self, range: Range<usize>) -> bool {
        let k = self.gap_spot(range.start);
        let w = self@[k];
        &&& self@.len() > 0
        &&& !w.spec_is_mapped()
        &&& w.lo() <= range.start < range.end <= w.hi()
        &&& !(w.lo() < range.start && range.end == w.hi() && k == self@.len() - 1)
    }

    /// What `insertable` asks, said of the waypoints alone.
    pub proof fn lemma_insertable_view(&self, range: Range<usize>)
        ensures
            self.gap_spot(range.start) == gap_spot_of(self@, range.start),
            self.insertable(range) == insertable_in(self@, range),
            self.erasable(range) == erasable_in(self@, range),
    {
    }

    /// `range` overlaps the gap that `find_gap` finds for it.
    pub open spec fn erasable(&self, range: Range<usize>) -> bool {
        let w = self@[self.gap_spot(range.start)];
        &&& self@.len() > 0
        &&& !w.spec_is_mapped()
        &&& overlap(w, range).start < overlap(w, range).end
    }

    /// Insert one new line waypoint covering `range`, which must lie in a gap.
    /// Returns the position of the new waypoint.
    pub fn insert(&mut self, range: &Range<usize>) -> (r: Position)
        requires
            old(self).wf(),
            old(self).insertable(*range),
        ensures
            ({
                let k = old(self).gap_spot(range.start);
                let w = old(self)@[k];
                &&& final(self).wf()
                &&& final(self)@ == old(self)@.take(k) + gap_fill(w, *range) + old(self)@.skip(k + 1)
                &&& final(self).stats_bytes() == old(self).stats_bytes() + (range.end - range.start)
                &&& final(self).stats_lines() == old(self).stats_lines() + 1
                &&& r == final(self).existing_at(k + (if w.lo() < range.start { 1int } else { 0 }), range.start)
                &&& final(self).row_count_spec() == old(self).row_count_spec() + insert_rows(old(self)@, k, *range)
            }),
    {
        let pos = self.find_gap(range);
        proof {
            self.lemma_existing(self.gap_spot(range.start));
            self.lemma_fresh_resolves(pos);
        }
        self.insert_one(&pos, range)
    }

    /// Remove the part of the gap that `find_gap` finds for `range` which `range` covers.
    /// Returns the position of what remains of the gap, or of the waypoint after it.
    pub fn erase(&mut self, range: &Range<usize>) -> (r: Position)
        requires
            old(self).wf(),
            old(self).erasable(*range),
        ensures
            ({
                let k = old(self).gap_spot(range.start);
                let w = old(self)@[k];
                let gap = overlap(w, *range);
                &&& final(self).wf()
                &&& final(self)@ == old(self)@.take(k) + gap_rest(w, gap) + old(self)@.skip(k + 1)
                &&& final(self).stats_bytes() == old(self).stats_bytes() + (gap.end - gap.start)
                &&& final(self).stats_lines() == old(self).stats_lines()
                &&& r == final(self).pos_at(k + (if splits_in_two(w, gap) { 1int } else { 0 }))
                &&& final(self).row_count_spec() + 1 == old(self).row_count_spec() + gap_rest(w, gap).len()
            }),
    {
        let pos = self.find_gap(range);
        proof {
            self.lemma_existing(self.gap_spot(range.start));
            self.lemma_fresh_resolves(pos);
        }
        self.erase_gap(&pos, range)
    }

    /// Every waypoint of the map has an index naming it.
    pub proof fn lemma_existing(&self, k: int)
        requires
            0 <= k < self@.len(),
        ensures
            self.valid(self.idx_at(k)),
            self.at(self.idx_at(k)) == k,
    {
        let rows = self.rows();
        lemma_flat_locate(rows, k);
        let (i, j) = choose|i: int, j: int| 0 <= i < rows.len() && 0 <= j < rows[i].len() && place(rows, i, j) == k;
        assert(rows[i] == self.index@[i]@);
        assert(self.index.len() == self.index@.len());
        assert(self.index@[i].len() == self.index@[i]@.len());
        let idx: IndexIndex = (i as usize, j as usize);
        assert(self.valid(idx) && self.at(idx) == k);
    }

    /// A position that names a live waypoint resolves to that waypoint.
    pub proof fn lemma_fresh_resolves(&self, p: Position)
        requires
            p matches Position::Existing(i, _, w) && self.fresh(i, w),
        ensures
            self.resolved_at(p) == self.at(p->Existing_0),
            self.resolved(p) == p->Existing_2,
            self.resolve_spec(p) == p,
    {
    }

    /// The waypoints in order, as a vector.
    pub fn iter(&self) -> (r: SaneIter<'_>)
        requires
            self.wf(),
            self@.len() > 0,
        ensures
            r.walks() == *self,
            r.inv(),
            r.remaining() == self@,
    {
        SaneIter::new(self)
    }

    /// The waypoint that holds offset `o`, and the waypoint after it, if any.
    pub fn holder_at(&self, o: usize) -> (r: (Waypoint, Option<Waypoint>))
        requires
            self.wf(),
            covers(self@),
            o < usize::MAX,
        ensures
            exists|k: int| {
                &&& 0 <= k < self@.len()
                &&& r.0 == #[trigger] self@[k]
                &&& r.0.lo() <= o < r.0.hi()
                &&& if k + 1 < self@.len() { r.1 == Some(self@[k + 1]) } else { r.1 is None }
            },
    {
        let idx = self.search(o);
        let ghost k = self.at(idx);
        proof {
            self.lemma_valid_at(idx);
            if k > 0 {
                assert(self@[k - 1].hi() == self@[k].lo());
            }
        }
        let w = self.value(idx).clone();
        let next = match self.index_next(idx) {
            Some(n) => {
                let x = self.value(n).clone();
                proof {
                    self.lemma_valid_at(n);
                    assert(self.at(n) == k + 1);
                    assert(k + 1 < self@.len());
                    assert(x == self@[k + 1]);
                }
                Some(x)
            },
            None => {
                proof {
                    assert(k == self@.len() - 1);
                }
                None
            },
        };
        proof {
            assert(0 <= k < self@.len());
            assert(w == self@[k]);
            assert(w.lo() <= o);
            assert(o < w.hi());
            assert(if k + 1 < self@.len() { next == Some(self@[k + 1]) } else { next is None });
        }
        (w, next)
    }

    /// When the waypoints tile the offsets, a gap holding `o` is where a region starting at
    /// `o` goes in.
    pub proof fn lemma_gap_spot_at(&self, o: usize, k: int)
        requires
            self.wf(),
            covers(self@),
            0 <= k < self@.len(),
            self@[k].lo() <= o < self@[k].hi(),
            !self@[k].spec_is_mapped(),
        ensures
            self.gap_spot(o) == k,
    {
        if k > 0 {
            assert(self@[k - 1].hi() == self@[k].lo());
        }
        assert(search_spot(self@, o, k));
        self.lemma_spot_unique(o, k);
    }

    /// Waypoints are not empty, and only one holds a given offset.
    pub proof fn lemma_one_holder(&self, o: usize, k1: int, k2: int)
        requires
            self.wf(),
            0 <= k1 < self@.len(),
            0 <= k2 < self@.len(),
            self@[k1].lo() <= o < self@[k1].hi(),
            self@[k2].lo() <= o < self@[k2].hi(),
        ensures
            k1 == k2,
    {
        if k1 < k2 {
            assert(self@[k1].hi() <= self@[k2].lo());
        } else if k2 < k1 {
            assert(self@[k2].hi() <= self@[k1].lo());
        }
    }

    /// Waypoints are not empty.
    pub proof fn lemma_not_empty(&self, k: int)
        requires
            self.wf(),
            0 <= k < self@.len(),
        ensures
            self@[k].lo() < self@[k].hi(),
    {
    }

    /// The first gap at or after where `pos` resolves to, as a position; the end if there is
    /// none, or if `pos` resolves to nothing.
    pub fn seek_gap(&self, pos: &Position) -> (r: Position)
        requires
            self.wf(),
            self.can_resolve(*pos),
        ensures
            match self.resolve_spec(*pos) {
                Position::Existing(_, _, _) => match first_gap_from(self@, self.resolved_at(*pos)) {
                    Some(k) => r == Position::Existing(self.idx_at(k), self@[k].lo(), self@[k]),
                    None => r == Position::Virtual(VirtualPosition::End),
                },
                _ => r == Position::Virtual(VirtualPosition::End),
            },
    {
        let mut p = pos.clone();
        p.resolve(self);
        if let Position::Existing(idx, _, _) = &p {
            let (row, col) = *idx;
            let ghost rows = self.rows();
            let ghost v = self@;
            let ghost start = self.at(*idx);
            let n = self.index.len();
            proof {
                lemma_flat_index(rows, row as int, col as int);
                lemma_base_next(rows, row as int);
                lemma_base_mono(rows, row + 1, rows.len() as int);
                lemma_base_len(rows);
                assert(row_ok(rows[row as int]));
                if rows[row as int].len() > 1 || rows[row as int][0].spec_is_mapped() {
                    assert forall|j: int| start <= j < base(rows, row + 1) implies #[trigger] v[j].spec_is_mapped() by {
                        lemma_flat_index(rows, row as int, j - base(rows, row as int));
                    }
                    lemma_first_gap_skip(v, start, base(rows, row + 1));
                }
            }
            if !self.index[row][0].is_mapped() {
                proof {
                    lemma_flat_index(rows, row as int, 0);
                    self.lemma_idx_at((row, 0));
                    assert(col == 0);
                }
                let w = self.index[row][0].clone();
                let lo = w.region().start;
                return Position::Existing((row, 0), lo, w);
            }
            let mut r: usize = row + 1;
            while r < n
                invariant
                    n == rows.len(),
                    self.resolve_spec(*pos) is Existing,
                    start == self.resolved_at(*pos),
                    rows == self.rows(),
                    v == self@,
                    self.wf(),
                    row < r <= rows.len(),
                    rows.len() == self.index@.len(),
                    first_gap_from(v, start) == first_gap_from(v, base(rows, r as int)),
                decreases rows.len() - r,
            {
                proof {
                    lemma_base_next(rows, r as int);
                    lemma_base_mono(rows, r + 1, rows.len() as int);
                    lemma_base_len(rows);
                    assert(row_ok(rows[r as int]));
                    lemma_flat_index(rows, r as int, 0);
                    assert(self.index@[r as int]@ == rows[r as int]);
                }
                if !self.index[r][0].is_mapped() {
                    proof {
                        assert(self.valid((r, 0)));
                        self.lemma_idx_at((r, 0));
                        assert(self.at((r, 0)) == base(rows, r as int));
                        assert(first_gap_from(v, base(rows, r as int)) == Some(base(rows, r as int)));
                    }
                    let w = self.index[r][0].clone();
                    let lo = w.region().start;
                    return Position::Existing((r, 0), lo, w);
                }
                proof {
                    assert forall|j: int| base(rows, r as int) <= j < base(rows, r + 1) implies #[trigger] v[j].spec_is_mapped() by {
                        lemma_flat_index(rows, r as int, j - base(rows, r as int));
                    }
                    lemma_first_gap_skip(v, base(rows, r as int), base(rows, r + 1));
                }
                r = r + 1;
            }
            proof {
                lemma_base_len(rows);
            }
        }
        Position::Virtual(VirtualPosition::End)
    }

    /// All the waypoints, in order.
    pub fn waypoints(&self) -> (r: Vec<Waypoint>)
        requires
            self.wf(),
            self@.len() > 0,
        ensures
            r@ == self@,
    {
        let mut it = self.iter();
        let mut out: Vec<Waypoint> = Vec::new();
        loop
            invariant
                it.walks() == *self,
                self.wf(),
                it.inv(),
                out@ + it.remaining() == self@,
            decreases it.remaining().len(),
        {
            let ghost before = it.remaining();
            match it.next() {
                Some(w) => {
                    out.push(w);
                    proof { assert(out@ + it.remaining() =~= self@); }
                },
                None => {
                    proof { assert(out@ =~= self@); }
                    return out;
                },
            }
        }
    }
}

/// Where a search for `o` lands in `v` (see `search_spot`).
pub open spec fn spot_of(v: Seq<Waypoint>, o: usize) -> int {
    choose|k: int| search_spot(v, o, k)
}

/// From a waypoint `i` that no waypoint before it ending after `o` precedes, a search for `o`
/// finds a place: the first waypoint from `i` that ends after `o`, or the last one.
pub proof fn lemma_spot_from(v: Seq<Waypoint>, o: usize, i: int)
    requires
        0 <= i < v.len(),
        i == 0 || v[i - 1].hi() <= o,
    ensures
        search_spot(v, o, spot_of(v, o)),
    decreases v.len() - i,
{
    if i == v.len() - 1 || o < v[i].hi() {
        assert(search_spot(v, o, i));
    } else {
        lemma_spot_from(v, o, i + 1);
    }
}

/// Where a gap for a range starting at `o` is looked for in `v`: the waypoint a search for
/// `o` finds, or the one after it when that one is a line and is not the last.
pub open spec fn gap_spot_of(v: Seq<Waypoint>, o: usize) -> int {
    let k = spot_of(v, o);
    if v[k].spec_is_mapped() && k + 1 < v.len() {
        k + 1
    } else {
        k
    }
}

/// The line `range` fits in the gap of `v` looked for it.
pub open spec fn insertable_in(v: Seq<Waypoint>, range: Range<usize>) -> bool {
    let k = gap_spot_of(v, range.start);
    let w = v[k];
    &&& v.len() > 0
    &&& !w.spec_is_mapped()
    &&& w.lo() <= range.start < range.end <= w.hi()
    &&& !(w.lo() < range.start && range.end == w.hi() && k == v.len() - 1)
}

/// `range` overlaps the gap of `v` looked for it.
pub open spec fn erasable_in(v: Seq<Waypoint>, range: Range<usize>) -> bool {
    let w = v[gap_spot_of(v, range.start)];
    &&& v.len() > 0
    &&& !w.spec_is_mapped()
    &&& overlap(w, range).start < overlap(w, range).end
}

/// The waypoints after inserting the line `range` where it fits; else `v` as it is.
pub open spec fn inserted(v: Seq<Waypoint>, range: Range<usize>) -> Seq<Waypoint> {
    if insertable_in(v, range) {
        let k = gap_spot_of(v, range.start);
        v.take(k) + gap_fill(v[k], range) + v.skip(k + 1)
    } else {
        v
    }
}

/// The waypoints after exploring `range` of its gap, where it overlaps one; else `v`.
pub open spec fn erased(v: Seq<Waypoint>, range: Range<usize>) -> Seq<Waypoint> {
    if erasable_in(v, range) {
        let k = gap_spot_of(v, range.start);
        v.take(k) + gap_rest(v[k], overlap(v[k], range)) + v.skip(k + 1)
    } else {
        v
    }
}

/// The lines `offsets[i..]` inserted in turn, each running to the next start, the last to
/// `end`.
pub open spec fn lines_from(v: Seq<Waypoint>, offsets: Seq<usize>, end: usize, i: int) -> Seq<Waypoint>
    decreases offsets.len() - i,
{
    if i < 0 || i >= offsets.len() {
        v
    } else {
        let s = offsets[i];
        let e = if i + 1 < offsets.len() { offsets[i + 1] } else { end };
        lines_from(if s < e { inserted(v, s..e) } else { v }, offsets, end, i + 1)
    }
}

/// The waypoints after recording a scan of `range` that found the line starts `offsets`:
/// the bytes before the first start are explored and, where that worked, stretch the line
/// ending at the start of `range`; then each line is inserted.
pub open spec fn lines_recorded(v: Seq<Waypoint>, offsets: Seq<usize>, range: Range<usize>) -> Seq<Waypoint> {
    let first = if offsets.len() > 0 { offsets[0] } else { range.end };
    let p = range.start..first;
    let v1 = if range.start < first && erasable_in(v, p) {
        extended(erased(v, p), range.start, first)
    } else {
        v
    };
    lines_from(v1, offsets, range.end, 0)
}

/// Waypoint `k` of `v` is a line ending at or before `end`, and the next waypoint (if any)
/// starts at `end` or later: that line may be stretched to `end`.
pub open spec fn extendable(v: Seq<Waypoint>, k: int, end: usize) -> bool {
    &&& 0 <= k < v.len()
    &&& v[k].spec_is_mapped()
    &&& v[k].hi() <= end
    &&& (k + 1 == v.len() || end <= v[k + 1].lo())
}

/// Some line of `v` ends at `start` and may be stretched to `end`.
pub open spec fn extends_at(v: Seq<Waypoint>, start: usize, end: usize) -> bool {
    exists|k: int| #![trigger v[k]] extendable(v, k, end) && v[k].hi() == start
}

/// The waypoints after stretching the line that ends at `start` to `end`, where there is
/// such a line that may be stretched; else `v` as it is.
pub open spec fn extended(v: Seq<Waypoint>, start: usize, end: usize) -> Seq<Waypoint> {
    if extends_at(v, start, end) {
        let k = choose|k: int| #![trigger v[k]] extendable(v, k, end) && v[k].hi() == start;
        v.update(k, Waypoint::Mapped(v[k].lo()..end))
    } else {
        v
    }
}

/// In sorted waypoints at most one ends at a given offset.
proof fn lemma_one_ends_at(v: Seq<Waypoint>, k1: int, k2: int)
    requires
        sorted(v),
        0 <= k1 < v.len(),
        0 <= k2 < v.len(),
        v[k1].hi() == v[k2].hi(),
    ensures
        k1 == k2,
{
    if k1 < k2 {
        assert(v[k1].hi() <= v[k2].lo());
    } else if k2 < k1 {
        assert(v[k2].hi() <= v[k1].lo());
    }
}

impl SaneIndex {
    /// Insert the line `range` if it fits in the gap `find_gap` finds for it; otherwise leave
    /// the index as it is and return `None`.
    pub fn insert_checked(&mut self, range: &Range<usize>) -> (r: Option<Position>)
        requires
            old(self).wf(),
        ensures
            final(self).wf(),
            r is Some <==> old(self).insertable(*range),
            r is None ==> *final(self) == *old(self),
            r is Some ==> ({
                let k = old(self).gap_spot(range.start);
                let w = old(self)@[k];
                &&& final(self)@ == old(self)@.take(k) + gap_fill(w, *range) + old(self)@.skip(k + 1)
                &&& final(self).stats_bytes() == old(self).stats_bytes() + (range.end - range.start)
                &&& final(self).stats_lines() == old(self).stats_lines() + 1
                &&& r == Some(final(self).existing_at(k + (if w.lo() < range.start { 1int } else { 0 }), range.start))
            }),
    {
        if self.index.len() == 0 {
            proof { self.lemma_empty(); }
            return None;
        }
        proof { self.lemma_empty(); }
        let pos = self.find_gap(range);
        let ghost k = self.gap_spot(range.start);
        proof { self.lemma_existing(k); }
        let (idx, lo, hi, mapped) = match &pos {
            Position::Existing(idx, _, w) => (*idx, w.region().start, w.region().end, w.is_mapped()),
            Position::Virtual(_) => unreached(),
        };
        proof {
            assert(idx == self.idx_at(k));
            assert(lo == self@[k].lo() && hi == self@[k].hi());
            assert(mapped == self@[k].spec_is_mapped());
        }
        if mapped || !(lo <= range.start && range.start < range.end && range.end <= hi) {
            return None;
        }
        let last = match self.index_next(idx) {
            Some(p) => {
                proof { self.lemma_valid_at(p); }
                false
            },
            None => true,
        };
        if lo < range.start && range.end == hi && last {
            return None;
        }
        Some(self.insert(range))
    }

    /// Erase the part of the gap `find_gap` finds for `range` that `range` covers, if any;
    /// otherwise leave the index as it is and return `None`.
    pub fn erase_checked(&mut self, range: &Range<usize>) -> (r: Option<Position>)
        requires
            old(self).wf(),
        ensures
            final(self).wf(),
            r is Some <==> old(self).erasable(*range),
            r is None ==> *final(self) == *old(self),
            r is Some ==> ({
                let k = old(self).gap_spot(range.start);
                let w = old(self)@[k];
                let gap = overlap(w, *range);
                &&& final(self)@ == old(self)@.take(k) + gap_rest(w, gap) + old(self)@.skip(k + 1)
                &&& final(self).stats_bytes() == old(self).stats_bytes() + (gap.end - gap.start)
                &&& final(self).stats_lines() == old(self).stats_lines()
            }),
    {
        if self.index.len() == 0 {
            proof { self.lemma_empty(); }
            return None;
        }
        proof { self.lemma_empty(); }
        let pos = self.find_gap(range);
        let (lo, hi, mapped) = match &pos {
            Position::Existing(_, _, w) => (w.region().start, w.region().end, w.is_mapped()),
            Position::Virtual(_) => unreached(),
        };
        let s = if lo > range.start { lo } else { range.start };
        let e = if hi < range.end { hi } else { range.end };
        if mapped || s >= e {
            return None;
        }
        Some(self.erase(range))
    }

    /// The waypoint `k` is a line ending at or before `end`, and the next waypoint (if any)
    /// starts at `end` or later: that line may be stretched to `end`.
    pub open spec fn can_extend(&self, k: int, end: usize) -> bool {
        extendable(self@, k, end)
    }

    /// If the line just before offset `start` ends there, let it run on to `end`, over bytes
    /// that are already explored. Returns whether it did.
    pub fn extend_line(&mut self, start: usize, end: usize) -> (r: bool)
        requires
            old(self).wf(),
            start <= end,
        ensures
            final(self).wf(),
            final(self).stats_bytes() == old(self).stats_bytes(),
            final(self).stats_lines() == old(self).stats_lines(),
            r == extends_at(old(self)@, start, end),
            !r ==> *final(self) == *old(self),
            final(self)@ == extended(old(self)@, start, end),
            r ==> exists|k: int| #![trigger old(self)@[k]] old(self).can_extend(k, end) && old(self)@[k].hi() == start
                && final(self)@ == old(self)@.update(k, Waypoint::Mapped(old(self)@[k].lo()..end)),
    {
        proof { self.lemma_empty(); }
        if start == 0 || self.index.len() == 0 {
            proof {
                assert forall|k2: int| !(extendable(self@, k2, end) && #[trigger] self@[k2].hi() == start) by {
                    if 0 <= k2 < self@.len() {
                        assert(self@[k2].lo() < self@[k2].hi());
                    }
                }
            }
            return false;
        }
        let idx = self.search(start - 1);
        let ghost k = self.at(idx);
        proof { self.lemma_valid_at(idx); }
        let (lo, hi, mapped) = {
            let w = self.value(idx);
            (w.region().start, w.region().end, w.is_mapped())
        };
        proof {
            // The only line that can end at `start` is the one a search for `start - 1` finds.
            let v = self@;
            assert forall|k2: int| extendable(v, k2, end) && #[trigger] v[k2].hi() == start implies k2 == k by {
                assert(v[k2].lo() < v[k2].hi());
                if k2 < k {
                    if k2 < k - 1 {
                        assert(v[k2].hi() <= v[k - 1].lo());
                        assert(v[k - 1].lo() < v[k - 1].hi());
                    }
                } else if k < k2 {
                    assert(v[k].hi() <= v[k2].lo());
                }
            }
        }
        if !mapped || hi != start {
            return false;
        }
        if let Some(next) = self.index_next(idx) {
            if self.value(next).region().start < end {
                proof {
                    self.lemma_valid_at(next);
                    assert(self@[k + 1].lo() < end);
                    assert(!extendable(self@, k, end));
                }
                return false;
            }
        }
        proof {
            assert(self.can_extend(k, end));
        }
        let (i, j) = idx;
        let ghost rows = self.rows();
        let ghost v = self@;
        let ghost nw = Waypoint::Mapped(lo..end);
        let ghost idx1 = self.index@;
        proof {
            assert(rows[i as int] == self.index@[i as int]@);
            lemma_flat_split(rows, i as int);
            lemma_flat_index(rows, i as int, j as int);
        }
        self.index[i].set(j, Waypoint::Mapped(lo..end));
        proof {
            assert(self.index@ =~= idx1.update(i as int, self.index@[i as int]));
            assert(self.rows() =~= rows.update(i as int, rows[i as int].update(j as int, nw)));
            let ri = rows[i as int];
            lemma_flat_split(self.rows(), i as int);
            assert(self.rows().take(i as int) =~= rows.take(i as int));
            assert(self.rows().skip(i + 1) =~= rows.skip(i + 1));
            assert(self@ =~= v.update(k, nw));
            assert(rows_ok(self.rows())) by {
                assert forall|a: int| 0 <= a < self.rows().len() implies #[trigger] row_ok(self.rows()[a]) by {
                    if a == i {
                        assert(row_ok(ri));
                        assert(ri[j as int].spec_is_mapped());
                    } else {
                        assert(self.rows()[a] == rows[a]);
                    }
                }
            }
            lemma_sorted_stretch(v, k, nw);
            lemma_counts_around(v, k);
            lemma_counts_around(self@, k);
            assert(self@.take(k) =~= v.take(k));
            assert(self@.skip(k + 1) =~= v.skip(k + 1));
            lemma_unmapped_single(v[k]);
            lemma_unmapped_single(nw);
            let c = choose|c: int| #![trigger v[c]] extendable(v, c, end) && v[c].hi() == start;
            lemma_one_ends_at(v, c, k);
        }
        true
    }

    /// Record what a scan of `range` found: `offsets` are the starts of the lines in it, in
    /// increasing order. Each line runs to the next start, the last one to the end of the
    /// range. The bytes before the first start are explored, and continue the line that
    /// ends where the range starts, if the index holds one. Lines that do not fit in a gap
    /// are left out.
    pub fn insert_lines(&mut self, offsets: &[usize], range: &Range<usize>)
        requires
            old(self).wf(),
        ensures
            final(self).wf(),
            final(self)@ == lines_recorded(old(self)@, offsets@, *range),
            final(self).stats_lines() <= old(self).stats_lines() + offsets@.len(),
    {
        let ghost v0 = self@;
        let n = offsets.len();
        let first = if n > 0 { offsets[0] } else { range.end };
        if range.start < first {
            let prefix = range.start..first;
            proof { self.lemma_insertable_view(prefix); }
            if self.erase_checked(&prefix).is_some() {
                self.extend_line(range.start, first);
            }
        }
        let mut i: usize = 0;
        while i < n
            invariant
                self.wf(),
                0 <= i <= n,
                n == offsets@.len(),
                self.stats_lines() <= old(self).stats_lines() + i,
                lines_recorded(v0, offsets@, *range) == lines_from(self@, offsets@, range.end, i as int),
            decreases n - i,
        {
            let start = offsets[i];
            let end = if i + 1 < n { offsets[i + 1] } else { range.end };
            let ghost before = self@;
            if start < end {
                proof { self.lemma_insertable_view(start..end); }
                self.insert_checked(&(start..end));
            }
            proof {
                assert(self@ == (if start < end { inserted(before, start..end) } else { before }));
            }
            i = i + 1;
        }
    }
}

impl Default for SaneIndex {
    fn default() -> (r: Self)
        ensures
            r.wf(),
            r@ == seq![Waypoint::Unmapped(0..usize::MAX)],
    {
        SaneIndex::new()
    }
}

/// Walks the waypoints of an index in order.
pub struct SaneIter<'a> {
    index: &'a SaneIndex,
    pos: Position,
}

impl<'a> SaneIter<'a> {
    /// The index being walked.
    pub closed spec fn walks(&self) -> SaneIndex {
        *self.index
    }

    /// The position is at a live waypoint of the index, or the walk is over.
    pub closed spec fn inv(&self) -> bool {
        match self.pos {
            Position::Existing(i, _, w) => self.index.fresh(i, w),
            Position::Virtual(v) => v == VirtualPosition::Invalid,
        }
    }

    /// The waypoints the walk has yet to give.
    pub closed spec fn remaining(&self) -> Seq<Waypoint> {
        match self.pos {
            Position::Existing(i, _, _) => self.index@.skip(self.index.at(i)),
            _ => Seq::empty(),
        }
    }

    pub fn new(index: &'a SaneIndex) -> (r: Self)
        requires
            index.wf(),
            index@.len() > 0,
        ensures
            r.walks() == *index,
            r.inv(),
            r.remaining() == index@,
    {
        let mut pos = Position::Virtual(VirtualPosition::Start);
        pos.resolve(index);
        proof {
            let k = index.spot(0);
            assert(search_spot(index@, 0, 0)) by {
                if index@.len() > 1 {
                    assert(index@[0].lo() < index@[0].hi());
                }
            }
            index.lemma_spot_unique(0, 0);
            assert(index@.skip(0) =~= index@);
        }
        SaneIter { index, pos }
    }

    /// The next waypoint, if any.
    pub fn next(&mut self) -> (r: Option<Waypoint>)
        requires
            old(self).walks().wf(),
            old(self).inv(),
        ensures
            final(self).walks() == old(self).walks(),
            final(self).inv(),
            old(self).remaining().len() == 0 ==> r is None && final(self).remaining().len() == 0,
            old(self).remaining().len() > 0 ==> r == Some(old(self).remaining()[0])
                && final(self).remaining() == old(self).remaining().drop_first(),
    {
        let p = self.pos.clone();
        let ghost gp = p;
        proof {
            if let Position::Existing(i, _, w) = gp {
                self.index.lemma_valid_at(i);
                self.index.lemma_fresh_resolves(gp);
            }
        }
        match p {
            Position::Existing(_, _, waypoint) => {
                self.pos.next(self.index);
                proof {
                    let v = self.index@;
                    let k = self.index.at(gp->Existing_0);
                    if k + 1 < v.len() {
                        let q = self.pos->Existing_0;
                        self.index.lemma_existing(k + 1);
                    }
                    assert(v.skip(k).drop_first() =~= v.skip(k + 1));
                }
                Some(waypoint)
            },
            _ => {
                self.pos = Position::Virtual(VirtualPosition::Invalid);
                None
            },
        }
    }
}

impl Position {
    /// Position at the waypoint the index holds at `ndx`.
    pub fn new(ndx: IndexIndex, index: &SaneIndex) -> (r: Self)
        requires
            index.valid(ndx),
        ensures
            r == Position::Existing(ndx, index@[index.at(ndx)].lo(), index@[index.at(ndx)]),
    {
        let waypoint = index.value(ndx);
        Position::Existing(ndx, waypoint.cmp_offset(), waypoint.clone())
    }

    /// Resolve a virtual (or stale) position to a waypoint of the index, or to Invalid.
    pub fn resolve(&mut self, index: &SaneIndex)
        requires
            index.wf(),
            index.can_resolve(*old(self)),
        ensures
            *final(self) == index.resolve_spec(*old(self)),
            index.ok_pos(*final(self)),
            *old(self) != Position::Virtual(VirtualPosition::Invalid) ==> (*final(self) matches
                Position::Existing(i, _, w) && index.at(i) == index.resolved_at(*old(self))
                && w == index.resolved(*old(self))),
    {
        let target: Option<usize> = match &*self {
            Position::Virtual(virt) => {
                match virt.offset() {
                    Some(o) => Some(o),
                    None => {
                        *self = Position::Virtual(VirtualPosition::Invalid);
                        return;
                    },
                }
            },
            Position::Existing(i, target, waypoint) => {
                if !index.index_valid(*i) || !index.value(*i).same(waypoint) {
                    Some(*target)
                } else {
                    None
                }
            },
        };
        if let Some(offset) = target {
            let i = index.search(offset);
            proof {
                index.lemma_spot_unique(offset, index.at(i));
                index.lemma_idx_at(i);
            }
            *self = Position::Existing(i, offset, index.value(i).clone());
        }
    }

    /// Resolve backwards a virtual (or stale) position to a waypoint of the index, or to Invalid.
    pub fn resolve_back(&mut self, index: &SaneIndex)
        requires
            index.wf(),
        ensures
            *final(self) == index.resolve_back_spec(*old(self)),
            index.ok_pos(*final(self)),
    {
        let target: Option<usize> = match &*self {
            Position::Virtual(virt) => virt.offset(),
            Position::Existing(i, target, waypoint) => {
                if !index.index_valid(*i) || !index.value(*i).same(waypoint) {
                    Some(*target)
                } else {
                    None
                }
            },
        };
        if let Some(offset) = target {
            proof { index.lemma_empty(); }
            let mut i = index.search(offset);
            if index.index_valid(i) {
                proof {
                    index.lemma_spot_unique(offset, index.at(i));
                }
                if offset < index.value(i).cmp_offset() {
                    if let Some(ndx) = index.index_prev(i) {
                        i = ndx;
                    }
                }
            }
            if index.index_valid(i) {
                proof { index.lemma_idx_at(i); }
                *self = Position::Existing(i, offset, index.value(i).clone());
            } else {
                *self = Position::Virtual(VirtualPosition::Invalid);
            }
        }
    }

    /// Move to the waypoint after this one.
    pub fn advance(&mut self, index: &SaneIndex) -> (r: Option<(Waypoint, usize)>)
        requires
            index.wf(),
            index.ok_pos(*old(self)),
        ensures
            *final(self) == index.advance_spec(*old(self)),
            index.ok_pos(*final(self)),
            r == final(self).spec_waypoint(),
    {
        if let Position::Existing(i, ..) = &*self {
            let i = *i;
            if let Some(next) = index.index_next(i) {
                let next_waypoint = index.value(next).clone();
                proof { index.lemma_idx_at(next); index.lemma_valid_at(next); }
                *self = Position::Existing(next, next_waypoint.cmp_offset(), next_waypoint);
            } else {
                *self = Position::Virtual(VirtualPosition::Invalid);
            }
        }
        self.waypoint()
    }

    /// Move to the waypoint before this one.
    pub fn advance_back(&mut self, index: &SaneIndex) -> (r: Option<(Waypoint, usize)>)
        requires
            index.wf(),
            index.ok_pos(*old(self)),
        ensures
            *final(self) == index.advance_back_spec(*old(self)),
            index.ok_pos(*final(self)),
            r == final(self).spec_waypoint(),
    {
        if let Position::Existing(i, ..) = &*self {
            let i = *i;
            if let Some(prev) = index.index_prev(i) {
                let prev_waypoint = index.value(prev).clone();
                proof { index.lemma_idx_at(prev); }
                *self = Position::Existing(prev, prev_waypoint.end_offset(), prev_waypoint);
            } else {
                *self = Position::Virtual(VirtualPosition::Invalid);
            }
        }
        self.waypoint()
    }

    /// A virtual position resolves to its first waypoint, which is returned;
    /// a waypoint position moves on to the next waypoint and returns it.
    pub fn next(&mut self, index: &SaneIndex) -> (r: Option<(Waypoint, usize)>)
        requires
            index.wf(),
            index.can_resolve(*old(self)),
        ensures
            *final(self) == (match *old(self) {
                Position::Virtual(_) => index.resolve_spec(*old(self)),
                Position::Existing(..) => index.advance_spec(index.resolve_spec(*old(self))),
            }),
            r == final(self).spec_waypoint(),
    {
        match self {
            Position::Virtual(_) => {
                self.resolve(index);
                self.waypoint()
            },
            Position::Existing(..) => {
                self.resolve(index);
                self.advance(index)
            },
        }
    }

    /// A virtual position resolves backwards to its first waypoint, which is returned;
    /// a waypoint position moves back to the previous waypoint and returns it.
    pub fn next_back(&mut self, index: &SaneIndex) -> (r: Option<(Waypoint, usize)>)
        requires
            index.wf(),
        ensures
            *final(self) == (match *old(self) {
                Position::Virtual(_) => index.resolve_back_spec(*old(self)),
                Position::Existing(..) => index.advance_back_spec(index.resolve_back_spec(*old(self))),
            }),
            r == final(self).spec_waypoint(),
    {
        match self {
            Position::Virtual(_) => {
                self.resolve_back(index);
                self.waypoint()
            },
            Position::Existing(..) => {
                self.resolve_back(index);
                self.advance_back(index)
            },
        }
    }
}

} // verus!
