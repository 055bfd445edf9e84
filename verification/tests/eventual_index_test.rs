use grok::eventual_index::{EventualIndex, GapRange, IndexRef, Location, Missing, TargetOffset, VirtualLocation};
use grok::index::Index;

fn two_stretches() -> EventualIndex {
    // Lines at 0, 10 in [0, 20); lines at 50, 60 in [50, 70).
    let mut e = EventualIndex::new();
    let mut a = Index::new();
    a.insert(&(0..20), Some(0));
    a.insert(&(0..20), Some(10));
    let mut b = Index::at(50);
    b.insert(&(50..70), Some(50));
    b.insert(&(50..70), Some(60));
    e.merge(b);
    e.merge(a);
    e
}

#[test]
fn empty_index_is_one_unbounded_gap() {
    let e = EventualIndex::new();
    let loc = e.resolve(Location::Virtual(VirtualLocation::Start), 100);
    assert_eq!(loc, Location::Gap(GapRange { target: TargetOffset::AtOrAfter(0), index: 0, gap: Missing::Unbounded(0) }));
    assert_eq!(e.bytes(), 0);
    assert_eq!(e.lines(), 0);
    assert_eq!(e.start(), 0);
    assert_eq!(e.end(), 0);
}

#[test]
fn merge_keeps_stretches_in_order() {
    let e = two_stretches();
    assert_eq!(e.start(), 0);
    assert_eq!(e.end(), 70);
    assert_eq!(e.bytes(), 40);
    assert_eq!(e.lines(), 4);
}

#[test]
fn locate_finds_line_or_gap() {
    let e = two_stretches();
    let loc = e.locate(TargetOffset::AtOrAfter(5));
    assert_eq!(loc.found_offset(), Some(10));
    let loc = e.locate(TargetOffset::AtOrBefore(15));
    assert_eq!(loc.found_offset(), Some(10));
    let loc = e.locate(TargetOffset::AtOrAfter(30));
    assert_eq!(loc, Location::Gap(GapRange { target: TargetOffset::AtOrAfter(30), index: 1, gap: Missing::Bounded(20, 50) }));
    let loc = e.locate(TargetOffset::AtOrAfter(90));
    assert_eq!(loc, Location::Gap(GapRange { target: TargetOffset::AtOrAfter(90), index: 2, gap: Missing::Unbounded(70) }));
}

#[test]
fn next_walks_lines_and_stops_at_gaps() {
    let e = two_stretches();
    let start = e.resolve(Location::Virtual(VirtualLocation::Start), 100);
    assert_eq!(start.found_offset(), Some(0));
    let second = e.next(start);
    assert_eq!(second.found_offset(), Some(10));
    // The target just past line 10 lies in the first stretch, so no gap is left before the
    // next stretch: the walk goes on to its first line.
    let third = e.next(second);
    assert_eq!(third.found_offset(), Some(50));
    let back = e.next(Location::Indexed(IndexRef { index: 1, line: 0, offset: 50, next: TargetOffset::AtOrBefore(50) }));
    assert!(back.is_gap());
    assert_eq!(back.offset(), 49);
}

#[test]
fn insert_fills_gap_and_finalize_joins() {
    let mut e = two_stretches();
    let gap = e.locate(TargetOffset::AtOrAfter(30));
    let loc = e.insert(&gap, &(20..50), Some(35));
    assert_eq!(loc.found_offset(), Some(35));
    assert!(loc.reached());
    assert_eq!(e.count(), 2);
    e.finalize();
    assert_eq!(e.count(), 1);
    assert_eq!(e.lines(), 5);
    assert_eq!(e.bytes(), 70);
}

#[test]
fn finalize_drops_stretches_without_lines() {
    let mut e = EventualIndex::new();
    e.merge(Index::at(5));
    let mut b = Index::at(10);
    b.insert(&(10..20), Some(12));
    e.merge(b);
    assert_eq!(e.count(), 2);
    e.finalize();
    assert_eq!(e.count(), 1);
    assert_eq!(e.start(), 10);
}

#[test]
fn location_helpers() {
    let g = Location::Gap(GapRange { target: TargetOffset::AtOrBefore(30), index: 1, gap: Missing::Bounded(20, 50) });
    assert_eq!(g.gap_to_target(), VirtualLocation::Before(31));
    let g2 = Location::Gap(GapRange { target: TargetOffset::AtOrAfter(10), index: 1, gap: Missing::Unbounded(20) });
    assert_eq!(g2.gap_to_target(), VirtualLocation::AtOrAfter(20));
    assert_eq!(Location::Virtual(VirtualLocation::Before(0)).offset(), 0);
    assert_eq!(Location::Virtual(VirtualLocation::Before(7)).offset(), 6);
    assert!(Location::Invalid.is_invalid());
    let r = IndexRef { index: 0, line: 0, offset: 5, next: TargetOffset::AtOrAfter(3) };
    assert!(Location::Indexed(r).reached());
    assert_eq!(TargetOffset::AtOrBefore(0).next_exclusive(0), TargetOffset::AtOrBefore(0));
    assert_eq!(TargetOffset::AtOrAfter(4).next_exclusive(9), TargetOffset::AtOrAfter(10));
    assert!(VirtualLocation::Before(3).is_before());
    assert_eq!(VirtualLocation::End.offset(), usize::MAX);
}

#[test]
fn index_find_and_merge() {
    let mut a = Index::new();
    a.insert(&(0..10), Some(0));
    a.insert(&(0..10), Some(4));
    assert_eq!(a.find(5), Some(1));
    assert_eq!(a.find(3), Some(0));
    assert_eq!(a.find(10), None);
    let mut b = Index::at(10);
    b.insert(&(10..15), Some(10));
    a.merge(&b);
    assert_eq!(a.range(), 0..15);
    assert_eq!(a.lines(), 3);
    assert_eq!(a.get(2), 10);
}

#[test]
fn merge_adds_the_lines_and_bytes_of_the_other_index() {
    let mut e = two_stretches();
    assert_eq!((e.lines(), e.bytes()), (4, 40));
    let mut c = Index::at(100);
    c.insert(&(100..110), Some(100));
    e.merge(c);
    assert_eq!((e.lines(), e.bytes()), (5, 50));
}

#[test]
fn finalize_leaves_a_compact_index_alone() {
    let mut e = two_stretches();
    e.finalize();
    let once = (e.count(), e.start(), e.end(), e.lines(), e.bytes());
    e.finalize();
    assert_eq!((e.count(), e.start(), e.end(), e.lines(), e.bytes()), once);
    assert_eq!(once, (2, 0, 70, 4, 40));
}
