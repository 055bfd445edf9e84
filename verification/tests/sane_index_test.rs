use grok::sane_index::SaneIndex;
use grok::waypoint::{Position, VirtualPosition, Waypoint};
use grok::waypoint::Waypoint::{Mapped, Unmapped};

const IMAX: usize = usize::MAX;

#[test]
fn sane_index_basic() {
    let mut index = SaneIndex::default();
    index.insert(&(0..13));
    assert_eq!(index.waypoints(), vec![Mapped(0..13), Unmapped(13..IMAX)]);
    index.insert(&(13..14));
    assert_eq!(index.waypoints(), vec![Mapped(0..13), Mapped(13..14), Unmapped(14..IMAX)]);
    index.insert(&(14..30));
    assert_eq!(index.waypoints(), vec![Mapped(0..13), Mapped(13..14), Mapped(14..30), Unmapped(30..IMAX)]);
    index.insert(&(30..51));
    assert_eq!(index.waypoints(), vec![Mapped(0..13), Mapped(13..14), Mapped(14..30), Mapped(30..51), Unmapped(51..IMAX)]);
    index.insert(&(51..52));
    assert_eq!(index.waypoints(), vec![Mapped(0..13), Mapped(13..14), Mapped(14..30), Mapped(30..51), Mapped(51..52), Unmapped(52..IMAX)]);
    index.erase(&(52..67));
    assert_eq!(index.waypoints(), vec![Mapped(0..13), Mapped(13..14), Mapped(14..30), Mapped(30..51), Mapped(51..52), Unmapped(67..IMAX)]);
    assert_eq!(index.row_count(), 2);
}

#[test]
fn sane_index_basic_rev() {
    let mut index = SaneIndex::default();
    index.erase(&(52..67));
    assert_eq!(index.waypoints(), vec![Unmapped(0..52), Unmapped(67..IMAX)]);
    index.insert(&(13..14));
    assert_eq!(index.waypoints(), vec![Unmapped(0..13), Mapped(13..14), Unmapped(14..52), Unmapped(67..IMAX)]);
    index.erase(&(0..13));
    assert_eq!(index.waypoints(), vec![Mapped(13..14), Unmapped(14..52), Unmapped(67..IMAX)]);
    index.insert(&(14..30));
    assert_eq!(index.waypoints(), vec![Mapped(13..14), Mapped(14..30), Unmapped(30..52), Unmapped(67..IMAX)]);
}

#[test]
fn sane_iter_walks_every_waypoint_once() {
    let mut index = SaneIndex::new();
    index.insert(&(0..10));
    let mut it = index.iter();
    assert_eq!(it.next(), Some(Mapped(0..10)));
    assert_eq!(it.next(), Some(Unmapped(10..IMAX)));
    assert_eq!(it.next(), None);
    assert_eq!(it.next(), None);
}

#[test]
fn insert_checked_refuses_a_mapped_region() {
    let mut index = SaneIndex::new();
    assert!(index.insert_checked(&(0..10)).is_some());
    assert!(index.insert_checked(&(0..10)).is_none());
    assert!(index.insert_checked(&(5..20)).is_none());
    assert_eq!(index.waypoints(), vec![Mapped(0..10), Unmapped(10..IMAX)]);
}

#[test]
fn erase_checked_refuses_explored_bytes() {
    let mut index = SaneIndex::new();
    index.insert(&(0..10));
    assert!(index.erase_checked(&(0..10)).is_none());
    assert!(index.erase_checked(&(20..30)).is_some());
    assert_eq!(index.waypoints(), vec![Mapped(0..10), Unmapped(10..20), Unmapped(30..IMAX)]);
}

#[test]
fn insert_in_middle_splits_gap() {
    let mut index = SaneIndex::new();
    let pos = index.insert(&(10..20));
    assert_eq!(pos.waypoint(), Some((Mapped(10..20), 10)));
    assert_eq!(index.waypoints(), vec![Unmapped(0..10), Mapped(10..20), Unmapped(20..IMAX)]);
    assert_eq!(index.row_count(), 3);
}

#[test]
fn insert_lines_extends_previous_line() {
    let mut index = SaneIndex::new();
    index.insert_lines(&[0, 5], &(0..8));
    assert_eq!(index.waypoints(), vec![Mapped(0..5), Mapped(5..8), Unmapped(8..IMAX)]);
    index.insert_lines(&[], &(8..12));
    assert_eq!(index.waypoints(), vec![Mapped(0..5), Mapped(5..12), Unmapped(12..IMAX)]);
}

#[test]
fn find_gap_skips_a_line() {
    let mut index = SaneIndex::new();
    index.insert(&(0..10));
    let pos = index.find_gap(&(3..4));
    assert_eq!(pos.waypoint(), Some((Unmapped(10..IMAX), 10)));
    let _ = Waypoint::Mapped(0..1);
}

fn gap_of(p: Position) -> Option<Waypoint> {
    match p {
        Position::Existing(_, _, w) => Some(w),
        Position::Virtual(_) => None,
    }
}

#[test]
fn seek_gap_finds_the_next_unexplored_region() {
    let mut index = SaneIndex::new();
    assert_eq!(gap_of(index.seek_gap(&Position::from_offset(0))), Some(Unmapped(0..usize::MAX)));
    index.insert(&(0..10));
    index.insert(&(10..20));
    assert_eq!(gap_of(index.seek_gap(&Position::from_offset(0))), Some(Unmapped(20..usize::MAX)));
    assert_eq!(gap_of(index.seek_gap(&Position::from_offset(15))), Some(Unmapped(20..usize::MAX)));
    index.insert(&(30..40));
    assert_eq!(gap_of(index.seek_gap(&Position::from_offset(5))), Some(Unmapped(20..30)));
    assert_eq!(gap_of(index.seek_gap(&Position::from_offset(35))), Some(Unmapped(40..usize::MAX)));
    assert_eq!(index.seek_gap(&Position::invalid()), Position::Virtual(VirtualPosition::End));
}

#[test]
fn extend_line_only_after_a_line() {
    let mut index = SaneIndex::new();
    assert!(!index.extend_line(0, 4));
    index.insert(&(0..5));
    // No line ends at 3.
    assert!(!index.extend_line(3, 6));
    // The gap after the line must be explored first: the next waypoint starts at 5.
    assert!(!index.extend_line(5, 8));
    index.erase(&(5..8));
    assert!(index.extend_line(5, 8));
    assert_eq!(index.waypoints(), vec![Mapped(0..8), Unmapped(8..IMAX)]);
}

#[test]
fn index_next_undoes_index_prev() {
    let mut index = SaneIndex::default();
    for r in [0..13, 13..14, 14..30] {
        index.insert(&r);
    }
    index.erase(&(40..50));
    // Rows: the three lines, the gap before 40, the gap after 50.
    assert_eq!(index.row_count(), 3);
    for idx in [(0usize, 1usize), (0, 2), (1, 0), (2, 0)] {
        let p = index.index_prev(idx).unwrap();
        assert_eq!(index.index_next(p), Some(idx));
    }
    assert_eq!(index.index_prev((0, 0)), None);
    assert_eq!(index.index_next((2, 0)), None);
    assert_eq!(index.index_prev((1, 0)), Some((0, 2)));
}
