use std::cmp::Ordering;
use grok::sane_index::SaneIndex;
use grok::waypoint::{Position, VirtualPosition, Waypoint};
use grok::waypoint::Waypoint::{Mapped, Unmapped};
use grok::waypoint::Position::Virtual;
use grok::waypoint::VirtualPosition::{Start, End};

#[test]
fn test_waypoint_cmp() {
    assert_eq!(Mapped(0..1).cmp(&Mapped(0..1)), Ordering::Equal);
    assert_eq!(Mapped(0..1).cmp(&Mapped(1..2)), Ordering::Less);
    assert_eq!(Mapped(1..2).cmp(&Mapped(0..1)), Ordering::Greater);
}

#[test]
fn test_waypoint_cmp_unmapped() {
    assert_eq!(Unmapped(0..1).cmp(&Unmapped(0..1)), Ordering::Equal);
    assert_eq!(Unmapped(0..1).cmp(&Unmapped(1..2)), Ordering::Less);
    assert_eq!(Unmapped(1..2).cmp(&Unmapped(0..1)), Ordering::Greater);
}

#[test]
fn test_waypoint_cmp_mixed() {
    assert_eq!(Mapped(0..1).cmp(&Unmapped(0..1)), Ordering::Less);
    assert_eq!(Unmapped(0..1).cmp(&Mapped(0..1)), Ordering::Greater);
}

fn sample_index() -> SaneIndex {
    let mut index = SaneIndex::new();
    index.insert_lines(&[0], &(0..13));
    index.insert_lines(&[13], &(13..14));
    index.insert_lines(&[14], &(14..30));
    index.insert_lines(&[30], &(30..51));
    index.insert_lines(&[51], &(51..52));
    index.insert_lines(&[], &(52..67));
    index
}

#[test]
fn test_position_next() {
    let index = sample_index();
    assert_eq!(index.waypoints(),
            vec![Mapped(0..13), Mapped(13..14), Mapped(14..30), Mapped(30..51), Mapped(51..67), Unmapped(67..usize::MAX)]);

    let mut pos = Virtual(Start);
    assert_eq!(pos.next(&index), Some((Mapped(0..13), 0)));
    assert_eq!(pos.next(&index), Some((Mapped(13..14), 13)));
    assert_eq!(pos.next(&index), Some((Mapped(14..30), 14)));
    assert_eq!(pos.next(&index), Some((Mapped(30..51), 30)));
    assert_eq!(pos.next(&index), Some((Mapped(51..67), 51)));
    assert_eq!(pos.next(&index), Some((Unmapped(67..usize::MAX), 67)));
}

#[test]
fn test_position_prev() {
    let index = sample_index();
    assert_eq!(index.waypoints(),
            vec![Mapped(0..13), Mapped(13..14), Mapped(14..30), Mapped(30..51), Mapped(51..67), Unmapped(67..usize::MAX)]);

    let mut pos = Virtual(End);
    assert_eq!(pos.next_back(&index), Some((Unmapped(67..usize::MAX), usize::MAX)));
    assert_eq!(pos.next_back(&index), Some((Mapped(51..67), 67)));
    assert_eq!(pos.next_back(&index), Some((Mapped(30..51), 51)));
    assert_eq!(pos.next_back(&index), Some((Mapped(14..30), 30)));
    assert_eq!(pos.next_back(&index), Some((Mapped(13..14), 14)));
    assert_eq!(pos.next_back(&index), Some((Mapped(0..13), 13)));
}

#[test]
fn test_position_prev_unmapped() {
    let index = sample_index();
    assert_eq!(index.waypoints(),
            vec![Mapped(0..13), Mapped(13..14), Mapped(14..30), Mapped(30..51), Mapped(51..67), Unmapped(67..usize::MAX)]);

    let mut pos = Virtual(End);
    assert_eq!(pos.next_back(&index), Some((Unmapped(67..usize::MAX), usize::MAX)));
    assert_eq!(pos.next_back(&index), Some((Mapped(51..67), 67)));
    assert_eq!(pos.next_back(&index), Some((Mapped(30..51), 51)));
    assert_eq!(pos.next_back(&index), Some((Mapped(14..30), 30)));
    assert_eq!(pos.next_back(&index), Some((Mapped(13..14), 14)));
    assert_eq!(pos.next_back(&index), Some((Mapped(0..13), 13)));
}

#[test]
fn position_next_past_the_end_is_none() {
    let mut index = SaneIndex::new();
    index.insert(&(0..4));
    let mut pos = Position::Virtual(VirtualPosition::Start);
    assert_eq!(pos.next(&index), Some((Waypoint::Mapped(0..4), 0)));
    assert_eq!(pos.next(&index), Some((Waypoint::Unmapped(4..usize::MAX), 4)));
    assert_eq!(pos.next(&index), None);
    assert!(pos.is_invalid());
}

#[test]
fn split_at_cuts_gap() {
    let w = Waypoint::Unmapped(10..20);
    assert_eq!(w.split_at(15), (Some(Waypoint::Unmapped(10..15)), Some(Waypoint::Unmapped(15..20))));
    assert_eq!(w.split_at(10), (None, Some(Waypoint::Unmapped(10..20))));
    assert_eq!(w.split_at(25), (Some(Waypoint::Unmapped(10..20)), None));
}

#[test]
fn clip_pulls_back_to_last_byte() {
    let mut p = Position::Virtual(VirtualPosition::End);
    p.clip(10);
    assert_eq!(p, Position::Virtual(VirtualPosition::Offset(9)));
    let mut q = Position::Virtual(VirtualPosition::Offset(3));
    q.clip(10);
    assert_eq!(q, Position::Virtual(VirtualPosition::Offset(3)));
}

#[test]
fn waypoint_order_is_a_preorder() {
    let (a, b, c) = (Mapped(0..1), Unmapped(0..5), Mapped(3..4));
    assert_eq!(a.cmp(&b), Ordering::Less);
    assert_eq!(b.cmp(&a), Ordering::Greater);
    assert_eq!(b.cmp(&c), Ordering::Less);
    assert_eq!(a.cmp(&c), Ordering::Less);
    // Two lines that start at one offset are equal in the order without being the same.
    assert_eq!(Mapped(0..1).cmp(&Mapped(0..2)), Ordering::Equal);
    assert!(!Mapped(0..1).same(&Mapped(0..2)));
}
