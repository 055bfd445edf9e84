use grok::indexed_log::LogLine;
use grok::sub_line_iterator::{end_offset, start_offset, value_or, Bound, LineViewMode, SubLineHelper};

fn line(text: &str, offset: usize) -> LogLine {
    LogLine::new(text.to_string(), offset)
}

fn piece(l: Option<LogLine>) -> Option<(String, usize)> {
    l.map(|l| (l.line, l.offset))
}

fn p(text: &str, offset: usize) -> Option<(String, usize)> {
    Some((text.to_string(), offset))
}

#[test]
fn wrap_walks_pieces_forwards() {
    let mode = LineViewMode::Wrap { width: 4 };
    let mut h = SubLineHelper::new();
    assert_eq!(piece(h.next(mode, Some(line("abcdefghij", 100)))), p("abcd", 100));
    assert_eq!(piece(h.sub_next(mode)), p("efgh", 104));
    assert_eq!(h.consumed, Some(108));
    assert_eq!(piece(h.sub_next(mode)), p("ij", 108));
    assert!(h.buffer.is_none());
    assert_eq!(piece(h.sub_next(mode)), None);
}

#[test]
fn wrap_walks_pieces_backwards() {
    let mode = LineViewMode::Wrap { width: 4 };
    let mut h = SubLineHelper::new();
    assert_eq!(piece(h.next_back(mode, Some(line("abcdefghij", 100)))), p("ij", 108));
    assert_eq!(piece(h.sub_next_back(mode)), p("efgh", 104));
    assert_eq!(piece(h.sub_next_back(mode)), p("abcd", 100));
    assert!(h.buffer.is_none());
}

#[test]
fn wrap_starts_at_the_piece_holding_the_start() {
    let mode = LineViewMode::Wrap { width: 4 };
    let mut h = SubLineHelper::new_from(105);
    assert_eq!(piece(h.next(mode, Some(line("abcdefghij", 100)))), p("efgh", 104));
    let mut h = SubLineHelper::new_from(105);
    assert_eq!(piece(h.next_back(mode, Some(line("abcdefghij", 100)))), p("efgh", 104));
    let mut h = SubLineHelper::new_from(5);
    assert_eq!(piece(h.next(mode, Some(line("abcdefghij", 100)))), p("abcd", 100));
}

#[test]
fn chop_and_whole_give_one_piece() {
    let mut h = SubLineHelper::new();
    assert_eq!(piece(h.next(LineViewMode::Chop { width: 3, left: 2 }, Some(line("abcdefg", 10)))), p("cde", 12));
    assert!(h.buffer.is_none());
    let mut h = SubLineHelper::new();
    assert_eq!(piece(h.next(LineViewMode::WholeLine, Some(line("abc", 7)))), p("abc", 7));
    assert_eq!(h.consumed, Some(7));
    assert!(h.buffer.is_none());
}

#[test]
fn pieces_are_cut_in_characters_against_a_byte_length() {
    // "héllo" is 6 bytes and 5 characters: the width counts bytes, the cut counts characters.
    let mode = LineViewMode::Wrap { width: 4 };
    let mut h = SubLineHelper::new();
    assert_eq!(piece(h.next(mode, Some(line("héllo", 0)))), p("héll", 0));
    assert_eq!(piece(h.sub_next(mode)), p("o", 4));
    assert!(h.buffer.is_none());
}

#[test]
fn chop_prev_splits_around_the_offset() {
    let mode = LineViewMode::Wrap { width: 4 };
    let (mut rev, mut fwd) = SubLineHelper::chop_prev(line("abcdefghij", 100), mode, 105);
    assert_eq!(fwd.index, 4);
    assert_eq!(rev.index, 0);
    assert_eq!(piece(fwd.sub_next(mode)), p("efgh", 104));
    assert_eq!(piece(rev.sub_next_back(mode)), p("abcd", 100));

    let (rev, fwd) = SubLineHelper::chop_prev(line("abcdefghij", 100), mode, 102);
    assert_eq!(fwd.index, 0);
    assert!(rev.buffer.is_none());
    assert!(fwd.buffer.is_some());
}

#[test]
fn helpers_compare_by_what_they_consumed() {
    let mut a = SubLineHelper::new();
    let mut b = SubLineHelper::new();
    assert!(!a.le(&b));
    a.next(LineViewMode::WholeLine, Some(line("x", 3)));
    b.next(LineViewMode::WholeLine, Some(line("y", 9)));
    assert!(a.le(&b));
    assert!(!b.le(&a));
    assert_eq!(a.offset(), 3);
    assert!(a.contains(3) == false);
}

#[test]
fn bounds_give_offsets() {
    assert_eq!(value_or(Bound::Included(5), 0), 5);
    assert_eq!(value_or(Bound::Excluded(5), 0), 4);
    assert_eq!(value_or(Bound::Excluded(0), 9), 0);
    assert_eq!(value_or(Bound::Unbounded, 9), 9);
    assert_eq!(start_offset(Bound::Excluded(5)), 6);
    assert_eq!(start_offset(Bound::Unbounded), 0);
    assert_eq!(end_offset(Bound::Included(5)), 6);
    assert_eq!(end_offset(Bound::Included(usize::MAX)), usize::MAX);
    assert_eq!(end_offset(Bound::Unbounded), usize::MAX);
}
