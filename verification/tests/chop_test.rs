use grok::indexed_log::LogLine;
use grok::stylist::{LineViewMode, StyledLine, Stylist};

fn line(text: &str, offset: usize) -> LogLine {
    LogLine::new(text.to_string(), offset)
}

#[test]
fn chopped_line_walks_forwards() {
    let stylist = Stylist::new(LineViewMode::Chop { width: 4 });
    let mut s = StyledLine::new(line("abcdefghij", 100), 100, &stylist);
    assert!(!s.empty());
    assert_eq!(s.chunk_range(&stylist), Some(0..4));
    assert_eq!(s.next(&stylist), Some(line("abcd", 100)));
    assert_eq!(s.next(&stylist), Some(line("efgh", 104)));
    assert_eq!(s.next(&stylist), Some(line("ij", 108)));
    assert!(s.empty());
    assert_eq!(s.next(&stylist), None);
}

#[test]
fn chopped_line_starts_at_the_chunk_of_the_offset() {
    let stylist = Stylist::new(LineViewMode::Chop { width: 4 });
    let mut s = StyledLine::new(line("abcdefghij", 100), 106, &stylist);
    assert_eq!(s.index, 4);
    assert_eq!(s.next_back(&stylist), Some(line("efgh", 104)));
    assert_eq!(s.next_back(&stylist), Some(line("abcd", 100)));
    assert!(s.empty());
}

#[test]
fn clipped_line_shows_one_window() {
    let stylist = Stylist::new(LineViewMode::Clip { width: 3, left: 2 });
    let mut s = StyledLine::new(line("abcdefgh", 0), 3, &stylist);
    assert_eq!(s.next(&stylist), Some(line("cde", 2)));
    assert!(s.empty());

    // An offset outside the window shows nothing.
    let s = StyledLine::new(line("abcdefgh", 0), 7, &stylist);
    assert!(s.empty());
}

#[test]
fn whole_line_is_one_chunk() {
    let stylist = Stylist::new(LineViewMode::WholeLine);
    let mut s = StyledLine::new(line("hello\n", 20), 0, &stylist);
    assert_eq!(s.next(&stylist), Some(line("hello\n", 20)));
    assert_eq!(s.next(&stylist), None);
}
