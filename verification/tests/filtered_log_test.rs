use grok::cursor_log_file::CursorLogFile;
use grok::filtered_log::LogFilter;
use grok::index_filter::SearchError;
use grok::sane_index::SaneIndex;
use grok::sane_lines::{Line, SaneLines};

const PATT_LEN: usize = 9;
const LINES: usize = 6000;

/// Lines of eight-digit numbers counting up from 10,000,000, one per line.
fn numbers(lines: usize) -> Vec<u8> {
    let base = 10usize.pow(PATT_LEN as u32 - 2);
    (base..base + lines).map(|n| format!("{}\n", n)).collect::<String>().into_bytes()
}

fn filter(pattern: &str) -> LogFilter {
    let mut f = LogFilter::new();
    f.filter_regex(pattern).unwrap();
    f
}

fn kept(f: &LogFilter, data: &[u8], range: std::ops::Range<usize>) -> Vec<Line> {
    let mut cursor = CursorLogFile::new(data.to_vec());
    let mut index = SaneIndex::new();
    let mut lines = SaneLines::new(&mut index, &mut cursor, range);
    let mut out = Vec::new();
    while let Some(l) = f.find_next(&mut lines) {
        out.push(l);
    }
    out
}

fn kept_back(f: &LogFilter, data: &[u8], range: std::ops::Range<usize>) -> Vec<Line> {
    let mut cursor = CursorLogFile::new(data.to_vec());
    let mut index = SaneIndex::new();
    let mut lines = SaneLines::new(&mut index, &mut cursor, range);
    let mut out = Vec::new();
    while let Some(l) = f.find_next_back(&mut lines) {
        out.push(l);
    }
    out
}

#[test]
fn test_iterator() {
    let data = numbers(LINES);
    let f = filter("000");
    let all = kept(&f, &data, 0..usize::MAX);
    let mut prev = all[0].0;
    assert_eq!(prev, 0);
    let mut count = 1;
    for i in &all[1..] {
        count += 1;
        assert!(count <= LINES);
        assert_eq!(i.0 - prev, PATT_LEN);
        prev = i.0;
    }
    assert_eq!(count, LINES);
    assert_eq!(kept(&f, &data, 0..usize::MAX).len(), LINES);
}

#[test]
fn test_iterator_subset() {
    let data = numbers(LINES);
    // Match lines from 5,000 to 5,999
    let f = filter("5...$");
    let all = kept(&f, &data, 0..usize::MAX);
    let mut prev = all[0].0;
    assert_eq!(prev, 5000 * PATT_LEN);
    for i in all[1..].iter().take(LINES - 1) {
        assert_eq!(i.0 - prev, PATT_LEN);
        prev = i.0;
    }
    assert_eq!(all.len(), 1000);
}

#[test]
fn test_iterator_no_match() {
    let data = numbers(LINES);
    let f = filter("xyz");
    let mut cursor = CursorLogFile::new(data.clone());
    let mut index = SaneIndex::new();
    let mut lines = SaneLines::new(&mut index, &mut cursor, 0..usize::MAX);
    assert!(f.find_next(&mut lines).is_none());
    assert_eq!(kept(&f, &data, 0..usize::MAX).len(), 0);
}

#[test]
fn test_iterator_rev() {
    let data = numbers(LINES);
    let f = filter("000");
    let all = kept_back(&f, &data, 0..usize::MAX);
    let mut prev = all[0].0;
    assert_eq!(prev, LINES * PATT_LEN - PATT_LEN);
    for i in all[1..].iter().take(LINES - 1) {
        assert_eq!(prev - i.0, PATT_LEN);
        prev = i.0;
    }
    assert_eq!(kept(&f, &data, 0..usize::MAX).len(), LINES);
}

#[test]
fn test_iterator_gaps() {
    let data = numbers(LINES);
    let f = filter(r"0$");
    let all = kept(&f, &data, 0..usize::MAX);
    assert!(all[0].1.trim().ends_with("0"));
    let mut prev = all[0].0;
    assert_eq!(prev, 0);
    let mut count = 1;
    for i in all[1..].iter().take(LINES - 1) {
        assert!(i.1.trim().ends_with("0"));
        assert_eq!(i.0 - prev, PATT_LEN * 10);
        prev = i.0;
        count += 1;
    }
    assert_eq!(count, LINES / 10);
    assert_eq!(kept(&f, &data, 0..usize::MAX).len(), LINES / 10);
}

#[test]
fn test_iterator_rev_gaps() {
    let data = numbers(LINES);
    let f = filter(r"0$");
    let all = kept_back(&f, &data, 0..usize::MAX);
    assert!(all[0].1.trim().ends_with("0"));
    let mut prev = all[0].0;
    assert_eq!(prev, LINES * PATT_LEN - PATT_LEN * 10);
    let mut count = 1;
    for i in all[1..].iter().take(LINES - 1) {
        assert!(i.1.trim().ends_with("0"));
        assert_eq!(prev - i.0, PATT_LEN * 10);
        prev = i.0;
        count += 1;
    }
    assert_eq!(count, LINES / 10);
    assert_eq!(kept_back(&f, &data, 0..usize::MAX).len(), LINES / 10);
}

#[test]
fn test_build_index() {
    let data = numbers(LINES);
    let f = filter("000");
    let all = kept(&f, &data, 0..usize::MAX);
    let mut prev = all[0].0;
    assert_eq!(prev, 0);
    for i in all[1..].iter().take(LINES - 1) {
        assert_eq!(i.0 - prev, PATT_LEN);
        prev = i.0;
    }
}

#[test]
fn test_build_index_rev() {
    let data = numbers(LINES);
    let f = filter("000");
    let all = kept_back(&f, &data, 0..usize::MAX);
    let mut prev = all[0].0;
    assert_eq!(prev, LINES * PATT_LEN - PATT_LEN);
    for i in all[1..].iter().take(LINES - 2) {
        assert_eq!(prev - i.0, PATT_LEN);
        prev = i.0;
    }
}

#[test]
fn test_iterator_from_offset_start() {
    let data = numbers(LINES);
    let f = filter("000");
    assert_eq!(kept_back(&f, &data, 0..0).len(), 0, "No lines iterable before offset 0");
    assert_eq!(kept_back(&f, &data, 0..1).len(), 1, "First line is reachable from offset 1");
    let all = kept(&f, &data, 0..usize::MAX);
    assert_eq!(all[0].0, 0);
    assert_eq!(all.len(), LINES);
}

#[test]
fn test_iterator_from_offset_end_of_file() {
    let data = numbers(LINES);
    let f = filter("000");
    let out_of_range = PATT_LEN * LINES;
    let mut count = kept(&f, &data, out_of_range..usize::MAX).len();
    assert_eq!(count, 0, "No lines iterable after out-of-range");
    count += kept_back(&f, &data, 0..out_of_range).len();
    assert_eq!(count, LINES, "Whole file is reached from end");
}

#[test]
fn test_iterator_from_offset_out_of_range() {
    let data = numbers(LINES);
    let f = filter("000");
    let out_of_range = PATT_LEN * LINES + 2;
    assert_eq!(kept_back(&f, &data, 0..out_of_range).len(), LINES, "All lines iterable before out-of-range");
    assert_eq!(kept(&f, &data, out_of_range..usize::MAX).len(), 0, "No lines iterable after out-of-range");
}

#[test]
fn filter_keeps_every_line_by_default() {
    let f = LogFilter::new();
    let data = b"one\ntwo\nthree\n".to_vec();
    let all = kept(&f, &data, 0..usize::MAX);
    assert_eq!(
        all,
        vec![(0, "one\n".to_string()), (4, "two\n".to_string()), (8, "three\n".to_string())]
    );
}

#[test]
fn filter_bang_drops_matching_lines() {
    let data = b"a test\nno match\nanother test\nend\n".to_vec();
    let f = filter("!test");
    let all = kept(&f, &data, 0..usize::MAX);
    assert_eq!(all, vec![(7, "no match\n".to_string()), (29, "end\n".to_string())]);
    let back = kept_back(&f, &data, 0..usize::MAX);
    assert_eq!(back, vec![(29, "end\n".to_string()), (7, "no match\n".to_string())]);
}

#[test]
fn filter_keeps_matching_lines_both_ways() {
    let data = b"a test\nno match\nanother test\nend\n".to_vec();
    let f = filter("test");
    let all = kept(&f, &data, 0..usize::MAX);
    assert_eq!(all, vec![(0, "a test\n".to_string()), (16, "another test\n".to_string())]);
    let mut back = kept_back(&f, &data, 0..usize::MAX);
    back.reverse();
    assert_eq!(back, all);
}

#[test]
fn filter_empty_pattern_keeps_everything() {
    let data = b"x\ny\n".to_vec();
    let mut f = filter("test");
    f.filter_regex("").unwrap();
    assert_eq!(kept(&f, &data, 0..usize::MAX).len(), 2);
}

#[test]
fn filter_invalid_regex_is_refused_and_kept() {
    let data = b"a test\nno match\n".to_vec();
    let mut f = filter("test");
    let r = f.filter_regex("(");
    assert!(matches!(r, Err(SearchError::InvalidRegex(_))));
    assert_eq!(kept(&f, &data, 0..usize::MAX), vec![(0, "a test\n".to_string())]);
}

#[test]
fn filter_window_starts_after_found_line() {
    let data = b"a test\nno match\nanother test\nend\n".to_vec();
    let f = filter("test");
    let mut cursor = CursorLogFile::new(data);
    let mut index = SaneIndex::new();
    let mut lines = SaneLines::new(&mut index, &mut cursor, 3..usize::MAX);
    assert_eq!(f.find_next(&mut lines), Some((16, "another test\n".to_string())));
    assert_eq!(f.find_next(&mut lines), None);
}

#[test]
fn find_lines_takes_at_most_count_kept_lines() {
    let data = b"a test\nno match\nanother test\nend\n".to_vec();
    let f = filter("test");
    let mut cursor = CursorLogFile::new(data.clone());
    let mut index = SaneIndex::new();
    let mut lines = SaneLines::new(&mut index, &mut cursor, 0..data.len());
    assert_eq!(f.find_lines(&mut lines, 1), vec![(0, "a test\n".to_string())]);
    assert_eq!(f.find_lines(&mut lines, 5), vec![(16, "another test\n".to_string())]);
    let mut index = SaneIndex::new();
    let mut lines = SaneLines::new(&mut index, &mut cursor, 0..data.len());
    assert_eq!(
        f.find_lines_back(&mut lines, 5),
        vec![(16, "another test\n".to_string()), (0, "a test\n".to_string())]
    );
    let mut index = SaneIndex::new();
    let mut lines = SaneLines::new(&mut index, &mut cursor, 0..data.len());
    assert_eq!(f.find_lines_back(&mut lines, 0), Vec::<(usize, String)>::new());
}
