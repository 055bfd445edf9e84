use grok::cursor_log_file::CursorLogFile;
use grok::sane_index::SaneIndex;
use grok::sane_lines::SaneLines;

const FILE: &[u8] = b"Hello, world\n\nThis is a test.\nThis is only a test.\n\nEnd of message\n";

#[test]
fn sane_index_iter() {
    let mut cursor = CursorLogFile::new(FILE.to_vec());
    let mut index = SaneIndex::new();

    let mut log = SaneLines::new(&mut index, &mut cursor, 0..100);
    assert_eq!(log.count(), 6);
}

#[test]
fn sane_index_iter_rev() {
    let mut cursor = CursorLogFile::new(FILE.to_vec());
    let mut index = SaneIndex::new();

    let mut log = SaneLines::new(&mut index, &mut cursor, 0..100);
    let fwd = log.collect_lines();

    let mut index = SaneIndex::new();
    let mut log = SaneLines::new(&mut index, &mut cursor, 0..100);
    let rev = log.collect_lines_back();
    let rev = rev.into_iter().rev().collect::<Vec<_>>();

    assert_eq!(fwd, rev);
}

#[test]
fn sane_index_fwd_rev() {
    let mut cursor = CursorLogFile::new(FILE.to_vec());
    let mut index = SaneIndex::new();

    let mut log = SaneLines::new(&mut index, &mut cursor, 0..100);
    log.next();
    log.next();

    assert_eq!(log.count_back(), 4);
}

#[test]
fn sane_index_empty() {
    let mut cursor = CursorLogFile::new(b"".to_vec());
    let mut index = SaneIndex::new();
    let mut log = SaneLines::new(&mut index, &mut cursor, 0..100);
    assert_eq!(log.next(), None);
}

#[test]
fn sane_index_out_of_range() {
    let mut cursor = CursorLogFile::new(FILE.to_vec());
    let mut index = SaneIndex::new();
    let mut log = SaneLines::new(&mut index, &mut cursor, 100..200);
    assert_eq!(log.next(), None);
}

#[test]
fn sane_index_rev_out_of_range() {
    let mut cursor = CursorLogFile::new(FILE.to_vec());
    let mut index = SaneIndex::new();
    let mut log = SaneLines::new(&mut index, &mut cursor, 100..200);
    assert_eq!(log.next_back(), None);
}

#[test]
fn sane_index_rev_line_zero() {
    let mut cursor = CursorLogFile::new(FILE.to_vec());
    let mut index = SaneIndex::new();
    let mut log = SaneLines::new(&mut index, &mut cursor, 0..5);
    assert!(log.next_back().is_some());
    assert!(log.next_back().is_none());
}

#[test]
fn sane_lines_reads_each_line_with_its_offset() {
    let mut cursor = CursorLogFile::new(FILE.to_vec());
    let mut index = SaneIndex::new();
    let mut log = SaneLines::new(&mut index, &mut cursor, 0..100);
    assert_eq!(log.next(), Some((0, "Hello, world\n".to_string())));
    assert_eq!(log.next(), Some((13, "\n".to_string())));
    assert_eq!(log.next(), Some((14, "This is a test.\n".to_string())));
    assert_eq!(log.next_back(), Some((52, "End of message\n".to_string())));
}

#[test]
fn sane_lines_starts_mid_line() {
    let mut cursor = CursorLogFile::new(FILE.to_vec());
    let mut index = SaneIndex::new();
    let mut log = SaneLines::new(&mut index, &mut cursor, 5..20);
    assert_eq!(log.next(), Some((13, "\n".to_string())));
    assert_eq!(log.next(), Some((14, "This is a test.\n".to_string())));
    assert_eq!(log.next(), None);
}

#[test]
fn cursor_reads_last_line_without_newline() {
    let cursor = CursorLogFile::new(b"ab\ncd".to_vec());
    assert_eq!(cursor.read_line_at(3), (2, "cd".to_string()));
    assert_eq!(cursor.read_line_at(0), (3, "ab\n".to_string()));
    assert_eq!(cursor.read_line_at(9), (0, String::new()));
    assert_eq!(cursor.line_end_at(1), 3);
    assert!(cursor.is_line_start(3));
    assert!(!cursor.is_line_start(4));
}

#[test]
fn sane_lines_backwards_reverses_inner_window() {
    let mut cursor = CursorLogFile::new(FILE.to_vec());
    let mut index = SaneIndex::new();
    let mut log = SaneLines::new(&mut index, &mut cursor, 5..60);
    let fwd = log.collect_lines();

    let mut index = SaneIndex::new();
    let mut log = SaneLines::new(&mut index, &mut cursor, 5..60);
    let mut rev = log.collect_lines_back();
    rev.reverse();

    assert_eq!(fwd.iter().map(|l| l.0).collect::<Vec<_>>(), vec![13, 14, 30, 51, 52]);
    assert_eq!(fwd, rev);
}

#[test]
fn sane_lines_back_misses_last_single_byte_line_past_the_data() {
    let mut cursor = CursorLogFile::new(b"a\n\n".to_vec());
    let mut index = SaneIndex::new();
    let mut log = SaneLines::new(&mut index, &mut cursor, 0..100);
    assert_eq!(log.count(), 2);

    let mut index = SaneIndex::new();
    let mut log = SaneLines::new(&mut index, &mut cursor, 0..100);
    assert_eq!(log.count_back(), 1);
}

#[test]
fn cursor_is_closed_and_polls_its_length() {
    let mut cursor = CursorLogFile::new(FILE.to_vec());
    assert!(!cursor.is_open());
    assert_eq!(cursor.poll(), FILE.len());
}

#[test]
fn sane_lines_walk_every_line_of_a_numbered_log() {
    let data: Vec<u8> = (0..50).map(|n| format!("{}\n", n)).collect::<String>().into_bytes();
    let mut cursor = CursorLogFile::new(data);
    let mut index = SaneIndex::new();
    let mut log = SaneLines::new(&mut index, &mut cursor, 0..usize::MAX);
    let lines = log.collect_lines();
    assert_eq!(lines.len(), 50);
    assert_eq!(lines[7], (14, "7\n".to_string()));
    assert_eq!(lines[49], (137, "49\n".to_string()));
}

#[test]
fn mock_cursor() {
    let lines = 50;
    let data = (0..lines).map(|n: usize| format!("{}\n", n)).collect::<String>().into_bytes();
    let mut cursor = CursorLogFile::new(data.clone());
    let mut index = SaneIndex::new();
    let mut log = SaneLines::new(&mut index, &mut cursor, 0..usize::MAX);
    for (offset, line) in log.collect_lines() {
        println!("{}: {}", offset, line.trim_end());
    }
    let mut cursor = CursorLogFile::new(data);
    let mut index = SaneIndex::new();
    let mut log = SaneLines::new(&mut index, &mut cursor, 0..usize::MAX);
    assert_eq!(lines, log.count());
}

#[test]
fn backwards_walk_gives_forward_lines_reversed() {
    let mut cursor = CursorLogFile::new(FILE.to_vec());
    let mut index = SaneIndex::new();
    let fwd = SaneLines::new(&mut index, &mut cursor, 3..60).collect_lines();
    let mut index = SaneIndex::new();
    let mut back = SaneLines::new(&mut index, &mut cursor, 3..60).collect_lines_back();
    back.reverse();
    assert_eq!(fwd, back);
    assert_eq!(fwd[0], (13, "\n".to_string()));
}
