use grok::screen_buffer::ScreenBuffer;
use grok::styled_line::{PattColor, Piece, StyledLine};

fn texts(pieces: Vec<Piece>) -> Vec<(bool, String)> {
    pieces
        .into_iter()
        .map(|p| match p {
            Piece::Plain(t) => (false, t),
            Piece::Styled(_, t) => (true, t),
        })
        .collect()
}

#[test]
fn flush_writes_raw_rows_whole_and_styled_rows_to_the_width() {
    let mut buf = ScreenBuffer::new();
    buf.set_width(8);
    assert_eq!(buf.write(b"\x1b[1;1H"), Some(6));
    let mut line = StyledLine::new("hello world", PattColor::Plain);
    line.push(2, 4, PattColor::Highlight);
    buf.push(line);
    buf.push(StyledLine::new("ab", PattColor::Normal));
    assert!(buf.can_flush());
    let out = texts(buf.flush());
    assert_eq!(
        out,
        vec![
            (false, "\x1b[1;1H".to_string()),
            (true, "he".to_string()),
            (true, "ll".to_string()),
            (true, "o wo".to_string()),
            (true, "ab".to_string()),
        ]
    );
    assert!(buf.content.is_empty());
}

#[test]
fn write_refuses_bad_utf8() {
    let mut buf = ScreenBuffer::new();
    assert_eq!(buf.write(&[0xff, 0xfe]), None);
    assert!(buf.content.is_empty());
}

#[test]
fn can_flush_finds_cuts_inside_characters() {
    let mut buf = ScreenBuffer::new();
    buf.set_width(2);
    buf.push(StyledLine::new("éa", PattColor::Plain));
    assert!(buf.can_flush());
    buf.set_width(1);
    assert!(!buf.can_flush());
}
