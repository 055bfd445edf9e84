use crossterm::style::Stylize;
use grok::styled_line::{byte_slice, to_style, Color, PattColor, StyledLine, TextStyle};

#[test]
fn test_styledline_basic() {
    let line = StyledLine::new("hello", PattColor::Normal);
    assert!(line.phrases.len() == 2);
    assert!(line.phrases[0].start == 0);
    assert!(line.phrases[1].start == 5);
    println!("{}", "Underlined text fail".underline(crossterm::style::Color::Red));
}

#[test]
fn test_styledline_overlap() {
    let line = "hello hello hello hello hello";
    let mut line = StyledLine::new(line, PattColor::Normal);

    // Overlap splits whole line
    line.push(10, 15, PattColor::Normal);
    assert_eq!(line.phrases.iter().map(|p| p.start).collect::<Vec<_>>(), vec![0, 10, 15, 29]);

    // Overlap aligns with start of existing
    line.push(0, 15, PattColor::Normal);
    assert_eq!(line.phrases.iter().map(|p| p.start).collect::<Vec<_>>(), vec![0, 15, 29]);

    // Pattern replaces one existing pattern exactly
    line.push(0, 15, PattColor::Normal);
    assert_eq!(line.phrases.iter().map(|p| p.start).collect::<Vec<_>>(), vec![0, 15, 29]);

    // Overlap aligns with end of previous
    line.push(10, 15, PattColor::Normal);
    assert_eq!(line.phrases.iter().map(|p| p.start).collect::<Vec<_>>(), vec![0, 10, 15, 29]);

    // Overlap covers end of previous
    line.push(12, 20, PattColor::Normal);
    assert_eq!(line.phrases.iter().map(|p| p.start).collect::<Vec<_>>(), vec![0, 10, 12, 20, 29]);

    // Overlap covers multiple
    line.push(15, 20, PattColor::Normal);
    line.push(13, 25, PattColor::Normal);
    assert_eq!(line.phrases.iter().map(|p| p.start).collect::<Vec<_>>(), vec![0, 10, 12, 13, 25, 29]);

    // Left-aligned, right-disjoint, not at end
    line.push(13, 20, PattColor::Normal);
    assert_eq!(line.phrases.iter().map(|p| p.start).collect::<Vec<_>>(), vec![0, 10, 12, 13, 20, 25, 29]);

    line.push(0, 29, PattColor::Normal);
    assert!(line.phrases.len() == 2);
    assert!(line.phrases[0].start == 0);
    assert!(line.phrases[1].start == 29);
}

#[test]
fn push_keeps_style_after_region() {
    let mut line = StyledLine::new("0123456789", PattColor::Normal);
    line.push(2, 4, PattColor::Highlight);
    assert_eq!(line.phrases[0].patt, PattColor::Normal);
    assert_eq!(line.phrases[1].patt, PattColor::Highlight);
    assert_eq!(line.phrases[2].patt, PattColor::Normal);
    assert_eq!(line.starts(), vec![0, 2, 4, 10]);
    line.push(3, 3, PattColor::Error);
    assert_eq!(line.starts(), vec![0, 2, 4, 10]);
}

#[test]
fn semantic_color_comes_from_fnv_hash() {
    // FNV-1a 64 of "pid" computed by the fnv crate; each channel has its top bit set.
    let c = StyledLine::hash_color("pid");
    match c {
        Color::Rgb { r, g, b } => {
            assert!(r >= 0x80 && g >= 0x80 && b >= 0x80);
            let mut h = fnv::FnvHasher::default();
            std::hash::Hasher::write(&mut h, b"pid");
            let v = std::hash::Hasher::finish(&h);
            assert_eq!(r, (v & 0xff) as u8 | 0x80);
            assert_eq!(g, ((v >> 8) & 0xff) as u8 | 0x80);
            assert_eq!(b, ((v >> 16) & 0xff) as u8 | 0x80);
        },
        _ => panic!("expected an RGB color"),
    }
    let mut line = StyledLine::new("pid 42", PattColor::Normal);
    line.apply("42", 4..6, PattColor::Semantic);
    assert_eq!(line.phrases[1].patt, PattColor::Number(StyledLine::hash_color("42")));
    line.apply("pid", 0..3, PattColor::NoPattern);
    assert_eq!(line.starts(), vec![0, 4, 6]);
}

fn starts(line: &StyledLine) -> Vec<usize> {
    line.phrases.iter().map(|p| p.start).collect()
}

#[test]
fn sanitize_expands_tabs_and_spells_out_controls() {
    let mut line = StyledLine::new("a\tb", PattColor::Normal);
    line.sanitize_basic();
    assert_eq!(line.line, "a       b");
    // The phrase at the end of the line moves to the new end.
    assert_eq!(starts(&line), vec![0, 9]);

    let mut line = StyledLine::new("x\u{1b}y\n", PattColor::Plain);
    line.sanitize_basic();
    assert_eq!(line.line, "xESCy");

    let mut line = StyledLine::new("\u{1}\u{7f}\u{e9}z", PattColor::Plain);
    line.sanitize_basic();
    assert_eq!(line.line, "^A^?<0xE9>z");
}

#[test]
fn sanitize_moves_phrases_with_their_characters() {
    let mut line = StyledLine::new("\tab\tcd", PattColor::Normal);
    line.push(1, 3, PattColor::Highlight);
    line.push(4, 5, PattColor::Error);
    assert_eq!(starts(&line), vec![0, 1, 3, 4, 5, 6]);
    line.sanitize_basic();
    assert_eq!(line.line, "        ab      cd");
    assert_eq!(starts(&line), vec![0, 8, 10, 16, 17, 18]);
}

fn texts(pieces: Vec<grok::styled_line::Piece>) -> Vec<(bool, String)> {
    pieces
        .into_iter()
        .map(|p| match p {
            grok::styled_line::Piece::Plain(t) => (false, t),
            grok::styled_line::Piece::Styled(_, t) => (true, t),
        })
        .collect()
}

#[test]
fn to_string_cuts_the_phrases_in_view() {
    let mut line = StyledLine::new("hello world", PattColor::Normal);
    line.push(6, 11, PattColor::Highlight);
    assert_eq!(texts(line.to_string(0, 80)), vec![(true, "hello ".to_string()), (true, "world".to_string())]);
    assert_eq!(texts(line.to_string(3, 5)), vec![(true, "lo ".to_string()), (true, "wo".to_string())]);
    assert_eq!(texts(line.to_string(7, 80)), vec![(true, "orld".to_string())]);

    let plain = StyledLine::new("abc", PattColor::NoPattern);
    assert_eq!(texts(plain.to_string(1, 80)), vec![(false, "bc".to_string())]);
}

#[test]
fn to_style_gives_each_pattern_its_colors() {
    let black = Some(Color::Rgb { r: 0, g: 0, b: 0 });
    assert_eq!(to_style(PattColor::Plain), TextStyle { fg: None, bg: None, bold: false, italic: false, negative: false });
    assert_eq!(to_style(PattColor::Normal), TextStyle { fg: Some(Color::Green), bg: black, bold: false, italic: false, negative: false });
    assert_eq!(
        to_style(PattColor::Fail),
        TextStyle { fg: Some(Color::Red), bg: Some(Color::Blue), bold: true, italic: true, negative: false }
    );
    assert_eq!(to_style(PattColor::Pid(Color::Cyan)).italic, true);
    assert_eq!(to_style(PattColor::Module(Color::Cyan)).bold, true);
    assert_eq!(to_style(PattColor::Inverse).negative, true);
}

#[test]
fn byte_slice_cuts_at_character_starts_only() {
    assert_eq!(byte_slice("héllo", 0, 1), Some("h"));
    assert_eq!(byte_slice("héllo", 1, 3), Some("é"));
    assert_eq!(byte_slice("héllo", 1, 2), None);
    assert_eq!(byte_slice("héllo", 3, 6), Some("llo"));
    assert_eq!(byte_slice("héllo", 3, 7), None);
    assert_eq!(byte_slice("héllo", 4, 3), None);
    assert_eq!(byte_slice("", 0, 0), Some(""));
}

#[test]
fn sanitize_leaves_printable_lines_alone() {
    let mut line = StyledLine::new("plain text, ok", PattColor::Normal);
    line.push(6, 10, PattColor::Error);
    let before = starts(&line);
    line.sanitize_basic();
    assert_eq!(line.line, "plain text, ok");
    assert_eq!(starts(&line), before);
}

#[test]
fn sanitize_end_phrase_marks_the_new_end() {
    let mut s = StyledLine::new("a\tb\x01\x1b\x7f\n", PattColor::Plain);
    assert_eq!(starts(&s), vec![0, 7]);
    s.sanitize_basic();
    assert_eq!(s.line, "a       b^AESC^?");
    assert_eq!(starts(&s), vec![0, 16]);
}

#[test]
fn hash_color_follows_fnv1a_values() {
    // FNV-1a of "" is the offset basis 0xcbf29ce484222325; of "a" it is 0xaf63dc4c8601ec8c.
    assert_eq!(StyledLine::hash_color(""), Color::Rgb { r: 0xa5, g: 0xa3, b: 0xa2 });
    assert_eq!(StyledLine::hash_color("a"), Color::Rgb { r: 0x8c, g: 0xec, b: 0x81 });
}
