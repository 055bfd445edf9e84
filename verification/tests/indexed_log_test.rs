use grok::indexed_log::LogLine;

#[test]
fn log_line_shows_its_text_without_the_offset() {
    let l = LogLine::new("a line\n".to_string(), 42);
    assert_eq!(l.to_string(), "a line\n");
    assert_eq!(l.offset, 42);
}
