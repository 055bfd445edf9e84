use grok::line_view_mode::LineViewMode;
use grok::style_rules::Stylist;
use grok::styled_line::{PattColor, Phrase, StyledLine};
use grok::patterns::Matcher;

fn bare(patt: PattColor) -> Stylist {
    Stylist { mode: LineViewMode::WholeLine, patt, matchers: Vec::new(), named_styles: Vec::new() }
}

fn starts(line: &StyledLine) -> Vec<(usize, PattColor)> {
    line.phrases.iter().map(|p| (p.start, p.patt)).collect()
}

#[test]
fn stylist_new_has_the_sample_rules() {
    let s = Stylist::new(LineViewMode::WholeLine, PattColor::Plain);
    assert_eq!(s.matchers.len(), 4);
    assert_eq!(s.named_styles.len(), 5);
    assert_eq!(s.matchers[3].pattern, PattColor::Inverse);
}

#[test]
fn stylist_with_no_rules_only_sanitizes() {
    let s = bare(PattColor::Plain);
    let line = s.apply("a\tb\n");
    assert_eq!(line.line, "a       b");
    assert_eq!(line.phrases, vec![Phrase::new(0, PattColor::Plain), Phrase::new(9, PattColor::Plain)]);
}

#[test]
fn stylist_styles_named_groups() {
    let mut s = bare(PattColor::Plain);
    s.add_match(Matcher::new(r"(?P<num>\d+)").unwrap(), PattColor::NoPattern);
    s.add_style("num", PattColor::Inverse);
    let line = s.apply("ab 12 cd 345");
    assert_eq!(
        starts(&line),
        vec![
            (0, PattColor::Plain),
            (3, PattColor::Inverse),
            (5, PattColor::Plain),
            (9, PattColor::Inverse),
            (12, PattColor::Plain),
        ]
    );
}

#[test]
fn stylist_first_named_group_wins() {
    let mut s = bare(PattColor::Plain);
    s.add_match(Matcher::new(r"(?P<a>\d+)").unwrap(), PattColor::NoPattern);
    s.add_match(Matcher::new(r"(?P<b>2\d)").unwrap(), PattColor::NoPattern);
    s.add_style("a", PattColor::Inverse);
    s.add_style("b", PattColor::Timestamp);
    let line = s.apply("x 123");
    assert_eq!(starts(&line), vec![(0, PattColor::Plain), (2, PattColor::Inverse), (5, PattColor::Plain)]);
}

#[test]
fn stylist_later_style_for_a_name_overrides() {
    let mut s = bare(PattColor::Plain);
    s.add_match(Matcher::new(r"(?P<w>[a-z]+)").unwrap(), PattColor::NoPattern);
    s.add_style("w", PattColor::Inverse);
    s.add_style("w", PattColor::Timestamp);
    let line = s.apply("12 ab");
    assert_eq!(starts(&line), vec![(0, PattColor::Plain), (3, PattColor::Timestamp), (5, PattColor::Plain)]);
}

#[test]
fn stylist_whole_match_and_semantic_color() {
    let mut s = bare(PattColor::Plain);
    s.add_match(Matcher::new(r"id=(?P<id>\w+)").unwrap(), PattColor::Highlight);
    s.add_style("id", PattColor::Semantic);
    let line = s.apply("see id=abc now");
    let color = StyledLine::hash_color("abc");
    assert_eq!(
        starts(&line),
        vec![
            (0, PattColor::Plain),
            (4, PattColor::Highlight),
            (7, PattColor::Number(color)),
            (10, PattColor::Plain),
            (14, PattColor::Plain),
        ]
    );
}

#[test]
fn stylist_apply_found_takes_given_captures() {
    let mut s = bare(PattColor::Plain);
    s.add_match(Matcher::new(r"x").unwrap(), PattColor::Inverse);
    let mut line = StyledLine::new("hello", PattColor::Plain);
    let caps = vec![vec![vec![Some(1..3)]]];
    let names = vec![vec![None]];
    s.apply_found(&mut line, "hello", &caps, &names);
    assert_eq!(starts(&line), vec![(0, PattColor::Plain), (1, PattColor::Inverse), (3, PattColor::Plain), (5, PattColor::Plain)]);
}
