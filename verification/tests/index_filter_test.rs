use grok::index_filter::{contains_str, is_match_type, trim_newline, IndexFilter, SearchError, SearchType};
use grok::indexed_log::LogLine;
use grok::waypoint::Position;
use grok::waypoint::Waypoint::{Mapped, Unmapped};

#[test]
fn search_type_from_patterns() {
    assert!(matches!(SearchType::new(""), Ok(SearchType::NoSearch)));
    assert!(matches!(SearchType::new("ab+c"), Ok(SearchType::Regex(_))));
    assert!(matches!(SearchType::new("!ab+c"), Ok(SearchType::Neg(_))));
    match SearchType::new("!a(") {
        Err(SearchError::InvalidRegex(p)) => assert_eq!(p, "a("),
        _ => panic!("expected an invalid expression"),
    }
    match SearchType::new("[z") {
        Err(SearchError::InvalidRegex(p)) => assert_eq!(p, "[z"),
        _ => panic!("expected an invalid expression"),
    }
}

#[test]
fn search_type_describes_itself() {
    assert_eq!(SearchType::new("a.c").ok().unwrap().describe(), "\"a.c\"");
    assert_eq!(SearchType::new("!x").ok().unwrap().describe(), "\"!x\"");
    assert_eq!(SearchType::Raw("hi".to_string()).describe(), "Raw(hi)");
    assert_eq!(SearchType::NoSearch.describe(), "None");
}

#[test]
fn matching_each_kind_of_search() {
    let re = SearchType::new("b+c").ok().unwrap();
    let neg = SearchType::new("!b+c").ok().unwrap();
    assert!(is_match_type("abbc", &re));
    assert!(!is_match_type("abc".get(0..2).unwrap(), &re));
    assert!(!is_match_type("abbc", &neg));
    assert!(is_match_type("xyz", &neg));
    assert!(is_match_type("one two", &SearchType::Raw("e t".to_string())));
    assert!(!is_match_type("one two", &SearchType::Raw("two!".to_string())));
    assert!(is_match_type("anything", &SearchType::NoSearch));
}

#[test]
fn filter_text_helpers() {
    assert!(contains_str("hello", "ll"));
    assert!(contains_str("hello", ""));
    assert!(!contains_str("hello", "lo!"));
    assert!(!contains_str("hi", "high"));
    assert!(contains_str("héllo", "él"));
    assert_eq!(trim_newline("line\n"), "line");
    assert_eq!(trim_newline("line"), "line");
    assert_eq!(trim_newline("\n\n"), "\n");
    assert_eq!(trim_newline(""), "");
}

#[test]
fn filter_keeps_or_drops_matches() {
    let mut keep = IndexFilter::new(SearchType::new("err").ok().unwrap(), 100, true);
    let mut drop = IndexFilter::new(SearchType::new("err").ok().unwrap(), 100, false);
    let hit = LogLine::new("an error\n".to_string(), 0);
    let miss = LogLine::new("all fine\n".to_string(), 9);
    assert!(keep.eval(&hit));
    assert!(!keep.eval(&miss));
    assert!(!drop.eval(&hit));
    assert!(drop.eval(&miss));
    // The final newline is not part of what is searched.
    let mut ends = IndexFilter::new(SearchType::new("fine$").ok().unwrap(), 100, true);
    assert!(ends.eval(&miss));
}

#[test]
fn filter_indexes_what_it_keeps() {
    let mut f = IndexFilter::default();
    let gap = f.resolve(&Position::from_offset(0));
    assert!(gap.is_unmapped());
    let line = f.insert(&gap, &(0..9));
    assert!(line.is_mapped());
    let rest = f.next(&line);
    assert!(rest.is_unmapped());
    let after = f.erase(&rest, &(9..18));
    assert_eq!(f.index.waypoints(), vec![Mapped(0..9), Unmapped(18..usize::MAX)]);
    assert_eq!(after.least_offset(), 18);
    assert_eq!(f.next_back(&after).least_offset(), 0);
    f.reset();
    assert_eq!(f.index.waypoints(), vec![Unmapped(0..usize::MAX)]);
}

#[test]
fn filter_erase_back_steps_before_the_gap() {
    let mut f = IndexFilter::default();
    let gap = f.resolve(&Position::from_offset(0));
    let line = f.insert(&gap, &(0..9));
    let rest = f.next(&line);
    let back = f.erase_back(&rest, &(9..18));
    assert_eq!(back.least_offset(), 0);
    assert!(back.is_mapped());
}

#[test]
fn regex_searches_keep_their_pattern() {
    let re = SearchType::new("b+c").ok().unwrap();
    match &re {
        SearchType::Regex(m) => assert_eq!(m.as_str(), "b+c"),
        _ => panic!("expected a regex search"),
    }
    let f = IndexFilter::new(SearchType::new("!b+c").ok().unwrap(), 0, true);
    assert!(f.is_match("xyz"));
    assert!(!f.is_match("abbc"));
}
