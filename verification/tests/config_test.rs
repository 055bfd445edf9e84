use grok::config::{is_help_arg, is_version_arg, Config, ConfigItem, Error};
use grok::text::{parse_u16, str_eq, trim_end_char, utf8_slice, split_once_char};

fn args(v: &[&str]) -> Vec<String> {
    v.iter().map(|s| s.to_string()).collect()
}

#[test]
fn parse_switches_toggle_settings() {
    let mut cfg = Config::new();
    match cfg.parse_item("-S", None) {
        Ok((ConfigItem::Chop(true), false)) => {},
        _ => panic!("expected Chop(true)"),
    }
    match cfg.parse_item("--no-alternate-screen", Some("x")) {
        Ok((ConfigItem::AltScreen(false), false)) => {},
        _ => panic!("expected AltScreen(false)"),
    }
}

#[test]
fn wheel_lines_takes_a_number() {
    let mut cfg = Config::new();
    match cfg.parse_item("-W", Some("12")) {
        Ok((ConfigItem::MouseScroll(12), true)) => {},
        _ => panic!("expected MouseScroll(12)"),
    }
    match cfg.parse_item("-W", Some("x")) {
        Err(Error::ExpectedInt(s)) => assert_eq!(s, "x"),
        _ => panic!("expected ExpectedInt"),
    }
    match cfg.parse_item("--wheel-lines", None) {
        Err(Error::ExpectedArgumentFor(s)) => assert_eq!(s, "--wheel-lines"),
        _ => panic!("expected ExpectedArgumentFor"),
    }
}

#[test]
fn unknown_words_are_files() {
    let mut cfg = Config::new();
    match cfg.parse_item("log.txt", Some("-S")) {
        Ok((ConfigItem::OpenFile(p), false)) => assert_eq!(p, "log.txt"),
        _ => panic!("expected OpenFile"),
    }
    // An item holding `=` is taken whole.
    match cfg.parse_item("--wheel-lines=3", None) {
        Ok((ConfigItem::OpenFile(p), false)) => assert_eq!(p, "--wheel-lines=3"),
        _ => panic!("expected OpenFile"),
    }
}

#[test]
fn from_env_reads_all_arguments() {
    let cfg = match Config::from_env(args(&["grok", "-S", "-W", "7", "a.log", "-C", "b.log"])) {
        Ok(c) => c,
        Err(_) => panic!("parse failed"),
    };
    assert!(cfg.chop);
    assert!(cfg.color);
    assert_eq!(cfg.mouse_scroll, 7);
    assert_eq!(cfg.filename, vec!["a.log".to_string(), "b.log".to_string()]);
    assert!(cfg.altscreen);
}

#[test]
fn from_env_stops_at_bad_argument() {
    match Config::from_env(args(&["grok", "-W", "lots"])) {
        Err(Error::ExpectedInt(s)) => assert_eq!(s, "lots"),
        _ => panic!("expected ExpectedInt"),
    }
}

#[test]
fn receive_item_sets_fields() {
    let mut cfg = Config::new();
    cfg.receive_item(ConfigItem::Visual(true));
    cfg.receive_item(ConfigItem::OpenFile("x".to_string()));
    assert!(cfg.mouse);
    assert_eq!(cfg.filename, vec!["x".to_string()]);
}

#[test]
fn u16_parsing_matches_std() {
    for s in ["0", "65535", "65536", "+12", "-1", "", "+", "12a", "007"] {
        assert_eq!(parse_u16(s), s.parse::<u16>().ok(), "{}", s);
    }
}

#[test]
fn text_helpers() {
    assert!(str_eq("abc", "abc"));
    assert!(!str_eq("abc", "abd"));
    assert_eq!(trim_end_char("abc\r\r", '\r'), "abc");
    assert_eq!(split_once_char("a=b=c", '='), Some(("a", "b=c")));
    assert_eq!(split_once_char("abc", '='), None);
}

#[test]
fn utf8_slice_by_chars() {
    assert_eq!(utf8_slice("héllo", 1, 3), Some("él"));
    assert_eq!(utf8_slice("héllo", 3, 1), Some(""));
    assert_eq!(utf8_slice("héllo", 6, 7), None);
    assert_eq!(utf8_slice("héllo", 2, 9), None);
    assert_eq!(utf8_slice("héllo", 5, 5), Some(""));
}

#[test]
fn help_and_version_switches_are_recognized() {
    assert!(is_help_arg("-H") && is_help_arg("--help"));
    assert!(!is_help_arg("-h"));
    assert!(is_version_arg("-V") && is_version_arg("--version"));
    assert!(!is_version_arg("-v"));
}
