use grok::config::Config;
use grok::line_view_mode::LineViewMode;
use grok::search_prompt::{InputAction, Search};
use grok::stylist::LineViewMode as ChopMode;

#[test]
fn search_prompt_remembers_expression() {
    let cfg = Config::new();
    let mut search = Search::new(&cfg);
    assert!(matches!(search.run(Some("x".to_string())), InputAction::Idle));
    search.prompt_backward_start();
    assert_eq!(search.get_prompt().prompt(), "?");
    match search.run(Some("err\r".to_string())) {
        InputAction::Search(false, e) => assert_eq!(e, "err"),
        _ => panic!("expected a backward search"),
    }
    search.prompt_forward_start();
    match search.run(Some(String::new())) {
        InputAction::Search(true, e) => assert_eq!(e, "err"),
        _ => panic!("expected the previous search"),
    }
    search.prompt_filter_start();
    assert!(matches!(search.run(None), InputAction::Cancel));
    assert_eq!(search.get_expr(), "err");
}

#[test]
fn empty_first_search_cancels() {
    let cfg = Config::new();
    let mut search = Search::new(&cfg);
    search.prompt_forward_start();
    assert!(matches!(search.run(Some("\r".to_string())), InputAction::Cancel));
    assert!(!search.active());
}

#[test]
fn line_view_chunks() {
    let wrap = LineViewMode::Wrap { width: 10 };
    assert!(wrap.is_chunked());
    assert_eq!(wrap.chunk_start(25), 20);
    assert_eq!(wrap.chunk_end(20, 24), 24);
    assert_eq!(wrap.chunk_end(20, 40), 30);
    let clip = LineViewMode::Clip { width: 10, left: 5 };
    assert!(!clip.is_chunked());
    assert_eq!(clip.chunk_start(25), 5);
    assert_eq!(LineViewMode::WholeLine.chunk_end(3, 9), 9);
}

#[test]
fn chop_mode_visibility() {
    let clip = ChopMode::Clip { width: 10, left: 5 };
    assert!(clip.valid_index(5, 6));
    // An index past the end of a short line is not visible.
    assert!(!clip.valid_index(5, 0));
    assert!(!clip.valid_index(4, 20));
    assert!(clip.valid_index(14, 20));
    assert!(!clip.valid_index(15, 100));
    assert!(ChopMode::WholeLine.valid_index(3, 4));
    assert!(!ChopMode::Chop { width: 3 }.valid_index(5, 5));
    // The chunk ends a width on, or at the end of the line.
    assert_eq!(ChopMode::Chop { width: 8 }.chunk_end(16, 19), 19);
    assert_eq!(ChopMode::Chop { width: 10 }.chunk_end(20, 25), 25);
    assert_eq!(ChopMode::Chop { width: 10 }.chunk_end(20, 40), 30);
    assert_eq!(ChopMode::Chop { width: 8 }.chunk_start(17), 16);
}
