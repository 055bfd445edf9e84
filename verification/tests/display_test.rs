use grok::config::Config;
use grok::display::{Display, Scroll, ScrollAction, ScrollVector};
use grok::keyboard::UserCommand;
use grok::viewer::{Viewer, ViewerAction};

fn display() -> Display {
    let cfg = Config::new();
    let mut d = Display::new(&cfg);
    d.update_size(80, 25);
    d
}

#[test]
fn digits_make_an_argument() {
    let mut d = display();
    d.scroll = ScrollAction::Idle;
    d.handle_command(UserCommand::CollectDigits(1));
    d.handle_command(UserCommand::CollectDigits(2));
    assert_eq!(d.get_arg(), (12, 0, 0));
    d.handle_command(UserCommand::CollectDecimal);
    d.handle_command(UserCommand::CollectDigits(5));
    assert_eq!(d.get_arg(), (12, 5, 10));
    d.handle_command(UserCommand::GotoPercent);
    assert_eq!(d.scroll, ScrollAction::GotoPercent(12, 5, 10));
    assert_eq!(d.get_arg(), (0, 0, 0));
}

#[test]
fn page_sizes_follow_arguments() {
    let mut d = display();
    d.scroll = ScrollAction::Idle;
    assert_eq!(d.page_size(), 24);
    d.handle_command(UserCommand::PageDown);
    assert_eq!(d.scroll, ScrollAction::Down(24));
    d.scroll = ScrollAction::Idle;
    d.handle_command(UserCommand::HalfPageUp);
    assert_eq!(d.scroll, ScrollAction::Up(12));
    d.scroll = ScrollAction::Idle;
    d.handle_command(UserCommand::CollectDigits(3));
    d.handle_command(UserCommand::PageDownSticky);
    assert_eq!(d.scroll, ScrollAction::Down(3));
    d.scroll = ScrollAction::Idle;
    d.handle_command(UserCommand::PageUp);
    assert_eq!(d.scroll, ScrollAction::Up(3));
    d.scroll = ScrollAction::Idle;
    d.handle_command(UserCommand::ScrollDown);
    assert_eq!(d.scroll, ScrollAction::Down(1));
    assert!(d.handle_command(UserCommand::TerminalResize));
}

#[test]
fn pending_move_clears_digits() {
    let mut d = display();
    // Digits wait for the command that uses them, even with a move still pending.
    d.handle_command(UserCommand::CollectDigits(4));
    assert_eq!(d.get_arg(), (4, 0, 0));
    d.handle_command(UserCommand::ScrollDown);
    assert_eq!(d.get_arg(), (0, 0, 0));
}

#[test]
fn typed_line_number_goes_to_that_line() {
    let mut d = display();
    d.handle_command(UserCommand::CollectDigits(1));
    d.handle_command(UserCommand::CollectDigits(0));
    d.handle_command(UserCommand::CollectDigits(0));
    d.handle_command(UserCommand::SeekStartLine);
    assert_eq!(d.scroll, ScrollAction::StartOfFile(100));
    assert_eq!(d.get_arg(), (0, 0, 0));
}

#[test]
fn refresh_plans_follow_the_command() {
    let mut d = display();
    let plan = d.refresh_screen(1000);
    assert_eq!(plan, Scroll::Repaint(ScrollVector { offset: 0, lines: 24 }));
    let (kept, row, count) = d.feed_lines(plan, vec![0, 10, 20]);
    assert_eq!((kept, row, count), (vec![0, 10, 20], 0, 24));
    assert_eq!(d.refresh_screen(1000), Scroll::Idle);
    d.handle_command(UserCommand::ScrollDown);
    let plan = d.refresh_screen(1000);
    assert_eq!(plan, Scroll::Down(ScrollVector { offset: 20, lines: 1 }));
    let (kept, row, _) = d.feed_lines(plan, vec![20, 30]);
    assert_eq!(kept, vec![30]);
    assert_eq!(row, 23);
    assert_eq!(d.displayed_lines, vec![10, 20, 30]);
    d.handle_command(UserCommand::ScrollUp);
    let plan = d.refresh_screen(1000);
    assert_eq!(plan, Scroll::Up(ScrollVector { offset: 10, lines: 1 }));
    let (kept, _, _) = d.feed_lines(plan, vec![0]);
    assert_eq!(kept, vec![0]);
    assert_eq!(d.displayed_lines, vec![0, 10, 20, 30]);
    d.scroll = ScrollAction::GotoPercent(50, 0, 0);
    assert_eq!(d.refresh_screen(1000), Scroll::GotoTop(ScrollVector { offset: 500, lines: 24 }));
    d.scroll = ScrollAction::GotoPercent(12, 5, 10);
    assert_eq!(d.refresh_screen(1000), Scroll::GotoTop(ScrollVector { offset: 125, lines: 24 }));
}

#[test]
fn resize_forces_repaint() {
    let mut d = display();
    let plan = d.refresh_screen(10);
    d.feed_lines(plan, vec![5]);
    d.update_size(100, 40);
    assert_eq!(d.refresh_screen(10), Scroll::Repaint(ScrollVector { offset: 5, lines: 39 }));
}

#[test]
fn viewer_dispatches_commands() {
    let cfg = Config::new();
    let mut v = Viewer::new(&cfg);
    assert_eq!(v.fill_budget(), None);
    assert_eq!(v.on_command(UserCommand::Idle), ViewerAction::Continue);
    assert_eq!(v.fill_budget(), Some(3));
    assert_eq!(v.event_timeout(true), 0);
    assert_eq!(v.on_command(UserCommand::ForwardSearchPrompt), ViewerAction::PromptSearch);
    assert_eq!(v.fill_timeout, 0);
    assert!(v.on_search_input(Some("abc".to_string())));
    assert_eq!(v.display.scroll, ScrollAction::SearchForward);
    assert_eq!(v.on_command(UserCommand::FilterPrompt), ViewerAction::PromptFilter);
    assert_eq!(v.on_filter_input(Some("x".to_string())), Some("x".to_string()));
    assert_eq!(v.on_command(UserCommand::Quit), ViewerAction::Quit);
    assert_eq!(v.on_command(UserCommand::TerminalResize), ViewerAction::Resize);
}

#[test]
fn viewer_prompt_answers() {
    let cfg = Config::new();
    let mut v = Viewer::new(&cfg);
    // No prompt showing: nothing happens.
    assert!(!v.on_search_input(Some("abc".to_string())));
    assert_eq!(v.on_filter_input(Some("abc".to_string())), None);
    // An empty line with no earlier search cancels.
    v.on_command(UserCommand::ForwardSearchPrompt);
    let before = v.display.scroll;
    assert!(!v.on_search_input(Some("\r".to_string())));
    assert_eq!(v.display.scroll, before);
    // A cancelled prompt does nothing.
    v.on_command(UserCommand::FilterPrompt);
    assert_eq!(v.on_filter_input(None), None);
    // An empty line repeats the last filter.
    v.on_command(UserCommand::FilterPrompt);
    assert_eq!(v.on_filter_input(Some("err\r".to_string())), Some("err".to_string()));
    v.on_command(UserCommand::FilterPrompt);
    assert_eq!(v.on_filter_input(Some(String::new())), Some("err".to_string()));
    assert_eq!(v.display.scroll, ScrollAction::Repaint);
}

#[test]
fn goto_percent_is_exact_and_saturates() {
    let mut d = display();
    let plan = d.refresh_screen(10);
    d.feed_lines(plan, vec![5]);
    // 50.5% of the largest document, rounded down, with no overflow on the way.
    d.scroll = ScrollAction::GotoPercent(50, 5, 10);
    assert_eq!(d.refresh_screen(usize::MAX), Scroll::GotoTop(ScrollVector { offset: 9315605757223323565, lines: 24 }));
    d.scroll = ScrollAction::GotoPercent(50, 0, 0);
    assert_eq!(d.refresh_screen(usize::MAX), Scroll::GotoTop(ScrollVector { offset: 9223372036854775807, lines: 24 }));
    // Past the end: the offset stops at the largest one.
    d.scroll = ScrollAction::GotoPercent(usize::MAX, 0, 0);
    assert_eq!(d.refresh_screen(usize::MAX), Scroll::GotoTop(ScrollVector { offset: usize::MAX, lines: 24 }));
    d.scroll = ScrollAction::GotoPercent(usize::MAX, usize::MAX, usize::MAX);
    assert_eq!(d.refresh_screen(1000), Scroll::GotoTop(ScrollVector { offset: usize::MAX, lines: 24 }));
}
