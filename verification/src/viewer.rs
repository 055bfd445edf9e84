//! The viewer's decisions between two screen refreshes. The caller owns the terminal and the
//! document: it fills gaps, reads commands and prompt lines, and hands them in here.

use vstd::prelude::*;
use crate::config::Config;
use crate::display::{Display, digit_fits};
use crate::keyboard::UserCommand;
use crate::search_prompt::{InputAction, Search};
use crate::patterns::regex_valid;
use crate::text::trim_end_spec;
use vstd::string::StrSliceExecFns;

verus! {

/// The line read at a prompt, as characters.
pub open spec fn input_view(input: Option<String>) -> Option<Seq<char>> {
    match input {
        Some(line) => Some(line@),
        None => None,
    }
}

/// The expression a prompt answers with, given whether it was showing, the expression it
/// last searched for, and the line read: the line without its final carriage returns, or
/// the last expression again for an empty line; nothing for a prompt not showing, a
/// cancelled prompt, or an empty line with no last expression.
pub open spec fn prompt_answer(active: bool, last: Seq<char>, input: Option<Seq<char>>) -> Option<Seq<char>> {
    if !active {
        None
    } else {
        match input {
            None => None,
            Some(line) => {
                let t = trim_end_spec(line, '\r');
                if t.len() > 0 {
                    Some(t)
                } else if last.len() > 0 {
                    Some(last)
                } else {
                    None
                }
            },
        }
    }
}

/// What the caller must do after a command.
#[derive(Copy, Clone, Debug, PartialEq, Eq)]
pub enum ViewerAction {
    /// Stop viewing.
    Quit,
    /// Go on with the next refresh.
    Continue,
    /// Read the terminal size and hand it to the display.
    Resize,
    /// Show the search prompt and read a line for it.
    PromptSearch,
    /// Show the filter prompt and read a line for it.
    PromptFilter,
}

pub struct Viewer {
    pub display: Display,
    pub search: Search,
    pub filter: Search,
    /// Milliseconds of gap filling to do while the user is idle; grows while idle.
    pub fill_timeout: u64,
}

impl Viewer {
    pub fn new(config: &Config) -> (r: Self)
        ensures
            r.fill_timeout == 0,
            r.display.arg_ok(),
            !r.search.is_active(),
            !r.filter.is_active(),
    {
        Viewer {
            display: Display::new(config),
            search: Search::new(config),
            filter: Search::new(config),
            fill_timeout: 0,
        }
    }

    /// How long to fill gaps before waiting for the next event, if at all.
    pub fn fill_budget(&self) -> (r: Option<u64>)
        ensures
            r == (if self.fill_timeout > 0 {
                Some(if self.fill_timeout < 40 { self.fill_timeout } else { 40 })
            } else {
                None
            }),
    {
        if self.fill_timeout > 0 {
            Some(if self.fill_timeout < 40 { self.fill_timeout } else { 40 })
        } else {
            None
        }
    }

    /// Milliseconds to wait for an event: none while filling gaps makes progress.
    pub fn event_timeout(&self, filled: bool) -> (r: u64)
        ensures
            r == (if self.fill_timeout > 0 && filled { 0u64 } else { 500u64 }),
    {
        if self.fill_timeout > 0 && filled {
            0
        } else {
            500
        }
    }

    /// Act on a command from the user.
    pub fn on_command(&mut self, cmd: UserCommand) -> (r: ViewerAction)
        requires
            old(self).display.arg_ok(),
            old(self).fill_timeout <= u64::MAX - 3,
            cmd matches UserCommand::CollectDigits(d) ==> d <= 9 && (if old(self).display.arg_denom == 0 {
                digit_fits(old(self).display.arg_num, d as usize)
            } else {
                digit_fits(old(self).display.arg_fraq, d as usize) && digit_fits(old(self).display.arg_denom, 0)
            }),
        ensures
            final(self).display.arg_ok(),
            final(self).fill_timeout == (if cmd is Idle { old(self).fill_timeout + 3 } else { 0 }),
            r == match cmd {
                UserCommand::Quit => ViewerAction::Quit,
                UserCommand::ForwardSearchPrompt | UserCommand::BackwardSearchPrompt => ViewerAction::PromptSearch,
                UserCommand::FilterPrompt => ViewerAction::PromptFilter,
                UserCommand::TerminalResize => ViewerAction::Resize,
                _ => ViewerAction::Continue,
            },
            cmd is ForwardSearchPrompt ==> final(self).search.is_active() && final(self).search.is_forward(),
            cmd is BackwardSearchPrompt ==> final(self).search.is_active() && !final(self).search.is_forward(),
            cmd is FilterPrompt ==> final(self).filter.is_active(),
            !(cmd is Quit || cmd is ForwardSearchPrompt || cmd is BackwardSearchPrompt || cmd is FilterPrompt)
                ==> final(self).display.scroll == old(self).display.scroll_for(cmd),
    {
        if matches!(cmd, UserCommand::Idle) {
            self.fill_timeout = self.fill_timeout + 3;
        } else {
            self.fill_timeout = 0;
        }
        match cmd {
            UserCommand::Quit => ViewerAction::Quit,
            UserCommand::ForwardSearchPrompt => {
                self.search.prompt_forward_start();
                ViewerAction::PromptSearch
            },
            UserCommand::BackwardSearchPrompt => {
                self.search.prompt_backward_start();
                ViewerAction::PromptSearch
            },
            UserCommand::FilterPrompt => {
                self.filter.prompt_filter_start();
                ViewerAction::PromptFilter
            },
            _ => {
                if self.display.handle_command(cmd) {
                    ViewerAction::Resize
                } else {
                    ViewerAction::Continue
                }
            },
        }
    }

    /// Take the line read at the search prompt. A search sets the expression (when one is
    /// given and it compiles) and looks for the next match. Returns whether there was a
    /// search.
    pub fn on_search_input(&mut self, input: Option<String>) -> (r: bool)
        requires
            old(self).display.arg_ok(),
        ensures
            ({
                let q = prompt_answer(old(self).search.is_active(), old(self).search.last_expr(), input_view(input));
                &&& final(self).display.arg_ok()
                &&& r == q is Some
                &&& old(self).search.is_active() ==> !final(self).search.is_active()
                &&& !old(self).search.is_active() ==> final(self).search == old(self).search
                &&& final(self).search.is_forward() == old(self).search.is_forward()
                &&& final(self).search.last_expr() == (match q {
                    Some(e) => e,
                    None => old(self).search.last_expr(),
                })
                &&& q is Some ==> final(self).display.scroll == crate::display::ScrollAction::SearchForward
                    && final(self).display.has_search() == (regex_valid(q->0) || old(self).display.has_search())
                &&& q is None ==> final(self).display == old(self).display
                &&& final(self).filter == old(self).filter
                &&& final(self).fill_timeout == old(self).fill_timeout
            }),
    {
        match self.search.run(input) {
            InputAction::Search(_, expr) => {
                if expr.as_str().unicode_len() > 0 {
                    self.display.set_search(expr.as_str());
                }
                self.display.handle_command(UserCommand::SearchNext);
                true
            },
            _ => false,
        }
    }

    /// Take the line read at the filter prompt. Returns the filter expression for the
    /// document, and asks for a repaint, when a filter was given.
    pub fn on_filter_input(&mut self, input: Option<String>) -> (r: Option<String>)
        requires
            old(self).display.arg_ok(),
        ensures
            ({
                let q = prompt_answer(old(self).filter.is_active(), old(self).filter.last_expr(), input_view(input));
                &&& final(self).display.arg_ok()
                &&& input_view(r) == q
                &&& old(self).filter.is_active() ==> !final(self).filter.is_active()
                &&& !old(self).filter.is_active() ==> final(self).filter == old(self).filter
                &&& final(self).filter.is_forward() == old(self).filter.is_forward()
                &&& final(self).filter.last_expr() == (match q {
                    Some(e) => e,
                    None => old(self).filter.last_expr(),
                })
                &&& q is Some ==> final(self).display.scroll == crate::display::ScrollAction::Repaint
                &&& q is None ==> final(self).display == old(self).display
                &&& final(self).search == old(self).search
                &&& final(self).fill_timeout == old(self).fill_timeout
            }),
    {
        match self.filter.run(input) {
            InputAction::Search(_, expr) => {
                self.display.handle_command(UserCommand::RefreshDisplay);
                Some(expr)
            },
            _ => None,
        }
    }
}

} // verus!
