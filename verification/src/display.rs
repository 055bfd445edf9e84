//! The display's decisions: how the user's commands move the view, what the next repaint
//! must show, and which line offsets stay on screen. Drawing on the terminal and reading the
//! lines of the document are done by the caller.

use vstd::prelude::*;
use vstd::arithmetic::div_mod::{lemma_fundamental_div_mod, lemma_fundamental_div_mod_converse, lemma_mod_pos_bound};
use crate::config::Config;
use crate::keyboard::UserCommand;
use crate::sub_line_iterator::LineViewMode;
use crate::patterns::{compile, regex_valid};

verus! {

/// Cutting `x` into whole hundredths of `d` and the rest, `len * x / (100 * d)` is the sum of
/// `len` times the whole part and the hundredths `len` times the rest makes.
proof fn lemma_percent_split(
    len: int,
    x: int,
    d: int,
    q: int,
    r: int,
    rh: int,
    rl: int,
    e: int,
    g: int,
    p: int,
    s: int,
)
    requires
        d > 0,
        len >= 0,
        x == (100 * d) * q + r,
        0 <= r < 100 * d,
        r == d * rh + rl,
        0 <= rl < d,
        len * rl == d * e + g,
        0 <= g < d,
        len * rh + e == 100 * p + s,
        0 <= s < 100,
    ensures
        (len * x) / (100 * d) == len * q + p,
{
    assert(len * x == (len * q + p) * (100 * d) + (s * d + g)) by (nonlinear_arith)
        requires
            x == (100 * d) * q + r,
            r == d * rh + rl,
            len * rl == d * e + g,
            len * rh + e == 100 * p + s,
    ;
    assert(0 <= s * d + g < 100 * d) by (nonlinear_arith)
        requires
            0 <= s < 100,
            0 <= g < d,
            d > 0,
    ;
    lemma_fundamental_div_mod_converse(len * x, 100 * d, len * q + p, s * d + g);
}

/// Size of the screen at the last repaint.
#[derive(Copy, Clone, Debug, PartialEq, Eq)]
pub struct DisplayState {
    pub height: usize,
    pub width: usize,
}

/// What the user asked the view to do next.
#[derive(Copy, Clone, Debug, PartialEq, Eq)]
pub enum ScrollAction {
    /// Nothing to do.
    Idle,
    StartOfFile(usize),
    EndOfFile(usize),
    SearchForward,
    SearchBackward,
    Up(usize),
    Down(usize),
    Repaint,
    /// A percentage `whole + fraction / denominator` of the document.
    GotoPercent(usize, usize, usize),
    GotoOffset(usize),
}

/// Where to read lines from and how many screen rows they fill.
#[derive(Copy, Clone, Debug, PartialEq, Eq)]
pub struct ScrollVector {
    /// Byte offset in the document.
    pub offset: usize,
    /// Number of lines to display.
    pub lines: usize,
}

/// How the screen changes at the next repaint.
#[derive(Copy, Clone, Debug, PartialEq, Eq)]
pub enum Scroll {
    Up(ScrollVector),
    Down(ScrollVector),
    Repaint(ScrollVector),
    GotoTop(ScrollVector),
    GotoBottom(ScrollVector),
    Idle,
}

impl Scroll {
    pub fn down(offset: usize, lines: usize) -> (r: Self)
        ensures
            r == Scroll::Down(ScrollVector { offset, lines }),
    {
        Scroll::Down(ScrollVector { offset, lines })
    }

    pub fn up(offset: usize, lines: usize) -> (r: Self)
        ensures
            r == Scroll::Up(ScrollVector { offset, lines }),
    {
        Scroll::Up(ScrollVector { offset, lines })
    }

    pub fn repaint(offset: usize, lines: usize) -> (r: Self)
        ensures
            r == Scroll::Repaint(ScrollVector { offset, lines }),
    {
        Scroll::Repaint(ScrollVector { offset, lines })
    }

    pub fn goto_top(offset: usize, lines: usize) -> (r: Self)
        ensures
            r == Scroll::GotoTop(ScrollVector { offset, lines }),
    {
        Scroll::GotoTop(ScrollVector { offset, lines })
    }

    pub fn goto_bottom(offset: usize, lines: usize) -> (r: Self)
        ensures
            r == Scroll::GotoBottom(ScrollVector { offset, lines }),
    {
        Scroll::GotoBottom(ScrollVector { offset, lines })
    }

    pub fn none() -> (r: Self)
        ensures
            r == Scroll::Idle,
    {
        Scroll::Idle
    }

    pub fn is_none(&self) -> (r: bool)
        ensures
            r == (*self is Idle),
    {
        matches!(self, Scroll::Idle)
    }
}

pub struct Display {
    /// Physical size of the display.
    pub height: usize,
    pub width: usize,
    pub on_alt_screen: bool,
    pub use_alt: bool,
    pub color: bool,
    pub semantic_color: bool,
    /// Scroll command from the user.
    pub scroll: ScrollAction,
    /// Accumulated command argument: `arg_num + arg_fraq / arg_denom`.
    pub arg_num: usize,
    pub arg_fraq: usize,
    pub arg_denom: usize,
    /// Sticky whole-page scroll size.
    pub whole: usize,
    /// Sticky half-page scroll size.
    pub half: usize,
    /// Size of the bottom status panel.
    pub panel: usize,
    /// Previous display size.
    pub prev: DisplayState,
    /// Offsets of the lines on screen, top first.
    pub displayed_lines: Vec<usize>,
    pub mouse_wheel_height: u16,
    pub mode: LineViewMode,
    pub search: Option<regex::Regex>,
}

/// `a * 10 + d` without overflow.
pub open spec fn digit_fits(a: usize, d: usize) -> bool {
    a * 10 + d <= usize::MAX
}

impl Display {
    /// The fraction of the argument is proper: below one, and zero until a decimal point.
    pub open spec fn arg_ok(&self) -> bool {
        &&& self.arg_denom == 0 ==> self.arg_fraq == 0
        &&& self.arg_denom > 0 ==> self.arg_fraq < self.arg_denom
    }

    pub open spec fn spec_page_size(&self) -> usize {
        if self.height > self.panel { (self.height - self.panel) as usize } else { 0 }
    }

    pub open spec fn spec_one(&self) -> usize {
        if self.arg_num > 0 { self.arg_num } else { 1 }
    }

    pub open spec fn spec_half(&self) -> usize {
        if self.arg_num > 0 {
            self.arg_num
        } else if self.half > 0 {
            self.half
        } else {
            (self.spec_page_size() / 2) as usize
        }
    }

    pub open spec fn spec_whole(&self) -> usize {
        if self.arg_num > 0 {
            self.arg_num
        } else if self.whole > 0 {
            self.whole
        } else {
            self.spec_page_size()
        }
    }

    pub fn new(config: &Config) -> (r: Self)
        ensures
            r.height == 0 && r.width == 0,
            !r.on_alt_screen,
            r.use_alt == config.altscreen,
            r.color == config.color,
            r.scroll == ScrollAction::StartOfFile(0),
            r.arg_num == 0 && r.arg_fraq == 0 && r.arg_denom == 0,
            r.whole == 0 && r.half == 0,
            r.panel == 1,
            r.prev == (DisplayState { height: 0, width: 0 }),
            r.displayed_lines@.len() == 0,
            r.mouse_wheel_height == config.mouse_scroll,
            r.mode == LineViewMode::WholeLine,
            r.arg_ok(),
    {
        Display {
            height: 0,
            width: 0,
            on_alt_screen: false,
            use_alt: config.altscreen,
            color: config.color,
            semantic_color: false,
            scroll: ScrollAction::StartOfFile(0),
            arg_num: 0,
            arg_fraq: 0,
            arg_denom: 0,
            whole: 0,
            half: 0,
            panel: 1,
            prev: DisplayState { height: 0, width: 0 },
            displayed_lines: Vec::new(),
            mouse_wheel_height: config.mouse_scroll,
            mode: LineViewMode::WholeLine,
            search: None,
        }
    }

    /// Begin owning the terminal: returns whether the alternate screen must be entered now.
    pub fn start(&mut self) -> (r: bool)
        ensures
            r == (!old(self).on_alt_screen && old(self).use_alt),
            final(self).on_alt_screen == (old(self).on_alt_screen || old(self).use_alt),
    {
        if !self.on_alt_screen && self.use_alt {
            self.on_alt_screen = true;
            true
        } else {
            false
        }
    }

    /// Give the terminal back: returns whether the alternate screen must be left now.
    pub fn stop(&mut self) -> (r: bool)
        ensures
            r == old(self).on_alt_screen,
            !final(self).on_alt_screen,
    {
        if self.on_alt_screen {
            self.on_alt_screen = false;
            true
        } else {
            false
        }
    }

    /// Take the new size of the terminal; long lines now wrap at its width.
    pub fn update_size(&mut self, width: usize, height: usize)
        ensures
            final(self).width == width,
            final(self).height == height,
            final(self).mode == (LineViewMode::Wrap { width }),
    {
        self.width = width;
        self.height = height;
        self.mode = LineViewMode::Wrap { width: self.width };
    }

    /// Rows left for lines below the panel.
    pub fn page_size(&self) -> (r: usize)
        ensures
            r == self.spec_page_size(),
    {
        if self.height > self.panel {
            self.height - self.panel
        } else {
            0
        }
    }

    /// Use `search` as the search expression, if it compiles. Returns whether it did.
    pub fn set_search(&mut self, search: &str) -> (r: bool)
        ensures
            r == regex_valid(search@),
            r ==> final(self).has_search(),
            !r ==> final(self).has_search() == old(self).has_search(),
            final(self).arg_num == old(self).arg_num,
            final(self).arg_fraq == old(self).arg_fraq,
            final(self).arg_denom == old(self).arg_denom,
            final(self).scroll == old(self).scroll,
            final(self).displayed_lines == old(self).displayed_lines,
            final(self).height == old(self).height,
            final(self).width == old(self).width,
    {
        match compile(search) {
            Some(re) => {
                self.search = Some(re);
                true
            },
            None => false,
        }
    }

    pub closed spec fn has_search(&self) -> bool {
        self.search is Some
    }

    /// One line, or the given argument.
    pub fn get_one(&self) -> (r: usize)
        ensures
            r == self.spec_one(),
    {
        if self.arg_num > 0 {
            self.arg_num
        } else {
            1
        }
    }

    /// Half a screen, or the sticky half-screen size, or the given argument.
    pub fn get_half(&self) -> (r: usize)
        ensures
            r == self.spec_half(),
    {
        if self.arg_num > 0 {
            self.arg_num
        } else if self.half > 0 {
            self.half
        } else {
            self.page_size() / 2
        }
    }

    /// A whole screen, or the sticky whole-screen size, or the given argument.
    pub fn get_whole(&self) -> (r: usize)
        ensures
            r == self.spec_whole(),
    {
        if self.arg_num > 0 {
            self.arg_num
        } else if self.whole > 0 {
            self.whole
        } else {
            self.page_size()
        }
    }

    /// The half-screen size, which a given argument replaces for good.
    pub fn sticky_half(&mut self) -> (r: usize)
        ensures
            final(self).half == (if old(self).arg_num > 0 { old(self).arg_num } else { old(self).half }),
            r == final(self).spec_half(),
            r == old(self).spec_half(),
            final(self).arg_num == old(self).arg_num,
            final(self).arg_fraq == old(self).arg_fraq,
            final(self).arg_denom == old(self).arg_denom,
            final(self).whole == old(self).whole,
            final(self).height == old(self).height,
            final(self).width == old(self).width,
            final(self).panel == old(self).panel,
            final(self).scroll == old(self).scroll,
            final(self).displayed_lines == old(self).displayed_lines,
            final(self).prev == old(self).prev,
            final(self).mode == old(self).mode,
            final(self).mouse_wheel_height == old(self).mouse_wheel_height,
            final(self).search == old(self).search,
    {
        if self.arg_num > 0 {
            self.half = self.arg_num;
        }
        self.get_half()
    }

    /// The whole-screen size, which a given argument replaces for good.
    pub fn sticky_whole(&mut self) -> (r: usize)
        ensures
            final(self).whole == (if old(self).arg_num > 0 { old(self).arg_num } else { old(self).whole }),
            r == final(self).spec_whole(),
            r == old(self).spec_whole(),
            final(self).arg_num == old(self).arg_num,
            final(self).arg_fraq == old(self).arg_fraq,
            final(self).arg_denom == old(self).arg_denom,
            final(self).half == old(self).half,
            final(self).height == old(self).height,
            final(self).width == old(self).width,
            final(self).panel == old(self).panel,
            final(self).scroll == old(self).scroll,
            final(self).displayed_lines == old(self).displayed_lines,
            final(self).prev == old(self).prev,
            final(self).mode == old(self).mode,
            final(self).mouse_wheel_height == old(self).mouse_wheel_height,
            final(self).search == old(self).search,
    {
        if self.arg_num > 0 {
            self.whole = self.arg_num;
        }
        self.get_whole()
    }

    /// Add a digit to the argument: to the whole part, or after a decimal point to the fraction.
    pub fn collect_digit(&mut self, d: usize)
        requires
            d <= 9,
            old(self).arg_ok(),
            old(self).arg_denom == 0 ==> digit_fits(old(self).arg_num, d),
            old(self).arg_denom > 0 ==> digit_fits(old(self).arg_fraq, d) && digit_fits(old(self).arg_denom, 0),
        ensures
            final(self).arg_ok(),
            old(self).arg_denom == 0 ==> final(self).arg_num == old(self).arg_num * 10 + d
                && final(self).arg_fraq == old(self).arg_fraq && final(self).arg_denom == 0,
            old(self).arg_denom > 0 ==> final(self).arg_num == old(self).arg_num
                && final(self).arg_fraq == old(self).arg_fraq * 10 + d
                && final(self).arg_denom == old(self).arg_denom * 10,
            final(self).scroll == old(self).scroll,
            final(self).half == old(self).half,
            final(self).whole == old(self).whole,
            final(self).height == old(self).height,
            final(self).width == old(self).width,
            final(self).panel == old(self).panel,
            final(self).displayed_lines == old(self).displayed_lines,
            final(self).prev == old(self).prev,
            final(self).mode == old(self).mode,
            final(self).mouse_wheel_height == old(self).mouse_wheel_height,
            final(self).search == old(self).search,
    {
        if self.arg_denom == 0 {
            self.arg_num = self.arg_num * 10 + d;
        } else {
            self.arg_fraq = self.arg_fraq * 10 + d;
            self.arg_denom = self.arg_denom * 10;
        }
    }

    /// A decimal point: digits from now on go to the fraction.
    pub fn collect_decimal(&mut self)
        requires
            old(self).arg_ok(),
        ensures
            final(self).arg_ok(),
            final(self).arg_denom == (if old(self).arg_denom == 0 { 1 } else { old(self).arg_denom }),
            final(self).arg_num == old(self).arg_num,
            final(self).arg_fraq == old(self).arg_fraq,
            final(self).scroll == old(self).scroll,
            final(self).half == old(self).half,
            final(self).whole == old(self).whole,
            final(self).height == old(self).height,
            final(self).width == old(self).width,
            final(self).panel == old(self).panel,
            final(self).displayed_lines == old(self).displayed_lines,
            final(self).prev == old(self).prev,
            final(self).mode == old(self).mode,
            final(self).mouse_wheel_height == old(self).mouse_wheel_height,
            final(self).search == old(self).search,
    {
        if self.arg_denom == 0 {
            self.arg_denom = 1;
        }
    }

    /// The argument as a fraction: (whole part, numerator of the fraction, denominator).
    pub fn get_arg(&self) -> (r: (usize, usize, usize))
        ensures
            r == (self.arg_num, self.arg_fraq, self.arg_denom),
    {
        (self.arg_num, self.arg_fraq, self.arg_denom)
    }

    /// The command moves the view, using up the argument typed before it.
    pub open spec fn is_move(cmd: UserCommand) -> bool {
        match cmd {
            UserCommand::ScrollDown | UserCommand::ScrollUp | UserCommand::PageDown | UserCommand::PageUp
            | UserCommand::PageDownSticky | UserCommand::PageUpSticky | UserCommand::HalfPageDown
            | UserCommand::HalfPageUp | UserCommand::ScrollToTop | UserCommand::ScrollToBottom
            | UserCommand::SeekStartLine | UserCommand::SeekEndLine | UserCommand::RefreshDisplay
            | UserCommand::GotoPercent | UserCommand::GotoOffset | UserCommand::MouseScrollUp
            | UserCommand::MouseScrollDown | UserCommand::SearchNext | UserCommand::SearchPrev => true,
            _ => false,
        }
    }

    /// Where the view moves on `cmd`, before any argument is cleared.
    pub open spec fn scroll_for(&self, cmd: UserCommand) -> ScrollAction {
        match cmd {
            UserCommand::ScrollDown => ScrollAction::Down(self.spec_one()),
            UserCommand::ScrollUp => ScrollAction::Up(self.spec_one()),
            UserCommand::PageDown => ScrollAction::Down(self.spec_whole()),
            UserCommand::PageUp => ScrollAction::Up(self.spec_whole()),
            UserCommand::PageDownSticky => ScrollAction::Down(self.spec_whole()),
            UserCommand::PageUpSticky => ScrollAction::Up(self.spec_whole()),
            UserCommand::HalfPageDown => ScrollAction::Down(self.spec_half()),
            UserCommand::HalfPageUp => ScrollAction::Up(self.spec_half()),
            UserCommand::ScrollToTop => ScrollAction::StartOfFile(0),
            UserCommand::ScrollToBottom => ScrollAction::EndOfFile(0),
            UserCommand::SeekStartLine => ScrollAction::StartOfFile(self.arg_num),
            UserCommand::SeekEndLine => ScrollAction::EndOfFile(self.arg_num),
            UserCommand::RefreshDisplay => ScrollAction::Repaint,
            UserCommand::GotoPercent => ScrollAction::GotoPercent(self.arg_num, self.arg_fraq, self.arg_denom),
            UserCommand::GotoOffset => ScrollAction::GotoOffset(self.arg_num),
            UserCommand::MouseScrollUp => ScrollAction::Up(self.mouse_wheel_height as usize),
            UserCommand::MouseScrollDown => ScrollAction::Down(self.mouse_wheel_height as usize),
            UserCommand::SearchNext => ScrollAction::SearchForward,
            UserCommand::SearchPrev => ScrollAction::SearchBackward,
            _ => self.scroll,
        }
    }

    /// Each scrolling command moves the view its own way, for every display: the upward
    /// commands (a line, a page, half a page, the mouse wheel) ask for an upward scroll and the
    /// downward ones for a downward scroll, by the typed count or else one line, a page, half
    /// a page, or the wheel's height; home and end go to the start and the end of the file, a
    /// typed line number with `g` or `G` to that line from the start or the end; searching on
    /// goes forwards and searching back goes backwards.
    pub proof fn lemma_scroll_directions(d: Display)
        ensures
            d.scroll_for(UserCommand::ScrollUp) == ScrollAction::Up(if d.arg_num > 0 { d.arg_num } else { 1 }),
            d.scroll_for(UserCommand::ScrollDown) == ScrollAction::Down(if d.arg_num > 0 { d.arg_num } else { 1 }),
            d.scroll_for(UserCommand::PageUp) == ScrollAction::Up(d.spec_whole()),
            d.scroll_for(UserCommand::PageDown) == ScrollAction::Down(d.spec_whole()),
            d.scroll_for(UserCommand::PageUpSticky) == ScrollAction::Up(d.spec_whole()),
            d.scroll_for(UserCommand::PageDownSticky) == ScrollAction::Down(d.spec_whole()),
            d.scroll_for(UserCommand::HalfPageUp) == ScrollAction::Up(d.spec_half()),
            d.scroll_for(UserCommand::HalfPageDown) == ScrollAction::Down(d.spec_half()),
            d.scroll_for(UserCommand::MouseScrollUp) == ScrollAction::Up(d.mouse_wheel_height as usize),
            d.scroll_for(UserCommand::MouseScrollDown) == ScrollAction::Down(d.mouse_wheel_height as usize),
            d.scroll_for(UserCommand::ScrollToTop) == ScrollAction::StartOfFile(0),
            d.scroll_for(UserCommand::ScrollToBottom) == ScrollAction::EndOfFile(0),
            d.scroll_for(UserCommand::SeekStartLine) == ScrollAction::StartOfFile(d.arg_num),
            d.scroll_for(UserCommand::SeekEndLine) == ScrollAction::EndOfFile(d.arg_num),
            d.scroll_for(UserCommand::SearchNext) == ScrollAction::SearchForward,
            d.scroll_for(UserCommand::SearchPrev) == ScrollAction::SearchBackward,
    {
    }

    /// Act on a command from the user: record how the view must move, collect argument
    /// digits, and clear the argument once a move has used it. Returns true when the command
    /// asks for the terminal size to be read again.
    pub fn handle_command(&mut self, cmd: UserCommand) -> (resize: bool)
        requires
            old(self).arg_ok(),
            cmd matches UserCommand::CollectDigits(d) ==> d <= 9 && (if old(self).arg_denom == 0 {
                digit_fits(old(self).arg_num, d as usize)
            } else {
                digit_fits(old(self).arg_fraq, d as usize) && digit_fits(old(self).arg_denom, 0)
            }),
        ensures
            final(self).arg_ok(),
            final(self).search == old(self).search,
            final(self).has_search() == old(self).has_search(),
            resize == (cmd is TerminalResize),
            final(self).scroll == old(self).scroll_for(cmd),
            cmd is ScrollUp || cmd is PageUp || cmd is PageUpSticky || cmd is HalfPageUp || cmd is MouseScrollUp
                ==> final(self).scroll is Up,
            cmd is ScrollDown || cmd is PageDown || cmd is PageDownSticky || cmd is HalfPageDown || cmd is MouseScrollDown
                ==> final(self).scroll is Down,
            cmd is MouseScrollUp ==> final(self).scroll == ScrollAction::Up(old(self).mouse_wheel_height as usize),
            cmd is MouseScrollDown ==> final(self).scroll == ScrollAction::Down(old(self).mouse_wheel_height as usize),
            cmd is ScrollUp ==> final(self).scroll == ScrollAction::Up(
                if old(self).arg_num > 0 { old(self).arg_num } else { 1 },
            ),
            cmd is ScrollDown ==> final(self).scroll == ScrollAction::Down(
                if old(self).arg_num > 0 { old(self).arg_num } else { 1 },
            ),
            cmd is SeekStartLine ==> final(self).scroll == ScrollAction::StartOfFile(old(self).arg_num),
            cmd is SeekEndLine ==> final(self).scroll == ScrollAction::EndOfFile(old(self).arg_num),
            final(self).half == (if cmd is HalfPageDown || cmd is HalfPageUp { if old(self).arg_num > 0 {
                old(self).arg_num
            } else {
                old(self).half
            } } else { old(self).half }),
            final(self).whole == (if cmd is PageDownSticky || cmd is PageUpSticky { if old(self).arg_num > 0 {
                old(self).arg_num
            } else {
                old(self).whole
            } } else { old(self).whole }),
            Display::is_move(cmd) ==> final(self).arg_num == 0 && final(self).arg_fraq == 0
                && final(self).arg_denom == 0,
            !Display::is_move(cmd) ==> match cmd {
                UserCommand::CollectDigits(d) => if old(self).arg_denom == 0 {
                    final(self).arg_num == old(self).arg_num * 10 + d && final(self).arg_fraq == old(self).arg_fraq
                        && final(self).arg_denom == old(self).arg_denom
                } else {
                    final(self).arg_num == old(self).arg_num && final(self).arg_fraq == old(self).arg_fraq * 10 + d
                        && final(self).arg_denom == old(self).arg_denom * 10
                },
                UserCommand::CollectDecimal => final(self).arg_num == old(self).arg_num
                    && final(self).arg_fraq == old(self).arg_fraq
                    && final(self).arg_denom == (if old(self).arg_denom == 0 { 1 } else { old(self).arg_denom }),
                _ => final(self).arg_num == old(self).arg_num && final(self).arg_fraq == old(self).arg_fraq
                    && final(self).arg_denom == old(self).arg_denom,
            },
            final(self).height == old(self).height,
            final(self).width == old(self).width,
            final(self).panel == old(self).panel,
            final(self).displayed_lines == old(self).displayed_lines,
            final(self).prev == old(self).prev,
            final(self).mode == old(self).mode,
    {
        let mut resize = false;
        match cmd {
            UserCommand::ScrollDown => {
                self.scroll = ScrollAction::Down(self.get_one());
            },
            UserCommand::ScrollUp => {
                self.scroll = ScrollAction::Up(self.get_one());
            },
            UserCommand::CollectDigits(d) => {
                self.collect_digit(d as usize);
            },
            UserCommand::CollectDecimal => {
                self.collect_decimal();
            },
            UserCommand::PageDown => {
                self.scroll = ScrollAction::Down(self.get_whole());
            },
            UserCommand::PageUp => {
                self.scroll = ScrollAction::Up(self.get_whole());
            },
            UserCommand::PageDownSticky => {
                let n = self.sticky_whole();
                self.scroll = ScrollAction::Down(n);
            },
            UserCommand::PageUpSticky => {
                let n = self.sticky_whole();
                self.scroll = ScrollAction::Up(n);
            },
            UserCommand::HalfPageDown => {
                let n = self.sticky_half();
                self.scroll = ScrollAction::Down(n);
            },
            UserCommand::HalfPageUp => {
                let n = self.sticky_half();
                self.scroll = ScrollAction::Up(n);
            },
            UserCommand::ScrollToTop => {
                self.scroll = ScrollAction::StartOfFile(0);
            },
            UserCommand::ScrollToBottom => {
                self.scroll = ScrollAction::EndOfFile(0);
            },
            UserCommand::SeekStartLine => {
                // The whole part of the argument.
                self.scroll = ScrollAction::StartOfFile(self.arg_num);
            },
            UserCommand::SeekEndLine => {
                self.scroll = ScrollAction::EndOfFile(self.arg_num);
            },
            UserCommand::RefreshDisplay => {
                self.scroll = ScrollAction::Repaint;
            },
            UserCommand::GotoPercent => {
                self.scroll = ScrollAction::GotoPercent(self.arg_num, self.arg_fraq, self.arg_denom);
            },
            UserCommand::GotoOffset => {
                self.scroll = ScrollAction::GotoOffset(self.arg_num);
            },
            UserCommand::TerminalResize => {
                resize = true;
            },
            UserCommand::MouseScrollUp => {
                self.scroll = ScrollAction::Up(self.mouse_wheel_height as usize);
            },
            UserCommand::MouseScrollDown => {
                self.scroll = ScrollAction::Down(self.mouse_wheel_height as usize);
            },
            UserCommand::SearchNext => {
                self.scroll = ScrollAction::SearchForward;
            },
            UserCommand::SearchPrev => {
                self.scroll = ScrollAction::SearchBackward;
            },
            _ => {},
        }
        // Clear the argument once a move has used it.
        let moved = match cmd {
            UserCommand::ScrollDown | UserCommand::ScrollUp | UserCommand::PageDown | UserCommand::PageUp
            | UserCommand::PageDownSticky | UserCommand::PageUpSticky | UserCommand::HalfPageDown
            | UserCommand::HalfPageUp | UserCommand::ScrollToTop | UserCommand::ScrollToBottom
            | UserCommand::SeekStartLine | UserCommand::SeekEndLine | UserCommand::RefreshDisplay
            | UserCommand::GotoPercent | UserCommand::GotoOffset | UserCommand::MouseScrollUp
            | UserCommand::MouseScrollDown | UserCommand::SearchNext | UserCommand::SearchPrev => true,
            _ => false,
        };
        if moved {
            self.arg_num = 0;
            self.arg_denom = 0;
            self.arg_fraq = 0;
        }
        resize
    }

    /// The offset `percent` percent of the way into a document of `len` bytes, rounded down.
    pub open spec fn percent_offset(len: usize, whole: usize, fraq: usize, denom: usize) -> int {
        if denom == 0 {
            (len * whole) / 100
        } else {
            (len * (whole * denom + fraq)) / (100 * denom)
        }
    }

    /// `v`, or the largest `usize` when `v` does not fit in one.
    pub open spec fn saturated(v: int) -> usize {
        if v > usize::MAX {
            usize::MAX
        } else {
            v as usize
        }
    }

    /// The offset `percent_offset` gives, or the largest `usize` where it is larger: the
    /// offset `whole + fraq / denom` percent of the way into `len` bytes, computed without
    /// overflow.
    fn percent_of(len: usize, whole: usize, fraq: usize, denom: usize) -> (r: usize)
        ensures
            r == Self::saturated(Self::percent_offset(len, whole, fraq, denom)),
    {
        let big: u128 = 0xffff_ffff_ffff_ffff;
        let umax = usize::MAX as u128;
        let l = len as u128;
        let w = whole as u128;
        assert(l * w <= big * big) by (nonlinear_arith)
            requires
                l <= big,
                w <= big,
        ;
        if denom == 0 {
            let v = l * w / 100;
            if v > umax {
                return usize::MAX;
            }
            return v as usize;
        }
        let d = denom as u128;
        let f = fraq as u128;
        assert(w * d <= big * big) by (nonlinear_arith)
            requires
                w <= big,
                d <= big,
        ;
        let x = w * d + f;
        let dd = 100 * d;
        let q = x / dd;
        let r = x % dd;
        let rh = r / d;
        let rl = r % d;
        proof {
            lemma_fundamental_div_mod(x as int, dd as int);
            lemma_fundamental_div_mod(r as int, d as int);
            lemma_mod_pos_bound(x as int, dd as int);
            lemma_mod_pos_bound(r as int, d as int);
            assert(rh < 100) by (nonlinear_arith)
                requires
                    r == d * rh + rl,
                    0 <= rl,
                    r < 100 * d,
                    d > 0,
                    rh >= 0,
            ;
        }
        assert(l * rl <= big * big) by (nonlinear_arith)
            requires
                l <= big,
                rl <= big,
        ;
        assert(l * rh <= big * 100) by (nonlinear_arith)
            requires
                l <= big,
                rh < 100,
        ;
        let lrl = l * rl;
        let e = lrl / d;
        let g = lrl % d;
        proof {
            lemma_fundamental_div_mod(lrl as int, d as int);
            lemma_mod_pos_bound(lrl as int, d as int);
            assert(e <= l) by (nonlinear_arith)
                requires
                    lrl == l * rl,
                    lrl == d * e + g,
                    0 <= g,
                    rl < d,
                    d > 0,
                    e >= 0,
            ;
        }
        let m = l * rh + e;
        let pp = m / 100;
        let s = m % 100;
        proof {
            lemma_fundamental_div_mod(m as int, 100);
            lemma_mod_pos_bound(m as int, 100);
            lemma_percent_split(
                len as int, x as int, d as int, q as int, r as int, rh as int, rl as int, e as int, g as int,
                pp as int, s as int,
            );
            assert(Self::percent_offset(len, whole, fraq, denom) == l * q + pp);
        }
        match l.checked_mul(q) {
            None => {
                proof {
                    assert(l * q + pp > usize::MAX);
                }
                usize::MAX
            },
            Some(lq) => {
                if lq > umax || pp > umax - lq {
                    usize::MAX
                } else {
                    (lq + pp) as usize
                }
            },
        }
    }

    /// The plan for the next repaint of a document of `doc_len` bytes.
    pub open spec fn plan_spec(&self, doc_len: usize) -> Scroll {
        let view_height = self.spec_page_size();
        let disp = DisplayState { height: view_height, width: self.width };
        let shown = self.displayed_lines@;
        if shown.len() == 0 {
            Scroll::Repaint(ScrollVector { offset: 0, lines: view_height })
        } else if disp != self.prev {
            Scroll::Repaint(ScrollVector { offset: shown[0], lines: view_height })
        } else {
            match self.scroll {
                ScrollAction::GotoOffset(offset) => Scroll::GotoTop(ScrollVector { offset, lines: view_height }),
                ScrollAction::GotoPercent(w, f, d) => Scroll::GotoTop(ScrollVector {
                    offset: Self::saturated(Self::percent_offset(doc_len, w, f, d)),
                    lines: view_height,
                }),
                ScrollAction::Repaint => Scroll::Repaint(ScrollVector { offset: shown[0], lines: view_height }),
                ScrollAction::StartOfFile(line) => Scroll::GotoTop(ScrollVector {
                    offset: 0,
                    lines: (view_height + (if line > 0 { line - 1 } else { 0 })) as usize,
                }),
                ScrollAction::EndOfFile(line) => Scroll::GotoBottom(ScrollVector {
                    offset: usize::MAX,
                    lines: (view_height + (if line > 0 { line - 1 } else { 0 })) as usize,
                }),
                ScrollAction::Up(len) => Scroll::Up(ScrollVector { offset: shown[0], lines: len }),
                ScrollAction::Down(len) => Scroll::Down(ScrollVector { offset: shown.last(), lines: len }),
                ScrollAction::SearchBackward => Scroll::Up(ScrollVector { offset: shown[0], lines: view_height }),
                ScrollAction::SearchForward => Scroll::Down(ScrollVector { offset: shown.last(), lines: view_height }),
                ScrollAction::Idle => Scroll::Idle,
            }
        }
    }

    /// A repaint plan moves the way the pending scroll asks, once something is on screen and
    /// the screen keeps its size: scrolling up plans lines before the first one shown,
    /// scrolling down lines after the last one shown, each by the amount asked; a search
    /// backwards plans a page up and forwards a page down; the start of the file plans from
    /// offset 0 and the end of the file back from the end; a jump to an offset starts there.
    pub proof fn lemma_plan_directions(d: Display, doc_len: usize)
        requires
            d.displayed_lines@.len() > 0,
            d.prev == (DisplayState { height: d.spec_page_size(), width: d.width }),
        ensures
            d.scroll matches ScrollAction::Up(n) ==> d.plan_spec(doc_len) == Scroll::Up(
                ScrollVector { offset: d.displayed_lines@[0], lines: n },
            ),
            d.scroll matches ScrollAction::Down(n) ==> d.plan_spec(doc_len) == Scroll::Down(
                ScrollVector { offset: d.displayed_lines@.last(), lines: n },
            ),
            d.scroll is SearchBackward ==> d.plan_spec(doc_len) == Scroll::Up(
                ScrollVector { offset: d.displayed_lines@[0], lines: d.spec_page_size() },
            ),
            d.scroll is SearchForward ==> d.plan_spec(doc_len) == Scroll::Down(
                ScrollVector { offset: d.displayed_lines@.last(), lines: d.spec_page_size() },
            ),
            d.scroll is StartOfFile ==> (d.plan_spec(doc_len) matches Scroll::GotoTop(sv) && sv.offset == 0),
            d.scroll is EndOfFile ==> (d.plan_spec(doc_len) matches Scroll::GotoBottom(sv) && sv.offset == usize::MAX),
            d.scroll matches ScrollAction::GotoOffset(o) ==> (d.plan_spec(doc_len) matches Scroll::GotoTop(sv)
                && sv.offset == o),
            d.scroll is Idle ==> d.plan_spec(doc_len) == Scroll::Idle,
    {
    }

    /// The next repaint's plan can be computed without overflow.
    pub open spec fn plan_ok(&self, doc_len: usize) -> bool {
        match self.scroll {
            ScrollAction::StartOfFile(line) | ScrollAction::EndOfFile(line) => self.spec_page_size() + line <= usize::MAX + 1,
            _ => true,
        }
    }

    /// Decide what the next repaint must show for a document of `doc_len` bytes, and take
    /// the pending command as done. When a change is due, the current size is recorded.
    pub fn refresh_screen(&mut self, doc_len: usize) -> (r: Scroll)
        requires
            old(self).plan_ok(doc_len),
        ensures
            r == old(self).plan_spec(doc_len),
            final(self).scroll == ScrollAction::Idle,
            !(r is Idle) ==> final(self).prev == (DisplayState { height: old(self).spec_page_size(), width: old(self).width }),
            r is Idle ==> final(self).prev == old(self).prev,
            final(self).displayed_lines == old(self).displayed_lines,
            final(self).height == old(self).height,
            final(self).width == old(self).width,
            final(self).panel == old(self).panel,
            final(self).arg_num == old(self).arg_num,
            final(self).arg_fraq == old(self).arg_fraq,
            final(self).arg_denom == old(self).arg_denom,
    {
        let view_height = self.page_size();
        let disp = DisplayState { height: view_height, width: self.width };
        let n = self.displayed_lines.len();
        let plan = if n == 0 {
            // Blank slate: start of file.
            Scroll::repaint(0, view_height)
        } else if disp.height != self.prev.height || disp.width != self.prev.width {
            // New screen size: repaint everything.
            Scroll::repaint(self.displayed_lines[0], view_height)
        } else {
            match self.scroll {
                ScrollAction::GotoOffset(offset) => Scroll::goto_top(offset, view_height),
                ScrollAction::GotoPercent(w, f, d) => Scroll::goto_top(Self::percent_of(doc_len, w, f, d), view_height),
                ScrollAction::Repaint => Scroll::repaint(self.displayed_lines[0], view_height),
                ScrollAction::StartOfFile(line) => Scroll::goto_top(0, view_height + line.saturating_sub(1)),
                ScrollAction::EndOfFile(line) => Scroll::goto_bottom(usize::MAX, view_height + line.saturating_sub(1)),
                ScrollAction::Up(len) => Scroll::up(self.displayed_lines[0], len),
                ScrollAction::Down(len) => Scroll::down(self.displayed_lines[n - 1], len),
                ScrollAction::SearchBackward => Scroll::up(self.displayed_lines[0], view_height),
                ScrollAction::SearchForward => Scroll::down(self.displayed_lines[n - 1], view_height),
                ScrollAction::Idle => Scroll::none(),
            }
        };
        self.scroll = ScrollAction::Idle;
        if !plan.is_none() {
            self.prev = disp;
        }
        plan
    }

    /// Take in the offsets of the lines read for `scroll` and update the offsets on screen.
    /// Returns the offsets to draw, the screen row where drawing starts, and how many more
    /// rows to fill with blank markers after them.
    pub fn feed_lines(&mut self, scroll: Scroll, fetched: Vec<usize>) -> (r: (Vec<usize>, usize, usize))
        requires
            !(scroll is Idle),
            scroll matches Scroll::Down(sv) ==> fetched@.len() <= sv.lines + 1,
        ensures
            ({
                let height = old(self).spec_page_size();
                let (kept, row, count) = r;
                match scroll {
                    Scroll::Up(sv) | Scroll::GotoBottom(sv) => {
                        let skip = if sv.lines > height { sv.lines - height } else { 0 };
                        let lines = if skip < fetched@.len() { fetched@.skip(skip as int).reverse() } else { Seq::empty() };
                        &&& kept@ == lines
                        &&& row == 0 && count == 0
                        &&& final(self).displayed_lines@ == (lines + old(self).displayed_lines@).take(
                            if lines.len() + old(self).displayed_lines@.len() < height { (lines.len() + old(self).displayed_lines@.len()) as int } else { height as int })
                    },
                    Scroll::Down(sv) => {
                        let skip = if sv.lines > height { sv.lines - height } else { 0 };
                        let lines = if fetched@.len() == 0 { fetched@ } else if skip + 1 < fetched@.len() {
                            fetched@.skip(skip + 1)
                        } else {
                            Seq::empty()
                        };
                        let shown = old(self).displayed_lines@;
                        &&& kept@ == lines
                        &&& row == height - lines.len()
                        &&& count == 0
                        &&& final(self).displayed_lines@ == (if shown.len() > lines.len() { shown.skip(lines.len() as int) } else { Seq::empty() }) + lines
                    },
                    Scroll::Repaint(sv) | Scroll::GotoTop(sv) => {
                        let skip = if sv.lines > height { sv.lines - height } else { 0 };
                        let lines = if skip < fetched@.len() { fetched@.skip(skip as int) } else { Seq::empty() };
                        &&& kept@ == lines
                        &&& row == 0 && count == height
                        &&& final(self).displayed_lines@ == lines
                    },
                    Scroll::Idle => true,
                }
            }),
    {
        let height = self.page_size();
        let n = fetched.len();
        match scroll {
            Scroll::Up(sv) | Scroll::GotoBottom(sv) => {
                // Scroll backwards: the lines come last first.
                let skip = if sv.lines > height { sv.lines - height } else { 0 };
                let mut lines: Vec<usize> = Vec::new();
                let mut i = n;
                let start = if skip < n { skip } else { n };
                while i > start
                    invariant
                        start <= i <= n,
                        n == fetched@.len(),
                        lines@ == fetched@.subrange(i as int, n as int).reverse(),
                    decreases i,
                {
                    i = i - 1;
                    lines.push(fetched[i]);
                    proof {
                        assert(fetched@.subrange(i as int, n as int).reverse() =~= fetched@.subrange(i + 1, n as int).reverse().push(fetched@[i as int]));
                    }
                }
                proof {
                    if skip < n {
                        assert(fetched@.subrange(skip as int, n as int) =~= fetched@.skip(skip as int));
                    } else {
                        assert(lines@ =~= Seq::<usize>::empty());
                    }
                }
                let mut shown: Vec<usize> = Vec::new();
                let m0 = lines.len();
                let d0 = self.displayed_lines.len();
                let keep = if m0 >= height {
                    height
                } else if d0 >= height - m0 {
                    height
                } else {
                    m0 + d0
                };
                let ghost all = lines@ + self.displayed_lines@;
                let mut j: usize = 0;
                while j < keep
                    invariant
                        0 <= j <= keep <= all.len(),
                        all == lines@ + self.displayed_lines@,
                        shown@ == all.take(j as int),
                    decreases keep - j,
                {
                    let m = lines.len();
                    if j < m {
                        shown.push(lines[j]);
                    } else {
                        shown.push(self.displayed_lines[j - m]);
                    }
                    proof {
                        assert(shown@ =~= all.take(j + 1));
                    }
                    j = j + 1;
                }
                self.displayed_lines = shown;
                (lines, 0, 0)
            },
            Scroll::Down(sv) => {
                // Scroll forwards: the first line read is the one already at the bottom.
                let skip = if sv.lines > height { sv.lines - height } else { 0 };
                let mut lines: Vec<usize> = Vec::new();
                if n > 0 && skip < n - 1 {
                    let mut i = skip + 1;
                    while i < n
                        invariant
                            skip + 1 <= i <= n,
                            n == fetched@.len(),
                            lines@ == fetched@.subrange(skip + 1, i as int),
                        decreases n - i,
                    {
                        lines.push(fetched[i]);
                        i = i + 1;
                        proof {
                            assert(lines@ =~= fetched@.subrange(skip + 1, i as int));
                        }
                    }
                    proof {
                        assert(fetched@.subrange(skip + 1, n as int) =~= fetched@.skip(skip + 1));
                    }
                }
                let rows = lines.len();
                proof {
                    assert(rows <= height) by {
                        if n > 0 && skip < n - 1 {
                            assert(rows == n - skip - 1);
                        }
                    }
                }
                let old_len = self.displayed_lines.len();
                let mut shown: Vec<usize> = Vec::new();
                if old_len > rows {
                    let mut i = rows;
                    while i < old_len
                        invariant
                            rows <= i <= old_len,
                            old_len == self.displayed_lines@.len(),
                            shown@ == self.displayed_lines@.subrange(rows as int, i as int),
                        decreases old_len - i,
                    {
                        shown.push(self.displayed_lines[i]);
                        i = i + 1;
                        proof {
                            assert(shown@ =~= self.displayed_lines@.subrange(rows as int, i as int));
                        }
                    }
                    proof {
                        assert(self.displayed_lines@.subrange(rows as int, old_len as int) =~= self.displayed_lines@.skip(rows as int));
                    }
                }
                let ghost before = shown@;
                let mut i: usize = 0;
                while i < rows
                    invariant
                        0 <= i <= rows,
                        rows == lines@.len(),
                        shown@ == before + lines@.take(i as int),
                    decreases rows - i,
                {
                    shown.push(lines[i]);
                    i = i + 1;
                    proof {
                        assert(shown@ =~= before + lines@.take(i as int));
                    }
                }
                proof {
                    assert(lines@.take(rows as int) =~= lines@);
                }
                self.displayed_lines = shown;
                (lines, height - rows, 0)
            },
            Scroll::Repaint(sv) | Scroll::GotoTop(sv) => {
                // Repaint the whole screen without scrolling.
                let skip = if sv.lines > height { sv.lines - height } else { 0 };
                let mut lines: Vec<usize> = Vec::new();
                let start = if skip < n { skip } else { n };
                let mut i = start;
                while i < n
                    invariant
                        start <= i <= n,
                        n == fetched@.len(),
                        lines@ == fetched@.subrange(start as int, i as int),
                    decreases n - i,
                {
                    lines.push(fetched[i]);
                    i = i + 1;
                    proof {
                        assert(lines@ =~= fetched@.subrange(start as int, i as int));
                    }
                }
                proof {
                    if skip < n {
                        assert(fetched@.subrange(skip as int, n as int) =~= fetched@.skip(skip as int));
                    } else {
                        assert(lines@ =~= Seq::<usize>::empty());
                    }
                }
                self.displayed_lines = lines.clone();
                (lines, 0, height)
            },
            Scroll::Idle => unreached(),
        }
    }
}

} // verus!
