//! Command-line configuration of the viewer.

use vstd::prelude::*;
use itertools::Itertools;
use crate::text::{str_eq, split_once_char, parse_u16, parse_u16_spec};

verus! {

/// One setting read from the command line.
pub enum ConfigItem {
    OpenFile(String),
    Chop(bool),
    AltScreen(bool),
    Color(bool),
    Visual(bool),
    MouseScroll(u16),
}

pub struct Config {
    pub filename: Vec<String>,
    pub chop: bool,
    pub altscreen: bool,
    pub color: bool,
    pub version: bool,
    pub mouse: bool,
    /// Number of lines to scroll with the mouse wheel.
    pub mouse_scroll: u16,
}

pub enum Error {
    FileNotFound(String),
    ExpectedInt(String),
    ExpectedArgumentFor(String),
    UnknownArgument(String),
}

/// The switches that the parser recognizes, by what they set.
pub open spec fn is_chop(s: Seq<char>) -> bool {
    s == "-S"@ || s == "--chop-long-lines"@
}

pub open spec fn is_altscreen(s: Seq<char>) -> bool {
    s == "-X"@ || s == "--no-alternate-screen"@
}

pub open spec fn is_color(s: Seq<char>) -> bool {
    s == "-C"@ || s == "--color"@
}

pub open spec fn is_mouse(s: Seq<char>) -> bool {
    s == "-M"@ || s == "--mouse"@
}

pub open spec fn is_help(s: Seq<char>) -> bool {
    s == "-H"@ || s == "--help"@
}

pub open spec fn is_version(s: Seq<char>) -> bool {
    s == "-V"@ || s == "--version"@
}

/// Whether `s` asks for help.
pub fn is_help_arg(s: &str) -> (r: bool)
    ensures
        r == is_help(s@),
{
    str_eq(s, "-H") || str_eq(s, "--help")
}

/// Whether `s` asks for the version.
pub fn is_version_arg(s: &str) -> (r: bool)
    ensures
        r == is_version(s@),
{
    str_eq(s, "-V") || str_eq(s, "--version")
}

pub open spec fn is_wheel(s: Seq<char>) -> bool {
    s == "-W"@ || s == "--wheel-lines"@
}

/// The text after the first `=` of `s`, if it has one.
pub open spec fn after_eq(s: Seq<char>) -> Option<Seq<char>> {
    if exists|i: int| 0 <= i < s.len() && s[i] == '=' {
        let i = choose|i: int| 0 <= i < s.len() && s[i] == '=' && forall|j: int| 0 <= j < i ==> s[j] != '=';
        Some(s.subrange(i + 1, s.len() as int))
    } else {
        None
    }
}

/// The argument a switch takes: the text after `=` in the item itself, or else the next word.
pub open spec fn value_of(item: Seq<char>, arg: Option<Seq<char>>) -> Option<Seq<char>> {
    match after_eq(item) {
        Some(v) => Some(v),
        None => arg,
    }
}

/// What the parser can set, as plain values: the files to open and each switch.
pub struct Settings {
    pub files: Seq<Seq<char>>,
    pub chop: bool,
    pub altscreen: bool,
    pub color: bool,
    pub version: bool,
    pub mouse: bool,
    pub mouse_scroll: u16,
}

/// Why reading an argument failed, as plain values.
pub enum Failure {
    ExpectedInt(Seq<char>),
    ExpectedArgumentFor(Seq<char>),
}

/// Reading the argument `item`, with `arg` the word after it: the settings it leaves and
/// whether it used up `arg`, or why it failed.
pub open spec fn item_step(s: Settings, item: Seq<char>, arg: Option<Seq<char>>) -> Result<(Settings, bool), Failure> {
    if is_chop(item) {
        Ok((Settings { chop: !s.chop, ..s }, false))
    } else if is_altscreen(item) {
        Ok((Settings { altscreen: !s.altscreen, ..s }, false))
    } else if is_color(item) {
        Ok((Settings { color: !s.color, ..s }, false))
    } else if is_mouse(item) {
        Ok((Settings { mouse: !s.mouse, ..s }, false))
    } else if is_wheel(item) {
        match value_of(item, arg) {
            None => Err(Failure::ExpectedArgumentFor(item)),
            Some(v) => match parse_u16_spec(v) {
                Some(n) => Ok((Settings { mouse_scroll: n, ..s }, after_eq(item) is None)),
                None => Err(Failure::ExpectedInt(v)),
            },
        }
    } else {
        Ok((Settings { files: s.files.push(item), ..s }, false))
    }
}

/// Reading the words `w` from word `k` on, each with the word after it, where `skip` tells
/// that word `k` was used up by the one before. The last word is only ever an argument.
pub open spec fn parse_from(s: Settings, w: Seq<Seq<char>>, k: int, skip: bool) -> Result<Settings, Failure>
    decreases w.len() - k,
{
    if k < 0 || k + 1 >= w.len() {
        Ok(s)
    } else if skip {
        parse_from(s, w, k + 1, false)
    } else {
        match item_step(s, w[k], Some(w[k + 1])) {
            Ok((t, used)) => parse_from(t, w, k + 1, used),
            Err(e) => Err(e),
        }
    }
}

/// The words the parser reads from a command line: the arguments after the program name,
/// then an empty word, so that the last argument has a word after it.
pub open spec fn words_of(args: Seq<String>) -> Seq<Seq<char>> {
    let rest = if args.len() > 0 { args.skip(1) } else { args };
    rest.map_values(|a: String| a@).push(Seq::empty())
}

/// The settings of a fresh configuration.
pub open spec fn fresh_settings() -> Settings {
    Settings {
        files: Seq::empty(),
        chop: false,
        altscreen: true,
        color: false,
        version: false,
        mouse: false,
        mouse_scroll: 5,
    }
}

/// Pairs of consecutive items: `(items[i], items[i + 1])`.
/// Calls `Itertools::tuple_windows` on the items, whose documentation says it yields every
/// window of two consecutive elements, in order.
#[verifier::external_body]
fn pairs(items: Vec<String>) -> (r: Vec<(String, String)>)
    ensures
        r@.len() == (if items@.len() > 0 { items@.len() - 1 } else { 0 }),
        forall|i: int| 0 <= i < r@.len() ==> #[trigger] r@[i].0@ == items@[i]@ && r@[i].1@ == items@[i + 1]@,
{
    items.into_iter().tuple_windows().collect()
}

impl Error {
    /// Why parsing failed, for the errors the parser gives.
    pub open spec fn failure(&self) -> Option<Failure> {
        match self {
            Error::ExpectedInt(w) => Some(Failure::ExpectedInt(w@)),
            Error::ExpectedArgumentFor(w) => Some(Failure::ExpectedArgumentFor(w@)),
            _ => None,
        }
    }
}

impl Config {
    /// The settings held, as plain values.
    pub open spec fn settings(&self) -> Settings {
        Settings {
            files: self.filename@.map_values(|p: String| p@),
            chop: self.chop,
            altscreen: self.altscreen,
            color: self.color,
            version: self.version,
            mouse: self.mouse,
            mouse_scroll: self.mouse_scroll,
        }
    }

    pub fn new() -> (r: Self)
        ensures
            r.filename@.len() == 0,
            !r.chop,
            r.altscreen,
            !r.color,
            !r.version,
            !r.mouse,
            r.mouse_scroll == 5,
    {
        Config {
            filename: Vec::new(),
            chop: false,
            altscreen: true,
            color: false,
            version: false,
            mouse: false,
            mouse_scroll: 5,
        }
    }

    /// Build the configuration from the command line `args` (the program name first).
    pub fn from_env(args: Vec<String>) -> (r: Result<Config, Error>)
        requires
            forall|i: int| 0 <= i < args@.len() ==> !is_help(#[trigger] args@[i]@) && !is_version(args@[i]@),
        ensures
            match parse_from(fresh_settings(), words_of(args@), 0, false) {
                Ok(t) => r matches Ok(c) && c.settings() == t,
                Err(f) => r matches Err(e) && e.failure() == Some(f),
            },
    {
        let mut cfg = Config::new();
        proof {
            assert(cfg.settings().files =~= Seq::<Seq<char>>::empty());
            assert(cfg.settings() == fresh_settings());
        }
        match cfg.parse_args(args) {
            Ok(()) => Ok(cfg),
            Err(e) => Err(e),
        }
    }

    /// Accumulate one setting into the configuration.
    pub fn receive_item(&mut self, item: ConfigItem)
        ensures
            match item {
                ConfigItem::OpenFile(path) => final(self).filename@ == old(self).filename@.push(path)
                    && final(self).chop == old(self).chop && final(self).altscreen == old(self).altscreen
                    && final(self).color == old(self).color && final(self).mouse == old(self).mouse
                    && final(self).mouse_scroll == old(self).mouse_scroll,
                ConfigItem::Chop(v) => *final(self) == (Config { chop: v, ..*old(self) }),
                ConfigItem::AltScreen(v) => *final(self) == (Config { altscreen: v, ..*old(self) }),
                ConfigItem::Color(v) => *final(self) == (Config { color: v, ..*old(self) }),
                ConfigItem::Visual(v) => *final(self) == (Config { mouse: v, ..*old(self) }),
                ConfigItem::MouseScroll(v) => *final(self) == (Config { mouse_scroll: v, ..*old(self) }),
            },
            final(self).version == old(self).version,
    {
        match item {
            ConfigItem::OpenFile(path) => self.filename.push(path),
            ConfigItem::Chop(chop) => self.chop = chop,
            ConfigItem::AltScreen(altscreen) => self.altscreen = altscreen,
            ConfigItem::Color(color) => self.color = color,
            ConfigItem::Visual(visual) => self.mouse = visual,
            ConfigItem::MouseScroll(scroll) => self.mouse_scroll = scroll,
        }
    }

    /// Parse an argument and, optionally, the word after it into a ConfigItem. Returns the
    /// item and whether the next word was used up. Unrecognized words are files to open.
    pub fn parse_item(&mut self, item: &str, arg: Option<&str>) -> (r: Result<(ConfigItem, bool), Error>)
        requires
            !is_help(item@),
            !is_version(item@),
        ensures
            *final(self) == *old(self),
            is_chop(item@) ==> (r matches Ok((ConfigItem::Chop(v), false)) && v == !old(self).chop),
            is_altscreen(item@) ==> (r matches Ok((ConfigItem::AltScreen(v), false)) && v == !old(self).altscreen),
            is_color(item@) ==> (r matches Ok((ConfigItem::Color(v), false)) && v == !old(self).color),
            is_mouse(item@) ==> (r matches Ok((ConfigItem::Visual(v), false)) && v == !old(self).mouse),
            is_wheel(item@) ==> {
                let a = match arg { Some(a) => Some(a@), None => None };
                match value_of(item@, a) {
                    None => (r matches Err(Error::ExpectedArgumentFor(w)) && w@ == item@),
                    Some(v) => match parse_u16_spec(v) {
                        Some(n) => (r matches Ok((ConfigItem::MouseScroll(m), used)) && m == n
                            && used == (after_eq(item@) is None)),
                        None => (r matches Err(Error::ExpectedInt(w)) && w@ == v),
                    },
                }
            },
            !is_chop(item@) && !is_altscreen(item@) && !is_color(item@) && !is_mouse(item@)
                && !is_wheel(item@) ==> (r matches Ok((ConfigItem::OpenFile(p), false)) && p@ == item@),
    {
        let (arg, used) = match split_once_char(item, '=') {
            Some((_, value)) => (Some(value), false),
            None => (arg, true),
        };
        proof {
            if after_eq(item@) is Some {
                let i = choose|i: int| 0 <= i < item@.len() && item@[i] == '=' && forall|j: int| 0 <= j < i ==> item@[j] != '=';
                assert(exists|i: int| 0 <= i < item@.len() && item@[i] == '=');
            }
            reveal_strlit("-S");
            reveal_strlit("--chop-long-lines");
            reveal_strlit("-X");
            reveal_strlit("--no-alternate-screen");
            reveal_strlit("-C");
            reveal_strlit("--color");
            reveal_strlit("-M");
            reveal_strlit("--mouse");
            reveal_strlit("-W");
            reveal_strlit("--wheel-lines");
            assert("-S"@.len() == 2 && "-S"@[1] == 'S');
            assert("-X"@.len() == 2 && "-X"@[1] == 'X');
            assert("-C"@.len() == 2 && "-C"@[1] == 'C');
            assert("-M"@.len() == 2 && "-M"@[1] == 'M');
            assert("-W"@.len() == 2 && "-W"@[1] == 'W');
            assert("--chop-long-lines"@.len() == 17);
            assert("--no-alternate-screen"@.len() == 21);
            assert("--color"@.len() == 7 && "--color"@[2] == 'c');
            assert("--mouse"@.len() == 7 && "--mouse"@[2] == 'm');
            assert("--wheel-lines"@.len() == 13);
        }
        let cfg = if str_eq(item, "-S") || str_eq(item, "--chop-long-lines") {
            ConfigItem::Chop(!self.chop)
        } else if str_eq(item, "-X") || str_eq(item, "--no-alternate-screen") {
            ConfigItem::AltScreen(!self.altscreen)
        } else if str_eq(item, "-C") || str_eq(item, "--color") {
            ConfigItem::Color(!self.color)
        } else if str_eq(item, "-M") || str_eq(item, "--mouse") {
            ConfigItem::Visual(!self.mouse)
        } else if str_eq(item, "-W") || str_eq(item, "--wheel-lines") {
            match arg {
                Some(arg) => match parse_u16(arg) {
                    Some(num) => {
                        return Ok((ConfigItem::MouseScroll(num), used));
                    },
                    None => {
                        return Err(Error::ExpectedInt(arg.to_owned()));
                    },
                },
                None => {
                    return Err(Error::ExpectedArgumentFor(item.to_owned()));
                },
            }
        } else {
            ConfigItem::OpenFile(item.to_owned())
        };
        Ok((cfg, false))
    }

    /// Read every argument after the program name, each with the word that follows it.
    /// Stops at the first argument that cannot be parsed and returns its error.
    pub fn parse_args(&mut self, args: Vec<String>) -> (r: Result<(), Error>)
        requires
            forall|i: int| 0 <= i < args@.len() ==> !is_help(#[trigger] args@[i]@) && !is_version(args@[i]@),
        ensures
            match parse_from(old(self).settings(), words_of(args@), 0, false) {
                Ok(t) => r is Ok && final(self).settings() == t,
                Err(f) => r matches Err(e) && e.failure() == Some(f),
            },
    {
        let mut words: Vec<String> = Vec::new();
        let n = args.len();
        let mut i: usize = 1;
        while i < n
            invariant
                1 <= i,
                n == 0 ==> i == 1,
                n > 0 ==> i <= n,
                n == args@.len(),
                words@.len() == i - 1,
                forall|j: int| 0 <= j < args@.len() ==> !is_help(#[trigger] args@[j]@) && !is_version(args@[j]@),
                forall|j: int| 0 <= j < words@.len() ==> #[trigger] words@[j]@ == args@[j + 1]@,
            decreases n - i,
        {
            words.push(args[i].clone());
            i = i + 1;
        }
        let ghost before = words@;
        words.push(String::new());
        let ghost all = words@;
        let windows = pairs(words);
        proof {
            assert(windows@.len() == before.len());
            assert(n == 0 || before.len() + 1 == n);
            assert(n == args@.len());
            assert forall|j: int| 0 <= j < windows@.len() implies !is_help(#[trigger] windows@[j].0@)
                && !is_version(windows@[j].0@) by {
                assert(j + 1 < args@.len());
                assert(windows@[j].0@ == all[j]@);
                assert(all[j] == before[j]);
                assert(before[j]@ == args@[j + 1]@);
                assert(!is_help(args@[j + 1]@));
            }
        }
        let m = windows.len();
        let ghost w = words_of(args@);
        proof {
            assert(w.len() == m + 1);
            assert forall|j: int| 0 <= j < m implies #[trigger] windows@[j].0@ == w[j] && windows@[j].1@ == w[j + 1] by {
                if j + 1 < before.len() {
                    assert(all[j + 1] == before[j + 1]);
                }
            }
        }
        let mut skip = false;
        let mut k: usize = 0;
        while k < m
            invariant
                m == windows@.len(),
                0 <= k <= m,
                w.len() == m + 1,
                w == words_of(args@),
                forall|j: int| 0 <= j < m ==> !is_help(#[trigger] windows@[j].0@) && !is_version(windows@[j].0@),
                forall|j: int| 0 <= j < m ==> #[trigger] windows@[j].0@ == w[j] && windows@[j].1@ == w[j + 1],
                parse_from(old(self).settings(), w, 0, false) == parse_from(self.settings(), w, k as int, skip),
            decreases m - k,
        {
            let ghost s0 = self.settings();
            if skip {
                skip = false;
            } else {
                let item = windows[k].0.as_str();
                let arg = windows[k].1.as_str();
                match self.parse_item(item, Some(arg)) {
                    Ok((item, consumed)) => {
                        let ghost gi = item;
                        self.receive_item(item);
                        proof {
                            if let ConfigItem::OpenFile(p) = gi {
                                assert(self.settings().files =~= s0.files.push(p@));
                            }
                            assert(item_step(s0, w[k as int], Some(w[k + 1])) == Ok::<(Settings, bool), Failure>((self.settings(), consumed)));
                        }
                        skip = consumed;
                    },
                    Err(e) => {
                        return Err(e);
                    },
                }
            }
            k = k + 1;
        }
        Ok(())
    }
}

} // verus!
