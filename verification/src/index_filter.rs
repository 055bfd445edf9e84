//! A filter over the lines of a log: which lines a search keeps, and an index that
//! accumulates the lines kept so far, so that the filter eventually indexes every line that
//! matches.

use vstd::prelude::*;
use vstd::string::StrSliceExecFns;
use std::ops::Range;
use crate::indexed_log::LogLine;
use crate::patterns::{matches_text, regex_is_match, regex_valid, Matcher};
use crate::sane_index::{overlap, splits_in_two, SaneIndex};
use crate::styled_line::{char_vec, string_of};
use crate::waypoint::Position;

verus! {

/// What a filter looks for in a line.
pub enum SearchType {
    /// Lines the expression matches.
    Regex(Matcher),
    /// Lines the expression does not match.
    Neg(Matcher),
    /// Lines that hold the text.
    Raw(String),
    /// Every line.
    NoSearch,
}

/// Why a search could not be made.
#[derive(Debug)]
pub enum SearchError {
    /// The pattern is not a regular expression the regex crate accepts.
    InvalidRegex(String),
}

/// `needle` occurs in `hay` at `i`.
pub open spec fn occurs_at(hay: Seq<char>, needle: Seq<char>, i: int) -> bool {
    0 <= i && i + needle.len() <= hay.len() && hay.subrange(i, i + needle.len()) == needle
}

/// `needle` occurs somewhere in `hay`.
pub open spec fn contains_spec(hay: Seq<char>, needle: Seq<char>) -> bool {
    exists|i: int| occurs_at(hay, needle, i)
}

/// The line without its final newline, if it has one.
pub open spec fn trimmed(line: Seq<char>) -> Seq<char> {
    if line.len() > 0 && line.last() == '\n' {
        line.drop_last()
    } else {
        line
    }
}

/// Whether `needle` occurs in `hay`.
pub fn contains_str(hay: &str, needle: &str) -> (r: bool)
    ensures
        r == contains_spec(hay@, needle@),
{
    let h = hay.unicode_len();
    let n = needle.unicode_len();
    if n > h {
        proof {
            assert forall|i: int| !occurs_at(hay@, needle@, i) by {}
        }
        return false;
    }
    let mut i: usize = 0;
    while i <= h - n
        invariant
            h == hay@.len(),
            n == needle@.len(),
            n <= h,
            0 <= i <= h - n + 1,
            forall|k: int| 0 <= k < i ==> !occurs_at(hay@, needle@, k),
        decreases h - n + 1 - i,
    {
        let mut j: usize = 0;
        while j < n && hay.get_char(i + j) == needle.get_char(j)
            invariant
                h == hay@.len(),
                n == needle@.len(),
                i + n <= h,
                0 <= j <= n,
                forall|x: int| 0 <= x < j ==> hay@[i + x] == needle@[x],
            decreases n - j,
        {
            j = j + 1;
        }
        if j == n {
            proof {
                assert(hay@.subrange(i as int, i + n) =~= needle@);
                assert(occurs_at(hay@, needle@, i as int));
            }
            return true;
        }
        proof {
            assert(hay@.subrange(i as int, i + n)[j as int] != needle@[j as int]);
        }
        i = i + 1;
    }
    proof {
        assert forall|k: int| !occurs_at(hay@, needle@, k) by {
            if occurs_at(hay@, needle@, k) {
                assert(k < i);
            }
        }
    }
    false
}

/// The line without its final newline, if it has one.
pub fn trim_newline(line: &str) -> (r: &str)
    ensures
        r@ == trimmed(line@),
{
    let n = line.unicode_len();
    if n > 0 && line.get_char(n - 1) == '\n' {
        line.substring_char(0, n - 1)
    } else {
        line
    }
}

/// Whether `typ` looks for the line `line`.
pub open spec fn search_matches(typ: SearchType, line: Seq<char>) -> bool {
    match typ {
        SearchType::Regex(m) => regex_is_match(m.pattern(), line),
        SearchType::Neg(m) => !regex_is_match(m.pattern(), line),
        SearchType::Raw(s) => contains_spec(line, s@),
        SearchType::NoSearch => true,
    }
}

/// Whether `line` is one that `typ` looks for.
pub fn is_match_type(line: &str, typ: &SearchType) -> (r: bool)
    ensures
        r == search_matches(*typ, line@),
{
    match typ {
        SearchType::Regex(re) => matches_text(re, line),
        SearchType::Neg(re) => !matches_text(re, line),
        SearchType::Raw(s) => contains_str(line, s.as_str()),
        SearchType::NoSearch => true,
    }
}

/// The characters of `s`, appended to `out`.
fn push_str(out: &mut Vec<char>, s: &str)
    ensures
        final(out)@ == old(out)@ + s@,
{
    let cs = char_vec(s);
    let mut k: usize = 0;
    while k < cs.len()
        invariant
            0 <= k <= cs@.len(),
            cs@ == s@,
            out@ == old(out)@ + s@.take(k as int),
        decreases cs@.len() - k,
    {
        out.push(cs[k]);
        k = k + 1;
        proof {
            assert(s@.take(k as int) =~= s@.take(k - 1) + seq![s@[k - 1]]);
        }
    }
    proof {
        assert(s@.take(cs@.len() as int) =~= s@);
    }
}

impl SearchType {
    /// The search a pattern asks for: none when it is empty, the lines an expression does
    /// not match when it starts with `!`, else the lines the expression matches.
    pub fn new(s: &str) -> (r: Result<SearchType, SearchError>)
        ensures
            s@.len() == 0 ==> r matches Ok(SearchType::NoSearch),
            s@.len() > 0 && s@[0] == '!' ==> {
                let p = s@.subrange(1, s@.len() as int);
                &&& r is Ok == regex_valid(p)
                &&& r is Ok ==> r->Ok_0 is Neg && r->Ok_0->Neg_0.pattern() == p
                &&& match r {
                    Err(SearchError::InvalidRegex(e)) => e@ == p,
                    _ => true,
                }
            },
            s@.len() > 0 && s@[0] != '!' ==> {
                &&& r is Ok == regex_valid(s@)
                &&& r is Ok ==> r->Ok_0 is Regex && r->Ok_0->Regex_0.pattern() == s@
                &&& match r {
                    Err(SearchError::InvalidRegex(e)) => e@ == s@,
                    _ => true,
                }
            },
    {
        let n = s.unicode_len();
        if n == 0 {
            Ok(SearchType::NoSearch)
        } else if s.get_char(0) == '!' {
            let stripped = s.substring_char(1, n);
            match Matcher::new(stripped) {
                Some(re) => Ok(SearchType::Neg(re)),
                None => Err(SearchError::InvalidRegex(stripped.to_owned())),
            }
        } else {
            match Matcher::new(s) {
                Some(re) => Ok(SearchType::Regex(re)),
                None => Err(SearchError::InvalidRegex(s.to_owned())),
            }
        }
    }

    /// How the search shows in messages: the pattern in quotes (after `!` for a negated
    /// one), `Raw(text)`, or `None`.
    pub fn describe(&self) -> (r: String)
        ensures
            *self matches SearchType::Regex(m) ==> r@ == "\""@ + m.pattern() + "\""@,
            *self matches SearchType::Neg(m) ==> r@ == "\"!"@ + m.pattern() + "\""@,
            *self matches SearchType::Raw(s) ==> r@ == "Raw("@ + s@ + ")"@,
            *self is NoSearch ==> r@ == "None"@,
    {
        let mut out: Vec<char> = Vec::new();
        match self {
            SearchType::Regex(re) => {
                push_str(&mut out, "\"");
                push_str(&mut out, re.as_str());
                push_str(&mut out, "\"");
            },
            SearchType::Neg(re) => {
                push_str(&mut out, "\"!");
                push_str(&mut out, re.as_str());
                push_str(&mut out, "\"");
            },
            SearchType::Raw(s) => {
                push_str(&mut out, "Raw(");
                push_str(&mut out, s.as_str());
                push_str(&mut out, ")");
            },
            SearchType::NoSearch => {
                push_str(&mut out, "None");
            },
        }
        string_of(&out)
    }
}

pub struct IndexFilter {
    pub f: SearchType,
    /// Keep the lines the search finds (true), or the others (false).
    pub keep_matches: bool,
    /// The lines kept so far.
    pub index: SaneIndex,
}

impl Default for IndexFilter {
    fn default() -> (r: Self)
        ensures
            r.f is NoSearch,
            r.keep_matches,
            r.index.wf(),
            r.index@ == seq![crate::waypoint::Waypoint::Unmapped(0..usize::MAX)],
    {
        Self::new(SearchType::NoSearch, 0, true)
    }
}

impl IndexFilter {
    /// The filter keeps a line with text `text`: its search finds the text without its final
    /// newline, or, for a filter that leaves out what it finds, does not.
    pub open spec fn keeps(&self, text: Seq<char>) -> bool {
        search_matches(self.f, trimmed(text)) == self.keep_matches
    }

    /// A filter for `f` over a log of `bytes_total` bytes, with nothing indexed yet; its
    /// index is named for the search.
    pub fn new(f: SearchType, bytes_total: usize, keep_matches: bool) -> (r: Self)
        ensures
            r.f == f,
            r.keep_matches == keep_matches,
            r.index.wf(),
            r.index@ == seq![crate::waypoint::Waypoint::Unmapped(0..usize::MAX)],
    {
        let name = f.describe();
        IndexFilter { f, keep_matches, index: SaneIndex::named(name, bytes_total) }
    }

    /// Forget the lines kept so far.
    pub fn reset(&mut self)
        ensures
            final(self).index.wf(),
            final(self).index@ == seq![crate::waypoint::Waypoint::Unmapped(0..usize::MAX)],
            final(self).keep_matches == old(self).keep_matches,
    {
        self.index.reset();
    }

    /// Whether the filter keeps `line`.
    pub fn is_match(&self, line: &str) -> (r: bool)
        ensures
            r == (search_matches(self.f, line@) == self.keep_matches),
    {
        is_match_type(line, &self.f) ^ !self.keep_matches
    }

    /// Whether the filter keeps a line with text `text`, its final newline left out.
    pub fn eval_text(&self, text: &str) -> (r: bool)
        ensures
            r == self.keeps(text@),
    {
        self.is_match(trim_newline(text))
    }

    /// Whether the filter keeps the log line `line`, its final newline left out.
    pub fn eval(&mut self, line: &LogLine) -> (r: bool)
        ensures
            *final(self) == *old(self),
            r == old(self).keeps(line.line@),
    {
        self.is_match(trim_newline(line.line.as_str()))
    }

    /// Index the line `range` found in the gap at `pos`. Returns the line's position.
    pub fn insert(&mut self, pos: &Position, range: &Range<usize>) -> (r: Position)
        requires
            old(self).index.wf(),
            *pos matches Position::Existing(_, _, w) && !w.spec_is_mapped(),
            old(self).index.fills(*pos, *range),
        ensures
            final(self).index.wf(),
            final(self).index@ == old(self).index.filled_view(*pos, *range),
            r == final(self).index.existing_at(
                old(self).index.resolved_at(*pos) + (if old(self).index.resolved(*pos).lo() < range.start {
                    1int
                } else {
                    0
                }),
                range.start,
            ),
    {
        self.index.insert_one(pos, range)
    }

    /// Mark `range` of the gap at `pos` as holding no line the filter keeps. Returns the
    /// position of what follows.
    pub fn erase(&mut self, pos: &Position, range: &Range<usize>) -> (r: Position)
        requires
            old(self).index.wf(),
            *pos matches Position::Existing(_, _, w) && !w.spec_is_mapped(),
            old(self).index.clears(*pos, *range),
        ensures
            final(self).index.wf(),
            final(self).index@ == old(self).index.cleared_view(*pos, *range),
            r == final(self).index.pos_at(old(self).index.resolved_at(*pos) + (if splits_in_two(
                old(self).index.resolved(*pos),
                overlap(old(self).index.resolved(*pos), *range),
            ) { 1int } else { 0 })),
    {
        self.index.erase_gap(pos, range)
    }

    /// Mark `range` of the gap at `pos` as holding no line the filter keeps. Returns the
    /// position of what precedes: what erasing gives, stepped back once when that lies past
    /// `pos`.
    pub fn erase_back(&mut self, pos: &Position, range: &Range<usize>) -> (r: Position)
        requires
            old(self).index.wf(),
            *pos matches Position::Existing(_, _, w) && !w.spec_is_mapped(),
            old(self).index.clears(*pos, *range),
        ensures
            final(self).index.wf(),
            final(self).index@ == old(self).index.cleared_view(*pos, *range),
            ({
                let e = final(self).index.pos_at(old(self).index.resolved_at(*pos) + (if splits_in_two(
                    old(self).index.resolved(*pos),
                    overlap(old(self).index.resolved(*pos), *range),
                ) { 1int } else { 0 }));
                r == if e.spec_least_offset() > pos.spec_least_offset() {
                    match e {
                        Position::Virtual(_) => final(self).index.resolve_back_spec(e),
                        Position::Existing(..) => final(self).index.advance_back_spec(
                            final(self).index.resolve_back_spec(e),
                        ),
                    }
                } else {
                    e
                }
            }),
    {
        let mut next = self.index.erase_gap(pos, range);
        if next.least_offset() > pos.least_offset() {
            next.next_back(&self.index);
        }
        next
    }

    /// Step to the next indexed line or gap.
    pub fn next(&self, find: &Position) -> (r: Position)
        requires
            self.index.wf(),
            self.index.can_resolve(*find),
        ensures
            r == (match *find {
                Position::Virtual(_) => self.index.resolve_spec(*find),
                Position::Existing(..) => self.index.advance_spec(self.index.resolve_spec(*find)),
            }),
    {
        let mut p = find.clone();
        p.next(&self.index);
        p
    }

    /// Step to the previous indexed line or gap.
    pub fn next_back(&self, find: &Position) -> (r: Position)
        requires
            self.index.wf(),
        ensures
            r == (match *find {
                Position::Virtual(_) => self.index.resolve_back_spec(*find),
                Position::Existing(..) => self.index.advance_back_spec(self.index.resolve_back_spec(*find)),
            }),
    {
        let mut p = find.clone();
        p.next_back(&self.index);
        p
    }

    /// The waypoint of the index that `pos` stands for.
    pub fn resolve(&self, pos: &Position) -> (r: Position)
        requires
            self.index.wf(),
            self.index.can_resolve(*pos),
        ensures
            r == self.index.resolve_spec(*pos),
    {
        let mut p = pos.clone();
        p.resolve(&self.index);
        p
    }

    /// The waypoint of the index that `pos` stands for, looking backwards.
    pub fn resolve_back(&self, pos: &Position) -> (r: Position)
        requires
            self.index.wf(),
        ensures
            r == self.index.resolve_back_spec(*pos),
    {
        let mut p = pos.clone();
        p.resolve_back(&self.index);
        p
    }
}

} // verus!
