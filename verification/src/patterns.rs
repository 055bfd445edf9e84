//! Regular expressions, through the `regex` crate: compiling a pattern, and what a compiled
//! expression finds in a text.

use vstd::prelude::*;
use std::ops::Range;
use crate::styled_line::byte_slice_spec;

verus! {

#[verifier::external_type_specification]
#[verifier::external_body]
pub struct ExRegex(regex::Regex);

/// Whether `pattern` is a regular expression that the `regex` crate accepts.
pub uninterp spec fn regex_valid(pattern: Seq<char>) -> bool;

/// Compile `pattern` with `regex::Regex::new`, dropping the error. Whether it compiles
/// depends on the pattern alone; which patterns those are is left to the crate.
#[verifier::external_body]
pub(crate) fn compile(pattern: &str) -> (r: Option<regex::Regex>)
    ensures
        r is Some == regex_valid(pattern@),
{
    regex::Regex::new(pattern).ok()
}

/// Whether the expression compiled from `pattern` matches somewhere in `text`.
pub uninterp spec fn regex_is_match(pattern: Seq<char>, text: Seq<char>) -> bool;

/// The matches of the expression compiled from `pattern` in `text`, in order, each as the
/// byte ranges of its groups by number (`None` for a group that took no part).
pub uninterp spec fn regex_captures(pattern: Seq<char>, text: Seq<char>) -> Seq<Seq<Option<Range<usize>>>>;

/// The name of each group of the expression compiled from `pattern`, by group number.
pub uninterp spec fn regex_group_names(pattern: Seq<char>) -> Seq<Option<Seq<char>>>;

/// A compiled regular expression and the pattern it was compiled from. Only `Matcher::new`
/// makes one, so the expression is always the one the pattern compiles to.
pub struct Matcher {
    re: regex::Regex,
    pattern: String,
}

/// Group names as plain values.
pub open spec fn names_view(v: Seq<Option<String>>) -> Seq<Option<Seq<char>>> {
    v.map_values(|n: Option<String>| match n {
        Some(s) => Some(s@),
        None => None,
    })
}

/// Captures as plain values.
pub open spec fn captures_view(v: Seq<Vec<Option<Range<usize>>>>) -> Seq<Seq<Option<Range<usize>>>> {
    v.map_values(|c: Vec<Option<Range<usize>>>| c@)
}

impl Matcher {
    /// The pattern the expression was compiled from.
    pub closed spec fn pattern(&self) -> Seq<char> {
        self.pattern@
    }

    /// Compile `pattern`, if the regex crate accepts it.
    pub fn new(pattern: &str) -> (r: Option<Matcher>)
        ensures
            r is Some == regex_valid(pattern@),
            r matches Some(m) ==> m.pattern() == pattern@,
    {
        match compile(pattern) {
            Some(re) => Some(Matcher { re, pattern: pattern.to_owned() }),
            None => None,
        }
    }

    /// The pattern the expression was compiled from.
    pub fn as_str(&self) -> (r: &str)
        ensures
            r@ == self.pattern(),
    {
        self.pattern.as_str()
    }
}

/// Whether the expression of `m` matches somewhere in `text`. Calls
/// `regex::Regex::is_match`, whose result depends on the expression and the text alone; it is
/// named here, not written out.
#[verifier::external_body]
pub(crate) fn matches_text(m: &Matcher, text: &str) -> (r: bool)
    ensures
        r == regex_is_match(m.pattern(), text@),
{
    m.re.is_match(text)
}

/// The byte ranges of the groups of each match of the expression of `m` in `text`, in order,
/// each capture as its groups by number (`None` for a group that took no part). Calls
/// `regex::Regex::captures_iter`; the result depends on the expression and the text alone
/// and is named. Its documentation says that group 0 of every capture is the whole match,
/// and that its ranges always fall on character boundaries of `text`.
#[verifier::external_body]
pub(crate) fn captures_of(m: &Matcher, text: &str) -> (r: Vec<Vec<Option<Range<usize>>>>)
    ensures
        captures_view(r@) == regex_captures(m.pattern(), text@),
        forall|j: int| 0 <= j < r@.len() ==> (#[trigger] r@[j])@.len() > 0 && r@[j]@[0] is Some,
        forall|j: int, g: int|
            0 <= j < r@.len() && 0 <= g < r@[j]@.len() && (#[trigger] r@[j]@[g]) is Some
                ==> byte_slice_spec(text@, r@[j]@[g]->0.start, r@[j]@[g]->0.end) is Some,
{
    m.re.captures_iter(text).map(|c| c.iter().map(|g| g.map(|g| g.range())).collect()).collect()
}

/// The name of each group of the expression of `m`, by group number. Calls
/// `regex::Regex::capture_names`; the result depends on the pattern alone and is named. Its
/// documentation says that the first, the whole match, has no name. The crate refuses a
/// pattern that gives two groups one name.
#[verifier::external_body]
pub(crate) fn group_names(m: &Matcher) -> (r: Vec<Option<String>>)
    ensures
        names_view(r@) == regex_group_names(m.pattern()),
        r@.len() > 0,
        r@[0] is None,
{
    m.re.capture_names().map(|n| n.map(|s| s.to_string())).collect()
}

} // verus!
