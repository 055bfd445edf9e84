//! A rules engine for styling log lines: regular expressions whose matches, and whose named
//! groups, get a style.

use vstd::prelude::*;
use std::ops::Range;
use vstd::utf8::encode_utf8;
use crate::line_view_mode::LineViewMode;
use crate::text::str_eq;
use crate::patterns::{captures_of, captures_view, group_names, names_view, regex_captures, regex_group_names, Matcher};
use crate::styled_line::{
    byte_len, byte_slice, byte_slice_spec, fnv_hash, lemma_fresh_shown, pushed, sanitized, sanitized_phrases,
    Color, PattColor, Phrase, StyledLine,
};

verus! {

/// A regular expression and the style of its matches.
pub struct Style {
    pub matcher: Matcher,
    pub pattern: PattColor,
}

pub struct Stylist {
    pub mode: LineViewMode,
    /// The style of text that nothing matches.
    pub patt: PattColor,
    pub matchers: Vec<Style>,
    /// Styles of named groups, by name; a later entry for a name overrides an earlier one.
    pub named_styles: Vec<(String, PattColor)>,
}

/// The style given to the group `name`: that of the last entry for it.
pub open spec fn named_style(v: Seq<(String, PattColor)>, name: Seq<char>) -> Option<PattColor>
    decreases v.len(),
{
    if v.len() == 0 {
        None
    } else if v.last().0@ == name {
        Some(v.last().1)
    } else {
        named_style(v.drop_last(), name)
    }
}

/// The color a semantic style gives the text `t`.
pub open spec fn text_color(t: Seq<char>) -> Color {
    let h = fnv_hash(encode_utf8(t));
    Color::Rgb {
        r: ((h % 256) as u8) | 0x80,
        g: (((h / 256) % 256) as u8) | 0x80,
        b: (((h / 65536) % 256) as u8) | 0x80,
    }
}

/// The phrases after styling the bytes `r` of `line` with `p`.
pub open spec fn applied(v: Seq<Phrase>, line: Seq<char>, r: Range<usize>, p: PattColor) -> Seq<Phrase> {
    if p is NoPattern || r.start >= r.end {
        v
    } else {
        let t = byte_slice_spec(line, r.start, r.end)->0;
        pushed(v, r.start, r.end, if p is Semantic { PattColor::Number(text_color(t)) } else { p })
    }
}

/// Two ranges meet: one starts inside the other.
pub open spec fn meets(a: Range<usize>, b: Range<usize>) -> bool {
    (a.start <= b.start < a.end) || (b.start <= a.start < b.end)
}

/// Some range of `v` meets `r`.
pub open spec fn meets_any(v: Seq<Range<usize>>, r: Range<usize>) -> bool {
    exists|k: int| 0 <= k < v.len() && meets(#[trigger] v[k], r)
}

/// The styling so far: the phrases, and the ranges that named groups have styled.
pub type Styling = (Seq<Phrase>, Seq<Range<usize>>);

/// Group `g` of `cap` styles the line when it took part, has a name with a style, and meets
/// no range a named group styled before.
pub open spec fn group_step(
    st: Styling,
    line: Seq<char>,
    cap: Seq<Option<Range<usize>>>,
    names: Seq<Option<String>>,
    styles: Seq<(String, PattColor)>,
    g: int,
) -> Styling {
    if g < cap.len() && names[g] is Some && cap[g] is Some && named_style(styles, names[g]->0@) is Some
        && !meets_any(st.1, cap[g]->0) {
        let r = cap[g]->0;
        (applied(st.0, line, r, named_style(styles, names[g]->0@)->0), st.1.push(r))
    } else {
        st
    }
}

/// The named groups of `cap` from `g` on, in order.
pub open spec fn groups_fold(
    st: Styling,
    line: Seq<char>,
    cap: Seq<Option<Range<usize>>>,
    names: Seq<Option<String>>,
    styles: Seq<(String, PattColor)>,
    g: int,
) -> Styling
    decreases names.len() - g,
{
    if g < 0 || g >= names.len() {
        st
    } else {
        groups_fold(group_step(st, line, cap, names, styles, g), line, cap, names, styles, g + 1)
    }
}

/// The captures of one expression from `j` on: each styles its whole match with `pattern`,
/// then its named groups.
pub open spec fn captures_fold(
    st: Styling,
    line: Seq<char>,
    caps: Seq<Vec<Option<Range<usize>>>>,
    names: Seq<Option<String>>,
    styles: Seq<(String, PattColor)>,
    pattern: PattColor,
    j: int,
) -> Styling
    decreases caps.len() - j,
{
    if j < 0 || j >= caps.len() {
        st
    } else {
        let whole = (applied(st.0, line, caps[j]@[0]->0, pattern), st.1);
        captures_fold(groups_fold(whole, line, caps[j]@, names, styles, 0), line, caps, names, styles, pattern, j + 1)
    }
}

/// The expressions from `i` on, in order, with their captures `caps` and group names `names`.
pub open spec fn matchers_fold(
    st: Styling,
    line: Seq<char>,
    caps: Seq<Vec<Vec<Option<Range<usize>>>>>,
    names: Seq<Vec<Option<String>>>,
    patterns: Seq<PattColor>,
    styles: Seq<(String, PattColor)>,
    i: int,
) -> Styling
    decreases caps.len() - i,
{
    if i < 0 || i >= caps.len() {
        st
    } else {
        matchers_fold(
            captures_fold(st, line, caps[i]@, names[i]@, styles, patterns[i], 0),
            line,
            caps,
            names,
            patterns,
            styles,
            i + 1,
        )
    }
}

/// No two ranges of `v` meet.
pub open spec fn apart(v: Seq<Range<usize>>) -> bool {
    forall|a: int, b: int| 0 <= a < b < v.len() ==> !meets(#[trigger] v[a], #[trigger] v[b])
}

proof fn lemma_groups_apart(
    st: Styling,
    line: Seq<char>,
    cap: Seq<Option<Range<usize>>>,
    names: Seq<Option<String>>,
    styles: Seq<(String, PattColor)>,
    g: int,
)
    requires
        apart(st.1),
    ensures
        apart(groups_fold(st, line, cap, names, styles, g).1),
    decreases names.len() - g,
{
    if 0 <= g < names.len() {
        let next = group_step(st, line, cap, names, styles, g);
        if next.1 != st.1 {
            let r = cap[g]->0;
            assert forall|a: int, b: int| 0 <= a < b < next.1.len() implies !meets(#[trigger] next.1[a], #[trigger] next.1[b]) by {
                if b == st.1.len() {
                    assert(next.1[b] == r);
                    assert(next.1[a] == st.1[a]);
                    if meets(st.1[a], r) {
                        assert(meets_any(st.1, r));
                    }
                }
            }
        }
        lemma_groups_apart(next, line, cap, names, styles, g + 1);
    }
}

proof fn lemma_captures_apart(
    st: Styling,
    line: Seq<char>,
    caps: Seq<Vec<Option<Range<usize>>>>,
    names: Seq<Option<String>>,
    styles: Seq<(String, PattColor)>,
    pattern: PattColor,
    j: int,
)
    requires
        apart(st.1),
    ensures
        apart(captures_fold(st, line, caps, names, styles, pattern, j).1),
    decreases caps.len() - j,
{
    if 0 <= j < caps.len() {
        let whole = (applied(st.0, line, caps[j]@[0]->0, pattern), st.1);
        lemma_groups_apart(whole, line, caps[j]@, names, styles, 0);
        lemma_captures_apart(groups_fold(whole, line, caps[j]@, names, styles, 0), line, caps, names, styles, pattern, j + 1);
    }
}

/// Named groups never style text twice: of the ranges that named groups style, none meets
/// another, whatever the expressions found; the first to reach a stretch of text keeps it.
pub proof fn lemma_named_styles_apart(
    st: Styling,
    line: Seq<char>,
    caps: Seq<Vec<Vec<Option<Range<usize>>>>>,
    names: Seq<Vec<Option<String>>>,
    patterns: Seq<PattColor>,
    styles: Seq<(String, PattColor)>,
    i: int,
)
    requires
        apart(st.1),
    ensures
        apart(matchers_fold(st, line, caps, names, patterns, styles, i).1),
    decreases caps.len() - i,
{
    if 0 <= i < caps.len() {
        lemma_captures_apart(st, line, caps[i]@, names[i]@, styles, patterns[i], 0);
        lemma_named_styles_apart(
            captures_fold(st, line, caps[i]@, names[i]@, styles, patterns[i], 0),
            line, caps, names, patterns, styles, i + 1,
        );
    }
}

/// Every capture's whole match took part, and every range is a slice of `line`.
pub open spec fn captures_ok(caps: Seq<Vec<Vec<Option<Range<usize>>>>>, line: Seq<char>) -> bool {
    forall|i: int, j: int| 0 <= i < caps.len() && 0 <= j < caps[i]@.len() ==> {
        &&& (#[trigger] caps[i]@[j])@.len() > 0
        &&& caps[i]@[j]@[0] is Some
        &&& forall|g: int| 0 <= g < caps[i]@[j]@.len() && #[trigger] caps[i]@[j]@[g] is Some
            ==> byte_slice_spec(line, caps[i]@[j]@[g]->0.start, caps[i]@[j]@[g]->0.end) is Some
    }
}

/// Whether some range of `v` meets `r`.
fn meets_any_of(v: &Vec<Range<usize>>, r: &Range<usize>) -> (b: bool)
    ensures
        b == meets_any(v@, *r),
{
    let mut k: usize = 0;
    while k < v.len()
        invariant
            0 <= k <= v@.len(),
            forall|x: int| 0 <= x < k ==> !meets(#[trigger] v@[x], *r),
        decreases v@.len() - k,
    {
        let a = &v[k];
        if (a.start <= r.start && r.start < a.end) || (r.start <= a.start && a.start < r.end) {
            assert(meets(v@[k as int], *r));
            return true;
        }
        k = k + 1;
    }
    false
}

/// The style given to the group `name`, if any.
fn style_named(v: &Vec<(String, PattColor)>, name: &str) -> (r: Option<PattColor>)
    ensures
        r == named_style(v@, name@),
{
    let mut k: usize = v.len();
    proof {
        assert(v@.take(k as int) =~= v@);
    }
    while k > 0
        invariant
            0 <= k <= v@.len(),
            named_style(v@, name@) == named_style(v@.take(k as int), name@),
        decreases k,
    {
        let ghost w = v@.take(k as int);
        proof {
            assert(w.drop_last() =~= v@.take(k - 1));
        }
        if str_eq(v[k - 1].0.as_str(), name) {
            return Some(v[k - 1].1);
        }
        k = k - 1;
    }
    proof {
        assert(v@.take(0) =~= Seq::<(String, PattColor)>::empty());
    }
    None
}

/// `caps` and `names` are, for each expression of `ms` in turn, what it finds in `line` and
/// the names of its groups.
pub open spec fn found_by(
    ms: Seq<Style>,
    line: Seq<char>,
    caps: Seq<Vec<Vec<Option<Range<usize>>>>>,
    names: Seq<Vec<Option<String>>>,
) -> bool {
    &&& caps.len() == ms.len()
    &&& names.len() == ms.len()
    &&& forall|i: int| 0 <= i < ms.len() ==> captures_view(#[trigger] caps[i]@) == regex_captures(ms[i].matcher.pattern(), line)
    &&& forall|i: int| 0 <= i < ms.len() ==> names_view(#[trigger] names[i]@) == regex_group_names(ms[i].matcher.pattern())
}

impl Stylist {
    /// A stylist for `mode` that leaves unmatched text in `patt`, with the sample expressions.
    pub fn new(mode: LineViewMode, patt: PattColor) -> (r: Self)
        ensures
            r.mode == mode,
            r.patt == patt,
            named_style(r.named_styles@, "timestamp"@) == Some(PattColor::Timestamp),
            named_style(r.named_styles@, "pid"@) == Some(PattColor::Semantic),
            named_style(r.named_styles@, "module"@) == Some(PattColor::Semantic),
            named_style(r.named_styles@, "submodule"@) == Some(PattColor::Semantic),
            named_style(r.named_styles@, "number"@) == Some(PattColor::Semantic),
            forall|n: Seq<char>|
                n != "timestamp"@ && n != "pid"@ && n != "module"@ && n != "submodule"@ && n != "number"@
                    ==> #[trigger] named_style(r.named_styles@, n) is None,
    {
        let mut stylist = Self { mode, patt, matchers: Vec::new(), named_styles: Vec::new() };
        stylist.hack_sample_matchers();
        stylist
    }

    /// Add the sample expressions: the core log header, identifiers, numbers and `segio`, and
    /// styles for their named groups. An expression the regex crate refused would be left out.
    pub fn hack_sample_matchers(&mut self)
        ensures
            final(self).mode == old(self).mode,
            final(self).patt == old(self).patt,
            final(self).named_styles@.len() == old(self).named_styles@.len() + 5,
            named_style(final(self).named_styles@, "timestamp"@) == Some(PattColor::Timestamp),
            named_style(final(self).named_styles@, "pid"@) == Some(PattColor::Semantic),
            named_style(final(self).named_styles@, "module"@) == Some(PattColor::Semantic),
            named_style(final(self).named_styles@, "submodule"@) == Some(PattColor::Semantic),
            named_style(final(self).named_styles@, "number"@) == Some(PattColor::Semantic),
            forall|n: Seq<char>|
                n != "timestamp"@ && n != "pid"@ && n != "module"@ && n != "submodule"@ && n != "number"@
                    ==> #[trigger] named_style(final(self).named_styles@, n) == named_style(
                    old(self).named_styles@,
                    n,
                ),
    {
        proof {
            reveal_strlit("timestamp");
            reveal_strlit("pid");
            reveal_strlit("module");
            reveal_strlit("submodule");
            reveal_strlit("number");
        }
        let core_log = r"(?x)
            (?P<timestamp>   ^(...\ [\ 1-3]\d\ [0-2]\d:[0-5]\d:\d{2}\.\d{3})\ )    # date & time
            (?P<pid>          ([A-F0-9]{12})\ )                                    # PID
            (?P<crumb>        [A-Z]\ +)                                            # crumb
            (?P<module>       ([A-Za-z0-9_.]+)\ )                                  # module
            ";

        let ids = r"(?x)(?P<submodule>[a-z_.]+::[a-z_.]+ | [a-z_.]+[_.][a-z_.]+ | (?:\[([a-z0-9_.]+)\]))";

        let numbers = r"(?x)
                (?P<number>
                      \b0x[[:xdigit:]]+\b                       # 0xabcdef...
                    | \b[0-9A-F]{16}\b                          # ABCDEF1234567890  <-- 16 nibbles
                    | \b[[:xdigit:]]{8}(?:-[[:xdigit:]]{4}){3}-[[:xdigit:]]{12}\b # UUID style
                    | \b(?:[[:digit:]]+\.)*[[:digit:]]+         # integers, decimals, not part of any word, or with a suffix
                )
            ";

        if let Some(re) = Matcher::new(core_log) {
            self.add_match(re, PattColor::NoPattern);
        }
        let ghost s0 = self.named_styles@;
        self.add_style("timestamp", PattColor::Timestamp);
        let ghost s1 = self.named_styles@;
        self.add_style("pid", PattColor::Semantic);
        let ghost s2 = self.named_styles@;
        self.add_style("module", PattColor::Semantic);
        let ghost s3 = self.named_styles@;
        self.add_style("submodule", PattColor::Semantic);
        let ghost s4 = self.named_styles@;
        self.add_style("number", PattColor::Semantic);
        let ghost s5 = self.named_styles@;
        proof {
            assert("timestamp"@.len() == 9 && "pid"@.len() == 3 && "module"@.len() == 6);
            assert("submodule"@.len() == 9 && "number"@.len() == 6);
            assert("timestamp"@[0] != "submodule"@[0] && "module"@[0] != "number"@[0]);
            assert(named_style(s1, "timestamp"@) == Some(PattColor::Timestamp));
            assert(named_style(s2, "timestamp"@) == named_style(s1, "timestamp"@));
            assert(named_style(s3, "timestamp"@) == named_style(s2, "timestamp"@));
            assert(named_style(s4, "timestamp"@) == named_style(s3, "timestamp"@));
            assert(named_style(s5, "timestamp"@) == named_style(s4, "timestamp"@));
            assert(named_style(s3, "pid"@) == named_style(s2, "pid"@));
            assert(named_style(s4, "pid"@) == named_style(s3, "pid"@));
            assert(named_style(s5, "pid"@) == named_style(s4, "pid"@));
            assert(named_style(s4, "module"@) == named_style(s3, "module"@));
            assert(named_style(s5, "module"@) == named_style(s4, "module"@));
            assert(named_style(s5, "submodule"@) == named_style(s4, "submodule"@));
            assert forall|n: Seq<char>|
                n != "timestamp"@ && n != "pid"@ && n != "module"@ && n != "submodule"@ && n != "number"@
                    implies #[trigger] named_style(s5, n) == named_style(s0, n) by {
                assert(named_style(s5, n) == named_style(s4, n));
                assert(named_style(s4, n) == named_style(s3, n));
                assert(named_style(s3, n) == named_style(s2, n));
                assert(named_style(s2, n) == named_style(s1, n));
                assert(named_style(s1, n) == named_style(s0, n));
            }
        }

        if let Some(re) = Matcher::new(ids) {
            self.add_match(re, PattColor::NoPattern);
        }
        if let Some(re) = Matcher::new(numbers) {
            self.add_match(re, PattColor::NoPattern);
        }
        if let Some(re) = Matcher::new(r"(?P<segio>segio)") {
            self.add_match(re, PattColor::Inverse);
        }
    }

    /// Style every match of `regex` with `pattern`.
    pub fn add_match(&mut self, regex: Matcher, pattern: PattColor)
        ensures
            final(self).matchers@.len() == old(self).matchers@.len() + 1,
            final(self).matchers@.last().pattern == pattern,
            final(self).matchers@.last().matcher == regex,
            final(self).matchers@.drop_last() == old(self).matchers@,
            final(self).named_styles == old(self).named_styles,
            final(self).mode == old(self).mode,
            final(self).patt == old(self).patt,
    {
        self.matchers.push(Style { matcher: regex, pattern });
    }

    /// Style every group named `name` with `pattern`.
    pub fn add_style(&mut self, name: &str, pattern: PattColor)
        ensures
            forall|n: Seq<char>| #[trigger] named_style(final(self).named_styles@, n) == if n == name@ {
                Some(pattern)
            } else {
                named_style(old(self).named_styles@, n)
            },
            final(self).named_styles@.len() == old(self).named_styles@.len() + 1,
            final(self).matchers@ == old(self).matchers@,
            final(self).mode == old(self).mode,
            final(self).patt == old(self).patt,
    {
        let ghost before = self.named_styles@;
        self.named_styles.push((name.to_owned(), pattern));
        proof {
            assert(self.named_styles@.drop_last() =~= before);
        }
    }

    /// Style the captures found in `line`: for each expression in turn, each match gets its
    /// expression's style and then each of its named groups gets the style of its name, unless
    /// it meets a range that a named group styled before. `caps[i]` and `names[i]` are the
    /// captures and group names of the `i`th expression.
    pub fn apply_found(
        &self,
        styled: &mut StyledLine,
        line: &str,
        caps: &Vec<Vec<Vec<Option<Range<usize>>>>>,
        names: &Vec<Vec<Option<String>>>,
    )
        requires
            old(styled).wf(),
            caps@.len() == self.matchers@.len(),
            names@.len() == self.matchers@.len(),
            captures_ok(caps@, line@),
        ensures
            final(styled).wf(),
            final(styled).line == old(styled).line,
            final(styled).phrases@ == matchers_fold(
                (old(styled).phrases@, Seq::empty()),
                line@,
                caps@,
                names@,
                self.matchers@.map_values(|s: Style| s.pattern),
                self.named_styles@,
                0,
            ).0,
    {
        let ghost patterns = self.matchers@.map_values(|s: Style| s.pattern);
        let ghost styles = self.named_styles@;
        let ghost total = matchers_fold((styled.phrases@, Seq::empty()), line@, caps@, names@, patterns, styles, 0);
        let ghost line0 = styled.line;
        let mut named: Vec<Range<usize>> = Vec::new();
        let n = caps.len();
        let mut i: usize = 0;
        while i < n
            invariant
                n == caps@.len(),
                caps@.len() == self.matchers@.len(),
                names@.len() == self.matchers@.len(),
                patterns == self.matchers@.map_values(|s: Style| s.pattern),
                styles == self.named_styles@,
                captures_ok(caps@, line@),
                0 <= i <= n,
                styled.wf(),
                styled.line == line0,
                total == matchers_fold((styled.phrases@, named@), line@, caps@, names@, patterns, styles, i as int),
            decreases n - i,
        {
            let pattern = self.matchers[i].pattern;
            let found = &caps[i];
            let group = &names[i];
            let ghost cs = found@;
            let ghost ns = group@;
            let m = found.len();
            let mut j: usize = 0;
            while j < m
                invariant
                    n == caps@.len(),
                    0 <= i < n,
                    caps@.len() == self.matchers@.len(),
                    names@.len() == self.matchers@.len(),
                    patterns == self.matchers@.map_values(|s: Style| s.pattern),
                    styles == self.named_styles@,
                    captures_ok(caps@, line@),
                    cs == caps@[i as int]@,
                    ns == names@[i as int]@,
                    found@ == cs,
                    group@ == ns,
                    m == cs.len(),
                    pattern == patterns[i as int],
                    0 <= j <= m,
                    styled.wf(),
                    styled.line == line0,
                    total == matchers_fold(
                        captures_fold((styled.phrases@, named@), line@, cs, ns, styles, pattern, j as int),
                        line@, caps@, names@, patterns, styles, i + 1,
                    ),
                decreases m - j,
            {
                let cap = &found[j];
                let ghost c = cap@;
                match &cap[0] {
                    Some(r) => {
                        match byte_slice(line, r.start, r.end) {
                            Some(text) => {
                                styled.apply(text, r.start..r.end, pattern);
                            },
                            None => {},
                        }
                    },
                    None => {},
                }
                let k = group.len();
                let mut g: usize = 0;
                while g < k
                    invariant
                        n == caps@.len(),
                        0 <= i < n,
                        0 <= j < m,
                        caps@.len() == self.matchers@.len(),
                        names@.len() == self.matchers@.len(),
                        patterns == self.matchers@.map_values(|s: Style| s.pattern),
                        styles == self.named_styles@,
                        captures_ok(caps@, line@),
                        cs == caps@[i as int]@,
                        ns == names@[i as int]@,
                        found@ == cs,
                        group@ == ns,
                        c == cs[j as int]@,
                        cap@ == c,
                        m == cs.len(),
                        k == ns.len(),
                        pattern == patterns[i as int],
                        0 <= g <= k,
                        styled.wf(),
                        styled.line == line0,
                        total == matchers_fold(
                            captures_fold(
                                groups_fold((styled.phrases@, named@), line@, c, ns, styles, g as int),
                                line@, cs, ns, styles, pattern, j + 1,
                            ),
                            line@, caps@, names@, patterns, styles, i + 1,
                        ),
                    decreases k - g,
                {
                    let ghost st = (styled.phrases@, named@);
                    if g < cap.len() {
                        match (&group[g], &cap[g]) {
                            (Some(name), Some(r)) => {
                                match style_named(&self.named_styles, name.as_str()) {
                                    Some(patt) => {
                                        if !meets_any_of(&named, r) {
                                            match byte_slice(line, r.start, r.end) {
                                                Some(text) => {
                                                    styled.apply(text, r.start..r.end, patt);
                                                },
                                                None => {},
                                            }
                                            named.push(r.start..r.end);
                                        }
                                    },
                                    None => {},
                                }
                            },
                            _ => {},
                        }
                    }
                    proof {
                        assert((styled.phrases@, named@) == group_step(st, line@, c, ns, styles, g as int));
                    }
                    g = g + 1;
                }
                j = j + 1;
            }
            i = i + 1;
        }
    }

    /// Style `line`: shown with unmatched text in `patt`, then with the styles of every
    /// match of each expression and of their named groups, as `apply_found` tells.
    pub fn apply(&self, line: &str) -> (r: StyledLine)
        requires
            byte_len(sanitized(line@)) <= usize::MAX,
        ensures
            r.wf(),
            r.line@ == sanitized(line@),
            exists|caps: Seq<Vec<Vec<Option<Range<usize>>>>>, names: Seq<Vec<Option<String>>>|
                #![trigger found_by(self.matchers@, line@, caps, names)]
                found_by(self.matchers@, line@, caps, names) && r.phrases@ == matchers_fold(
                    (
                        sanitized_phrases(
                            line@,
                            seq![
                                Phrase { start: 0, patt: self.patt },
                                Phrase { start: encode_utf8(line@).len() as usize, patt: self.patt },
                            ],
                        ),
                        Seq::empty(),
                    ),
                    line@,
                    caps,
                    names,
                    self.matchers@.map_values(|s: Style| s.pattern),
                    self.named_styles@,
                    0,
                ).0,
    {
        let total = line.as_bytes().len();
        let mut styled = StyledLine::new(line, self.patt);
        proof {
            lemma_fresh_shown(line@, self.patt);
        }
        styled.sanitize_basic();
        let mut caps: Vec<Vec<Vec<Option<Range<usize>>>>> = Vec::new();
        let mut names: Vec<Vec<Option<String>>> = Vec::new();
        let n = self.matchers.len();
        let mut i: usize = 0;
        while i < n
            invariant
                n == self.matchers@.len(),
                0 <= i <= n,
                caps@.len() == i,
                names@.len() == i,
                captures_ok(caps@, line@),
                forall|a: int| 0 <= a < i ==> captures_view(#[trigger] caps@[a]@) == regex_captures(
                    self.matchers@[a].matcher.pattern(),
                    line@,
                ),
                forall|a: int| 0 <= a < i ==> names_view(#[trigger] names@[a]@) == regex_group_names(
                    self.matchers@[a].matcher.pattern(),
                ),
            decreases n - i,
        {
            let found = captures_of(&self.matchers[i].matcher, line);
            let ghost before = caps@;
            caps.push(found);
            proof {
                assert forall|a: int, b: int| 0 <= a < caps@.len() && 0 <= b < caps@[a]@.len() implies {
                    &&& (#[trigger] caps@[a]@[b])@.len() > 0
                    &&& caps@[a]@[b]@[0] is Some
                    &&& forall|g: int| 0 <= g < caps@[a]@[b]@.len() && #[trigger] caps@[a]@[b]@[g] is Some
                        ==> byte_slice_spec(line@, caps@[a]@[b]@[g]->0.start, caps@[a]@[b]@[g]->0.end) is Some
                } by {
                    if a < before.len() {
                        assert(caps@[a] == before[a]);
                    } else {
                        assert(caps@[a] == found);
                        assert(found@[b]@.len() > 0);
                    }
                }
            }
            let ghost nbefore = names@;
            names.push(group_names(&self.matchers[i].matcher));
            proof {
                assert forall|a: int| 0 <= a < i + 1 implies captures_view(#[trigger] caps@[a]@) == regex_captures(
                    self.matchers@[a].matcher.pattern(),
                    line@,
                ) by {
                    if a < i {
                        assert(caps@[a] == before[a]);
                    }
                }
                assert forall|a: int| 0 <= a < i + 1 implies names_view(#[trigger] names@[a]@) == regex_group_names(
                    self.matchers@[a].matcher.pattern(),
                ) by {
                    if a < i {
                        assert(names@[a] == nbefore[a]);
                    }
                }
            }
            i = i + 1;
        }
        let ghost shown = styled.phrases@;
        self.apply_found(&mut styled, line, &caps, &names);
        proof {
            assert(found_by(self.matchers@, line@, caps@, names@));
        }
        styled
    }
}

} // verus!
