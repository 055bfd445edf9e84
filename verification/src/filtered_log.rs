//! Filtering the lines of a log: walking its lines, forwards or backwards, and giving only
//! those that a filter keeps.

use vstd::prelude::*;
use crate::cursor_log_file::{
    first_line_from, lemma_first_line, lemma_line_end_bounds, lemma_line_end_starts, line_end, starts_line,
};
use crate::index_filter::{IndexFilter, SearchError, SearchType};
use crate::patterns::regex_valid;
use crate::sane_lines::{
    back_end, last_line_before, lemma_last_line_bounds, line_text, line_view, with_text, Line, SaneLines,
};

verus! {

/// The first line of `s` starting in `[a, b)` that `f` keeps.
pub open spec fn first_kept(f: IndexFilter, s: Seq<u8>, a: int, b: int) -> Option<int>
    decreases s.len() - a,
{
    let x = first_line_from(s, a);
    if a < 0 || a >= b || x >= b || x >= s.len() {
        None
    } else {
        proof {
            lemma_first_line(s, a);
            lemma_line_end_bounds(s, x);
        }
        if f.keeps(line_text(s, x)) {
            Some(x)
        } else {
            first_kept(f, s, line_end(s, x), b)
        }
    }
}

/// The last line of `s` starting in `[a, b)` that `f` keeps.
pub open spec fn last_kept(f: IndexFilter, s: Seq<u8>, a: int, b: int) -> Option<int>
    decreases b - a,
{
    if b <= a {
        None
    } else if let Some(o) = last_line_before(s, a, b) {
        proof {
            lemma_last_line_bounds(s, a, b);
        }
        if f.keeps(line_text(s, o)) {
            Some(o)
        } else {
            last_kept(f, s, a, o)
        }
    } else {
        None
    }
}

/// The first kept line from `a` is a line of `s` in `[a, b)` that `f` keeps, and no line
/// before it in that window is kept; when there is none, no line starting in `[a, b)` is kept.
pub proof fn lemma_first_kept(f: IndexFilter, s: Seq<u8>, a: int, b: int)
    requires
        0 <= a,
    ensures
        first_kept(f, s, a, b) matches Some(o) ==> {
            &&& a <= o < b && o < s.len() && starts_line(s, o)
            &&& f.keeps(line_text(s, o))
            &&& forall|y: int| a <= y < o && #[trigger] starts_line(s, y) ==> !f.keeps(line_text(s, y))
        },
        first_kept(f, s, a, b) is None ==> forall|y: int|
            a <= y < b && y < s.len() && #[trigger] starts_line(s, y) ==> !f.keeps(line_text(s, y)),
    decreases s.len() - a,
{
    if a < s.len() {
        lemma_first_line(s, a);
        let x = first_line_from(s, a);
        if a < b && x < b && x < s.len() {
            lemma_line_end_bounds(s, x);
            lemma_line_end_starts(s, x);
            if !f.keeps(line_text(s, x)) {
                lemma_first_kept(f, s, line_end(s, x), b);
            }
        }
    }
}

/// The last kept line before `b` is a line of `s` in `[a, b)` that `f` keeps, and no line
/// after it in that window is kept; when there is none, no line starting in `[a, b)` is kept.
pub proof fn lemma_last_kept(f: IndexFilter, s: Seq<u8>, a: int, b: int)
    ensures
        last_kept(f, s, a, b) matches Some(o) ==> {
            &&& a <= o < b && o < s.len() && starts_line(s, o)
            &&& f.keeps(line_text(s, o))
            &&& forall|y: int| o < y < b && y < s.len() && #[trigger] starts_line(s, y) ==> !f.keeps(line_text(s, y))
        },
        last_kept(f, s, a, b) is None ==> forall|y: int|
            a <= y < b && y < s.len() && #[trigger] starts_line(s, y) ==> !f.keeps(line_text(s, y)),
    decreases b - a,
{
    if b > a {
        lemma_last_line_bounds(s, a, b);
        if let Some(o) = last_line_before(s, a, b) {
            if !f.keeps(line_text(s, o)) {
                lemma_last_kept(f, s, a, o);
            }
        }
    }
}

/// The first `n` lines of `s` starting in `[a, b)` that `f` keeps, in order.
pub open spec fn kept_starts(f: IndexFilter, s: Seq<u8>, a: int, b: int, n: nat) -> Seq<int>
    decreases n,
{
    if n == 0 {
        Seq::empty()
    } else {
        match first_kept(f, s, a, b) {
            Some(o) => seq![o] + kept_starts(f, s, line_end(s, o), b, (n - 1) as nat),
            None => Seq::empty(),
        }
    }
}

/// The last `n` lines of `s` starting in `[a, b)` that `f` keeps, last first.
pub open spec fn kept_starts_back(f: IndexFilter, s: Seq<u8>, a: int, b: int, n: nat) -> Seq<int>
    decreases n,
{
    if n == 0 {
        Seq::empty()
    } else {
        match last_kept(f, s, a, b) {
            Some(o) => seq![o] + kept_starts_back(f, s, a, o, (n - 1) as nat),
            None => Seq::empty(),
        }
    }
}

/// A filter applied to the lines of a log.
pub struct LogFilter {
    pub filter: IndexFilter,
}

impl LogFilter {
    /// A filter that keeps every line.
    pub fn new() -> (r: Self)
        ensures
            r.filter.f is NoSearch,
            r.filter.keep_matches,
    {
        LogFilter { filter: IndexFilter::default() }
    }

    /// Keep the lines `search` finds (`keep_matches`), or the others. Old results are
    /// forgotten.
    pub fn search(&mut self, search: SearchType, keep_matches: bool)
        ensures
            final(self).filter.f == search,
            final(self).filter.keep_matches == keep_matches,
    {
        self.filter = IndexFilter::new(search, 0, keep_matches);
    }

    /// Keep the lines that `pattern` matches; with a pattern starting with `!`, the lines
    /// that the rest does not match; with an empty pattern, every line. An expression the
    /// regex crate refuses leaves the filter as it was.
    pub fn filter_regex(&mut self, pattern: &str) -> (r: Result<(), SearchError>)
        ensures
            pattern@.len() == 0 ==> r is Ok && final(self).filter.f is NoSearch && final(self).filter.keep_matches,
            pattern@.len() > 0 && pattern@[0] == '!' ==> {
                let p = pattern@.subrange(1, pattern@.len() as int);
                &&& r is Ok == regex_valid(p)
                &&& r is Ok ==> final(self).filter.keep_matches && final(self).filter.f is Neg
                    && final(self).filter.f->Neg_0.pattern() == p
            },
            pattern@.len() > 0 && pattern@[0] != '!' ==> {
                &&& r is Ok == regex_valid(pattern@)
                &&& r is Ok ==> final(self).filter.keep_matches && final(self).filter.f is Regex
                    && final(self).filter.f->Regex_0.pattern() == pattern@
            },
            r is Err ==> *final(self) == *old(self),
    {
        match SearchType::new(pattern) {
            Ok(search) => {
                self.search(search, true);
                Ok(())
            },
            Err(e) => Err(e),
        }
    }

    /// The first line starting in the window of `lines` that the filter keeps; the window
    /// then starts after it. `None` when the window holds no such line.
    pub fn find_next(&self, lines: &mut SaneLines) -> (r: Option<Line>)
        requires
            old(lines).inv(),
        ensures
            final(lines).inv(),
            final(lines).src() == old(lines).src(),
            final(lines).window().end == old(lines).window().end,
            ({
                let s = old(lines).src();
                let w = old(lines).window();
                match first_kept(self.filter, s, w.start as int, w.end as int) {
                    Some(o) => {
                        &&& r matches Some(l) && l.0 == o && l.1@ == line_text(s, o)
                        &&& final(lines).window() == ((line_end(s, o) as usize)..w.end)
                    },
                    None => r is None,
                }
            }),
    {
        let ghost s = lines.src();
        let ghost w0 = lines.window();
        loop
            invariant
                lines.inv(),
                lines.src() == s,
                s == old(lines).src(),
                w0 == old(lines).window(),
                lines.window().end == w0.end,
                first_kept(self.filter, s, w0.start as int, w0.end as int)
                    == first_kept(self.filter, s, lines.window().start as int, w0.end as int),
            decreases (if lines.window().end > lines.window().start { lines.window().end - lines.window().start } else { 0 }),
        {
            let ghost before = lines.window().start as int;
            let ghost end = w0.end as int;
            match lines.next() {
                Some(l) => {
                    let ghost o = l.0 as int;
                    proof {
                        lines.lemma_src_fits();
                        if before <= s.len() {
                            lemma_first_line(s, before);
                        }
                        assert(before <= o);
                        lemma_line_end_bounds(s, o);
                        assert(l.1@ == line_text(s, o));
                    }
                    if self.filter.eval_text(l.1.as_str()) {
                        proof {
                            assert(first_kept(self.filter, s, before, end) == Some(o));
                        }
                        return Some(l);
                    }
                    proof {
                        assert(first_kept(self.filter, s, before, end)
                            == first_kept(self.filter, s, line_end(s, o), end));
                        assert(lines.window().start as int == line_end(s, o));
                    }
                },
                None => {
                    proof {
                        assert(first_kept(self.filter, s, before, end) is None);
                    }
                    return None;
                },
            }
        }
    }

    /// The last line starting in the window of `lines` that the filter keeps; the window then
    /// ends at it. A window reaching past the data ends one byte before the end of the data,
    /// as `SaneLines::next_back` has it. `None` when the window holds no such line.
    pub fn find_next_back(&self, lines: &mut SaneLines) -> (r: Option<Line>)
        requires
            old(lines).inv(),
        ensures
            final(lines).inv(),
            final(lines).src() == old(lines).src(),
            ({
                let s = old(lines).src();
                let w = old(lines).window();
                match last_kept(self.filter, s, w.start as int, back_end(s, w.end as int)) {
                    Some(o) => {
                        &&& r matches Some(l) && l.0 == o && l.1@ == line_text(s, o)
                        &&& final(lines).window() == (w.start..(o as usize))
                    },
                    None => r is None,
                }
            }),
    {
        let ghost s = lines.src();
        let ghost w0 = lines.window();
        let ghost target = last_kept(self.filter, s, w0.start as int, back_end(s, w0.end as int));
        loop
            invariant
                lines.inv(),
                lines.src() == s,
                s == old(lines).src(),
                w0 == old(lines).window(),
                lines.window().start == w0.start,
                target == last_kept(self.filter, s, w0.start as int, back_end(s, w0.end as int)),
                target == last_kept(self.filter, s, w0.start as int, back_end(s, lines.window().end as int)),
            decreases (if lines.window().end > lines.window().start { lines.window().end - lines.window().start } else { 0 }),
        {
            let ghost b = back_end(s, lines.window().end as int);
            match lines.next_back() {
                Some(l) => {
                    proof {
                        lemma_last_line_bounds(s, w0.start as int, b);
                    }
                    if self.filter.eval_text(l.1.as_str()) {
                        return Some(l);
                    }
                },
                None => {
                    return None;
                },
            }
        }
    }

    /// Up to `count` kept lines starting in the window of `lines`, in order, each with its
    /// text.
    pub fn find_lines(&self, lines: &mut SaneLines, count: usize) -> (r: Vec<Line>)
        requires
            old(lines).inv(),
        ensures
            final(lines).inv(),
            final(lines).src() == old(lines).src(),
            r@.map_values(|l: Line| line_view(l)) == with_text(
                old(lines).src(),
                kept_starts(
                    self.filter,
                    old(lines).src(),
                    old(lines).window().start as int,
                    old(lines).window().end as int,
                    count as nat,
                ),
            ),
    {
        let ghost s = lines.src();
        let ghost w0 = lines.window();
        let ghost f = self.filter;
        let mut out: Vec<Line> = Vec::new();
        proof {
            assert(out@.map_values(|l: Line| line_view(l)) =~= Seq::<(int, Seq<char>)>::empty());
            assert(with_text(s, kept_starts(f, s, w0.start as int, w0.end as int, count as nat)) =~= Seq::<
                (int, Seq<char>),
            >::empty() + with_text(s, kept_starts(f, s, w0.start as int, w0.end as int, count as nat)));
        }
        while out.len() < count
            invariant
                lines.inv(),
                lines.src() == s,
                s == old(lines).src(),
                w0 == old(lines).window(),
                f == self.filter,
                lines.window().end == w0.end,
                out.len() <= count,
                with_text(s, kept_starts(f, s, w0.start as int, w0.end as int, count as nat)) == out@.map_values(
                    |l: Line| line_view(l),
                ) + with_text(s, kept_starts(f, s, lines.window().start as int, w0.end as int, (count - out.len()) as nat)),
            decreases count - out.len(),
        {
            let ghost a = lines.window().start as int;
            let ghost m = (count - out.len()) as nat;
            let ghost prev = out@;
            proof {
                lines.lemma_src_fits();
            }
            match self.find_next(lines) {
                Some(l) => {
                    let ghost o = l.0 as int;
                    let ghost lv = line_view(l);
                    out.push(l);
                    proof {
                        lemma_first_kept(f, s, a, w0.end as int);
                        lemma_line_end_bounds(s, o);
                        assert(lv == (o, line_text(s, o)));
                        assert(kept_starts(f, s, a, w0.end as int, m) == seq![o] + kept_starts(
                            f,
                            s,
                            line_end(s, o),
                            w0.end as int,
                            (m - 1) as nat,
                        ));
                        assert(lines.window().start as int == line_end(s, o));
                        assert(out@.map_values(|l: Line| line_view(l)) =~= prev.map_values(|l: Line| line_view(l)).push(lv));
                        assert(with_text(s, seq![o] + kept_starts(f, s, line_end(s, o), w0.end as int, (m - 1) as nat))
                            =~= seq![lv] + with_text(s, kept_starts(f, s, line_end(s, o), w0.end as int, (m - 1) as nat)));
                        assert(out@.map_values(|l: Line| line_view(l)) + with_text(
                            s,
                            kept_starts(f, s, line_end(s, o), w0.end as int, (m - 1) as nat),
                        ) =~= prev.map_values(|l: Line| line_view(l)) + (seq![lv] + with_text(
                            s,
                            kept_starts(f, s, line_end(s, o), w0.end as int, (m - 1) as nat),
                        )));
                    }
                },
                None => {
                    proof {
                        assert(kept_starts(f, s, a, w0.end as int, m) =~= Seq::<int>::empty());
                        assert(with_text(s, Seq::<int>::empty()) =~= Seq::<(int, Seq<char>)>::empty());
                        assert(prev.map_values(|l: Line| line_view(l)) + Seq::<(int, Seq<char>)>::empty()
                            =~= prev.map_values(|l: Line| line_view(l)));
                    }
                    return out;
                },
            }
        }
        proof {
            assert(kept_starts(f, s, lines.window().start as int, w0.end as int, 0) =~= Seq::<int>::empty());
            assert(with_text(s, Seq::<int>::empty()) =~= Seq::<(int, Seq<char>)>::empty());
            assert(out@.map_values(|l: Line| line_view(l)) + Seq::<(int, Seq<char>)>::empty()
                =~= out@.map_values(|l: Line| line_view(l)));
        }
        out
    }

    /// Up to `count` kept lines starting in the window of `lines`, last first, each with its
    /// text. A window reaching past the data ends one byte before its end, as
    /// `find_next_back` has it.
    pub fn find_lines_back(&self, lines: &mut SaneLines, count: usize) -> (r: Vec<Line>)
        requires
            old(lines).inv(),
        ensures
            final(lines).inv(),
            final(lines).src() == old(lines).src(),
            r@.map_values(|l: Line| line_view(l)) == with_text(
                old(lines).src(),
                kept_starts_back(
                    self.filter,
                    old(lines).src(),
                    old(lines).window().start as int,
                    back_end(old(lines).src(), old(lines).window().end as int),
                    count as nat,
                ),
            ),
    {
        let ghost s = lines.src();
        let ghost w0 = lines.window();
        let ghost f = self.filter;
        let ghost a = w0.start as int;
        let mut out: Vec<Line> = Vec::new();
        proof {
            assert(out@.map_values(|l: Line| line_view(l)) =~= Seq::<(int, Seq<char>)>::empty());
            assert(with_text(s, kept_starts_back(f, s, a, back_end(s, w0.end as int), count as nat)) =~= Seq::<
                (int, Seq<char>),
            >::empty() + with_text(s, kept_starts_back(f, s, a, back_end(s, w0.end as int), count as nat)));
        }
        while out.len() < count
            invariant
                lines.inv(),
                lines.src() == s,
                s == old(lines).src(),
                w0 == old(lines).window(),
                f == self.filter,
                a == w0.start as int,
                lines.window().start == w0.start,
                out.len() <= count,
                with_text(s, kept_starts_back(f, s, a, back_end(s, w0.end as int), count as nat)) == out@.map_values(
                    |l: Line| line_view(l),
                ) + with_text(
                    s,
                    kept_starts_back(f, s, a, back_end(s, lines.window().end as int), (count - out.len()) as nat),
                ),
            decreases count - out.len(),
        {
            let ghost b = back_end(s, lines.window().end as int);
            let ghost m = (count - out.len()) as nat;
            let ghost prev = out@;
            match self.find_next_back(lines) {
                Some(l) => {
                    let ghost o = l.0 as int;
                    let ghost lv = line_view(l);
                    out.push(l);
                    proof {
                        lemma_last_kept(f, s, a, b);
                        assert(lv == (o, line_text(s, o)));
                        assert(kept_starts_back(f, s, a, b, m) == seq![o] + kept_starts_back(f, s, a, o, (m - 1) as nat));
                        assert(lines.window().end as int == o);
                        assert(back_end(s, o) == o);
                        assert(out@.map_values(|l: Line| line_view(l)) =~= prev.map_values(|l: Line| line_view(l)).push(lv));
                        assert(with_text(s, seq![o] + kept_starts_back(f, s, a, o, (m - 1) as nat)) =~= seq![lv]
                            + with_text(s, kept_starts_back(f, s, a, o, (m - 1) as nat)));
                        assert(out@.map_values(|l: Line| line_view(l)) + with_text(
                            s,
                            kept_starts_back(f, s, a, o, (m - 1) as nat),
                        ) =~= prev.map_values(|l: Line| line_view(l)) + (seq![lv] + with_text(
                            s,
                            kept_starts_back(f, s, a, o, (m - 1) as nat),
                        )));
                    }
                },
                None => {
                    proof {
                        assert(kept_starts_back(f, s, a, b, m) =~= Seq::<int>::empty());
                        assert(with_text(s, Seq::<int>::empty()) =~= Seq::<(int, Seq<char>)>::empty());
                        assert(prev.map_values(|l: Line| line_view(l)) + Seq::<(int, Seq<char>)>::empty()
                            =~= prev.map_values(|l: Line| line_view(l)));
                    }
                    return out;
                },
            }
        }
        proof {
            assert(kept_starts_back(f, s, a, back_end(s, lines.window().end as int), 0) =~= Seq::<int>::empty());
            assert(with_text(s, Seq::<int>::empty()) =~= Seq::<(int, Seq<char>)>::empty());
            assert(out@.map_values(|l: Line| line_view(l)) + Seq::<(int, Seq<char>)>::empty()
                =~= out@.map_values(|l: Line| line_view(l)));
        }
        out
    }
}

} // verus!
