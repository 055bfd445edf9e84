//! Cutting log lines into the chunks a view shows: chopped at a width, clipped to a window,
//! or whole.

use vstd::prelude::*;
use crate::indexed_log::LogLine;
use crate::styled_line::{byte_slice, byte_slice_spec};
use crate::sub_line_iterator::bytes_of;

verus! {

/// Line clipping modes:
///  - Chop: break lines at exactly the last byte that fits; show the remainder on the next line
///  - Clip: clip the leading and trailing portions of the line; do not show the remainder
///  - WholeLine: show the whole line; the display handles wrapping somehow
#[derive(Clone, Copy, Debug, PartialEq, Eq)]
pub enum LineViewMode {
    Chop { width: usize },
    Clip { width: usize, left: usize },
    WholeLine,
}

impl LineViewMode {
    /// True if position `index` is visible in the chopped form of a line of length `len`.
    pub fn valid_index(&self, index: usize, len: usize) -> (r: bool)
        requires
            *self matches LineViewMode::Clip { width, left } ==> left + width <= usize::MAX,
        ensures
            r == (index < len && match *self {
                LineViewMode::Clip { width, left } => index >= left && index < left + width,
                _ => true,
            }),
    {
        match self {
            LineViewMode::Clip { width, left } => index < len && index >= *left && index < *left + *width,
            _ => index < len,
        }
    }

    /// The start of the chunk holding position `index` of a line.
    pub fn chunk_start(&self, index: usize) -> (r: usize)
        requires
            *self matches LineViewMode::Chop { width } ==> width > 0,
        ensures
            r == (match *self {
                LineViewMode::Chop { width } => (index - index % width) as usize,
                LineViewMode::Clip { width: _, left } => left,
                LineViewMode::WholeLine => 0,
            }),
    {
        match self {
            LineViewMode::Chop { width } => {
                proof {
                    assert(index % *width <= index) by (nonlinear_arith)
                        requires
                            *width > 0,
                    {}
                }
                index - index % *width
            },
            LineViewMode::Clip { width: _, left } => *left,
            LineViewMode::WholeLine => 0,
        }
    }

    /// The end of the chunk that starts at `start` in a line that ends at `end`: a width on, or
    /// the end of the line if that comes first.
    pub fn chunk_end(&self, start: usize, end: usize) -> (r: usize)
        requires
            *self matches LineViewMode::Chop { width } ==> start + width <= usize::MAX,
            *self matches LineViewMode::Clip { width, left: _ } ==> start + width <= usize::MAX,
        ensures
            r == chunk_end_spec(*self, start, end),
    {
        match self {
            LineViewMode::Chop { width } => {
                let b = start + *width;
                if end < b { end } else { b }
            },
            LineViewMode::Clip { width, left: _ } => {
                let b = start + *width;
                if end < b { end } else { b }
            },
            LineViewMode::WholeLine => end,
        }
    }
}

/// How lines are shown.
pub struct Stylist {
    pub mode: LineViewMode,
}

impl Stylist {
    pub fn new(mode: LineViewMode) -> (r: Self)
        ensures
            r.mode == mode,
    {
        Self { mode }
    }
}

/// The start of the chunk holding position `index`.
pub open spec fn chunk_start_spec(mode: LineViewMode, index: usize) -> usize {
    match mode {
        LineViewMode::Chop { width } => (index - index % width) as usize,
        LineViewMode::Clip { width: _, left } => left,
        LineViewMode::WholeLine => 0,
    }
}

/// The end of the chunk starting at `start` of a line of `len` bytes: a width on, or the end
/// of the line if that comes first.
pub open spec fn chunk_end_spec(mode: LineViewMode, start: usize, len: usize) -> usize {
    match mode {
        LineViewMode::Chop { width } => if len < start + width { len } else { (start + width) as usize },
        LineViewMode::Clip { width, left: _ } => if len < start + width { len } else { (start + width) as usize },
        LineViewMode::WholeLine => len,
    }
}

/// The arithmetic of the mode fits: a chopped width is not zero, and a window's end is a
/// number.
pub open spec fn mode_ok(mode: LineViewMode) -> bool {
    match mode {
        LineViewMode::Chop { width } => width > 0,
        LineViewMode::Clip { width, left } => left + width <= usize::MAX,
        LineViewMode::WholeLine => true,
    }
}

/// A line being cut into the chunks that a view shows, and where the next chunk starts.
pub struct StyledLine {
    pub line: Option<LogLine>,
    pub index: usize,
}

impl Default for StyledLine {
    fn default() -> (r: Self)
        ensures
            r.line is None,
            r.index == 0,
    {
        StyledLine { line: None, index: 0 }
    }
}

/// The chunk of the line `l` that starts at `index` in `mode`, as byte offsets.
pub open spec fn chunk_of(mode: LineViewMode, l: LogLine, index: usize) -> (usize, usize) {
    let end = chunk_end_spec(mode, index, bytes_of(l) as usize);
    (index, if end < bytes_of(l) { end } else { bytes_of(l) as usize })
}

/// The next chunk can be cut: it starts inside the line, its ends fall between characters,
/// and no offset overflows.
pub open spec fn chunk_ok(mode: LineViewMode, line: Option<LogLine>, index: usize) -> bool {
    match line {
        None => true,
        Some(l) => {
            let (a, b) = chunk_of(mode, l, index);
            &&& index < bytes_of(l)
            &&& mode matches LineViewMode::Chop { width } ==> index + width <= usize::MAX
            &&& mode matches LineViewMode::Clip { width, left: _ } ==> index + width <= usize::MAX
            &&& l.offset + index <= usize::MAX
            &&& byte_slice_spec(l.line@, a, b) is Some
        },
    }
}

/// The chunk cut from `l` at `index`: its text and where it starts in the log.
pub open spec fn chunk_text(mode: LineViewMode, l: LogLine, index: usize) -> (Seq<char>, int) {
    let (a, b) = chunk_of(mode, l, index);
    (byte_slice_spec(l.line@, a, b)->0, l.offset + index)
}

impl StyledLine {
    /// Take `line` to cut from the chunk holding `offset` (a position in the log), or no
    /// line when that position is not shown in `stylist`'s mode.
    pub fn new(line: LogLine, offset: usize, stylist: &Stylist) -> (r: Self)
        requires
            mode_ok(stylist.mode),
        ensures
            ({
                let len = bytes_of(line);
                let d = if offset > line.offset { offset - line.offset } else { 0 };
                let last = if len > 0 { len - 1 } else { 0 };
                let index = (if d < last { d } else { last }) as usize;
                let shown = index < len && match stylist.mode {
                    LineViewMode::Clip { width, left } => index >= left && index < left + width,
                    _ => true,
                };
                if shown {
                    r.line == Some(line) && r.index == chunk_start_spec(stylist.mode, index)
                } else {
                    r.line is None && r.index == 0
                }
            }),
    {
        let len = line.line.as_str().as_bytes().len();
        let index = offset.saturating_sub(line.offset);
        let last = len.saturating_sub(1);
        let index = if index < last { index } else { last };
        if stylist.mode.valid_index(index, len) {
            let start = stylist.mode.chunk_start(index);
            Self { line: Some(line), index: start }
        } else {
            Self::default()
        }
    }

    /// No line is left to cut.
    pub fn empty(&self) -> (r: bool)
        ensures
            r == self.line is None,
    {
        self.line.is_none()
    }

    /// The byte range of the chunk at the index, if a line is left.
    pub fn chunk_range(&self, stylist: &Stylist) -> (r: Option<std::ops::Range<usize>>)
        requires
            chunk_ok(stylist.mode, self.line, self.index),
        ensures
            match self.line {
                None => r is None,
                Some(l) => r matches Some(g) && g.start == self.index
                    && g.end == chunk_end_spec(stylist.mode, self.index, bytes_of(l) as usize),
            },
    {
        match &self.line {
            Some(line) => {
                let len = line.line.as_str().as_bytes().len();
                let end = stylist.mode.chunk_end(self.index, len);
                Some(self.index..end)
            },
            None => None,
        }
    }

    /// The part `range` of the line, clipped to its end, as a line of the log.
    fn render(&self, range: &std::ops::Range<usize>) -> (r: LogLine)
        requires
            self.line matches Some(l) && l.offset + range.start <= usize::MAX && byte_slice_spec(
                l.line@,
                range.start,
                if range.end < bytes_of(l) { range.end } else { bytes_of(l) as usize },
            ) is Some,
        ensures
            ({
                let l = self.line->0;
                let b = if range.end < bytes_of(l) { range.end } else { bytes_of(l) as usize };
                r.line@ == byte_slice_spec(l.line@, range.start, b)->0 && r.offset == l.offset + range.start
            }),
    {
        let line = match &self.line {
            Some(l) => l,
            None => {
                return LogLine::new(String::new(), 0);
            },
        };
        let len = line.line.as_str().as_bytes().len();
        let end = if range.end < len { range.end } else { len };
        let text = match byte_slice(line.line.as_str(), range.start, end) {
            Some(t) => t.to_owned(),
            None => String::new(),
        };
        LogLine::new(text, line.offset + range.start)
    }

    /// The next chunk, moving the index to the chunk after it, or dropping the line when it
    /// has no more.
    pub fn next(&mut self, stylist: &Stylist) -> (r: Option<LogLine>)
        requires
            mode_ok(stylist.mode),
            chunk_ok(stylist.mode, old(self).line, old(self).index),
        ensures
            match old(self).line {
                None => r is None && *final(self) == *old(self),
                Some(l) => {
                    let end = chunk_end_spec(stylist.mode, old(self).index, bytes_of(l) as usize);
                    let next = chunk_start_spec(stylist.mode, end);
                    &&& r matches Some(x) && (x.line@, x.offset as int) == chunk_text(stylist.mode, l, old(self).index)
                    &&& if next == end && next < bytes_of(l) {
                        final(self).line == old(self).line && final(self).index == next
                    } else {
                        final(self).line is None && final(self).index == old(self).index
                    }
                },
            },
    {
        match self.chunk_range(stylist) {
            Some(range) => {
                let rline = self.render(&range);
                let next = stylist.mode.chunk_start(range.end);
                let len = match &self.line {
                    Some(l) => l.line.as_str().as_bytes().len(),
                    None => 0,
                };
                if next == range.end && next < len {
                    self.index = next;
                } else {
                    self.line = None;
                }
                Some(rline)
            },
            None => None,
        }
    }

    /// The chunk at the index, moving the index to the chunk before it, or dropping the line
    /// when it has no more.
    pub fn next_back(&mut self, stylist: &Stylist) -> (r: Option<LogLine>)
        requires
            mode_ok(stylist.mode),
            chunk_ok(stylist.mode, old(self).line, old(self).index),
        ensures
            match old(self).line {
                None => r is None && *final(self) == *old(self),
                Some(l) => {
                    let before = if old(self).index > 0 { (old(self).index - 1) as usize } else { 0 };
                    let next = chunk_start_spec(stylist.mode, before);
                    &&& r matches Some(x) && (x.line@, x.offset as int) == chunk_text(stylist.mode, l, old(self).index)
                    &&& if next < old(self).index {
                        final(self).line == old(self).line && final(self).index == next
                    } else {
                        final(self).line is None && final(self).index == old(self).index
                    }
                },
            },
    {
        match self.chunk_range(stylist) {
            Some(range) => {
                let rline = self.render(&range);
                let next = stylist.mode.chunk_start(range.start.saturating_sub(1));
                if next < range.start {
                    self.index = next;
                } else {
                    self.line = None;
                }
                Some(rline)
            },
            None => None,
        }
    }
}

} // verus!
