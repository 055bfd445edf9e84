//! How the sub-line iterator cuts lines into pieces: whole, chopped to a window, or wrapped
//! at a width, walking the pieces forwards or backwards.

use vstd::prelude::*;
use vstd::string::StrSliceExecFns;
use vstd::utf8::encode_utf8;
use crate::indexed_log::LogLine;

verus! {

/// Pieces a line is cut into: wrapped at a width, chopped to a window, or whole.
#[derive(Clone, Copy, Debug, PartialEq, Eq)]
pub enum LineViewMode {
    Wrap { width: usize },
    Chop { width: usize, left: usize },
    WholeLine,
}

/// Length of a line in bytes.
pub open spec fn bytes_of(l: LogLine) -> int {
    encode_utf8(l.line@).len() as int
}

/// A line as its characters and offset.
pub open spec fn line_view(l: Option<LogLine>) -> Option<(Seq<char>, int)> {
    match l {
        Some(x) => Some((x.line@, x.offset as int)),
        None => None,
    }
}

/// Characters `index` up to `end` of `s`, as taking `end` characters and skipping `index`
/// gives them.
pub open spec fn sub_chars(s: Seq<char>, index: int, end: int) -> Seq<char> {
    let e = if end < s.len() { end } else { s.len() as int };
    if index < e {
        s.subrange(index, e)
    } else {
        Seq::empty()
    }
}

/// The piece of `width` starting at byte `index` of the buffered line: `index` and the width
/// are counted in bytes against the line's length, and the piece is cut in characters.
pub open spec fn sub_spec(buffer: Option<LogLine>, index: usize, width: usize) -> Option<(Seq<char>, int)> {
    match buffer {
        None => None,
        Some(b) => if index >= bytes_of(b) {
            None
        } else {
            let end = if index + width < bytes_of(b) { index + width } else { bytes_of(b) };
            Some((sub_chars(b.line@, index as int, end), b.offset + index))
        },
    }
}

/// A line being cut into pieces, and how far the cutting has gone.
pub struct SubLineHelper {
    /// The current line.
    pub buffer: Option<LogLine>,
    /// Index into the current line for the next piece to return.
    pub index: usize,
    /// Start offset for the iterator.
    pub start: Option<usize>,
    /// Last offset consumed.
    pub consumed: Option<usize>,
}

/// No offset sum overflows: of the line with an index, and of an index with a width.
pub open spec fn no_overflow(b: Option<LogLine>, index: usize, width: usize) -> bool {
    match b {
        Some(x) => x.offset + index <= usize::MAX && index + width <= usize::MAX,
        None => true,
    }
}

/// What taking the next piece needs: no offset sum overflows.
pub open spec fn next_pre(h: SubLineHelper, mode: LineViewMode) -> bool {
    match mode {
        LineViewMode::Wrap { width } => h.index + width <= usize::MAX
            && no_overflow(h.buffer, h.index, width)
            && no_overflow(h.buffer, (h.index + width) as usize, 0),
        LineViewMode::Chop { width, left } => no_overflow(h.buffer, left, width)
            && no_overflow(h.buffer, h.index, 0),
        LineViewMode::WholeLine => no_overflow(h.buffer, h.index, 0),
    }
}

/// What taking the next piece does: a wrapped line gives its piece at the index and moves the
/// index on by the width, dropping the line past its end; a chopped line gives its window and
/// is dropped; a whole line is given and dropped. The offset reached is noted.
pub open spec fn next_post(h: SubLineHelper, h2: SubLineHelper, mode: LineViewMode, r: Option<LogLine>) -> bool {
    &&& h2.start == h.start
    &&& match mode {
        LineViewMode::Wrap { width } => {
            let idx = (h.index + width) as usize;
            &&& line_view(r) == sub_spec(h.buffer, h.index, width)
            &&& h2.index == idx
            &&& h2.consumed == (match h.buffer {
                Some(b) => Some((b.offset + idx) as usize),
                None => h.consumed,
            })
            &&& h2.buffer == (match h.buffer {
                Some(b) => if idx >= bytes_of(b) { None } else { h.buffer },
                None => None,
            })
        },
        LineViewMode::Chop { width, left } => {
            &&& line_view(r) == sub_spec(h.buffer, left, width)
            &&& h2.index == h.index
            &&& h2.consumed == (match h.buffer {
                Some(b) => Some((b.offset + h.index) as usize),
                None => h.consumed,
            })
            &&& h2.buffer is None
        },
        LineViewMode::WholeLine => {
            &&& r == h.buffer
            &&& h2.index == h.index
            &&& h2.consumed == (match h.buffer {
                Some(b) => Some((b.offset + h.index) as usize),
                None => h.consumed,
            })
            &&& h2.buffer is None
        },
    }
}

/// What taking the previous piece needs: no offset sum overflows, and a wrapped index is
/// a whole number of widths.
pub open spec fn back_pre(h: SubLineHelper, mode: LineViewMode) -> bool {
    match mode {
        LineViewMode::Wrap { width } => {
            &&& no_overflow(h.buffer, h.index, width)
            &&& h.buffer is Some ==> h.index == 0 || h.index >= width
        },
        LineViewMode::Chop { width, left } => no_overflow(h.buffer, left, width)
            && no_overflow(h.buffer, h.index, 0),
        LineViewMode::WholeLine => no_overflow(h.buffer, h.index, 0),
    }
}

/// What taking the previous piece does: a wrapped line gives its piece at the index and moves
/// the index back by the width, dropping the line after its first piece; chopped and whole
/// lines as going forwards.
pub open spec fn back_post(h: SubLineHelper, h2: SubLineHelper, mode: LineViewMode, r: Option<LogLine>) -> bool {
    &&& h2.start == h.start
    &&& match mode {
        LineViewMode::Wrap { width } => {
            let stop = h.buffer is Some && h.index == 0;
            let idx = if h.buffer is Some && !stop { (h.index - width) as usize } else { h.index };
            &&& line_view(r) == sub_spec(h.buffer, h.index, width)
            &&& h2.index == idx
            &&& h2.buffer == (if stop { None } else { h.buffer })
            &&& h2.consumed == (match h2.buffer {
                Some(b) => Some((b.offset + idx) as usize),
                None => h.consumed,
            })
        },
        LineViewMode::Chop { width, left } => {
            &&& line_view(r) == sub_spec(h.buffer, left, width)
            &&& h2.index == h.index
            &&& h2.consumed == (match h.buffer {
                Some(b) => Some((b.offset + h.index) as usize),
                None => h.consumed,
            })
            &&& h2.buffer is None
        },
        LineViewMode::WholeLine => {
            &&& r == h.buffer
            &&& h2.index == h.index
            &&& h2.consumed == (match h.buffer {
                Some(b) => Some((b.offset + h.index) as usize),
                None => h.consumed,
            })
            &&& h2.buffer is None
        },
    }
}

/// Where cutting a new line forwards begins: in wrap mode, at the start of the piece holding
/// the iterator's start offset if the line holds it, else at the line's first piece; an
/// empty or missing line leaves the index as it was. Other modes begin at zero.
pub open spec fn fwd_index(h: SubLineHelper, mode: LineViewMode, line: Option<LogLine>) -> usize {
    match mode {
        LineViewMode::Wrap { width } => match line {
            Some(b) => if bytes_of(b) > 0 {
                match h.start {
                    Some(st) => if b.offset <= st < b.offset + bytes_of(b) {
                        let i = st - b.offset;
                        (i - i % (width as int)) as usize
                    } else {
                        0
                    },
                    None => 0,
                }
            } else {
                h.index
            },
            None => h.index,
        },
        _ => 0,
    }
}

/// The start of the last piece of a line of `len` bytes wrapped at `width`.
pub open spec fn last_piece(len: int, width: int) -> int {
    (len + width - 1) / width * width - width
}

/// Where cutting a new line backwards begins: in wrap mode, at the start of the piece holding
/// the iterator's start offset if the line holds it, else at the line's last piece.
pub open spec fn back_index(h: SubLineHelper, mode: LineViewMode, line: Option<LogLine>) -> usize {
    match mode {
        LineViewMode::Wrap { width } => match line {
            Some(b) => if bytes_of(b) > 0 {
                match h.start {
                    Some(st) => if b.offset <= st < b.offset + bytes_of(b) {
                        let i = st - b.offset;
                        (i - i % (width as int)) as usize
                    } else {
                        last_piece(bytes_of(b), width as int) as usize
                    },
                    None => last_piece(bytes_of(b), width as int) as usize,
                }
            } else {
                h.index
            },
            None => h.index,
        },
        _ => 0,
    }
}

/// The iterator's start offset lies in `b`.
pub open spec fn holds_start(h: SubLineHelper, b: LogLine) -> bool {
    h.start matches Some(st) && b.offset <= st < b.offset + bytes_of(b)
}

/// Taking in `line` forwards computes its first index without overflow or a zero width.
pub open spec fn fwd_ok(h: SubLineHelper, mode: LineViewMode, line: Option<LogLine>) -> bool {
    match (mode, line) {
        (LineViewMode::Wrap { width }, Some(b)) => bytes_of(b) > 0 && h.start is Some ==> {
            &&& b.offset + bytes_of(b) <= usize::MAX
            &&& holds_start(h, b) ==> width > 0
        },
        _ => true,
    }
}

/// Taking in `line` backwards computes its last index without overflow or a zero width.
pub open spec fn back_ok(h: SubLineHelper, mode: LineViewMode, line: Option<LogLine>) -> bool {
    match (mode, line) {
        (LineViewMode::Wrap { width }, Some(b)) => bytes_of(b) > 0 ==> {
            &&& h.start is Some ==> b.offset + bytes_of(b) <= usize::MAX
            &&& width > 0
            &&& !holds_start(h, b) ==> bytes_of(b) + width <= usize::MAX
        },
        _ => true,
    }
}

impl SubLineHelper {
    pub fn new() -> (r: Self)
        ensures
            r.buffer is None && r.index == 0 && r.start is None && r.consumed is None,
    {
        SubLineHelper { buffer: None, index: 0, start: None, consumed: None }
    }

    pub fn new_from(offset: usize) -> (r: Self)
        ensures
            r.buffer is None && r.index == 0 && r.start == Some(offset) && r.consumed is None,
    {
        SubLineHelper { buffer: None, index: 0, start: Some(offset), consumed: None }
    }

    /// The last offset consumed; there must be one.
    pub fn offset(&self) -> (r: usize)
        requires
            self.consumed is Some,
        ensures
            r == self.consumed->0,
    {
        match self.consumed {
            Some(c) => c,
            None => 0,
        }
    }

    /// Both have consumed something, and this one no further than `other`.
    pub fn le(&self, other: &Self) -> (r: bool)
        ensures
            r == (self.consumed is Some && other.consumed is Some && self.consumed->0 <= other.consumed->0),
    {
        match (self.consumed, other.consumed) {
            (Some(a), Some(b)) => a <= b,
            _ => false,
        }
    }

    /// The piece of `width` at byte `index` of the current line, if any remains.
    pub fn get_sub(&self, index: usize, width: usize) -> (r: Option<LogLine>)
        requires
            no_overflow(self.buffer, index, width),
        ensures
            line_view(r) == sub_spec(self.buffer, index, width),
    {
        match &self.buffer {
            Some(buffer) => {
                let len = buffer.line.as_str().as_bytes().len();
                if index >= len {
                    None
                } else {
                    let end = if index + width < len { index + width } else { len };
                    let chars = buffer.line.as_str();
                    let n = chars.unicode_len();
                    let e = if end < n { end } else { n };
                    let line = if index < e {
                        chars.substring_char(index, e).to_owned()
                    } else {
                        String::new()
                    };
                    Some(LogLine::new(line, buffer.offset + index))
                }
            },
            None => None,
        }
    }

    /// Note the offset reached in the current line, if there is one.
    pub fn mark_consumed(&mut self)
        requires
            no_overflow(old(self).buffer, old(self).index, 0),
        ensures
            final(self).consumed == (match old(self).buffer {
                Some(b) => Some((b.offset + old(self).index) as usize),
                None => old(self).consumed,
            }),
            final(self).buffer == old(self).buffer,
            final(self).index == old(self).index,
            final(self).start == old(self).start,
    {
        if let Some(buffer) = &self.buffer {
            self.consumed = Some(buffer.offset + self.index);
        }
    }

    /// The next piece of the current line, if any remains.
    pub fn sub_next(&mut self, mode: LineViewMode) -> (r: Option<LogLine>)
        requires
            next_pre(*old(self), mode),
        ensures
            next_post(*old(self), *final(self), mode, r),
    {
        match mode {
            LineViewMode::Wrap { width } => {
                let ret = self.get_sub(self.index, width);
                self.index = self.index + width;
                self.mark_consumed();
                let done = match &self.buffer {
                    Some(buffer) => self.index >= buffer.line.as_str().as_bytes().len(),
                    None => false,
                };
                if done {
                    self.buffer = None;
                }
                ret
            },
            LineViewMode::Chop { width, left } => {
                self.mark_consumed();
                let ret = self.get_sub(left, width);
                self.buffer = None;
                ret
            },
            LineViewMode::WholeLine => {
                self.mark_consumed();
                self.buffer.take()
            },
        }
    }

    /// The previous piece of the current line, if any remains.
    pub fn sub_next_back(&mut self, mode: LineViewMode) -> (r: Option<LogLine>)
        requires
            back_pre(*old(self), mode),
        ensures
            back_post(*old(self), *final(self), mode, r),
    {
        match mode {
            LineViewMode::Wrap { width } => {
                let ret = self.get_sub(self.index, width);
                if self.buffer.is_some() {
                    if self.index == 0 {
                        self.buffer = None;
                    } else {
                        self.index = self.index - width;
                    }
                }
                self.mark_consumed();
                ret
            },
            LineViewMode::Chop { width, left } => {
                self.mark_consumed();
                let ret = self.get_sub(left, width);
                self.buffer = None;
                ret
            },
            LineViewMode::WholeLine => {
                self.mark_consumed();
                self.buffer.take()
            },
        }
    }

    /// Take in `line` for cutting forwards.
    pub fn init_fwd(&mut self, mode: LineViewMode, line: Option<LogLine>)
        requires
            fwd_ok(*old(self), mode, line),
        ensures
            *final(self) == (SubLineHelper { buffer: line, index: fwd_index(*old(self), mode, line), ..*old(self) }),
    {
        let ghost h = *self;
        let index = match mode {
            LineViewMode::Wrap { width } => match &line {
                Some(buffer) => {
                    let len = buffer.line.as_str().as_bytes().len();
                    if len > 0 {
                        match self.start {
                            Some(start) => if buffer.offset <= start && start < buffer.offset + len {
                                let i = start - buffer.offset;
                                proof {
                                    lemma_floor_multiple(i as int, width as int);
                                }
                                i - i % width
                            } else {
                                0
                            },
                            None => 0,
                        }
                    } else {
                        self.index
                    }
                },
                None => self.index,
            },
            _ => 0,
        };
        self.buffer = line;
        self.index = index;
    }

    /// Take in `line` and give its first piece.
    pub fn next(&mut self, mode: LineViewMode, line: Option<LogLine>) -> (r: Option<LogLine>)
        requires
            fwd_ok(*old(self), mode, line),
            next_pre(SubLineHelper { buffer: line, index: fwd_index(*old(self), mode, line), ..*old(self) }, mode),
        ensures
            next_post(
                SubLineHelper { buffer: line, index: fwd_index(*old(self), mode, line), ..*old(self) },
                *final(self),
                mode,
                r,
            ),
    {
        self.init_fwd(mode, line);
        self.sub_next(mode)
    }

    /// Take in `line` for cutting backwards.
    pub fn init_back(&mut self, mode: LineViewMode, line: Option<LogLine>)
        requires
            back_ok(*old(self), mode, line),
        ensures
            *final(self) == (SubLineHelper { buffer: line, index: back_index(*old(self), mode, line), ..*old(self) }),
    {
        let index = match mode {
            LineViewMode::Wrap { width } => match &line {
                Some(buffer) => {
                    let len = buffer.line.as_str().as_bytes().len();
                    if len > 0 {
                        let holds = match self.start {
                            Some(start) => buffer.offset <= start && start < buffer.offset + len,
                            None => false,
                        };
                        if holds {
                            let start = match self.start {
                                Some(st) => st,
                                None => 0,
                            };
                            let i = start - buffer.offset;
                            proof {
                                lemma_floor_multiple(i as int, width as int);
                            }
                            i - i % width
                        } else {
                            proof {
                                lemma_last_piece(len as int, width as int);
                            }
                            (len + width - 1) / width * width - width
                        }
                    } else {
                        self.index
                    }
                },
                None => self.index,
            },
            _ => 0,
        };
        self.buffer = line;
        self.index = index;
    }

    /// Take in `line` and give its last piece.
    pub fn next_back(&mut self, mode: LineViewMode, line: Option<LogLine>) -> (r: Option<LogLine>)
        requires
            back_ok(*old(self), mode, line),
            back_pre(SubLineHelper { buffer: line, index: back_index(*old(self), mode, line), ..*old(self) }, mode),
        ensures
            back_post(
                SubLineHelper { buffer: line, index: back_index(*old(self), mode, line), ..*old(self) },
                *final(self),
                mode,
                r,
            ),
    {
        self.init_back(mode, line);
        self.sub_next_back(mode)
    }

    /// The offset lies within the current line.
    pub fn contains(&self, offset: usize) -> (r: bool)
        requires
            self.buffer matches Some(b) ==> b.offset + bytes_of(b) <= usize::MAX,
        ensures
            r == (match self.buffer {
                Some(b) => b.offset <= offset < b.offset + bytes_of(b),
                None => false,
            }),
    {
        match &self.buffer {
            Some(buffer) => offset >= buffer.offset && offset < buffer.offset + buffer.line.as_str().as_bytes().len(),
            None => false,
        }
    }

    /// Split a wrapped line around `offset`: the backwards helper gets the pieces before the
    /// one holding `offset`, the forwards helper the piece holding it and those after.
    pub fn chop_prev(buffer: LogLine, mode: LineViewMode, offset: usize) -> (r: (SubLineHelper, SubLineHelper))
        requires
            back_ok(SubLineHelper { buffer: None, index: 0, start: None, consumed: None }, mode, Some(buffer)),
            mode is Wrap ==> buffer.offset + bytes_of(buffer) <= usize::MAX,
        ensures
            ({
                let (rev, fwd) = r;
                let rev0 = SubLineHelper {
                    buffer: Some(buffer),
                    index: back_index(SubLineHelper { buffer: None, index: 0, start: None, consumed: None }, mode, Some(buffer)),
                    start: None,
                    consumed: None,
                };
                match mode {
                    LineViewMode::Wrap { width } => if buffer.offset <= offset < buffer.offset + bytes_of(buffer) {
                        let fi = ((offset - buffer.offset) / (width as int) * (width as int)) as usize;
                        &&& fwd.index == fi && fwd.start is None && fwd.consumed is None
                        &&& line_view(fwd.buffer) == Some((buffer.line@, buffer.offset as int))
                        &&& rev.start is None && rev.consumed is None
                        &&& fi > 0 ==> rev.buffer == rev0.buffer && rev.index == fi - width
                        &&& fi == 0 ==> rev.buffer is None && rev.index == rev0.index
                    } else {
                        rev == rev0 && fwd == (SubLineHelper { buffer: None, index: 0, start: None, consumed: None })
                    },
                    _ => rev == rev0 && fwd == (SubLineHelper { buffer: None, index: 0, start: None, consumed: None }),
                }
            }),
    {
        let mut rev = Self::new();
        rev.init_back(mode, Some(buffer));
        match mode {
            LineViewMode::Wrap { width } => {
                if rev.contains(offset) {
                    let (line, line_offset) = match &rev.buffer {
                        Some(b) => (b.line.clone(), b.offset),
                        None => {
                            proof {
                                assert(false);
                            }
                            (String::new(), 0)
                        },
                    };
                    proof {
                        lemma_floor_multiple((offset - line_offset) as int, width as int);
                    }
                    let fwd_index = (offset - line_offset) / width * width;
                    let fwd_buf = if fwd_index > 0 {
                        rev.index = fwd_index - width;
                        Some(LogLine::new(line, line_offset))
                    } else {
                        rev.buffer.take()
                    };
                    let fwd = SubLineHelper { index: fwd_index, buffer: fwd_buf, start: None, consumed: None };
                    (rev, fwd)
                } else {
                    (rev, Self::new())
                }
            },
            _ => (rev, Self::new()),
        }
    }
}

proof fn lemma_last_piece(len: int, width: int)
    requires
        len > 0,
        width > 0,
        len + width <= usize::MAX,
    ensures
        width <= (len + width - 1) / width * width <= len + width - 1,
{
    assert((len + width - 1) / width >= 1) by (nonlinear_arith)
        requires
            len > 0,
            width > 0,
    ;
    assert(width <= (len + width - 1) / width * width) by (nonlinear_arith)
        requires
            (len + width - 1) / width >= 1,
            width > 0,
    ;
    assert((len + width - 1) / width * width <= len + width - 1) by (nonlinear_arith)
        requires
            width > 0,
            len + width - 1 >= 0,
    ;
}

proof fn lemma_floor_multiple(d: int, width: int)
    requires
        d >= 0,
        width > 0,
    ensures
        0 <= d / width * width <= d,
        d / width * width > 0 ==> d / width * width >= width,
        d % width <= d,
        d - d % width == d / width * width,
{
    assert(0 <= d / width * width <= d) by (nonlinear_arith)
        requires
            d >= 0,
            width > 0,
    ;
    assert(d / width * width > 0 ==> d / width * width >= width) by (nonlinear_arith)
        requires
            d >= 0,
            width > 0,
    ;
    assert(d == d / width * width + d % width) by (nonlinear_arith)
        requires
            width > 0,
    ;
}

/// One end of a range of offsets, as `std::ops::Bound` gives it.
#[derive(Copy, Clone, Debug, PartialEq, Eq)]
pub enum Bound {
    Included(usize),
    Excluded(usize),
    Unbounded,
}

/// A bound as an offset: the bound itself, the offset before an excluded one (zero before
/// zero), or `def` for none.
pub fn value_or(bound: Bound, def: usize) -> (r: usize)
    ensures
        r == match bound {
            Bound::Included(v) => v,
            Bound::Excluded(v) => if v > 0 { (v - 1) as usize } else { 0 },
            Bound::Unbounded => def,
        },
{
    match bound {
        Bound::Included(val) => val,
        Bound::Excluded(val) => val.saturating_sub(1),
        Bound::Unbounded => def,
    }
}

/// The first offset of a range, inclusive.
pub fn start_offset(bound: Bound) -> (r: usize)
    ensures
        r == match bound {
            Bound::Included(v) => v,
            Bound::Excluded(v) => if v < usize::MAX { (v + 1) as usize } else { usize::MAX },
            Bound::Unbounded => 0,
        },
{
    match bound {
        Bound::Included(val) => val,
        Bound::Excluded(val) => val.saturating_add(1),
        Bound::Unbounded => 0,
    }
}

/// The offset after a range, exclusive.
pub fn end_offset(bound: Bound) -> (r: usize)
    ensures
        r == match bound {
            Bound::Included(v) => if v < usize::MAX { (v + 1) as usize } else { usize::MAX },
            Bound::Excluded(v) => v,
            Bound::Unbounded => usize::MAX,
        },
{
    match bound {
        Bound::Included(val) => val.saturating_add(1),
        Bound::Excluded(val) => val,
        Bound::Unbounded => usize::MAX,
    }
}

} // verus!
