//! An in-memory log file, used to work on ephemeral files.

use vstd::prelude::*;
use vstd::utf8::{decode_utf8, valid_utf8};

verus! {

/// Offset just past the end of the line that starts at `o`: past the next newline, or the
/// end of the data if there is none.
pub open spec fn line_end(s: Seq<u8>, o: int) -> int
    decreases s.len() - o,
{
    if o >= s.len() {
        s.len() as int
    } else if s[o] == 10u8 {
        o + 1
    } else {
        line_end(s, o + 1)
    }
}

pub proof fn lemma_line_end_bounds(s: Seq<u8>, o: int)
    requires
        0 <= o,
    ensures
        o < s.len() ==> o < line_end(s, o) <= s.len(),
        o >= s.len() ==> line_end(s, o) == s.len(),
    decreases s.len() - o,
{
    if o < s.len() && s[o] != 10u8 {
        lemma_line_end_bounds(s, o + 1);
    }
}

/// A line of `s` starts at `o`: `o` is the start of the data or follows a newline.
pub open spec fn starts_line(s: Seq<u8>, o: int) -> bool {
    o == 0 || (0 < o <= s.len() && s[o - 1] == 10u8)
}

/// The first line start of `s` at or after `a`, or the length of `s` if there is none.
pub open spec fn first_line_from(s: Seq<u8>, a: int) -> int
    decreases s.len() - a,
{
    if a >= s.len() {
        s.len() as int
    } else if starts_line(s, a) {
        a
    } else {
        first_line_from(s, a + 1)
    }
}

/// The end of a line is where the next one starts, or the end of the data.
pub proof fn lemma_line_end_starts(s: Seq<u8>, o: int)
    requires
        0 <= o < s.len(),
    ensures
        starts_line(s, line_end(s, o)) || line_end(s, o) == s.len(),
        forall|x: int| o < x < line_end(s, o) ==> !starts_line(s, x),
    decreases s.len() - o,
{
    lemma_line_end_bounds(s, o);
    if s[o] != 10u8 {
        if o + 1 < s.len() {
            lemma_line_end_starts(s, o + 1);
            assert forall|x: int| o < x < line_end(s, o) implies !starts_line(s, x) by {
                if x > o + 1 {
                } else {
                    assert(s[x - 1] != 10u8);
                }
            }
        }
    }
}

/// The first line start from `a`: it is one, and none comes before it.
pub proof fn lemma_first_line(s: Seq<u8>, a: int)
    requires
        0 <= a <= s.len(),
    ensures
        a <= first_line_from(s, a) <= s.len(),
        first_line_from(s, a) < s.len() ==> starts_line(s, first_line_from(s, a)),
        forall|x: int| a <= x < first_line_from(s, a) ==> !starts_line(s, x),
    decreases s.len() - a,
{
    if a < s.len() && !starts_line(s, a) {
        lemma_first_line(s, a + 1);
    }
}

/// No line starts in `[a, b)`: the first line start from `a` is the first from `b`.
pub proof fn lemma_first_line_skip(s: Seq<u8>, a: int, b: int)
    requires
        0 <= a <= b <= s.len(),
        forall|x: int| a <= x < b ==> !starts_line(s, x),
    ensures
        first_line_from(s, a) == first_line_from(s, b),
    decreases b - a,
{
    if a < b {
        lemma_first_line_skip(s, a + 1, b);
    }
}

/// The text of `bytes`, with each invalid UTF-8 sequence replaced by U+FFFD.
pub uninterp spec fn lossy_text(bytes: Seq<u8>) -> Seq<char>;

/// Text of `bytes`, with each invalid UTF-8 sequence replaced by U+FFFD.
/// Calls `String::from_utf8_lossy`; its result depends on the bytes alone and is named;
/// its documentation promises that valid UTF-8 comes through unchanged.
#[verifier::external_body]
fn decode(bytes: &[u8]) -> (r: String)
    ensures
        r@ == lossy_text(bytes@),
        valid_utf8(bytes@) ==> r@ == decode_utf8(bytes@),
{
    String::from_utf8_lossy(bytes).into_owned()
}

/// Bytes of a log held in memory.
pub struct CursorLogFile {
    data: Vec<u8>,
}

impl View for CursorLogFile {
    type V = Seq<u8>;

    closed spec fn view(&self) -> Seq<u8> {
        self.data@
    }
}

impl CursorLogFile {
    pub fn new(data: Vec<u8>) -> (r: Self)
        ensures
            r@ == data@,
    {
        CursorLogFile { data }
    }

    /// The log fits in memory: its length is a `usize`.
    pub proof fn lemma_len_fits(&self)
        ensures
            self@.len() <= usize::MAX,
    {
        assert(self.data.len() == self.data@.len());
    }

    /// Length of the log in bytes.
    pub fn len(&self) -> (r: usize)
        ensures
            r == self@.len(),
    {
        self.data.len()
    }

    /// Wait for more data: the log is all in memory, so its length is all there is.
    pub fn poll(&mut self) -> (r: usize)
        ensures
            r == old(self)@.len(),
            final(self)@ == old(self)@,
    {
        self.len()
    }

    /// Whether more data may still arrive: never, for data held in memory.
    pub fn is_open(&self) -> (r: bool)
        ensures
            !r,
    {
        false
    }

    /// Offset just past the line that starts at `offset`.
    pub fn line_end_at(&self, offset: usize) -> (r: usize)
        ensures
            r == line_end(self@, offset as int),
    {
        let n = self.data.len();
        if offset >= n {
            return n;
        }
        let mut i = offset;
        while i < n && self.data[i] != 10u8
            invariant
                offset <= i <= n,
                n == self@.len(),
                line_end(self@, offset as int) == line_end(self@, i as int),
            decreases n - i,
        {
            i = i + 1;
        }
        if i < n {
            i + 1
        } else {
            n
        }
    }

    /// True if a line starts at `offset`: it is the start of the data or follows a newline.
    pub fn is_line_start(&self, offset: usize) -> (r: bool)
        requires
            offset <= self@.len(),
        ensures
            r == (offset == 0 || self@[offset - 1] == 10u8),
    {
        offset == 0 || self.data[offset - 1] == 10u8
    }

    /// Read the line starting at `offset`, newline included. Returns the number of bytes read
    /// and the text; nothing is read at or past the end of the data.
    pub fn read_line_at(&self, offset: usize) -> (r: (usize, String))
        ensures
            offset < self@.len() ==> offset + r.0 == line_end(self@, offset as int),
            offset >= self@.len() ==> r.0 == 0 && r.1@.len() == 0,
            offset < self@.len() ==> r.1@ == lossy_text(self@.subrange(offset as int, offset + r.0)),
            offset < self@.len() && valid_utf8(self@.subrange(offset as int, offset + r.0)) ==> r.1@ == decode_utf8(
                self@.subrange(offset as int, offset + r.0),
            ),
    {
        let n = self.data.len();
        if offset >= n {
            let empty: Vec<u8> = Vec::new();
            let text = decode(empty.as_slice());
            proof {
                assert(valid_utf8(empty@));
                assert(decode_utf8(empty@) =~= Seq::<char>::empty());
            }
            return (0, text);
        }
        let end = self.line_end_at(offset);
        proof { lemma_line_end_bounds(self@, offset as int); }
        let mut bytes: Vec<u8> = Vec::new();
        let mut i = offset;
        while i < end
            invariant
                offset <= i <= end <= n,
                n == self@.len(),
                bytes@ == self@.subrange(offset as int, i as int),
            decreases end - i,
        {
            bytes.push(self.data[i]);
            i = i + 1;
            proof { assert(bytes@ =~= self@.subrange(offset as int, i as int)); }
        }
        let text = decode(bytes.as_slice());
        (end - offset, text)
    }
}

} // verus!
