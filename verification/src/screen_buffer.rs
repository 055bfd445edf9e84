//! The rows of one screen update, kept until they are written out together: styled lines,
//! and raw text (cursor moves, clears) written in between.

use vstd::prelude::*;
use vstd::utf8::{valid_utf8, decode_utf8, encode_utf8};
use vstd::string::StringSliceAdditionalSpecFns;
use crate::styled_line::{
    byte_slice, byte_slice_spec, piece_view, style_of, to_style, PattColor, Piece, StyledLine, TextStyle,
};

verus! {

/// Read `buf` as UTF-8 with `std::str::from_utf8`: it succeeds exactly on valid UTF-8, and
/// then holds the characters the bytes encode.
#[verifier::external_body]
fn utf8_str(buf: &[u8]) -> (r: Option<&str>)
    ensures
        r is Some <==> valid_utf8(buf@),
        r matches Some(s) ==> s@ == decode_utf8(buf@),
{
    std::str::from_utf8(buf).ok()
}

/// The pieces drawn for the row `line` with phrases `v`, from the phrase at `i` on: a row
/// with no pattern is drawn whole; else each phrase's bytes up to the next phrase or the
/// screen width, stopping at the width.
pub open spec fn row_pieces(line: Seq<char>, v: Seq<crate::styled_line::Phrase>, width: usize, i: int) -> Seq<(Option<TextStyle>, Seq<char>)>
    decreases v.len() - i,
{
    if i < 0 || i + 1 >= v.len() {
        Seq::empty()
    } else if v[i].patt is NoPattern {
        seq![(None, line)]
    } else {
        let end = if width < v[i + 1].start { width } else { v[i + 1].start };
        let piece = (Some(style_of(v[i].patt)), byte_slice_spec(line, v[i].start, end).unwrap());
        if end == width {
            seq![piece]
        } else {
            seq![piece] + row_pieces(line, v, width, i + 1)
        }
    }
}

/// Drawing the row from the phrase at `i` on panics nowhere: each phrase drawn has a style,
/// and its bytes can be cut from the line.
pub open spec fn row_drawable(line: Seq<char>, v: Seq<crate::styled_line::Phrase>, width: usize, i: int) -> bool
    decreases v.len() - i,
{
    if i < 0 || i + 1 >= v.len() {
        true
    } else if v[i].patt is NoPattern {
        true
    } else {
        let end = if width < v[i + 1].start { width } else { v[i + 1].start };
        &&& (end > v[i].start || end == 0)
        &&& !(v[i].patt is Semantic)
        &&& byte_slice_spec(line, v[i].start, end) is Some
        &&& (end == width || row_drawable(line, v, width, i + 1))
    }
}

/// The pieces drawn for all the rows, in order.
pub open spec fn buffer_pieces(rows: Seq<StyledLine>, width: usize) -> Seq<(Option<TextStyle>, Seq<char>)>
    decreases rows.len(),
{
    if rows.len() == 0 {
        Seq::empty()
    } else {
        buffer_pieces(rows.drop_last(), width) + row_pieces(rows.last().line@, rows.last().phrases@, width, 0)
    }
}

pub open spec fn pieces_view(p: Seq<Piece>) -> Seq<(Option<TextStyle>, Seq<char>)> {
    p.map_values(|x: Piece| piece_view(x))
}

pub struct ScreenBuffer {
    pub content: Vec<StyledLine>,
    pub width: usize,
}

impl ScreenBuffer {
    pub fn new() -> (r: Self)
        ensures
            r.content@.len() == 0,
            r.width == 0,
    {
        ScreenBuffer { content: Vec::new(), width: 0 }
    }

    pub fn set_width(&mut self, width: usize)
        ensures
            final(self).width == width,
            final(self).content == old(self).content,
    {
        self.width = width;
    }

    pub fn push(&mut self, line: StyledLine)
        ensures
            final(self).content@ == old(self).content@.push(line),
            final(self).width == old(self).width,
    {
        self.content.push(line);
    }

    /// Keep raw text, such as a terminal command, as a row drawn as it is.
    pub fn push_raw(&mut self, data: &str)
        ensures
            final(self).width == old(self).width,
            final(self).content@.len() == old(self).content@.len() + 1,
            final(self).content@.drop_last() == old(self).content@,
            final(self).content@.last().line@ == data@,
            final(self).content@.last().phrases@ == seq![
                crate::styled_line::Phrase { start: 0, patt: PattColor::NoPattern },
                crate::styled_line::Phrase { start: data.spec_bytes().len() as usize, patt: PattColor::NoPattern },
            ],
    {
        self.content.push(StyledLine::new(data, PattColor::NoPattern));
        proof {
            assert(self.content@.drop_last() =~= old(self).content@);
        }
    }

    /// Take bytes written to the buffer: valid UTF-8 is kept as a raw row and its length
    /// returned; anything else is refused with `None`.
    pub fn write(&mut self, buf: &[u8]) -> (r: Option<usize>)
        ensures
            r is Some <==> valid_utf8(buf@),
            r matches Some(n) ==> n == buf@.len()
                && final(self).content@.len() == old(self).content@.len() + 1
                && final(self).content@.drop_last() == old(self).content@
                && final(self).content@.last().line@ == decode_utf8(buf@),
            r is None ==> *final(self) == *old(self),
    {
        broadcast use vstd::utf8::decode_utf8_encode_utf8;

        match utf8_str(buf) {
            Some(s) => {
                proof {
                    assert(encode_utf8(decode_utf8(buf@)) == buf@);
                }
                let n = buf.len();
                self.push_raw(s);
                assert(s.len() == n);
                Some(s.len())
            },
            None => None,
        }
    }

    /// Whether every row can be drawn: `flush` needs it, and drawing panics without it.
    pub fn can_flush(&self) -> (r: bool)
        ensures
            r == forall|t: int| 0 <= t < self.content@.len() ==> row_drawable(
                (#[trigger] self.content@[t]).line@,
                self.content@[t].phrases@,
                self.width,
                0,
            ),
    {
        let width = self.width;
        let mut t: usize = 0;
        while t < self.content.len()
            invariant
                0 <= t <= self.content@.len(),
                width == self.width,
                forall|u: int| 0 <= u < t ==> row_drawable(
                    (#[trigger] self.content@[u]).line@,
                    self.content@[u].phrases@,
                    width,
                    0,
                ),
            decreases self.content@.len() - t,
        {
            let row = &self.content[t];
            let ghost line = row.line@;
            let ghost v = row.phrases@;
            let n = row.phrases.len();
            let mut i: usize = 0;
            let mut ok = true;
            while i < n && n - i >= 2
                invariant_except_break
                    ok,
                    row_drawable(line, v, width, 0) == row_drawable(line, v, width, i as int),
                invariant
                    n == v.len(),
                    line == row.line@,
                    v == row.phrases@,
                    0 <= i <= n,
                ensures
                    ok == row_drawable(line, v, width, 0),
                decreases n - i,
            {
                let p = row.phrases[i];
                let q = row.phrases[i + 1];
                if matches!(p.patt, PattColor::NoPattern) {
                    break;
                }
                let end = if width < q.start { width } else { q.start };
                if !((end > p.start || end == 0) && !matches!(p.patt, PattColor::Semantic)
                    && byte_slice(row.line.as_str(), p.start, end).is_some()) {
                    ok = false;
                    break;
                }
                if end == width {
                    break;
                }
                i = i + 1;
            }
            if !ok {
                return false;
            }
            t = t + 1;
        }
        true
    }

    /// Take all the rows out as the pieces to write to the terminal, and empty the buffer.
    pub fn flush(&mut self) -> (r: Vec<Piece>)
        requires
            forall|t: int| 0 <= t < old(self).content@.len() ==> row_drawable(
                (#[trigger] old(self).content@[t]).line@,
                old(self).content@[t].phrases@,
                old(self).width,
                0,
            ),
        ensures
            pieces_view(r@) == buffer_pieces(old(self).content@, old(self).width),
            final(self).content@.len() == 0,
            final(self).width == old(self).width,
    {
        let ghost rows = self.content@;
        let width = self.width;
        let mut out: Vec<Piece> = Vec::new();
        let mut t: usize = 0;
        proof {
            assert(rows.take(0) =~= Seq::<StyledLine>::empty());
            assert(pieces_view(out@) =~= Seq::<(Option<TextStyle>, Seq<char>)>::empty());
        }
        while t < self.content.len()
            invariant
                rows == self.content@,
                width == self.width,
                0 <= t <= rows.len(),
                forall|u: int| 0 <= u < rows.len() ==> row_drawable(
                    (#[trigger] rows[u]).line@,
                    rows[u].phrases@,
                    width,
                    0,
                ),
                pieces_view(out@) == buffer_pieces(rows.take(t as int), width),
            decreases rows.len() - t,
        {
            let row = &self.content[t];
            let ghost line = row.line@;
            let ghost v = row.phrases@;
            let ghost base = pieces_view(out@);
            let n = row.phrases.len();
            let mut i: usize = 0;
            proof {
                assert(row_drawable(rows[t as int].line@, rows[t as int].phrases@, width, 0));
                assert(pieces_view(out@) =~= base + Seq::<(Option<TextStyle>, Seq<char>)>::empty());
            }
            while i < n && n - i >= 2
                invariant_except_break
                    row_drawable(line, v, width, i as int),
                    pieces_view(out@) + row_pieces(line, v, width, i as int) == base + row_pieces(line, v, width, 0),
                invariant
                    n == v.len(),
                    line == row.line@,
                    v == row.phrases@,
                    0 <= i <= n,
                ensures
                    pieces_view(out@) == base + row_pieces(line, v, width, 0),
                decreases n - i,
            {
                let p = row.phrases[i];
                let q = row.phrases[i + 1];
                let ghost before = out@;
                if matches!(p.patt, PattColor::NoPattern) {
                    out.push(Piece::Plain(row.line.clone()));
                    proof {
                        assert(pieces_view(out@) =~= pieces_view(before) + row_pieces(line, v, width, i as int));
                    }
                    break;
                }
                let end = if width < q.start { width } else { q.start };
                let text = match byte_slice(row.line.as_str(), p.start, end) {
                    Some(s) => s.to_owned(),
                    None => {
                        proof {
                            assert(false);
                        }
                        String::new()
                    },
                };
                out.push(Piece::Styled(to_style(p.patt), text));
                proof {
                    assert(pieces_view(out@) =~= pieces_view(before).push(
                        (Some(style_of(p.patt)), byte_slice_spec(line, p.start, end).unwrap()),
                    ));
                }
                if end == width {
                    proof {
                        assert(pieces_view(out@) =~= pieces_view(before) + row_pieces(line, v, width, i as int));
                    }
                    break;
                }
                proof {
                    assert(row_pieces(line, v, width, i as int) =~= seq![
                        (Some(style_of(p.patt)), byte_slice_spec(line, p.start, end).unwrap()),
                    ] + row_pieces(line, v, width, i + 1));
                    assert(pieces_view(out@) + row_pieces(line, v, width, i + 1) =~= pieces_view(before) + row_pieces(line, v, width, i as int));
                }
                i = i + 1;
            }
            proof {
                assert(rows.take(t + 1).drop_last() =~= rows.take(t as int));
                assert(rows.take(t + 1).last() == rows[t as int]);
            }
            t = t + 1;
        }
        proof {
            assert(rows.take(rows.len() as int) =~= rows);
        }
        self.content = Vec::new();
        out
    }
}

} // verus!
