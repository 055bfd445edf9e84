//! How a long line is cut into pieces for display.

use vstd::prelude::*;

verus! {

/// Line clipping modes:
///  - Wrap: break lines at exactly the last byte that fits; show the remainder on the next line
///  - Clip: clip the leading and trailing portions of the line; do not show the remainder
///  - WholeLine: show the whole line; the display handles wrapping somehow
#[derive(Clone, Copy, Debug, PartialEq, Eq)]
pub enum LineViewMode {
    Wrap { width: usize },
    Clip { width: usize, left: usize },
    WholeLine,
}

impl LineViewMode {
    /// True if a line may be displayed in several chunks (wrapped).
    pub fn is_chunked(&self) -> (r: bool)
        ensures
            r == (*self is Wrap),
    {
        matches!(self, LineViewMode::Wrap { width: _ })
    }

    /// The start of the chunk holding position `index` of a line.
    pub fn chunk_start(&self, index: usize) -> (r: usize)
        requires
            *self matches LineViewMode::Wrap { width } ==> width > 0,
        ensures
            r == (match *self {
                LineViewMode::Wrap { width } => (index - index % width) as usize,
                LineViewMode::Clip { width: _, left } => left,
                LineViewMode::WholeLine => 0,
            }),
    {
        match self {
            LineViewMode::Wrap { width } => {
                proof {
                    assert(index % *width <= index) by (nonlinear_arith)
                        requires
                            *width > 0,
                    {}
                }
                index - index % *width
            },
            LineViewMode::Clip { width: _, left } => *left,
            LineViewMode::WholeLine => 0,
        }
    }

    /// The end of the chunk that starts at `start`, in a line that ends at `end`.
    pub fn chunk_end(&self, start: usize, end: usize) -> (r: usize)
        requires
            *self matches LineViewMode::Wrap { width } ==> start + width <= usize::MAX,
            *self matches LineViewMode::Clip { width, left: _ } ==> start + width <= usize::MAX,
        ensures
            r == (match *self {
                LineViewMode::Wrap { width } => if end < start + width { end } else { (start + width) as usize },
                LineViewMode::Clip { width, left: _ } => if end < start + width { end } else { (start + width) as usize },
                LineViewMode::WholeLine => end,
            }),
    {
        match self {
            LineViewMode::Wrap { width } => {
                let e = start + *width;
                if end < e { end } else { e }
            },
            LineViewMode::Clip { width, left: _ } => {
                let e = start + *width;
                if end < e { end } else { e }
            },
            LineViewMode::WholeLine => end,
        }
    }
}

} // verus!
