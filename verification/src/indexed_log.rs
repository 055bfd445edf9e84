//! Lines read from a log and the bookkeeping kept by each index.

use vstd::prelude::*;
use crate::waypoint::Position;

verus! {

/// One line of a log (or a chunk of one) and the byte offset where it starts.
#[derive(Debug, Clone, PartialEq, Eq)]
pub struct LogLine {
    pub line: String,
    pub offset: usize,
}

impl LogLine {
    pub fn new(line: String, offset: usize) -> (r: Self)
        ensures
            r.line == line,
            r.offset == offset,
    {
        Self { line, offset }
    }

    /// The text of the line as it is shown: the line alone, without its offset.
    pub fn to_string(&self) -> (r: String)
        ensures
            r@ == self.line@,
    {
        self.line.clone()
    }
}

/// Result of fetching a line: got it, found none, or ran out of time.
pub enum GetLine {
    Hit(Position, LogLine),
    Miss(Position),
    Timeout(Position),
}

impl GetLine {
    /// The position carried by the result, whatever kind it is.
    pub fn into_pos(self) -> (r: Position)
        ensures
            r == (match self {
                GetLine::Hit(p, _) => p,
                GetLine::Miss(p) => p,
                GetLine::Timeout(p) => p,
            }),
    {
        match self {
            GetLine::Hit(pos, _) => pos,
            GetLine::Miss(pos) => pos,
            GetLine::Timeout(pos) => pos,
        }
    }
}

/// Counters an index keeps about the work it has done.
#[derive(Debug)]
pub struct IndexStats {
    pub name: String,
    pub bytes_indexed: usize,
    pub lines_indexed: usize,
    pub bytes_total: usize,
}

impl Default for IndexStats {
    fn default() -> (r: Self)
        ensures
            r.name@ == Seq::<char>::empty(),
            r.bytes_indexed == 0,
            r.lines_indexed == 0,
            r.bytes_total == 0,
    {
        IndexStats { name: String::new(), bytes_indexed: 0, lines_indexed: 0, bytes_total: 0 }
    }
}

impl IndexStats {
    pub fn new(name: String) -> (r: Self)
        ensures
            r.name == name,
            r.bytes_indexed == 0,
            r.lines_indexed == 0,
            r.bytes_total == 0,
    {
        IndexStats { name, bytes_indexed: 0, lines_indexed: 0, bytes_total: 0 }
    }
}

} // verus!
