//! Waypoints: regions of a file that are either mapped to a known line or still unexplored.

use vstd::prelude::*;
use std::ops::Range;
use std::cmp::Ordering;
use crate::sane_index::IndexIndex;

verus! {

/// A region of the file, `[start, end)`.
#[derive(Debug, PartialEq, Eq)]
pub enum Waypoint {
    /// A line we have seen before; the range covers the whole line.
    Mapped(Range<usize>),
    /// An uncharted region whose bytes have not been scanned yet.
    Unmapped(Range<usize>),
}

impl Clone for Waypoint {
    fn clone(&self) -> (r: Self)
        ensures
            r == *self,
    {
        match self {
            Waypoint::Mapped(r) => Waypoint::Mapped(r.start..r.end),
            Waypoint::Unmapped(r) => Waypoint::Unmapped(r.start..r.end),
        }
    }
}

impl Waypoint {
    /// The region covered by this waypoint.
    pub open spec fn span(self) -> Range<usize> {
        match self {
            Waypoint::Mapped(r) => r,
            Waypoint::Unmapped(r) => r,
        }
    }

    pub open spec fn lo(self) -> usize {
        self.span().start
    }

    pub open spec fn hi(self) -> usize {
        self.span().end
    }

    pub open spec fn spec_is_mapped(self) -> bool {
        self is Mapped
    }

    pub open spec fn spec_contains(self, offset: usize) -> bool {
        self.lo() <= offset && offset < self.hi()
    }

    /// The region covered by this waypoint.
    pub fn region(&self) -> (r: &Range<usize>)
        ensures
            *r == self.span(),
    {
        match self {
            Waypoint::Mapped(range) => range,
            Waypoint::Unmapped(range) => range,
        }
    }

    /// `self` sorts strictly before `other` in the order `cmp` defines.
    pub open spec fn spec_before(self, other: Waypoint) -> bool {
        ||| self.lo() < other.lo()
        ||| (self.lo() == other.lo() && self is Mapped && other is Unmapped)
        ||| (self.lo() == other.lo() && self is Unmapped && other is Unmapped && self.hi() < other.hi())
    }

    /// True if `self` sorts strictly before `other`.
    pub fn before(&self, other: &Self) -> (r: bool)
        ensures
            r == self.spec_before(*other),
    {
        let a = self.region();
        let b = other.region();
        if a.start != b.start {
            a.start < b.start
        } else {
            match (self, other) {
                (Waypoint::Mapped(_), Waypoint::Unmapped(_)) => true,
                (Waypoint::Unmapped(x), Waypoint::Unmapped(y)) => x.end < y.end,
                _ => false,
            }
        }
    }

    /// Offset used for sorting: the start of the region.
    pub fn cmp_offset(&self) -> (r: usize)
        ensures
            r == self.lo(),
    {
        match self {
            Waypoint::Mapped(r) => r.start,
            Waypoint::Unmapped(r) => r.start,
        }
    }

    /// End of the region (exclusive).
    pub fn end_offset(&self) -> (r: usize)
        ensures
            r == self.hi(),
    {
        match self {
            Waypoint::Mapped(r) => r.end,
            Waypoint::Unmapped(r) => r.end,
        }
    }

    /// True if `offset` lies in the region.
    pub fn contains(&self, offset: usize) -> (r: bool)
        ensures
            r == self.spec_contains(offset),
    {
        self.cmp_offset() <= offset && offset < self.end_offset()
    }

    pub fn is_mapped(&self) -> (r: bool)
        ensures
            r == self.spec_is_mapped(),
    {
        matches!(self, Waypoint::Mapped(_))
    }
    /// Split an unmapped region at `offset` into the part before it and the part from it on.
    /// Either part is `None` when it would be empty.
    pub fn split_at(&self, offset: usize) -> (r: (Option<Waypoint>, Option<Waypoint>))
        requires
            !self.spec_is_mapped(),
        ensures
            r.0 == (if self.lo() < offset {
                Some(Waypoint::Unmapped(self.lo()..(if offset < self.hi() { offset } else { self.hi() })))
            } else {
                None::<Waypoint>
            }),
            r.1 == (if self.hi() > offset {
                Some(Waypoint::Unmapped((if offset > self.lo() { offset } else { self.lo() })..self.hi()))
            } else {
                None::<Waypoint>
            }),
    {
        match self {
            Waypoint::Mapped(_) => {
                proof { assert(false); }
                (None, None)
            },
            Waypoint::Unmapped(range) => {
                let left = if range.start < offset {
                    let e = if offset < range.end { offset } else { range.end };
                    Some(Waypoint::Unmapped(range.start..e))
                } else {
                    None
                };
                let right = if range.end > offset {
                    let s = if offset > range.start { offset } else { range.start };
                    Some(Waypoint::Unmapped(s..range.end))
                } else {
                    None
                };
                (left, right)
            },
        }
    }

    /// Order waypoints by start offset; on equal starts a mapped waypoint sorts before an
    /// unmapped one, and two unmapped ones sort by their end.
    pub open spec fn order(self, other: Waypoint) -> Ordering {
        if self.lo() < other.lo() {
            Ordering::Less
        } else if self.lo() > other.lo() {
            Ordering::Greater
        } else {
            match (self, other) {
                (Waypoint::Mapped(_), Waypoint::Mapped(_)) => Ordering::Equal,
                (Waypoint::Mapped(_), Waypoint::Unmapped(_)) => Ordering::Less,
                (Waypoint::Unmapped(_), Waypoint::Mapped(_)) => Ordering::Greater,
                (Waypoint::Unmapped(a), Waypoint::Unmapped(b)) => {
                    if a.end < b.end {
                        Ordering::Less
                    } else if a.end > b.end {
                        Ordering::Greater
                    } else {
                        Ordering::Equal
                    }
                },
            }
        }
    }

    /// The order of waypoints is a total preorder: reflexive, reversed by swapping the two
    /// sides, and transitive. (Two waypoints can be equal in it without being the same: two
    /// lines that start at one offset.)
    pub proof fn lemma_order_total(a: Waypoint, b: Waypoint, c: Waypoint)
        ensures
            a.order(a) == Ordering::Equal,
            (a.order(b) == Ordering::Less) == (b.order(a) == Ordering::Greater),
            (a.order(b) == Ordering::Equal) == (b.order(a) == Ordering::Equal),
            a.order(b) != Ordering::Greater && b.order(c) != Ordering::Greater ==> a.order(c) != Ordering::Greater,
            a.order(b) == Ordering::Less && b.order(c) != Ordering::Greater ==> a.order(c) == Ordering::Less,
    {
    }

    /// Three-way comparison of two waypoints, as `order` defines it.
    pub fn cmp(&self, other: &Self) -> (r: Ordering)
        ensures
            r == self.order(*other),
    {
        let a = self.cmp_offset();
        let b = other.cmp_offset();
        if a < b {
            Ordering::Less
        } else if a > b {
            Ordering::Greater
        } else {
            match (self, other) {
                (Waypoint::Mapped(_), Waypoint::Mapped(_)) => Ordering::Equal,
                (Waypoint::Mapped(_), Waypoint::Unmapped(_)) => Ordering::Less,
                (Waypoint::Unmapped(_), Waypoint::Mapped(_)) => Ordering::Greater,
                (Waypoint::Unmapped(x), Waypoint::Unmapped(y)) => {
                    if x.end < y.end {
                        Ordering::Less
                    } else if x.end > y.end {
                        Ordering::Greater
                    } else {
                        Ordering::Equal
                    }
                },
            }
        }
    }

    /// Structural equality of two waypoints.
    pub fn same(&self, other: &Self) -> (r: bool)
        ensures
            r == (*self == *other),
    {
        match (self, other) {
            (Waypoint::Mapped(x), Waypoint::Mapped(y)) => x.start == y.start && x.end == y.end,
            (Waypoint::Unmapped(x), Waypoint::Unmapped(y)) => x.start == y.start && x.end == y.end,
            _ => false,
        }
    }
}

/// A position that may not be resolved to a waypoint yet.
#[derive(Debug, Clone, Copy, PartialEq, Eq)]
pub enum VirtualPosition {
    /// Start of file
    Start,
    /// End of file
    End,
    /// Invalid iterator (exhausted)
    Invalid,
    /// Offset in the file
    Offset(usize),
}

impl VirtualPosition {
    pub open spec fn spec_offset(self) -> Option<usize> {
        match self {
            VirtualPosition::Offset(o) => Some(o),
            VirtualPosition::Start => Some(0),
            VirtualPosition::End => Some(usize::MAX),
            VirtualPosition::Invalid => None,
        }
    }

    /// The file offset this position stands for; `None` when exhausted.
    pub fn offset(&self) -> (r: Option<usize>)
        ensures
            r == self.spec_offset(),
    {
        match self {
            VirtualPosition::Offset(offset) => Some(*offset),
            VirtualPosition::Start => Some(0),
            VirtualPosition::End => Some(usize::MAX),
            VirtualPosition::Invalid => None,
        }
    }
}

/// A cursor into a SaneIndex.
#[derive(Debug, PartialEq, Eq)]
pub enum Position {
    /// Some unresolved position
    Virtual(VirtualPosition),
    /// A waypoint that exists (or existed) in the index: where it was, the offset we were
    /// heading for, and the waypoint itself.
    Existing(IndexIndex, usize, Waypoint),
}

impl Clone for Position {
    fn clone(&self) -> (r: Self)
        ensures
            r == *self,
    {
        match self {
            Position::Virtual(v) => Position::Virtual(*v),
            Position::Existing(i, t, w) => Position::Existing(*i, *t, w.clone()),
        }
    }
}

impl Position {
    pub open spec fn spec_least_offset(self) -> usize {
        match self {
            Position::Virtual(v) => match v.spec_offset() {
                Some(o) => o,
                None => usize::MAX,
            },
            Position::Existing(_, _, w) => w.lo(),
        }
    }

    pub open spec fn spec_waypoint(self) -> Option<(Waypoint, usize)> {
        match self {
            Position::Existing(_, t, w) => Some((w, t)),
            _ => None,
        }
    }

    /// An exhausted position.
    pub fn invalid() -> (r: Self)
        ensures
            r == Position::Virtual(VirtualPosition::Invalid),
    {
        Position::Virtual(VirtualPosition::Invalid)
    }

    /// A virtual position at the given offset.
    pub fn from_offset(offset: usize) -> (r: Self)
        ensures
            r == Position::Virtual(VirtualPosition::Offset(offset)),
    {
        Position::Virtual(VirtualPosition::Offset(offset))
    }

    pub fn is_invalid(&self) -> (r: bool)
        ensures
            r == (*self == Position::Virtual(VirtualPosition::Invalid)),
    {
        matches!(self, Position::Virtual(VirtualPosition::Invalid))
    }

    pub fn is_virtual(&self) -> (r: bool)
        ensures
            r == (*self is Virtual),
    {
        matches!(self, Position::Virtual(_))
    }

    /// True if this position is at an unmapped waypoint.
    pub fn is_unmapped(&self) -> (r: bool)
        ensures
            r == (*self matches Position::Existing(_, _, w) && !w.spec_is_mapped()),
    {
        matches!(self, Position::Existing(_, _, Waypoint::Unmapped(_)))
    }

    /// True if this position is at a mapped waypoint.
    pub fn is_mapped(&self) -> (r: bool)
        ensures
            r == (*self matches Position::Existing(_, _, w) && w.spec_is_mapped()),
    {
        matches!(self, Position::Existing(_, _, Waypoint::Mapped(_)))
    }

    /// The region of the waypoint at this position.
    pub fn region(&self) -> (r: &Range<usize>)
        requires
            *self is Existing,
        ensures
            *r == self->Existing_2.span(),
    {
        match self {
            Position::Existing(_, _, Waypoint::Mapped(range)) => range,
            Position::Existing(_, _, Waypoint::Unmapped(range)) => range,
            Position::Virtual(_) => unreached(),
        }
    }

    /// The waypoint at this position and the offset we were heading for, if there is one.
    pub fn waypoint(&self) -> (r: Option<(Waypoint, usize)>)
        ensures
            r == self.spec_waypoint(),
    {
        match self {
            Position::Existing(_, target, waypoint) => Some((waypoint.clone(), *target)),
            _ => None,
        }
    }

    /// The least offset this position could stand for.
    pub fn least_offset(&self) -> (r: usize)
        ensures
            r == self.spec_least_offset(),
    {
        match self {
            Position::Virtual(virt) => match virt.offset() {
                Some(o) => o,
                None => usize::MAX,
            },
            Position::Existing(_, _, waypoint) => waypoint.cmp_offset(),
        }
    }

    /// Is this position still to the left of the other position?
    /// A virtual position has not advanced anywhere yet, so it is left of anything.
    pub fn lt(&self, other: &Self) -> (r: bool)
        ensures
            r == (*self is Virtual || *other is Virtual || self.spec_least_offset()
                < other.spec_least_offset()),
    {
        if matches!(self, Position::Virtual(_)) || matches!(other, Position::Virtual(_)) {
            return true;
        }
        let left = self.least_offset();
        let right = other.least_offset();
        left < right
    }

    /// Pull a virtual position at or past `eof` back to the last byte of the file.
    pub fn clip(&mut self, eof: usize)
        ensures
            *final(self) == (match *old(self) {
                Position::Virtual(VirtualPosition::Offset(o)) => if o >= eof {
                    Position::Virtual(VirtualPosition::Offset(if eof > 0 { (eof - 1) as usize } else { 0 }))
                } else {
                    *old(self)
                },
                Position::Virtual(VirtualPosition::End) => Position::Virtual(
                    VirtualPosition::Offset(if eof > 0 { (eof - 1) as usize } else { 0 }),
                ),
                _ => *old(self),
            }),
    {
        match self {
            Position::Virtual(VirtualPosition::Offset(offset)) => {
                if *offset >= eof {
                    *self = Position::Virtual(VirtualPosition::Offset(eof.saturating_sub(1)))
                }
            },
            Position::Virtual(VirtualPosition::End) => {
                *self = Position::Virtual(VirtualPosition::Offset(eof.saturating_sub(1)))
            },
            _ => {},
        }
    }
}

} // verus!
