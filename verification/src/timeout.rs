//! A latching timeout: once the deadline is seen to have passed, it stays timed out.

use vstd::prelude::*;
use std::time::{Duration, Instant};

verus! {

#[verifier::external_type_specification]
#[verifier::external_body]
pub struct ExInstant(Instant);

/// `Instant::now().checked_add(limit)`: the moment `limit` from now, or `None` where the
/// clock cannot represent it. Nothing is promised of which: it depends on the clock.
#[verifier::external_body]
fn deadline_after(limit: Duration) -> Option<Instant> {
    Instant::now().checked_add(limit)
}

/// `Instant::now() > t`: whether the clock has passed `t`. Nothing is promised of it.
#[verifier::external_body]
fn has_passed(t: &Instant) -> bool {
    Instant::now() > *t
}

pub enum Timeout {
    /// No limit set.
    Unset,
    /// A limit set to run out at the given moment.
    Future(Instant),
    /// The limit ran out.
    TimedOut,
}

impl Timeout {
    /// Run out `limit` from now, or never: with no limit, or one so far off that the clock
    /// cannot represent the moment.
    pub fn set(&mut self, limit: Option<Duration>)
        ensures
            limit is None ==> *final(self) is Unset,
            limit is Some ==> *final(self) is Future || *final(self) is Unset,
    {
        *self = match limit {
            Some(dur) => match deadline_after(dur) {
                Some(t) => Timeout::Future(t),
                None => Timeout::Unset,
            },
            None => Timeout::Unset,
        };
    }

    /// Check the clock and latch if the limit ran out; returns whether it has.
    pub fn is_timed_out(&mut self) -> (r: bool)
        ensures
            r == (*final(self) is TimedOut),
            *old(self) is Unset ==> *final(self) is Unset,
            *old(self) is TimedOut ==> *final(self) is TimedOut,
            *old(self) is Future ==> *final(self) is TimedOut || *final(self) == *old(self),
    {
        let passed = match self {
            Timeout::Future(t) => has_passed(t),
            _ => false,
        };
        if passed {
            *self = Timeout::TimedOut;
        }
        self.timed_out()
    }

    /// Whether a previous check found the limit run out.
    pub fn timed_out(&self) -> (r: bool)
        ensures
            r == (*self is TimedOut),
    {
        matches!(self, Timeout::TimedOut)
    }
}

} // verus!
