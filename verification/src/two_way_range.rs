//! A counter that runs from a start towards an end in steps of any sign.

use vstd::prelude::*;

verus! {

/// Counts from `start` by `step` for as long as the count lies on the far
/// side of `end`: above it where the range runs downwards (`start > end`),
/// below it where it does not.
pub struct TwoWayRange {
    start: i32,
    end: i32,
    step: i32,
    current: i32,
}

/// Why a range could not be made.
#[derive(Debug, Clone, Copy, PartialEq, Eq, Structural)]
pub enum TwoWayRangeError {
    ZeroStep,
}

impl TwoWayRange {
    /// Where the count started.
    pub closed spec fn start(&self) -> i32 {
        self.start
    }

    /// Where the count stops.
    pub closed spec fn end(&self) -> i32 {
        self.end
    }

    /// By how much the count moves each time.
    pub closed spec fn step(&self) -> i32 {
        self.step
    }

    /// The value that comes next, if any does.
    pub closed spec fn current(&self) -> i32 {
        self.current
    }

    /// Whether the range has a value left to give.
    pub open spec fn pending(&self) -> bool {
        if self.start() > self.end() {
            self.current() > self.end()
        } else {
            self.current() < self.end()
        }
    }

    /// A range that starts at `start`. A step of zero would never arrive and
    /// is refused.
    pub fn new(start: i32, end: i32, step: i32) -> (r: Result<Self, TwoWayRangeError>)
        ensures
            step == 0 <==> r is Err,
            r matches Ok(range) ==> range.start() == start && range.end() == end && range.step()
                == step && range.current() == start,
    {
        if step == 0 {
            return Err(TwoWayRangeError::ZeroStep);
        }
        Ok(Self { start, end, step, current: start })
    }

    /// Moves on by one step and returns the value from before.
    pub fn do_step(&mut self) -> (r: i32)
        requires
            i32::MIN <= old(self).current() + old(self).step() <= i32::MAX,
        ensures
            r == old(self).current(),
            final(self).current() == old(self).current() + old(self).step(),
            final(self).start() == old(self).start(),
            final(self).end() == old(self).end(),
            final(self).step() == old(self).step(),
    {
        let before = self.current;
        self.current = self.current + self.step;
        before
    }

    /// The next value of the range, or `None` once the count has reached or
    /// passed the end.
    pub fn next(&mut self) -> (r: Option<i32>)
        requires
            old(self).pending() ==> i32::MIN <= old(self).current() + old(self).step()
                <= i32::MAX,
        ensures
            final(self).start() == old(self).start(),
            final(self).end() == old(self).end(),
            final(self).step() == old(self).step(),
            old(self).pending() ==> r == Some(old(self).current()) && final(self).current()
                == old(self).current() + old(self).step(),
            !old(self).pending() ==> r is None && final(self).current() == old(self).current(),
    {
        if self.start > self.end {
            if self.current > self.end {
                Some(self.do_step())
            } else {
                None
            }
        } else {
            if self.current < self.end {
                Some(self.do_step())
            } else {
                None
            }
        }
    }
}

} // verus!
