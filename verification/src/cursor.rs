//! The single-use, stateful cursor over a progression.  A pull emits the
//! value at the current position and advances, or makes the one
//! transition to the exhausted state; an exhausted cursor never reports a
//! value again.

use vstd::prelude::*;
use num_bigint::BigInt;
use crate::big::{big_add, big_clone, big_from_i64, big_value};
use crate::errors::ErrorKind;
use crate::protocol::PullEvent;
use crate::range::{spec_at, spec_reversed, RangeType};

verus! {

/// A cursor over a progression: the progression itself, the position of
/// the next value, and whether exhaustion has already been reported.
pub struct RangeCursor {
    pub range: RangeType,
    pub position: BigInt,
    pub exhausted: bool,
}

impl RangeCursor {
    /// The cursor's progression is well formed and its position is a
    /// non-negative offset.
    pub open spec fn wf(&self) -> bool {
        self.range.wf() && big_value(self.position) >= 0
    }

    /// A fresh cursor at position zero: obtaining a new cursor always
    /// restarts from the beginning.
    pub fn new(range: RangeType) -> (r: RangeCursor)
        requires
            range.wf(),
        ensures
            r.wf(),
            r.range == range,
            big_value(r.position) == 0,
            !r.exhausted,
    {
        RangeCursor { range, position: big_from_i64(0), exhausted: false }
    }

    /// One protocol pull: the value at the current position and a step
    /// forward while one exists, else the single transition to the
    /// exhausted state.  Exhaustion is terminal, and an ordinary error
    /// never occurs.
    pub fn pull(&mut self) -> (r: PullEvent<BigInt, ErrorKind>)
        requires
            old(self).wf(),
        ensures
            final(self).wf(),
            final(self).range == old(self).range,
            match r {
                PullEvent::Value(v) => !old(self).exhausted && big_value(old(self).position)
                    < old(self).range.len_int() && big_value(v) == spec_at(
                    old(self).range.start_int(),
                    old(self).range.step_int(),
                    big_value(old(self).position),
                ) && big_value(final(self).position) == big_value(old(self).position) + 1
                    && !final(self).exhausted,
                PullEvent::Exhausted => (old(self).exhausted || big_value(old(self).position)
                    >= old(self).range.len_int()) && final(self).exhausted && big_value(
                    final(self).position,
                ) == big_value(old(self).position),
                PullEvent::Failed(_) => false,
            },
    {
        if self.exhausted {
            return PullEvent::Exhausted;
        }
        match self.range.get(&self.position) {
            Some(v) => {
                let one = big_from_i64(1);
                let next = big_add(&self.position, &one);
                self.position = next;
                PullEvent::Value(v)
            },
            None => {
                self.exhausted = true;
                PullEvent::Exhausted
            },
        }
    }
}

/// A fresh cursor over the progression, starting at position zero.  The
/// progression itself is restartable: each call gives an independent
/// cursor over the same values.
pub fn range_iter(zelf: &RangeType) -> (r: RangeCursor)
    requires
        zelf.wf(),
    ensures
        r.wf(),
        r.range.model() == zelf.model(),
        big_value(r.position) == 0,
        !r.exhausted,
{
    let copy = RangeType {
        start: big_clone(&zelf.start),
        end: big_clone(&zelf.end),
        step: big_clone(&zelf.step),
    };
    RangeCursor::new(copy)
}

/// A fresh cursor over the reversed progression.  An empty progression
/// is undefined input for reversal, so callers guard with `is_empty`.
pub fn range_reversed(zelf: &RangeType) -> (r: RangeCursor)
    requires
        zelf.wf(),
        zelf.len_int() > 0,
    ensures
        r.wf(),
        r.range.model() == spec_reversed(zelf.start_int(), zelf.end_int(), zelf.step_int()),
        big_value(r.position) == 0,
        !r.exhausted,
{
    RangeCursor::new(zelf.reversed())
}

} // verus!
