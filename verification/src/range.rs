//! The arithmetic progression type: an immutable sequence of
//! arbitrary-precision integers given by a start, an exclusive end and a
//! nonzero step, together with its query operations and the functions the
//! runtime binds to it.
//!
//! Specifications speak of the triple of mathematical integers behind the
//! three `BigInt` fields.  The sequence a progression represents is
//! `spec_seq`, its length `spec_len`, and all index and slice queries are
//! proved against them.

use vstd::prelude::*;
use vstd::arithmetic::div_mod::{
    lemma_basic_div, lemma_div_multiples_vanish, lemma_div_pos_is_pos, lemma_fundamental_div_mod,
    lemma_fundamental_div_mod_converse_div, lemma_mod_division_less_than_divisor,
    lemma_mod_multiples_basic,
};
use num_bigint::BigInt;
use crate::big::{
    abs_int, big_abs, big_add, big_clone, big_div, big_eq, big_from_i64, big_is_multiple_of,
    big_is_negative, big_is_positive, big_is_zero, big_lt, big_mul, big_neg, big_rem, big_sub,
    big_to_decimal, big_to_usize, big_value, decimal_of, div_trunc, rem_trunc, str_append,
};
use crate::errors::ErrorKind;

verus! {

/// An arithmetic progression of arbitrary-precision integers: the values
/// `start`, `start + step`, `start + 2*step`, ... strictly before `end` in
/// the direction of travel.  Invariant: `step` is nonzero, enforced at
/// construction by `range_new`.
#[derive(Debug)]
pub struct RangeType {
    pub start: BigInt,
    pub end: BigInt,
    pub step: BigInt,
}

/// How many values the progression `(start, end, step)` represents.
pub open spec fn spec_len(start: int, end: int, step: int) -> nat {
    if step > 0 && start < end {
        ((end - start - 1) / step + 1) as nat
    } else if step < 0 && start > end {
        ((start - end - 1) / (-step) + 1) as nat
    } else {
        0
    }
}

/// The value at a given index of the progression.
pub open spec fn spec_at(start: int, step: int, i: int) -> int {
    start + step * i
}

/// Whether `v` lies within the half-open bound of the progression in its
/// direction of travel: `[start, end)` stepping up, `(end, start]`
/// stepping down.
pub open spec fn in_direction_bounds(start: int, end: int, step: int, v: int) -> bool
    recommends
        step != 0,
{
    if step > 0 {
        start <= v && v < end
    } else {
        end < v && v <= start
    }
}

/// Whether `v` is one of the values the progression represents.
pub open spec fn spec_member(start: int, end: int, step: int, v: int) -> bool {
    exists|i: int| 0 <= i < spec_len(start, end, step) && v == spec_at(start, step, i)
}

/// The sequence of values the progression represents, in order.
pub open spec fn spec_seq(start: int, end: int, step: int) -> Seq<int> {
    Seq::new(spec_len(start, end, step), |i: int| spec_at(start, step, i))
}

impl RangeType {
    /// The triple of mathematical integers this progression holds.
    pub open spec fn model(&self) -> (int, int, int) {
        (big_value(self.start), big_value(self.end), big_value(self.step))
    }

    pub open spec fn start_int(&self) -> int {
        big_value(self.start)
    }

    pub open spec fn end_int(&self) -> int {
        big_value(self.end)
    }

    pub open spec fn step_int(&self) -> int {
        big_value(self.step)
    }

    /// The construction invariant: the step is nonzero.
    pub open spec fn wf(&self) -> bool {
        self.step_int() != 0
    }

    pub open spec fn len_int(&self) -> nat {
        spec_len(self.start_int(), self.end_int(), self.step_int())
    }

    /// The sequence of values this progression represents.
    pub open spec fn seq_int(&self) -> Seq<int> {
        spec_seq(self.start_int(), self.end_int(), self.step_int())
    }

    /// The count of represented values, or `None` when it exceeds what a
    /// `usize` can count.  Computed from the bounds alone, never by
    /// materializing the sequence.
    pub fn try_len(&self) -> (r: Option<usize>)
        requires
            self.wf(),
        ensures
            match r {
                Some(n) => n == self.len_int() && self.len_int() <= usize::MAX,
                None => self.len_int() > usize::MAX,
            },
    {
        let one = big_from_i64(1);
        if big_is_positive(&self.step) && big_lt(&self.start, &self.end) {
            let d = big_sub(&big_sub(&self.end, &self.start), &one);
            let q = big_div(&d, &self.step);
            proof {
                lemma_div_pos_is_pos(self.end_int() - self.start_int() - 1, self.step_int());
            }
            match big_to_usize(&q) {
                Some(sz) => {
                    if sz < usize::MAX {
                        Some(sz + 1)
                    } else {
                        None
                    }
                },
                None => None,
            }
        } else if big_is_negative(&self.step) && big_lt(&self.end, &self.start) {
            let d = big_sub(&big_sub(&self.start, &self.end), &one);
            let minus_step = big_neg(&self.step);
            let q = big_div(&d, &minus_step);
            proof {
                lemma_div_pos_is_pos(self.start_int() - self.end_int() - 1, -self.step_int());
            }
            match big_to_usize(&q) {
                Some(sz) => {
                    if sz < usize::MAX {
                        Some(sz + 1)
                    } else {
                        None
                    }
                },
                None => None,
            }
        } else {
            Some(0)
        }
    }

    /// The count of represented values; callers must know it is
    /// representable (`range_len` turns the other case into an overflow
    /// error at the call boundary).
    pub fn len(&self) -> (r: usize)
        requires
            self.wf(),
            self.len_int() <= usize::MAX,
        ensures
            r == self.len_int(),
    {
        match self.try_len() {
            Some(n) => n,
            None => vstd::pervasive::unreached(),
        }
    }

    /// True exactly when the progression represents no value: the step
    /// points away from (or at) the end.
    pub fn is_empty(&self) -> (r: bool)
        requires
            self.wf(),
        ensures
            r <==> self.len_int() == 0,
    {
        (!big_lt(&self.end, &self.start) && big_is_negative(&self.step)) || (!big_lt(
            &self.start,
            &self.end,
        ) && big_is_positive(&self.step))
    }

    /// Direction inferred from the bounds alone: true when `start < end`.
    pub fn forward(&self) -> (r: bool)
        ensures
            r <==> self.start_int() < self.end_int(),
    {
        big_lt(&self.start, &self.end)
    }

    /// The single arithmetic primitive behind all index and slice
    /// operations: the value `start + step * index`, if that value still
    /// lies within the progression's directed bound — equivalently, if
    /// `index` is one of the progression's valid indices.
    pub fn get(&self, index: &BigInt) -> (r: Option<BigInt>)
        requires
            self.wf(),
        ensures
            match r {
                Some(v) => 0 <= big_value(*index) < self.len_int() && big_value(v) == spec_at(
                    self.start_int(),
                    self.step_int(),
                    big_value(*index),
                ),
                None => !(0 <= big_value(*index) < self.len_int()),
            },
            r is Some <==> (self.len_int() > 0 && in_direction_bounds(
                self.start_int(),
                self.end_int(),
                self.step_int(),
                spec_at(self.start_int(), self.step_int(), big_value(*index)),
            )),
    {
        let v = big_add(&self.start, &big_mul(&self.step, index));
        let empty = self.is_empty();
        let fwd = self.forward();
        let ok = if empty {
            false
        } else if fwd {
            !big_lt(&v, &self.start) && big_lt(&v, &self.end)
        } else {
            big_lt(&self.end, &v) && !big_lt(&self.start, &v)
        };
        proof {
            let s = self.start_int();
            let e = self.end_int();
            let st = self.step_int();
            let idx = big_value(*index);
            if self.len_int() > 0 {
                if idx >= 0 {
                    lemma_index_in_bounds(s, e, st, idx);
                } else if st > 0 {
                    assert(st * idx < 0) by (nonlinear_arith)
                        requires
                            st > 0,
                            idx < 0,
                    ;
                } else {
                    assert(st * idx > 0) by (nonlinear_arith)
                        requires
                            st < 0,
                            idx < 0,
                    ;
                }
            }
        }
        if ok {
            Some(v)
        } else {
            None
        }
    }

    /// True exactly when `value` is one of the values the progression
    /// represents: its signed distance from `start` exists within the
    /// directed bound and is an exact multiple of the step.
    pub fn contains(&self, value: &BigInt) -> (r: bool)
        requires
            self.wf(),
        ensures
            r <==> spec_member(
                self.start_int(),
                self.end_int(),
                self.step_int(),
                big_value(*value),
            ),
    {
        proof {
            lemma_member_iff_offset_divisible(
                self.start_int(),
                self.end_int(),
                self.step_int(),
                big_value(*value),
            );
        }
        match self.offset(value) {
            Some(offset) => big_is_multiple_of(&offset, &self.step),
            None => false,
        }
    }

    /// The distance from `start` to `value` when `value` lies within the
    /// directed bound — the magnitude of `value - start` — and nothing
    /// otherwise.
    fn offset(&self, value: &BigInt) -> (r: Option<BigInt>)
        requires
            self.wf(),
        ensures
            match r {
                Some(o) => in_direction_bounds(
                    self.start_int(),
                    self.end_int(),
                    self.step_int(),
                    big_value(*value),
                ) && big_value(o) == abs_int(big_value(*value) - self.start_int()),
                None => !in_direction_bounds(
                    self.start_int(),
                    self.end_int(),
                    self.step_int(),
                    big_value(*value),
                ),
            },
    {
        if big_is_positive(&self.step) {
            if !big_lt(value, &self.start) && big_lt(value, &self.end) {
                Some(big_sub(value, &self.start))
            } else {
                None
            }
        } else {
            if big_lt(&self.end, value) && !big_lt(&self.start, value) {
                Some(big_sub(&self.start, value))
            } else {
                None
            }
        }
    }

    /// The index at which `value` occurs, or `None` when it is not a
    /// member.  A returned index is the unique valid one, so
    /// `get(index_of(value))` gives back `value`.
    pub fn index_of(&self, value: &BigInt) -> (r: Option<BigInt>)
        requires
            self.wf(),
        ensures
            match r {
                Some(i) => spec_member(
                    self.start_int(),
                    self.end_int(),
                    self.step_int(),
                    big_value(*value),
                ) && 0 <= big_value(i) < self.len_int() && spec_at(
                    self.start_int(),
                    self.step_int(),
                    big_value(i),
                ) == big_value(*value),
                None => !spec_member(
                    self.start_int(),
                    self.end_int(),
                    self.step_int(),
                    big_value(*value),
                ),
            },
    {
        proof {
            lemma_member_iff_offset_divisible(
                self.start_int(),
                self.end_int(),
                self.step_int(),
                big_value(*value),
            );
        }
        match self.offset(value) {
            Some(offset) => {
                if big_is_multiple_of(&offset, &self.step) {
                    let q = big_div(&offset, &self.step);
                    let idx = big_abs(&q);
                    proof {
                        let st = self.step_int();
                        let o = abs_int(big_value(*value) - self.start_int());
                        lemma_div_pos_is_pos(o, abs_int(st));
                    }
                    Some(idx)
                } else {
                    None
                }
            },
            None => None,
        }
    }
}

/// The triple a non-empty progression's `reversed` operation produces:
/// it starts at the last element actually contained (`end - step` when
/// the step divides `end - start`, else `end` less the remainder's
/// magnitude), ends one past the original `start` on the far side, and
/// negates the step.
pub open spec fn spec_reversed(start: int, end: int, step: int) -> (int, int, int)
    recommends
        step != 0,
{
    let rem = abs_int(rem_trunc(end - start, step));
    let new_start = if rem == 0 {
        end - step
    } else {
        end - rem
    };
    let new_end = if step > 0 {
        start - 1
    } else {
        start + 1
    };
    (new_start, new_end, -step)
}

impl RangeType {
    /// A new progression enumerating the same values in the opposite
    /// order, built by the remainder rule of `spec_reversed`.  An empty
    /// progression is undefined input here: callers guard with
    /// `is_empty` first.
    pub fn reversed(&self) -> (r: RangeType)
        requires
            self.wf(),
            self.len_int() > 0,
        ensures
            r.wf(),
            r.model() == spec_reversed(self.start_int(), self.end_int(), self.step_int()),
            self.step_int() > 0 || rem_trunc(self.end_int() - self.start_int(), self.step_int())
                == 0 ==> r.seq_int() =~= self.seq_int().reverse(),
    {
        proof {
            if self.step_int() > 0 || rem_trunc(self.end_int() - self.start_int(), self.step_int())
                == 0 {
                lemma_reversed_reverses(self.start_int(), self.end_int(), self.step_int());
            }
        }
        let one = big_from_i64(1);
        let rem = big_abs(&big_rem(&big_sub(&self.end, &self.start), &self.step));
        let new_start = if big_is_zero(&rem) {
            big_sub(&self.end, &self.step)
        } else {
            big_sub(&self.end, &rem)
        };
        if big_is_positive(&self.step) {
            RangeType { start: new_start, end: big_sub(&self.start, &one), step: big_neg(&self.step) }
        } else {
            RangeType { start: new_start, end: big_add(&self.start, &one), step: big_neg(&self.step) }
        }
    }

    /// The canonical text for the progression: the two-argument form when
    /// the step is one, the three-argument form otherwise.
    pub fn repr(&self) -> (r: String)
        ensures
            r@ == spec_repr(self.start_int(), self.end_int(), self.step_int()),
    {
        let one = big_from_i64(1);
        let mut s = String::new();
        str_append(&mut s, "range(");
        let start_text = big_to_decimal(&self.start);
        str_append(&mut s, start_text.as_str());
        str_append(&mut s, ", ");
        let end_text = big_to_decimal(&self.end);
        str_append(&mut s, end_text.as_str());
        if !big_eq(&self.step, &one) {
            str_append(&mut s, ", ");
            let step_text = big_to_decimal(&self.step);
            str_append(&mut s, step_text.as_str());
        }
        str_append(&mut s, ")");
        proof {
            assert(s@ =~= spec_repr(self.start_int(), self.end_int(), self.step_int()));
        }
        s
    }
}

/// The text `repr` renders for the triple `(start, end, step)`.
pub open spec fn spec_repr(start: int, end: int, step: int) -> Seq<char> {
    if step == 1 {
        "range("@ + decimal_of(start) + ", "@ + decimal_of(end) + ")"@
    } else {
        "range("@ + decimal_of(start) + ", "@ + decimal_of(end) + ", "@ + decimal_of(step) + ")"@
    }
}

/// A runtime argument as this core's dispatch sees it: an integer
/// payload, or any other object shape.
pub enum ArgValue {
    Int(BigInt),
    Other,
}

/// A subscript argument: an integer index, a slice of raw (already
/// resolved) index bounds with an optional step multiplier, or any other
/// shape.
pub enum Subscript {
    Int(BigInt),
    Slice { start: Option<BigInt>, stop: Option<BigInt>, step: Option<BigInt> },
    Other,
}

/// What subscripting a progression yields: a single element for an
/// integer subscript, a sub-progression for a slice.
pub enum GotItem {
    Element(BigInt),
    SubRange(RangeType),
}

/// The payload an object handed to a progression operation can hold.  A
/// non-progression payload reaching `get_range` is a defect in the
/// caller — excluded by precondition — not one of the user-visible
/// errors.
pub enum PyPayload {
    RangeVal(RangeType),
    Other,
}

/// Unwraps the progression payload.  Callers must know the payload shape;
/// handing anything else in is a defect, not a catchable error.
pub fn get_range(obj: &PyPayload) -> (r: &RangeType)
    requires
        obj matches PyPayload::RangeVal(_),
    ensures
        obj matches PyPayload::RangeVal(rt) && *r == rt,
{
    match obj {
        PyPayload::RangeVal(rt) => rt,
        PyPayload::Other => vstd::pervasive::unreached(),
    }
}

/// Constructs a progression from the positional convention: one bound
/// means `0..first`, two mean `first..second`, and the step defaults to
/// one.  A zero step is rejected with a domain error and never stored.
pub fn range_new(first: BigInt, second: Option<BigInt>, step: Option<BigInt>) -> (r: Result<
    RangeType,
    ErrorKind,
>)
    ensures
        (match step {
            Some(st) => big_value(st) == 0,
            None => false,
        }) <==> r is Err,
        match r {
            Ok(rt) => rt.wf() && rt.start_int() == (match second {
                Some(_) => big_value(first),
                None => 0,
            }) && rt.end_int() == (match second {
                Some(e2) => big_value(e2),
                None => big_value(first),
            }) && rt.step_int() == (match step {
                Some(st) => big_value(st),
                None => 1,
            }),
            Err(e) => e == ErrorKind::DomainError,
        },
{
    let (start, end) = match second {
        Some(e2) => (first, e2),
        None => (big_from_i64(0), first),
    };
    let stp = match step {
        Some(st) => st,
        None => big_from_i64(1),
    };
    if big_is_zero(&stp) {
        Err(ErrorKind::DomainError)
    } else {
        Ok(RangeType { start, end, step: stp })
    }
}

/// The progression's length as a `usize`, or an overflow error when the
/// count is not representable.
pub fn range_len(zelf: &RangeType) -> (r: Result<usize, ErrorKind>)
    requires
        zelf.wf(),
    ensures
        match r {
            Ok(n) => n == zelf.len_int() && zelf.len_int() <= usize::MAX,
            Err(e) => e == ErrorKind::OverflowError && zelf.len_int() > usize::MAX,
        },
{
    match zelf.try_len() {
        Some(n) => Ok(n),
        None => Err(ErrorKind::OverflowError),
    }
}

/// Where a valid slice-bound index falls, and the fallback bound used
/// when the index resolves out of bounds.
pub open spec fn spec_slice_bound(start: int, end: int, step: int, idx: int, fallback: int) -> int {
    if 0 <= idx && idx < spec_len(start, end, step) {
        spec_at(start, step, idx)
    } else {
        fallback
    }
}

/// Subscripting: an integer index resolves through `get` or fails with a
/// bounds error; a slice builds a new progression whose bounds are the
/// resolved indices (falling back to the original bounds) and whose step
/// is the original step times the multiplier; any other shape is a type
/// error.  A zero multiplier would break the step invariant and is
/// excluded: the surrounding argument layer validates it.
pub fn range_getitem(zelf: &RangeType, subscript: Subscript) -> (r: Result<GotItem, ErrorKind>)
    requires
        zelf.wf(),
        subscript matches Subscript::Slice { step: Some(m), .. } ==> big_value(m) != 0,
    ensures
        match subscript {
            Subscript::Int(i) => {
                if 0 <= big_value(i) < zelf.len_int() {
                    r matches Ok(GotItem::Element(v)) && big_value(v) == spec_at(
                        zelf.start_int(),
                        zelf.step_int(),
                        big_value(i),
                    )
                } else {
                    r == Err::<GotItem, ErrorKind>(ErrorKind::BoundsError)
                }
            },
            Subscript::Slice { start: b0, stop: b1, step: m } => r matches Ok(
                GotItem::SubRange(nr),
            ) && nr.wf() && nr.start_int() == (match b0 {
                Some(i) => spec_slice_bound(
                    zelf.start_int(),
                    zelf.end_int(),
                    zelf.step_int(),
                    big_value(i),
                    zelf.start_int(),
                ),
                None => zelf.start_int(),
            }) && nr.end_int() == (match b1 {
                Some(i) => spec_slice_bound(
                    zelf.start_int(),
                    zelf.end_int(),
                    zelf.step_int(),
                    big_value(i),
                    zelf.end_int(),
                ),
                None => zelf.end_int(),
            }) && nr.step_int() == (match m {
                Some(mm) => big_value(mm) * zelf.step_int(),
                None => zelf.step_int(),
            }),
            Subscript::Other => r == Err::<GotItem, ErrorKind>(ErrorKind::TypeError),
        },
{
    match subscript {
        Subscript::Int(i) => match zelf.get(&i) {
            Some(v) => Ok(GotItem::Element(v)),
            None => Err(ErrorKind::BoundsError),
        },
        Subscript::Slice { start, stop, step } => {
            let new_start = match &start {
                Some(i) => match zelf.get(i) {
                    Some(v) => v,
                    None => big_clone(&zelf.start),
                },
                None => big_clone(&zelf.start),
            };
            let new_end = match &stop {
                Some(i) => match zelf.get(i) {
                    Some(v) => v,
                    None => big_clone(&zelf.end),
                },
                None => big_clone(&zelf.end),
            };
            let new_step = match &step {
                Some(m) => {
                    proof {
                        let mm = big_value(step->0);
                        let st = zelf.step_int();
                        assert(mm * st != 0) by (nonlinear_arith)
                            requires
                                mm != 0,
                                st != 0,
                        ;
                    }
                    big_mul(m, &zelf.step)
                },
                None => big_clone(&zelf.step),
            };
            Ok(GotItem::SubRange(RangeType { start: new_start, end: new_end, step: new_step }))
        },
        Subscript::Other => Err(ErrorKind::TypeError),
    }
}

/// The canonical text of the progression.
pub fn range_repr(zelf: &RangeType) -> (r: String)
    ensures
        r@ == spec_repr(zelf.start_int(), zelf.end_int(), zelf.step_int()),
{
    zelf.repr()
}

/// A progression is truthy exactly when it represents at least one
/// value.
pub fn range_bool(zelf: &RangeType) -> (r: bool)
    requires
        zelf.wf(),
    ensures
        r <==> zelf.len_int() > 0,
{
    !zelf.is_empty()
}

/// Membership for an arbitrary argument: an integer payload is tested
/// against the progression; every other shape is simply not contained.
pub fn range_contains(zelf: &RangeType, needle: &ArgValue) -> (r: bool)
    requires
        zelf.wf(),
    ensures
        match needle {
            ArgValue::Int(v) => r <==> spec_member(
                zelf.start_int(),
                zelf.end_int(),
                zelf.step_int(),
                big_value(*v),
            ),
            ArgValue::Other => r == false,
        },
{
    match needle {
        ArgValue::Int(v) => zelf.contains(v),
        ArgValue::Other => false,
    }
}

/// The index of a member value; a non-member integer or any other shape
/// fails with a value error.
pub fn range_index(zelf: &RangeType, needle: &ArgValue) -> (r: Result<BigInt, ErrorKind>)
    requires
        zelf.wf(),
    ensures
        match needle {
            ArgValue::Int(v) => match r {
                Ok(i) => spec_member(
                    zelf.start_int(),
                    zelf.end_int(),
                    zelf.step_int(),
                    big_value(*v),
                ) && 0 <= big_value(i) < zelf.len_int() && spec_at(
                    zelf.start_int(),
                    zelf.step_int(),
                    big_value(i),
                ) == big_value(*v),
                Err(e) => e == ErrorKind::ValueError && !spec_member(
                    zelf.start_int(),
                    zelf.end_int(),
                    zelf.step_int(),
                    big_value(*v),
                ),
            },
            ArgValue::Other => r == Err::<BigInt, ErrorKind>(ErrorKind::ValueError),
        },
{
    match needle {
        ArgValue::Int(v) => match zelf.index_of(v) {
            Some(i) => Ok(i),
            None => Err(ErrorKind::ValueError),
        },
        ArgValue::Other => Err(ErrorKind::ValueError),
    }
}

/// Registers the progression type's operations with the runtime's
/// registry, in the order the runtime binds them.
pub fn init(registry: &mut crate::registry::Registry)
    ensures
        final(registry).range_ops@ == old(registry).range_ops@ + seq![
            crate::registry::RangeOp::New,
            crate::registry::RangeOp::Iter,
            crate::registry::RangeOp::Reversed,
            crate::registry::RangeOp::Doc,
            crate::registry::RangeOp::Len,
            crate::registry::RangeOp::GetItem,
            crate::registry::RangeOp::Repr,
            crate::registry::RangeOp::Bool,
            crate::registry::RangeOp::Contains,
            crate::registry::RangeOp::IndexOf,
        ],
        final(registry).map_ops@ == old(registry).map_ops@,
{
    registry.range_ops.push(crate::registry::RangeOp::New);
    registry.range_ops.push(crate::registry::RangeOp::Iter);
    registry.range_ops.push(crate::registry::RangeOp::Reversed);
    registry.range_ops.push(crate::registry::RangeOp::Doc);
    registry.range_ops.push(crate::registry::RangeOp::Len);
    registry.range_ops.push(crate::registry::RangeOp::GetItem);
    registry.range_ops.push(crate::registry::RangeOp::Repr);
    registry.range_ops.push(crate::registry::RangeOp::Bool);
    registry.range_ops.push(crate::registry::RangeOp::Contains);
    registry.range_ops.push(crate::registry::RangeOp::IndexOf);
    proof {
        assert(registry.range_ops@ =~= old(registry).range_ops@ + seq![
            crate::registry::RangeOp::New,
            crate::registry::RangeOp::Iter,
            crate::registry::RangeOp::Reversed,
            crate::registry::RangeOp::Doc,
            crate::registry::RangeOp::Len,
            crate::registry::RangeOp::GetItem,
            crate::registry::RangeOp::Repr,
            crate::registry::RangeOp::Bool,
            crate::registry::RangeOp::Contains,
            crate::registry::RangeOp::IndexOf,
        ]);
    }
}

/// The reversal law: wherever the remainder rule lands on the true last
/// element — a positive step always, and a negative step when it divides
/// `end - start` exactly — the reversed progression enumerates the same
/// values in the opposite order.  (With a negative step that leaves a
/// remainder, the rule's absolute value puts the new start on the wrong
/// side of `end`, so the law is stated without those inputs.)
pub proof fn lemma_reversed_reverses(start: int, end: int, step: int)
    requires
        step != 0,
        spec_len(start, end, step) > 0,
        step > 0 || rem_trunc(end - start, step) == 0,
    ensures
        ({
            let (rs, re, rp) = spec_reversed(start, end, step);
            spec_seq(rs, re, rp) =~= spec_seq(start, end, step).reverse()
        }),
{
    let l = spec_len(start, end, step) as int;
    let (rs, re, rp) = spec_reversed(start, end, step);
    // The new start is the true last element, `spec_at(start, step, l - 1)`.
    if step > 0 {
        let d = end - start;
        assert(d >= 1);
        let q0 = d / step;
        let r0 = d % step;
        lemma_fundamental_div_mod(d, step);
        lemma_mod_division_less_than_divisor(d, step);
        lemma_div_pos_is_pos(d, step);
        assert(rem_trunc(d, step) == r0);
        if r0 == 0 {
            assert(q0 >= 1) by (nonlinear_arith)
                requires
                    step * q0 == d,
                    d >= 1,
                    step > 0,
                    q0 >= 0,
            ;
            assert(d - 1 == (q0 - 1) * step + (step - 1)) by (nonlinear_arith)
                requires
                    d == step * q0,
            ;
            lemma_fundamental_div_mod_converse_div(d - 1, step, q0 - 1, step - 1);
            assert(l == q0);
            assert(step * (q0 - 1) == d - step) by (nonlinear_arith)
                requires
                    step * q0 == d,
            ;
            assert(rs == spec_at(start, step, l - 1));
        } else {
            assert(d - 1 == q0 * step + (r0 - 1)) by (nonlinear_arith)
                requires
                    d == step * q0 + r0,
            ;
            lemma_fundamental_div_mod_converse_div(d - 1, step, q0, r0 - 1);
            assert(l == q0 + 1);
            assert(rs == end - r0);
            assert(step * q0 == d - r0);
            assert(rs == spec_at(start, step, l - 1));
        }
    } else {
        let p = -step;
        let d = start - end;
        assert(d >= 1);
        let q0 = d / p;
        assert(div_trunc(end - start, step) == q0);
        assert(rem_trunc(end - start, step) == (end - start) - step * q0);
        assert(p * q0 == d) by (nonlinear_arith)
            requires
                (end - start) - step * q0 == 0,
                p == -step,
                d == start - end,
        ;
        lemma_div_pos_is_pos(d, p);
        assert(q0 >= 1) by (nonlinear_arith)
            requires
                p * q0 == d,
                d >= 1,
                p > 0,
                q0 >= 0,
        ;
        assert(d - 1 == (q0 - 1) * p + (p - 1)) by (nonlinear_arith)
            requires
                d == p * q0,
        ;
        lemma_fundamental_div_mod_converse_div(d - 1, p, q0 - 1, p - 1);
        assert(l == q0);
        assert(rs == end - step);
        assert(step * (q0 - 1) == (end - start) + p) by (nonlinear_arith)
            requires
                p == -step,
                p * q0 == d,
                d == start - end,
        ;
        assert(rs == spec_at(start, step, l - 1));
    }
    // The reversed triple has the same length.
    if step > 0 {
        assert(step * (l - 1) >= 0) by (nonlinear_arith)
            requires
                step > 0,
                l >= 1,
        ;
        assert(rs >= start);
        assert(rs > re);
        assert(rs - re - 1 == step * (l - 1));
        lemma_div_multiples_vanish(l - 1, step);
        assert(spec_len(rs, re, rp) == l);
    } else {
        let p = -step;
        assert(step * (l - 1) <= 0) by (nonlinear_arith)
            requires
                step < 0,
                l >= 1,
        ;
        assert(rs <= start);
        assert(rs < re);
        assert(re - rs - 1 == p * (l - 1)) by (nonlinear_arith)
            requires
                rs == start + step * (l - 1),
                re == start + 1,
                p == -step,
        ;
        lemma_div_multiples_vanish(l - 1, p);
        assert(spec_len(rs, re, rp) == l);
    }
    // Element by element, the reversed triple walks the original
    // backwards.
    assert forall|i: int| 0 <= i < l implies spec_at(rs, rp, i) == spec_at(
        start,
        step,
        l - 1 - i,
    ) by {
        assert(rs + (-step) * i == start + step * (l - 1 - i)) by (nonlinear_arith)
            requires
                rs == start + step * (l - 1),
        ;
    }
    assert(spec_seq(rs, re, rp) =~= spec_seq(start, end, step).reverse());
}

/// The slicing law: slicing from a valid index `i` to `i + 1` with a
/// unit multiplier yields a progression holding exactly the one value
/// `element_at(i)`, so slicing is consistent with direct indexing.
pub proof fn lemma_slice_singleton(start: int, end: int, step: int, i: int)
    requires
        step != 0,
        0 <= i < spec_len(start, end, step),
    ensures
        ({
            let ns = spec_slice_bound(start, end, step, i, start);
            let ne = spec_slice_bound(start, end, step, i + 1, end);
            spec_seq(ns, ne, step) =~= seq![spec_at(start, step, i)]
        }),
{
    let l = spec_len(start, end, step) as int;
    let ns = spec_at(start, step, i);
    let ne = spec_slice_bound(start, end, step, i + 1, end);
    lemma_index_in_bounds(start, end, step, i);
    lemma_index_in_bounds(start, end, step, i + 1);
    assert(step * (i + 1) == step * i + step) by (nonlinear_arith);
    assert(spec_at(start, step, i + 1) == ns + step);
    if step > 0 {
        if i + 1 < l {
            assert(ne == ns + step);
            lemma_basic_div(step - 1, step);
            assert(spec_len(ns, ne, step) == 1);
        } else {
            assert(ne == end);
            assert(step * (i + 1) >= 0) by (nonlinear_arith)
                requires
                    step > 0,
                    i + 1 >= 0,
            ;
            assert(ns + step >= start);
            assert(ns + step >= end);
            lemma_basic_div(end - ns - 1, step);
            assert(spec_len(ns, ne, step) == 1);
        }
    } else {
        if i + 1 < l {
            assert(ne == ns + step);
            lemma_basic_div(-step - 1, -step);
            assert(spec_len(ns, ne, step) == 1);
        } else {
            assert(ne == end);
            assert(step * (i + 1) <= 0) by (nonlinear_arith)
                requires
                    step < 0,
                    i + 1 >= 0,
            ;
            assert(ns + step <= start);
            assert(ns + step <= end);
            lemma_basic_div(ns - end - 1, -step);
            assert(spec_len(ns, ne, step) == 1);
        }
    }
    assert(spec_at(ns, step, 0) == ns);
    assert(spec_seq(ns, ne, step) =~= seq![spec_at(start, step, i)]);
}

/// Membership through the offset test: `v` is a member exactly when it
/// lies within the directed bound and its distance from `start` is an
/// exact multiple of the step; the member's index is then that distance
/// divided by the step's magnitude.
pub proof fn lemma_member_iff_offset_divisible(start: int, end: int, step: int, v: int)
    requires
        step != 0,
    ensures
        spec_member(start, end, step, v) <==> (in_direction_bounds(start, end, step, v) && abs_int(
            v - start,
        ) % abs_int(step) == 0),
        (in_direction_bounds(start, end, step, v) && abs_int(v - start) % abs_int(step) == 0)
            ==> ({
            let k = abs_int(v - start) / abs_int(step);
            0 <= k < spec_len(start, end, step) && v == spec_at(start, step, k)
        }),
{
    let p = abs_int(step);
    let o = abs_int(v - start);
    if spec_member(start, end, step, v) {
        let i = choose|i: int|
            0 <= i < spec_len(start, end, step) && v == spec_at(start, step, i);
        lemma_index_in_bounds(start, end, step, i);
        assert(in_direction_bounds(start, end, step, v));
        if step > 0 {
            assert(step * i >= 0) by (nonlinear_arith)
                requires
                    step > 0,
                    i >= 0,
            ;
            assert(o == p * i);
        } else {
            assert(step * i <= 0) by (nonlinear_arith)
                requires
                    step < 0,
                    i >= 0,
            ;
            assert(o == p * i) by (nonlinear_arith)
                requires
                    v - start == step * i,
                    p == -step,
                    o == start - v,
            ;
        }
        assert(o == i * p) by (nonlinear_arith)
            requires
                o == p * i,
        ;
        lemma_mod_multiples_basic(i, p);
    }
    if in_direction_bounds(start, end, step, v) && o % p == 0 {
        lemma_fundamental_div_mod(o, p);
        lemma_div_pos_is_pos(o, p);
        let k = o / p;
        assert(o == p * k);
        if step > 0 {
            assert(v == spec_at(start, step, k));
        } else {
            assert(step * k == -(p * k)) by (nonlinear_arith)
                requires
                    p == -step,
            ;
            assert(v == spec_at(start, step, k));
        }
        lemma_index_in_bounds(start, end, step, k);
        assert(0 <= k < spec_len(start, end, step) && v == spec_at(start, step, k));
    }
}

/// The value at index `i` lies within the progression's directed bound
/// exactly when `i` is below the length.  A cursor pulls the value at
/// each successive index until this bound check first fails, so this is
/// also the statement that the length counts exactly the values a full
/// drain produces.
pub proof fn lemma_index_in_bounds(start: int, end: int, step: int, i: int)
    requires
        step != 0,
        0 <= i,
    ensures
        in_direction_bounds(start, end, step, spec_at(start, step, i)) <==> i < spec_len(
            start,
            end,
            step,
        ),
{
    if step > 0 {
        assert(step * i >= 0) by (nonlinear_arith)
            requires
                step > 0,
                i >= 0,
        ;
        if start < end {
            let d = end - start - 1;
            let q = d / step;
            let r = d % step;
            lemma_fundamental_div_mod(d, step);
            lemma_mod_division_less_than_divisor(d, step);
            lemma_div_pos_is_pos(d, step);
            assert(spec_len(start, end, step) == q + 1);
            if i <= q {
                assert(step * i <= step * q) by (nonlinear_arith)
                    requires
                        i <= q,
                        step > 0,
                ;
                assert(step * q == d - r) by (nonlinear_arith)
                    requires
                        d == step * q + r,
                ;
                assert(start + step * i <= start + d);
            } else {
                assert(step * i >= step * q + step) by (nonlinear_arith)
                    requires
                        i >= q + 1,
                        step > 0,
                ;
                assert(step * q == d - r) by (nonlinear_arith)
                    requires
                        d == step * q + r,
                ;
                assert(start + step * i >= start + d - r + step);
                assert(start + step * i >= end);
            }
        } else {
            assert(spec_len(start, end, step) == 0);
            assert(start + step * i >= start >= end);
        }
    } else {
        assert(step * i <= 0) by (nonlinear_arith)
            requires
                step < 0,
                i >= 0,
        ;
        if start > end {
            let d = start - end - 1;
            let q = d / (-step);
            let r = d % (-step);
            lemma_fundamental_div_mod(d, -step);
            lemma_mod_division_less_than_divisor(d, -step);
            lemma_div_pos_is_pos(d, -step);
            assert(spec_len(start, end, step) == q + 1);
            assert(step * q == r - d) by (nonlinear_arith)
                requires
                    d == (-step) * q + r,
            ;
            if i <= q {
                assert(step * i >= step * q) by (nonlinear_arith)
                    requires
                        i <= q,
                        step < 0,
                ;
                assert(start + step * i >= start + r - d);
                assert(start + step * i > end);
            } else {
                assert(step * i <= step * q + step) by (nonlinear_arith)
                    requires
                        i >= q + 1,
                        step < 0,
                ;
                assert(start + step * i <= start + r - d + step);
                assert(start + step * i <= end);
            }
        } else {
            assert(spec_len(start, end, step) == 0);
            assert(start + step * i <= start <= end);
        }
    }
}

/// The length law: a cursor drains exactly `spec_len` values.  Each pull
/// yields the value at the next index while that value passes the
/// directed bound check and exhausts otherwise, so the positions that
/// yield are precisely those below the length and the drained sequence
/// is `spec_seq`, whose length is `spec_len`.
pub proof fn lemma_length_counts_drain(start: int, end: int, step: int)
    requires
        step != 0,
    ensures
        spec_seq(start, end, step).len() == spec_len(start, end, step),
        forall|i: int|
            0 <= i < spec_len(start, end, step) ==> in_direction_bounds(
                start,
                end,
                step,
                #[trigger] spec_at(start, step, i),
            ),
        forall|i: int|
            i >= spec_len(start, end, step) ==> !in_direction_bounds(
                start,
                end,
                step,
                #[trigger] spec_at(start, step, i),
            ),
{
    assert forall|i: int|
        0 <= i < spec_len(start, end, step) implies in_direction_bounds(
        start,
        end,
        step,
        #[trigger] spec_at(start, step, i),
    ) by {
        lemma_index_in_bounds(start, end, step, i);
    }
    assert forall|i: int|
        i >= spec_len(start, end, step) implies !in_direction_bounds(
        start,
        end,
        step,
        #[trigger] spec_at(start, step, i),
    ) by {
        lemma_index_in_bounds(start, end, step, i);
    }
}

/// The index a member value occurs at: the unique `i` below the length
/// with `spec_at(start, step, i) == v`.
pub open spec fn spec_index_of(start: int, end: int, step: int, v: int) -> int {
    choose|i: int| 0 <= i < spec_len(start, end, step) && v == spec_at(start, step, i)
}

/// The membership law: a value is contained exactly when looking its
/// index up succeeds (`contains` and `index_of` promise this in their
/// contracts), and the found index is the unique one whose element is
/// the value, so `element_at(index_of(v)) == v`.
pub proof fn lemma_contains_index_roundtrip(start: int, end: int, step: int, v: int)
    requires
        step != 0,
        spec_member(start, end, step, v),
    ensures
        0 <= spec_index_of(start, end, step, v) < spec_len(start, end, step),
        spec_at(start, step, spec_index_of(start, end, step, v)) == v,
        forall|j: int|
            0 <= j < spec_len(start, end, step) && v == spec_at(start, step, j) ==> j
                == spec_index_of(start, end, step, v),
{
    let i = spec_index_of(start, end, step, v);
    assert(0 <= i < spec_len(start, end, step) && v == spec_at(start, step, i));
    assert forall|j: int|
        0 <= j < spec_len(start, end, step) && v == spec_at(start, step, j) implies j == i by {
        lemma_at_injective(start, step, i, j);
    }
}

/// Two distinct indices of a progression with nonzero step give two
/// distinct values.
pub proof fn lemma_at_injective(start: int, step: int, i: int, j: int)
    requires
        step != 0,
        spec_at(start, step, i) == spec_at(start, step, j),
    ensures
        i == j,
{
    assert(step * i == step * j ==> i == j) by (nonlinear_arith)
        requires
            step != 0,
    ;
}

} // verus!

