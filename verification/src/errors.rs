//! The error taxonomy surfaced by progression and map operations.
//!
//! Exhaustion of an iterator is not an error: it is a normal termination
//! signal, represented separately by the pull protocol.

use vstd::prelude::*;

verus! {

/// The kinds of runtime error this core raises.
#[derive(Clone, Copy, Debug, PartialEq, Eq, Structural)]
pub enum ErrorKind {
    /// A map was constructed with no iterable at all.
    ArityError,
    /// A subscript was neither an integer nor a slice.
    TypeError,
    /// A progression was constructed with a zero step.
    DomainError,
    /// A value looked up by `index` is not a member of the progression.
    ValueError,
    /// An integer subscript lies outside the progression's index range.
    BoundsError,
    /// The progression's length exceeds the representable count.
    OverflowError,
}

} // verus!
