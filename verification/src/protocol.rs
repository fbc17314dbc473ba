//! The shared iteration protocol's pull outcome: a three-way result, so
//! exhaustion stays a normal termination signal distinct from an ordinary
//! error and can be forwarded deliberately.

use vstd::prelude::*;

verus! {

/// What one pull of an iterator produces: the next value, the
/// distinguished exhaustion signal, or an ordinary error.
pub enum PullEvent<V, E> {
    Value(V),
    Exhausted,
    Failed(E),
}

} // verus!
