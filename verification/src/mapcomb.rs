//! The map combinator: a callable and an ordered list of iterator
//! handles, advanced in lock step on each pull, with the shortest
//! iterable deciding exhaustion.
//!
//! The iterators and the callable are runtime objects the surrounding
//! interpreter owns and drives; this module holds the combinator's state
//! and the verified decision logic of one pull, fed one sub-iterator
//! outcome at a time.

use vstd::prelude::*;
use crate::errors::ErrorKind;
use crate::protocol::PullEvent;

verus! {

/// The map combinator's state: the callable and the iterator handles, in
/// the order supplied at construction.  The state itself is immutable;
/// all mutation happens inside the referenced iterators during a pull.
pub struct PyMap<C, I> {
    pub mapper: C,
    pub iterators: Vec<I>,
}

/// Builds a map from a callable and the iterators already obtained, one
/// per supplied iterable, in order.  With no iterable at all the call is
/// an arity error; obtaining the iterators — and failing on a
/// non-iterable argument — is the surrounding iteration protocol's task
/// and happens before this point.
pub fn map_new<C, I>(mapper: C, iterators: Vec<I>) -> (r: Result<PyMap<C, I>, ErrorKind>)
    ensures
        iterators@.len() == 0 <==> r is Err,
        match r {
            Ok(m) => m.mapper == mapper && m.iterators@ == iterators@,
            Err(e) => e == ErrorKind::ArityError,
        },
{
    if iterators.len() == 0 {
        Err(ErrorKind::ArityError)
    } else {
        Ok(PyMap { mapper, iterators })
    }
}

/// One in-progress pull of a map: how many sub-iterators there are in
/// all, and the values collected from those already advanced.
pub struct MapPull<V> {
    pub total: usize,
    pub collected: Vec<V>,
}

/// What the driver of a pull must do next.
pub enum MapStep<V, E> {
    /// Advance the sub-iterator with this index (they are advanced
    /// strictly in construction order).
    Advance(usize),
    /// Every sub-iterator yielded a value: invoke the callable with
    /// these arguments, in order.  The callable's outcome is then the
    /// map's own outcome verbatim — in particular an exhaustion signal
    /// it raises is forwarded as the map's exhaustion, not as an error.
    CallMapper(Vec<V>),
    /// A sub-iterator was exhausted: the map is exhausted.  Iterators
    /// advanced earlier in this pull stay advanced; none after the
    /// exhausted one is touched.
    Exhausted,
    /// A sub-iterator failed with an ordinary error: propagate it.
    Failed(E),
}

/// Begins one pull: nothing collected yet, so the first step is to
/// advance sub-iterator zero.
pub fn map_pull_begin<V, C, I>(m: &PyMap<C, I>) -> (st: MapPull<V>)
    requires
        m.iterators@.len() >= 1,
    ensures
        st.total == m.iterators@.len(),
        st.collected@ == Seq::<V>::empty(),
        st.collected@.len() < st.total,
{
    MapPull { total: m.iterators.len(), collected: Vec::new() }
}

/// Feeds the outcome of advancing sub-iterator `collected.len()` into an
/// in-progress pull and decides the next step: collect the value and
/// advance the next iterator, invoke the callable once every iterator
/// has yielded, report exhaustion as soon as one iterator is exhausted,
/// or propagate an ordinary error.
pub fn map_next<V, E>(st: &mut MapPull<V>, event: PullEvent<V, E>) -> (step: MapStep<V, E>)
    requires
        old(st).collected@.len() < old(st).total,
    ensures
        final(st).total == old(st).total,
        match event {
            PullEvent::Value(v) => {
                if old(st).collected@.len() + 1 < old(st).total {
                    final(st).collected@ == old(st).collected@.push(v) && step == MapStep::<V, E>::Advance(
                        (old(st).collected@.len() + 1) as usize,
                    )
                } else {
                    step matches MapStep::CallMapper(args) && args@ == old(st).collected@.push(v)
                        && final(st).collected@ == Seq::<V>::empty()
                }
            },
            PullEvent::Exhausted => step == MapStep::Exhausted::<V, E> && final(st).collected@
                == old(st).collected@,
            PullEvent::Failed(e) => step == MapStep::<V, E>::Failed(e) && final(st).collected@ == old(
                st,
            ).collected@,
        },
{
    match event {
        PullEvent::Value(v) => {
            st.collected.push(v);
            let n = st.collected.len();
            if n < st.total {
                MapStep::Advance(n)
            } else {
                let mut args: Vec<V> = Vec::new();
                core::mem::swap(&mut args, &mut st.collected);
                MapStep::CallMapper(args)
            }
        },
        PullEvent::Exhausted => MapStep::Exhausted,
        PullEvent::Failed(e) => MapStep::Failed(e),
    }
}

/// Registers the map type's operations with the runtime's registry, in
/// the order the runtime binds them: the generic iterator protocol
/// first, then the map's own constructor, pull and documentation.
pub fn init(registry: &mut crate::registry::Registry)
    ensures
        final(registry).map_ops@ == old(registry).map_ops@ + seq![
            crate::registry::MapOp::IterProtocol,
            crate::registry::MapOp::New,
            crate::registry::MapOp::Next,
            crate::registry::MapOp::Doc,
        ],
        final(registry).range_ops@ == old(registry).range_ops@,
{
    registry.map_ops.push(crate::registry::MapOp::IterProtocol);
    registry.map_ops.push(crate::registry::MapOp::New);
    registry.map_ops.push(crate::registry::MapOp::Next);
    registry.map_ops.push(crate::registry::MapOp::Doc);
    proof {
        assert(registry.map_ops@ =~= old(registry).map_ops@ + seq![
            crate::registry::MapOp::IterProtocol,
            crate::registry::MapOp::New,
            crate::registry::MapOp::Next,
            crate::registry::MapOp::Doc,
        ]);
    }
}

} // verus!
