//! The runtime's type/attribute registry, modelled as an explicit object
//! constructed once at start-up and passed by reference to whatever
//! registers or looks up operations.

use vstd::prelude::*;

verus! {

/// The operations the progression type exposes, in the order the runtime
/// binds them.
#[derive(Clone, Copy, Debug, PartialEq, Eq, Structural)]
pub enum RangeOp {
    New,
    Iter,
    Reversed,
    Doc,
    Len,
    GetItem,
    Repr,
    Bool,
    Contains,
    IndexOf,
}

/// The operations the map combinator exposes, in the order the runtime
/// binds them.
#[derive(Clone, Copy, Debug, PartialEq, Eq, Structural)]
pub enum MapOp {
    IterProtocol,
    New,
    Next,
    Doc,
}

/// The registry of bound operations.
pub struct Registry {
    pub range_ops: Vec<RangeOp>,
    pub map_ops: Vec<MapOp>,
}

impl Registry {
    /// An empty registry, with nothing bound yet.
    pub fn new() -> (r: Registry)
        ensures
            r.range_ops@ == Seq::<RangeOp>::empty(),
            r.map_ops@ == Seq::<MapOp>::empty(),
    {
        Registry { range_ops: Vec::new(), map_ops: Vec::new() }
    }
}

} // verus!
