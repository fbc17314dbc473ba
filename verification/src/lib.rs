//! Lazy integer sequences for a dynamic-language runtime: an arithmetic
//! progression type over arbitrary-precision integers, a single-use cursor
//! over it, and a map combinator that advances several iterators in lock
//! step, all sharing one pull-based iteration protocol.

pub mod big;
pub mod cursor;
pub mod errors;
pub mod mapcomb;
pub mod protocol;
pub mod range;
pub mod registry;

pub use errors::ErrorKind;
