//! Names of top-level values and of local bindings.

use vstd::prelude::*;

verus! {

/// The identity of a named value. Two symbols are the same value exactly
/// when their numbers are equal.
#[derive(Debug, Clone, Copy, PartialEq, Eq, Hash, Structural)]
pub struct Symbol(pub u64);

} // verus!
