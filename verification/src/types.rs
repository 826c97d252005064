//! Integer aliases.

use vstd::prelude::*;

verus! {

/// Index type of element connectivity tables.
pub type CeedInt = i32;

/// Size type of allocations and slice indices.
pub type CeedSize = usize;

} // verus!
