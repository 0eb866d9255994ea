//! The numeric type that the library computes in.

use vstd::prelude::*;

verus! {

/// The numeric type of genes, weights, sizes, costs and fitness values.
pub type Number = i32;

} // verus!
