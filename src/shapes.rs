use vstd::prelude::*;

verus! {

/// The shape that nothing hits, with a point box at the origin.
pub struct Empty {}

} // verus!
