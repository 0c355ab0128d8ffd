use vstd::prelude::*;
pub use crate::aarects::{Axis, axis_index, index};

verus! {

/// The coordinate slots `(a0, a1, a2)` of a rotation about `axis`: `a1` is
/// the axis itself, and the rotation turns the `a0`-`a2` plane, with
/// `a2 = a1 + 1` and `a0 = a1 + 2` taken modulo 3.
pub fn rotation_slots(axis: Axis) -> (r: (usize, usize, usize))
    ensures
        r.1 == axis_index(axis),
        r.2 == (axis_index(axis) + 1) % 3,
        r.0 == (axis_index(axis) + 2) % 3,
        r.0 != r.1 && r.1 != r.2 && r.0 != r.2,
        r.0 < 3 && r.1 < 3 && r.2 < 3,
{
    let a1 = index(axis);
    ((a1 + 2) % 3, a1, (a1 + 1) % 3)
}

} // verus!
