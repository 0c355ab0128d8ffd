use vstd::prelude::*;

verus! {

/// A coordinate axis of three-dimensional space.
#[derive(Clone, Copy, Debug, PartialEq, Eq, Structural)]
pub enum Axis {
    X,
    Y,
    Z,
}

/// The coordinate slot (0, 1 or 2) that an axis names.
pub open spec fn axis_index(a: Axis) -> nat {
    match a {
        Axis::X => 0,
        Axis::Y => 1,
        Axis::Z => 2,
    }
}

/// The coordinate slot of `a`.
pub fn index(a: Axis) -> (r: usize)
    ensures
        r == axis_index(a),
        r < 3,
{
    match a {
        Axis::X => 0,
        Axis::Y => 1,
        Axis::Z => 2,
    }
}

/// The axis that is neither `a0` nor `a1`, for a pair given in increasing
/// order.
pub fn other(a0: Axis, a1: Axis) -> (r: Axis)
    requires
        axis_index(a0) < axis_index(a1),
    ensures
        r != a0,
        r != a1,
        axis_index(a0) + axis_index(a1) + axis_index(r) == 3,
{
    match (a0, a1) {
        (Axis::X, Axis::Y) => Axis::Z,
        (Axis::X, Axis::Z) => Axis::Y,
        _ => Axis::X,
    }
}


/// The coordinate slots of an axis-aligned rectangle spanned by axes `a0`
/// and `a1` (in increasing order): the slots of its two spanning axes and
/// of the axis normal to its plane, which together are 0, 1 and 2.
pub fn rect_slots(a0: Axis, a1: Axis) -> (r: (usize, usize, usize))
    requires
        axis_index(a0) < axis_index(a1),
    ensures
        r.0 == axis_index(a0),
        r.1 == axis_index(a1),
        r.2 == 3 - axis_index(a0) - axis_index(a1),
        r.0 != r.1 && r.1 != r.2 && r.0 != r.2,
        r.0 < 3 && r.1 < 3 && r.2 < 3,
{
    (index(a0), index(a1), index(other(a0, a1)))
}

} // verus!
