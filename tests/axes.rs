use mulambda::aarects::{index, other, rect_slots, Axis};
use mulambda::transforms::rotation_slots;

#[test]
fn axis_slots() {
    assert_eq!(index(Axis::X), 0);
    assert_eq!(index(Axis::Y), 1);
    assert_eq!(index(Axis::Z), 2);
}

#[test]
fn other_axis_of_each_pair() {
    assert_eq!(other(Axis::X, Axis::Y), Axis::Z);
    assert_eq!(other(Axis::X, Axis::Z), Axis::Y);
    assert_eq!(other(Axis::Y, Axis::Z), Axis::X);
}

#[test]
fn rect_slots_put_the_normal_last() {
    assert_eq!(rect_slots(Axis::X, Axis::Y), (0, 1, 2));
    assert_eq!(rect_slots(Axis::X, Axis::Z), (0, 2, 1));
    assert_eq!(rect_slots(Axis::Y, Axis::Z), (1, 2, 0));
}

#[test]
fn rotation_slots_about_each_axis() {
    assert_eq!(rotation_slots(Axis::X), (2, 0, 1));
    assert_eq!(rotation_slots(Axis::Y), (0, 1, 2));
    assert_eq!(rotation_slots(Axis::Z), (1, 2, 0));
}
