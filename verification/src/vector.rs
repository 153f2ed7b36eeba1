use macroquad::math::Vec2;
use vstd::prelude::*;

verus! {

/// The vector of the plane with two single-precision components that
/// macroquad hands on from glam. It is declared without its fields: this
/// library stores vectors, hands them back, and combines them by the two
/// operations below, and never looks inside one.
#[verifier::external_type_specification]
#[verifier::external_body]
pub struct ExVec2(Vec2);

/// The sum of two vectors, component by component: what `Vec2`'s `+=` leaves
/// in its left operand. The sum of two numbers is the one that IEEE 754
/// prescribes, so equal operands give equal sums; all that is not a number
/// counts as one value.
pub uninterp spec fn vec2_sum(a: Vec2, b: Vec2) -> Vec2;

/// The difference of two vectors, component by component: what `Vec2`'s `-=`
/// leaves in its left operand. The difference of two numbers is the one that
/// IEEE 754 prescribes, so equal operands give equal differences; all that
/// is not a number counts as one value.
pub uninterp spec fn vec2_difference(a: Vec2, b: Vec2) -> Vec2;

/// Calls `<Vec2 as AddAssign<Vec2>>::add_assign`, which adds `delta` to
/// `vector`, the first component to the first and the second to the second.
/// Believed, not proved: `vector` then holds the sum of the two.
#[verifier::external_body]
pub(crate) fn add_assign(vector: &mut Vec2, delta: Vec2)
    ensures
        *final(vector) == vec2_sum(*old(vector), delta),
{
    *vector += delta;
}

/// Calls `<Vec2 as SubAssign<Vec2>>::sub_assign`, which subtracts `delta`
/// from `vector`, the first component from the first and the second from the
/// second. Believed, not proved: `vector` then holds the difference of the
/// two.
#[verifier::external_body]
pub(crate) fn sub_assign(vector: &mut Vec2, delta: Vec2)
    ensures
        *final(vector) == vec2_difference(*old(vector), delta),
{
    *vector -= delta;
}

} // verus!
