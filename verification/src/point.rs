use macroquad::math::Vec2;
use vstd::prelude::*;

verus! {

/// A point mass: where it is, how fast it moves, and whether it is an anchor
/// that forces do not move.
#[derive(Debug)]
pub struct Point {
    pub location: Vec2,
    pub velocity: Vec2,
    pub is_static: bool,
}

impl Point {
    /// A point at `location` that moves with `velocity`, or an anchor there
    /// if `is_static` is set.
    pub fn new(location: Vec2, velocity: Vec2, is_static: bool) -> (point: Self)
        ensures
            point == (Point { location, velocity, is_static }),
    {
        Self { location, velocity, is_static }
    }
}

} // verus!
