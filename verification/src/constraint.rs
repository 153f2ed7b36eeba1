use vstd::prelude::*;

verus! {

/// What a [`Constraint`] is, as a mathematical value: the identifiers of the two
/// points it links and its rest distance.
pub struct ConstraintView {
    pub point1: u64,
    pub point2: u64,
    /// The rest distance, as the bit pattern of a single-precision number.
    pub distance: u32,
}

impl ConstraintView {
    /// The link joins `a` and `b`, in either order.
    pub open spec fn connects(self, a: u64, b: u64) -> bool {
        (self.point1 == a && self.point2 == b) || (self.point1 == b && self.point2 == a)
    }

    /// Both links join the same unordered pair of points.
    pub open spec fn same_pair(self, other: ConstraintView) -> bool {
        self.connects(other.point1, other.point2)
    }

    /// The point `id` is one of the two endpoints.
    pub open spec fn references(self, id: u64) -> bool {
        self.point1 == id || self.point2 == id
    }
}

/// A distance link between two points, which it names by identifier.
///
/// The rest distance is carried as the bit pattern of a single-precision
/// number. The link never interprets it: it is stored when the link is made
/// and handed back unchanged.
#[derive(Clone, Copy)]
pub struct Constraint {
    point1: u64,
    point2: u64,
    distance: u32,
}

impl View for Constraint {
    type V = ConstraintView;

    closed spec fn view(&self) -> ConstraintView {
        ConstraintView { point1: self.point1, point2: self.point2, distance: self.distance }
    }
}

impl Constraint {
    /// A link between the points `point1` and `point2` with the rest distance
    /// whose bit pattern is `distance`.
    pub fn new(point1: u64, point2: u64, distance: u32) -> (constraint: Self)
        ensures
            constraint@ == (ConstraintView { point1, point2, distance }),
    {
        Self { point1, point2, distance }
    }

    /// The identifier of the first point.
    pub fn get_point1(&self) -> (id: u64)
        ensures
            id == self@.point1,
    {
        self.point1
    }

    /// The identifier of the second point.
    pub fn get_point2(&self) -> (id: u64)
        ensures
            id == self@.point2,
    {
        self.point2
    }

    /// The rest distance, as the bit pattern it was given as.
    pub fn get_distance(&self) -> (distance: u32)
        ensures
            distance == self@.distance,
    {
        self.distance
    }
}

/// The links of a list of constraints, in the list's order.
pub open spec fn views_of(constraints: Seq<Constraint>) -> Seq<ConstraintView> {
    constraints.map_values(|c: Constraint| c@)
}

} // verus!
