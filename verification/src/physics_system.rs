use crate::constraint::{views_of, Constraint};
use crate::point::Point;
use crate::system_model::{avoids, PhysicsSystemView};
use std::collections::hash_map::Entry;
use std::collections::HashMap;
use vstd::prelude::*;

verus! {

/// The room that a new system reserves for its points and for its links.
const STARTING_CAPACITY: usize = 8;

/// The store of a simulation: the points, each under an identifier of its own,
/// and the links between them.
///
/// Identifiers are handed out in increasing order and never twice, so that an
/// identifier whose point was removed names nothing, whatever is added later.
/// No two links join the same unordered pair of points, and a point takes its
/// links with it when it is removed.
pub struct PhysicsSystem {
    id_counter: u64,
    points: HashMap<u64, Point>,
    constraints: Vec<Constraint>,
}

impl View for PhysicsSystem {
    type V = PhysicsSystemView;

    closed spec fn view(&self) -> PhysicsSystemView {
        PhysicsSystemView {
            next_id: self.id_counter as nat,
            points: self.points@,
            constraints: views_of(self.constraints@),
        }
    }
}

impl PhysicsSystem {
    /// A system without points or links.
    pub fn new() -> (system: Self)
        ensures
            system@ == PhysicsSystemView::empty(),
            system@.wf(),
            system@.is_closed(),
    {
        let system = Self {
            id_counter: 0,
            points: HashMap::with_capacity(STARTING_CAPACITY),
            constraints: Vec::with_capacity(STARTING_CAPACITY),
        };
        assert(views_of(system.constraints@) =~= Seq::empty());
        system
    }

    fn new_id(&mut self) -> (id: u64)
        requires
            old(self).id_counter < u64::MAX,
        ensures
            id == old(self).id_counter,
            final(self).id_counter == id + 1,
            final(self).points == old(self).points,
            final(self).constraints == old(self).constraints,
    {
        let id = self.id_counter;
        self.id_counter += 1;

        id
    }

    /// The identifier that the next added point gets.
    pub fn next_id(&self) -> (id: u64)
        ensures
            id == self@.next_id,
    {
        self.id_counter
    }

    /// Adds `point` under the next identifier and returns that identifier.
    ///
    /// The last identifier, `u64::MAX`, is never handed out: a system that
    /// has handed out all the others takes no more points.
    pub fn add_point(&mut self, point: Point) -> (id: u64)
        requires
            old(self)@.next_id < u64::MAX,
        ensures
            id == old(self)@.next_id,
            final(self)@ == old(self)@.add_point(point),
            old(self)@.wf() ==> final(self)@.wf() && !old(self)@.points.contains_key(id),
            old(self)@.is_closed() ==> final(self)@.is_closed(),
    {
        proof {
            if old(self)@.wf() {
                old(self)@.lemma_add_point(point);
            }
        }
        let id = self.new_id();
        self.points.insert(id, point);

        id
    }

    /// Adds `constraint`, unless a link joins its two points already, in
    /// either order: then nothing changes. Whether the two points are present
    /// is not looked at.
    pub fn add_constraint(&mut self, constraint: Constraint)
        ensures
            final(self)@ == old(self)@.add_constraint(constraint@),
            old(self)@.wf() ==> final(self)@.wf(),
            old(self)@.is_closed() && old(self)@.points.contains_key(constraint@.point1)
                && old(self)@.points.contains_key(constraint@.point2)
                ==> final(self)@.is_closed(),
    {
        let mut i: usize = 0;
        while i < self.constraints.len()
            invariant
                i <= self.constraints.len(),
                *self == *old(self),
                forall|j: int|
                    0 <= j < i ==> !(#[trigger] views_of(self.constraints@)[j]).connects(
                        constraint@.point1,
                        constraint@.point2,
                    ),
            decreases self.constraints.len() - i,
        {
            let c = &self.constraints[i];
            if (c.get_point1() == constraint.get_point1() && c.get_point2()
                == constraint.get_point2()) || (c.get_point1() == constraint.get_point2()
                && c.get_point2() == constraint.get_point1()) {
                assert(views_of(self.constraints@)[i as int].connects(
                    constraint@.point1,
                    constraint@.point2,
                ));
                return ;
            }
            i += 1;
        }

        self.constraints.push(constraint);
        proof {
            assert(views_of(self.constraints@) =~= views_of(old(self).constraints@).push(
                constraint@,
            ));
            if old(self)@.wf() {
                old(self)@.lemma_add_constraint(constraint@);
            }
        }
    }

    /// The points that are present, by identifier.
    pub fn get_points_ids(&self) -> (points: &HashMap<u64, Point>)
        ensures
            points@ == self@.points,
    {
        &self.points
    }

    /// The point `id`, if it is present.
    pub fn get_point(&self, id: u64) -> (point: Option<&Point>)
        ensures
            (match point {
                Some(p) => self@.points.contains_key(id) && *p == self@.points[id],
                None => !self@.points.contains_key(id),
            }),
    {
        self.points.get(&id)
    }

    /// A borrow of the point `id`, if it is present. What is written through
    /// the borrow becomes the state of that point; nothing else changes.
    pub fn get_point_mut(&mut self, id: u64) -> (point: Option<&mut Point>)
        ensures
            (match point {
                Some(p) => {
                    &&& old(self)@.points.contains_key(id)
                    &&& *p == old(self)@.points[id]
                    &&& final(self)@ == old(self)@.with_point(id, *final(p))
                },
                None => !old(self)@.points.contains_key(id) && final(self)@ == old(self)@,
            }),
            old(self)@.wf() ==> final(self)@.wf(),
            old(self)@.is_closed() ==> final(self)@.is_closed(),
    {
        proof {
            assert forall|point: Point| old(self)@.points.contains_key(id) implies {
                &&& old(self)@.wf() ==> (#[trigger] old(self)@.with_point(id, point)).wf()
                &&& old(self)@.is_closed() ==> old(self)@.with_point(id, point).is_closed()
            } by {
                old(self)@.lemma_with_point(id, point);
            }
        }
        if !self.points.contains_key(&id) {
            return None;
        }
        match self.points.entry(id) {
            Entry::Occupied(entry) => Some(entry.into_mut()),
            Entry::Vacant(_) => None,
        }
    }

    /// Turns the point `id` from a moving point into an anchor, or from an
    /// anchor into a moving point. Nothing changes if the point is absent.
    pub fn toggle_static(&mut self, id: u64)
        ensures
            old(self)@.points.contains_key(id) ==> final(self)@ == old(self)@.with_point(
                id,
                (Point { is_static: !old(self)@.points[id].is_static, ..old(self)@.points[id] }),
            ),
            !old(self)@.points.contains_key(id) ==> final(self)@ == old(self)@,
            old(self)@.wf() ==> final(self)@.wf(),
            old(self)@.is_closed() ==> final(self)@.is_closed(),
    {
        match self.get_point_mut(id) {
            Some(point) => {
                point.is_static = !point.is_static;
            },
            None => {},
        }
    }

    /// The links, in the order in which they were added.
    pub fn get_constraints(&self) -> (constraints: &[Constraint])
        ensures
            views_of(constraints@) == self@.constraints,
    {
        self.constraints.as_slice()
    }

    /// Removes the point `id` and every link that has it as an endpoint. The
    /// other links stay, in their order. Nothing changes if the point is
    /// absent and no link names it.
    pub fn remove_point(&mut self, point_id: u64)
        ensures
            final(self)@ == old(self)@.remove_point(point_id),
            !final(self)@.points.contains_key(point_id),
            !final(self)@.is_referenced(point_id),
            !old(self)@.points.contains_key(point_id) && !old(self)@.is_referenced(point_id)
                ==> final(self)@ == old(self)@,
            old(self)@.wf() ==> final(self)@.wf(),
            old(self)@.is_closed() ==> final(self)@.is_closed(),
    {
        let mut kept: Vec<Constraint> = Vec::new();
        let mut i: usize = 0;
        proof {
            reveal(Seq::filter);
        }
        while i < self.constraints.len()
            invariant
                i <= self.constraints.len(),
                *self == *old(self),
                views_of(kept@) == views_of(self.constraints@.take(i as int)).filter(
                    avoids(point_id),
                ),
            decreases self.constraints.len() - i,
        {
            let c = self.constraints[i];
            proof {
                let seen = self.constraints@.take(i as int);
                assert(self.constraints@.take(i + 1) =~= seen.push(c));
                assert(views_of(seen.push(c)) =~= views_of(seen).push(c@));
                views_of(seen).lemma_filter_push(c@, avoids(point_id));
            }
            if c.get_point1() != point_id && c.get_point2() != point_id {
                kept.push(c);
            }
            i += 1;
        }
        proof {
            assert(self.constraints@.take(i as int) =~= self.constraints@);
            old(self)@.lemma_remove_point(point_id);
            if !old(self)@.points.contains_key(point_id) && !old(self)@.is_referenced(point_id) {
                old(self)@.lemma_remove_absent_point(point_id);
            }
        }
        self.constraints = kept;
        self.points.remove(&point_id);
    }
}

} // verus!
