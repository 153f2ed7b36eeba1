use crate::physics_system::PhysicsSystem;
use crate::point::Point;
use crate::system_model::PhysicsSystemView;
use crate::vector::{add_assign, sub_assign, vec2_difference, vec2_sum};
use macroquad::math::Vec2;
use vstd::prelude::*;

verus! {

/// No change of a linked pair in `changes` names the point `id`.
pub open spec fn pairs_spare(changes: Seq<(u64, u64, Vec2)>, id: u64) -> bool {
    forall|i: int|
        0 <= i < changes.len() ==> (#[trigger] changes[i]).0 != id && changes[i].1 != id
}

/// No change of a single point in `changes` names the point `id`.
pub open spec fn pushes_spare(changes: Seq<(u64, Vec2)>, id: u64) -> bool {
    forall|i: int| 0 <= i < changes.len() ==> (#[trigger] changes[i]).0 != id
}

impl PhysicsSystemView {
    /// The system after `delta` was added to the velocity of the point `id`.
    pub open spec fn pushed(self, id: u64, delta: Vec2) -> Self {
        self.with_point(
            id,
            Point { velocity: vec2_sum(self.points[id].velocity, delta), ..self.points[id] },
        )
    }

    /// The system after `delta` was subtracted from the velocity of the point
    /// `id`.
    pub open spec fn pulled(self, id: u64, delta: Vec2) -> Self {
        self.with_point(
            id,
            Point { velocity: vec2_difference(self.points[id].velocity, delta), ..self.points[id] },
        )
    }

    /// The system after one change of a linked pair: the delta is added to
    /// the velocity of the first point, then subtracted from that of the
    /// second.
    pub open spec fn after_pair_change(self, change: (u64, u64, Vec2)) -> Self {
        self.pushed(change.0, change.2).pulled(change.1, change.2)
    }

    /// The system after the changes of linked pairs, applied from the first
    /// to the last.
    pub open spec fn after_pair_changes(self, changes: Seq<(u64, u64, Vec2)>) -> Self
        decreases changes.len(),
    {
        if changes.len() == 0 {
            self
        } else {
            self.after_pair_changes(changes.drop_last()).after_pair_change(changes.last())
        }
    }

    /// The system after each delta was added to the velocity of its point,
    /// from the first change to the last.
    pub open spec fn after_pushes(self, changes: Seq<(u64, Vec2)>) -> Self
        decreases changes.len(),
    {
        if changes.len() == 0 {
            self
        } else {
            self.after_pushes(changes.drop_last()).pushed(changes.last().0, changes.last().1)
        }
    }

    /// `other` has the same points and links as this system, each point where
    /// it was and an anchor if it was one: only velocities may differ.
    pub open spec fn differs_in_velocities_only(self, other: Self) -> bool {
        &&& other.next_id == self.next_id
        &&& other.constraints == self.constraints
        &&& other.points.dom() == self.points.dom()
        &&& forall|id: u64| #[trigger]
            self.points.contains_key(id) ==> {
                &&& other.points[id].location == self.points[id].location
                &&& other.points[id].is_static == self.points[id].is_static
            }
    }

    /// Every point named by a change of a linked pair is present.
    pub open spec fn knows_pairs(self, changes: Seq<(u64, u64, Vec2)>) -> bool {
        forall|i: int|
            0 <= i < changes.len() ==> {
                &&& self.points.contains_key((#[trigger] changes[i]).0)
                &&& self.points.contains_key(changes[i].1)
            }
    }

    /// Every point named by a change of a single point is present.
    pub open spec fn knows_points(self, changes: Seq<(u64, Vec2)>) -> bool {
        forall|i: int| 0 <= i < changes.len() ==> self.points.contains_key((#[trigger] changes[i]).0)
    }

    /// A system that differs from a well-formed one in velocities only is
    /// well formed, and has every endpoint present if the other has.
    pub proof fn lemma_velocities_do_not_matter(self, other: Self)
        requires
            self.differs_in_velocities_only(other),
        ensures
            self.wf() ==> other.wf(),
            self.is_closed() ==> other.is_closed(),
    {
    }

    /// One change of a linked pair adds the delta to the velocity of the first
    /// point and subtracts the same delta from the velocity of the second. It
    /// changes nothing else: no location, no anchor, no other point.
    pub proof fn lemma_pair_change_is_equal_and_opposite(self, change: (u64, u64, Vec2))
        requires
            self.points.contains_key(change.0),
            self.points.contains_key(change.1),
            change.0 != change.1,
        ensures
            self.after_pair_changes(seq![change]) == self.after_pair_change(change),
            self.after_pair_change(change).points[change.0].velocity == vec2_sum(
                self.points[change.0].velocity,
                change.2,
            ),
            self.after_pair_change(change).points[change.1].velocity == vec2_difference(
                self.points[change.1].velocity,
                change.2,
            ),
            forall|id: u64|
                id != change.0 && id != change.1 ==> #[trigger] self.after_pair_change(
                    change,
                ).points[id] == self.points[id],
            self.differs_in_velocities_only(self.after_pair_change(change)),
    {
        reveal_with_fuel(PhysicsSystemView::after_pair_changes, 2);
        assert(self.after_pair_change(change).points.dom() =~= self.points.dom());
    }

    /// Two changes of linked pairs that share no point can be applied in
    /// either order.
    pub proof fn lemma_separate_changes_commute(
        self,
        first: (u64, u64, Vec2),
        second: (u64, u64, Vec2),
    )
        requires
            first.0 != second.0,
            first.0 != second.1,
            first.1 != second.0,
            first.1 != second.1,
        ensures
            self.after_pair_change(first).after_pair_change(second) == self.after_pair_change(
                second,
            ).after_pair_change(first),
    {
        let one = self.after_pair_change(first).after_pair_change(second);
        let other = self.after_pair_change(second).after_pair_change(first);
        assert(one.points =~= other.points);
    }

    /// Two changes of single points can be applied in either order where they
    /// name different points.
    pub proof fn lemma_separate_pushes_commute(self, first: (u64, Vec2), second: (u64, Vec2))
        requires
            first.0 != second.0,
        ensures
            self.pushed(first.0, first.1).pushed(second.0, second.1) == self.pushed(
                second.0,
                second.1,
            ).pushed(first.0, first.1),
    {
        let one = self.pushed(first.0, first.1).pushed(second.0, second.1);
        let other = self.pushed(second.0, second.1).pushed(first.0, first.1);
        assert(one.points =~= other.points);
    }

    /// Changes of linked pairs change velocities only, and of no point that
    /// they do not name.
    pub proof fn lemma_pair_changes_keep_structure(self, changes: Seq<(u64, u64, Vec2)>)
        requires
            self.knows_pairs(changes),
        ensures
            self.differs_in_velocities_only(self.after_pair_changes(changes)),
            forall|id: u64| #[trigger]
                pairs_spare(changes, id) ==> self.after_pair_changes(changes).points[id]
                    == self.points[id],
        decreases changes.len(),
    {
        if changes.len() > 0 {
            let front = changes.drop_last();
            assert(self.knows_pairs(front));
            self.lemma_pair_changes_keep_structure(front);
            let after = self.after_pair_changes(changes);
            assert(after.points.dom() =~= self.points.dom());
            assert forall|id: u64| #[trigger] pairs_spare(changes, id) implies after.points[id]
                == self.points[id] by {
                assert(pairs_spare(front, id));
            }
        }
    }

    /// Changes of single points change velocities only, and of no point that
    /// they do not name.
    pub proof fn lemma_pushes_keep_structure(self, changes: Seq<(u64, Vec2)>)
        requires
            self.knows_points(changes),
        ensures
            self.differs_in_velocities_only(self.after_pushes(changes)),
            forall|id: u64| #[trigger]
                pushes_spare(changes, id) ==> self.after_pushes(changes).points[id]
                    == self.points[id],
        decreases changes.len(),
    {
        if changes.len() > 0 {
            let front = changes.drop_last();
            assert(self.knows_points(front));
            self.lemma_pushes_keep_structure(front);
            let after = self.after_pushes(changes);
            assert(after.points.dom() =~= self.points.dom());
            assert forall|id: u64| #[trigger] pushes_spare(changes, id) implies after.points[id]
                == self.points[id] by {
                assert(pushes_spare(front, id));
            }
        }
    }
}

/// Applies the velocity changes of linked pairs, from the first to the last:
/// each delta is added to the velocity of the first point of its pair and
/// subtracted from that of the second. Nothing but velocities changes.
///
/// Every point that a change names must be present.
pub fn apply_point_changes(physics_system: &mut PhysicsSystem, point_changes: &[(u64, u64, Vec2)])
    requires
        old(physics_system)@.knows_pairs(point_changes@),
    ensures
        final(physics_system)@ == old(physics_system)@.after_pair_changes(point_changes@),
        old(physics_system)@.differs_in_velocities_only(final(physics_system)@),
        forall|id: u64| #[trigger]
            pairs_spare(point_changes@, id)
                ==> final(physics_system)@.points[id] == old(physics_system)@.points[id],
        old(physics_system)@.wf() ==> final(physics_system)@.wf(),
        old(physics_system)@.is_closed() ==> final(physics_system)@.is_closed(),
{
    let mut i: usize = 0;
    while i < point_changes.len()
        invariant
            i <= point_changes.len(),
            old(physics_system)@.knows_pairs(point_changes@),
            physics_system@ == old(physics_system)@.after_pair_changes(
                point_changes@.take(i as int),
            ),
            physics_system@.points.dom() == old(physics_system)@.points.dom(),
        decreases point_changes.len() - i,
    {
        let (id1, id2, delta_v) = point_changes[i];
        proof {
            assert(point_changes@.take(i + 1).drop_last() =~= point_changes@.take(i as int));
        }
        match physics_system.get_point_mut(id1) {
            Some(point1) => add_assign(&mut point1.velocity, delta_v),
            None => {},
        }
        match physics_system.get_point_mut(id2) {
            Some(point2) => sub_assign(&mut point2.velocity, delta_v),
            None => {},
        }
        assert(physics_system@.points.dom() =~= old(physics_system)@.points.dom());
        i += 1;
    }
    proof {
        assert(point_changes@.take(i as int) =~= point_changes@);
        old(physics_system)@.lemma_pair_changes_keep_structure(point_changes@);
        old(physics_system)@.lemma_velocities_do_not_matter(physics_system@);
    }
}

/// Applies the velocity changes of single points, from the first to the last:
/// each delta is added to the velocity of its point. Nothing but velocities
/// changes.
///
/// Every point that a change names must be present.
pub fn apply_collision_velocity_changes(
    physics_system: &mut PhysicsSystem,
    point_changes: &[(u64, Vec2)],
)
    requires
        old(physics_system)@.knows_points(point_changes@),
    ensures
        final(physics_system)@ == old(physics_system)@.after_pushes(point_changes@),
        old(physics_system)@.differs_in_velocities_only(final(physics_system)@),
        forall|id: u64| #[trigger]
            pushes_spare(point_changes@, id)
                ==> final(physics_system)@.points[id] == old(physics_system)@.points[id],
        old(physics_system)@.wf() ==> final(physics_system)@.wf(),
        old(physics_system)@.is_closed() ==> final(physics_system)@.is_closed(),
{
    let mut i: usize = 0;
    while i < point_changes.len()
        invariant
            i <= point_changes.len(),
            old(physics_system)@.knows_points(point_changes@),
            physics_system@ == old(physics_system)@.after_pushes(point_changes@.take(i as int)),
            physics_system@.points.dom() == old(physics_system)@.points.dom(),
        decreases point_changes.len() - i,
    {
        let (id, delta_v) = point_changes[i];
        proof {
            assert(point_changes@.take(i + 1).drop_last() =~= point_changes@.take(i as int));
        }
        match physics_system.get_point_mut(id) {
            Some(point) => add_assign(&mut point.velocity, delta_v),
            None => {},
        }
        assert(physics_system@.points.dom() =~= old(physics_system)@.points.dom());
        i += 1;
    }
    proof {
        assert(point_changes@.take(i as int) =~= point_changes@);
        old(physics_system)@.lemma_pushes_keep_structure(point_changes@);
        old(physics_system)@.lemma_velocities_do_not_matter(physics_system@);
    }
}

} // verus!
