use crate::constraint::ConstraintView;
use crate::point::Point;
use vstd::prelude::*;

verus! {

/// The test that keeps the links which do not have `id` as an endpoint.
pub open spec fn avoids(id: u64) -> spec_fn(ConstraintView) -> bool {
    |c: ConstraintView| !c.references(id)
}

/// The test that keeps the links which join `a` and `b`, in either order.
pub open spec fn joins(a: u64, b: u64) -> spec_fn(ConstraintView) -> bool {
    |c: ConstraintView| c.connects(a, b)
}

/// No two of the links join the same unordered pair of points.
pub open spec fn pairs_distinct(constraints: Seq<ConstraintView>) -> bool {
    forall|i: int, j: int|
        0 <= i < j < constraints.len() ==> !(#[trigger] constraints[i]).same_pair(
            #[trigger] constraints[j],
        )
}

/// What a [`PhysicsSystem`](crate::physics_system::PhysicsSystem) is, as a
/// mathematical value.
pub struct PhysicsSystemView {
    /// The identifier that the next added point gets. Every identifier below
    /// it has been handed out, and none of them is handed out again.
    pub next_id: nat,
    /// The points that are present, by identifier.
    pub points: Map<u64, Point>,
    /// The links, in the order in which they were added.
    pub constraints: Seq<ConstraintView>,
}

impl PhysicsSystemView {
    /// The system without points or links, which has handed out no identifier.
    pub open spec fn empty() -> Self {
        PhysicsSystemView { next_id: 0, points: Map::empty(), constraints: Seq::empty() }
    }

    /// Some link joins `a` and `b`, in either order.
    pub open spec fn links(self, a: u64, b: u64) -> bool {
        exists|i: int|
            0 <= i < self.constraints.len() && (#[trigger] self.constraints[i]).connects(a, b)
    }

    /// The number of links that join `a` and `b`, in either order.
    pub open spec fn link_count(self, a: u64, b: u64) -> nat {
        self.constraints.filter(joins(a, b)).len()
    }

    /// Some link has the point `id` as an endpoint.
    pub open spec fn is_referenced(self, id: u64) -> bool {
        exists|i: int|
            0 <= i < self.constraints.len() && (#[trigger] self.constraints[i]).references(id)
    }

    /// The system after `point` was added under the next identifier.
    pub open spec fn add_point(self, point: Point) -> Self {
        PhysicsSystemView {
            next_id: self.next_id + 1,
            points: self.points.insert(self.next_id as u64, point),
            constraints: self.constraints,
        }
    }

    /// The system after `constraint` was offered: it is appended, unless its
    /// two points are linked already.
    pub open spec fn add_constraint(self, constraint: ConstraintView) -> Self {
        if self.links(constraint.point1, constraint.point2) {
            self
        } else {
            PhysicsSystemView { constraints: self.constraints.push(constraint), ..self }
        }
    }

    /// The system after the point `id` was removed, along with every link
    /// that has it as an endpoint. The other links stay, in their order.
    pub open spec fn remove_point(self, id: u64) -> Self {
        PhysicsSystemView {
            next_id: self.next_id,
            points: self.points.remove(id),
            constraints: self.constraints.filter(avoids(id)),
        }
    }

    /// The system in which the point `id` has the state `point`.
    pub open spec fn with_point(self, id: u64, point: Point) -> Self {
        PhysicsSystemView { points: self.points.insert(id, point), ..self }
    }

    /// No identifier is in use that was not handed out, and no two links join
    /// the same unordered pair of points.
    pub open spec fn wf(self) -> bool {
        &&& self.next_id <= u64::MAX
        &&& forall|id: u64| #[trigger] self.points.contains_key(id) ==> id < self.next_id
        &&& pairs_distinct(self.constraints)
    }

    /// Both endpoints of every link are present.
    pub open spec fn is_closed(self) -> bool {
        forall|i: int|
            0 <= i < self.constraints.len() ==> {
                &&& self.points.contains_key((#[trigger] self.constraints[i]).point1)
                &&& self.points.contains_key(self.constraints[i].point2)
            }
    }

    /// Filtering keeps the order of what it keeps: links that were pairwise
    /// between different pairs of points still are.
    proof fn lemma_filter_keeps_pairs_distinct(constraints: Seq<ConstraintView>, id: u64)
        requires
            pairs_distinct(constraints),
        ensures
            pairs_distinct(constraints.filter(avoids(id))),
        decreases constraints.len(),
    {
        reveal(Seq::filter);
        if constraints.len() > 0 {
            let front = constraints.drop_last();
            let last = constraints.last();
            assert(pairs_distinct(front));
            Self::lemma_filter_keeps_pairs_distinct(front, id);
            let kept = front.filter(avoids(id));
            if avoids(id)(last) {
                assert forall|i: int, j: int| 0 <= i < j < kept.push(last).len() implies !(
                #[trigger] kept.push(last)[i]).same_pair(#[trigger] kept.push(last)[j]) by {
                    if j == kept.len() {
                        // kept[i] stood before `last` in `constraints`
                        front.lemma_filter_contains_rev(avoids(id), kept[i]);
                    }
                }
            }
        }
    }

    /// Every link that filtering keeps was there before, and does not have
    /// `id` as an endpoint.
    proof fn lemma_filter_keeps_known(constraints: Seq<ConstraintView>, id: u64, i: int)
        requires
            0 <= i < constraints.filter(avoids(id)).len(),
        ensures
            constraints.contains(constraints.filter(avoids(id))[i]),
            !constraints.filter(avoids(id))[i].references(id),
    {
        let kept = constraints.filter(avoids(id));
        constraints.lemma_filter_contains_rev(avoids(id), kept[i]);
        constraints.lemma_filter_pred(avoids(id), i);
    }

    /// Filtering keeps every link where none has `id` as an endpoint.
    proof fn lemma_filter_keeps_all(constraints: Seq<ConstraintView>, id: u64)
        requires
            forall|i: int| 0 <= i < constraints.len() ==> !(#[trigger] constraints[i]).references(id),
        ensures
            constraints.filter(avoids(id)) == constraints,
        decreases constraints.len(),
    {
        reveal(Seq::filter);
        if constraints.len() > 0 {
            Self::lemma_filter_keeps_all(constraints.drop_last(), id);
        }
    }

    /// Among links that are pairwise between different pairs of points, one
    /// joins `a` and `b` if any does, and no second one.
    proof fn lemma_count_of_distinct_pairs(constraints: Seq<ConstraintView>, a: u64, b: u64)
        requires
            pairs_distinct(constraints),
        ensures
            (exists|i: int| 0 <= i < constraints.len() && (#[trigger] constraints[i]).connects(a, b))
                ==> constraints.filter(joins(a, b)).len() == 1,
            !(exists|i: int|
                0 <= i < constraints.len() && (#[trigger] constraints[i]).connects(a, b))
                ==> constraints.filter(joins(a, b)).len() == 0,
        decreases constraints.len(),
    {
        reveal(Seq::filter);
        if constraints.len() > 0 {
            let front = constraints.drop_last();
            assert(pairs_distinct(front));
            Self::lemma_count_of_distinct_pairs(front, a, b);
            if !constraints.last().connects(a, b) && exists|i: int|
                0 <= i < constraints.len() && (#[trigger] constraints[i]).connects(a, b) {
                let i = choose|i: int|
                    0 <= i < constraints.len() && (#[trigger] constraints[i]).connects(a, b);
                assert(front[i].connects(a, b));
            }
        }
    }

    /// Adding a point keeps the system well formed and every endpoint
    /// present. The identifier that the point gets was not in use, and no
    /// other point changes.
    pub proof fn lemma_add_point(self, point: Point)
        requires
            self.wf(),
            self.next_id < u64::MAX,
        ensures
            self.add_point(point).wf(),
            !self.points.contains_key(self.next_id as u64),
            self.add_point(point).points.remove(self.next_id as u64) == self.points,
            self.is_closed() ==> self.add_point(point).is_closed(),
    {
        assert(self.add_point(point).points.remove(self.next_id as u64) =~= self.points);
    }

    /// An identifier is not handed out twice: once the point `id` is removed,
    /// no point that is added later gets `id`.
    pub proof fn lemma_identifier_is_not_reused(self, id: u64, point: Point)
        requires
            self.wf(),
            self.next_id < u64::MAX,
            self.points.contains_key(id),
        ensures
            self.remove_point(id).next_id == self.next_id,
            self.remove_point(id).next_id != id,
            !self.remove_point(id).add_point(point).points.contains_key(id),
    {
    }

    /// Offering a link keeps the system well formed, and its two points are
    /// linked afterwards. Every endpoint stays present if the endpoints of
    /// the offered link are present.
    pub proof fn lemma_add_constraint(self, constraint: ConstraintView)
        requires
            self.wf(),
        ensures
            self.add_constraint(constraint).wf(),
            self.add_constraint(constraint).links(constraint.point1, constraint.point2),
            self.is_closed() && self.points.contains_key(constraint.point1)
                && self.points.contains_key(constraint.point2) ==> self.add_constraint(
                constraint,
            ).is_closed(),
    {
        let after = self.add_constraint(constraint);
        if !self.links(constraint.point1, constraint.point2) {
            let last = self.constraints.len() as int;
            assert(after.constraints[last].connects(constraint.point1, constraint.point2));
            assert forall|i: int, j: int| 0 <= i < j < after.constraints.len() implies !(
            #[trigger] after.constraints[i]).same_pair(#[trigger] after.constraints[j]) by {
                if j == last {
                    // no earlier link joins the two points of the new one
                    assert(!self.constraints[i].connects(constraint.point1, constraint.point2));
                }
            }
        }
    }

    /// In a well-formed system two points are joined by one link or by none.
    pub proof fn lemma_link_count(self, a: u64, b: u64)
        requires
            self.wf(),
        ensures
            self.links(a, b) ==> self.link_count(a, b) == 1,
            !self.links(a, b) ==> self.link_count(a, b) == 0,
    {
        Self::lemma_count_of_distinct_pairs(self.constraints, a, b);
    }

    /// A link that is offered a second time, with its points in the same or
    /// in the opposite order, changes nothing.
    pub proof fn lemma_second_offer_changes_nothing(
        self,
        first: ConstraintView,
        second: ConstraintView,
    )
        requires
            second.same_pair(first),
        ensures
            self.add_constraint(first).add_constraint(second) == self.add_constraint(first),
    {
        let once = self.add_constraint(first);
        if !self.links(first.point1, first.point2) {
            let last = self.constraints.len() as int;
            assert(once.constraints[last].connects(second.point1, second.point2));
        }
    }

    /// After a link was offered twice, with its points in the same or in the
    /// opposite order, exactly one link joins the two points. In a system
    /// that had no links, it is the only link, as it was offered first.
    pub proof fn lemma_offered_twice_linked_once(
        self,
        first: ConstraintView,
        second: ConstraintView,
    )
        requires
            self.wf(),
            second.same_pair(first),
        ensures
            self.add_constraint(first).add_constraint(second).link_count(
                first.point1,
                first.point2,
            ) == 1,
            self.constraints.len() == 0 ==> self.add_constraint(first).add_constraint(
                second,
            ).constraints == seq![first],
    {
        self.lemma_second_offer_changes_nothing(first, second);
        self.lemma_add_constraint(first);
        self.add_constraint(first).lemma_link_count(first.point1, first.point2);
        if self.constraints.len() == 0 {
            assert(self.add_constraint(first).constraints =~= seq![first]);
        }
    }

    /// Removing a point leaves no link that has it as an endpoint. It keeps
    /// the system well formed, and every endpoint present if every endpoint
    /// was.
    pub proof fn lemma_remove_point(self, id: u64)
        ensures
            !self.remove_point(id).points.contains_key(id),
            !self.remove_point(id).is_referenced(id),
            self.wf() ==> self.remove_point(id).wf(),
            self.is_closed() ==> self.remove_point(id).is_closed(),
    {
        let after = self.remove_point(id);
        assert forall|i: int| 0 <= i < after.constraints.len() implies !(
        #[trigger] after.constraints[i]).references(id) by {
            Self::lemma_filter_keeps_known(self.constraints, id, i);
        }
        if self.wf() {
            Self::lemma_filter_keeps_pairs_distinct(self.constraints, id);
        }
        if self.is_closed() {
            assert forall|i: int| 0 <= i < after.constraints.len() implies {
                &&& after.points.contains_key((#[trigger] after.constraints[i]).point1)
                &&& after.points.contains_key(after.constraints[i].point2)
            } by {
                Self::lemma_filter_keeps_known(self.constraints, id, i);
            }
        }
    }

    /// Removing a point that is absent, and that no link names, changes
    /// nothing.
    pub proof fn lemma_remove_absent_point(self, id: u64)
        requires
            !self.points.contains_key(id),
            !self.is_referenced(id),
        ensures
            self.remove_point(id) == self,
    {
        Self::lemma_filter_keeps_all(self.constraints, id);
        assert(self.points.remove(id) =~= self.points);
    }

    /// Where every endpoint is present, no link names an absent point.
    pub proof fn lemma_absent_point_is_unreferenced(self, id: u64)
        requires
            self.is_closed(),
            !self.points.contains_key(id),
        ensures
            !self.is_referenced(id),
    {
    }

    /// Giving a point that is present another state keeps the system well
    /// formed, and keeps every endpoint present.
    pub proof fn lemma_with_point(self, id: u64, point: Point)
        requires
            self.points.contains_key(id),
        ensures
            self.with_point(id, point).points.dom() == self.points.dom(),
            self.wf() ==> self.with_point(id, point).wf(),
            self.is_closed() ==> self.with_point(id, point).is_closed(),
    {
        assert(self.with_point(id, point).points.dom() =~= self.points.dom());
    }
}

} // verus!
