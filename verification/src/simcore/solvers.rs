//! Applying constraints.
//!
//! A constraint is applied in three steps. The positions it reads are looked
//! up: if a handle does not resolve, nothing happens. The arithmetic is done
//! by a function that the caller passes in, the kernel, which gets a
//! `Problem` and answers with a `Correction`. The corrected positions are
//! written back. The contracts say what the mechanism is afterwards for
//! whatever the kernel answered.

use crate::simcore::numeric::{Position, Scalar, Vec3};
use crate::simcore::store::{
    counts, joint_arena_get, joint_arena_get2_mut, joint_arena_get_mut, joint_arena_handles,
    joint_arena_len, joint_arena_new, joint_entries, link_arena_get, link_arena_handles,
    link_arena_len, link_arena_new, link_entries,
};
use crate::simcore::types::{
    Constraint, DistanceConstraint, FixedAngleConstraint, FixedPositionConstraint, Joint,
    JointId, Link, LinkId, PlaneConstraint, PrismaticConstraintLink, PrismaticConstraintVector,
    RevoluteConstraint, Simulation,
};
use vstd::prelude::*;

verus! {

/// What a constraint asks of the arithmetic: the kind of constraint, the
/// positions of the joints it reads as they are now, and its own numbers.
#[derive(Clone, Copy, Debug)]
pub enum Problem {
    FixedPosition { position: Position, target_position: Position },
    Distance { a: Position, b: Position, target_distance: Scalar },
    Plane { position: Position, normal: Vec3, plane_point: Vec3 },
    Prismatic { position: Position, axis: Vec3, origin: Vec3 },
    /// The line runs along the link from `start` to `end`.
    PrismaticLink { position: Position, start: Position, end: Position, origin: Vec3 },
    FixedAngle { a: Position, b: Position, pivot: Position, target_angle: Scalar },
    Revolute {
        pivot: Position,
        moving: Position,
        rest_direction: Vec3,
        min_angle: Scalar,
        max_angle: Scalar,
    },
}

/// Where the arithmetic wants the joints of a constraint to be: the first
/// joint that the constraint moves, and the second if it moves two. `None`
/// leaves a joint where it is.
#[derive(Clone, Copy, Debug)]
pub struct Correction {
    pub first: Option<Position>,
    pub second: Option<Position>,
}

/// The joints with the one under `id`, if there is one, moved to `to`.
pub open spec fn moved(joints: Map<JointId, Joint>, id: JointId, to: Option<Position>) -> Map<
    JointId,
    Joint,
> {
    match to {
        Some(position) => if joints.contains_key(id) {
            joints.insert(id, Joint { position, ..joints[id] })
        } else {
            joints
        },
        None => joints,
    }
}

/// The position of the joint under `id`, if there is one.
pub open spec fn position_in(joints: Map<JointId, Joint>, id: JointId) -> Option<Position> {
    if joints.contains_key(id) {
        Some(joints[id].position)
    } else {
        None
    }
}

/// The positions of the two ends of the link under `id`: the link must be
/// there, join exactly two joints, and both must be there.
pub open spec fn ends_in(joints: Map<JointId, Joint>, links: Map<LinkId, Link>, id: LinkId) -> Option<
    (Position, Position),
> {
    if links.contains_key(id) && links[id].joints@.len() == 2 && joints.contains_key(
        links[id].joints@[0],
    ) && joints.contains_key(links[id].joints@[1]) {
        Some((joints[links[id].joints@[0]].position, joints[links[id].joints@[1]].position))
    } else {
        None
    }
}

/// Two sets of joints differ in positions only.
pub open spec fn same_shape(before: Map<JointId, Joint>, after: Map<JointId, Joint>) -> bool {
    &&& after.dom() == before.dom()
    &&& forall|id: JointId| #[trigger]
        before.contains_key(id) ==> after[id].joint_type == before[id].joint_type
            && after[id].connected_links == before[id].connected_links
}

impl Simulation {
    /// The joints, each under its handle.
    pub open spec fn joint_map(&self) -> Map<JointId, Joint> {
        joint_entries(self.joints)
    }

    /// The links, each under its handle.
    pub open spec fn link_map(&self) -> Map<LinkId, Link> {
        link_entries(self.links)
    }

    /// A mechanism without joints, links or constraints.
    pub fn new() -> (sim: Simulation)
        ensures
            sim.joint_map() == (Map::<JointId, Joint>::empty()),
            sim.link_map() == (Map::<LinkId, Link>::empty()),
            sim.constraints@ == (Seq::<Constraint>::empty()),
    {
        Simulation { joints: joint_arena_new(), links: link_arena_new(), constraints: Vec::new() }
    }

    /// The joint under a handle, if the handle resolves.
    pub fn joint(&self, id: JointId) -> (found: Option<&Joint>)
        ensures
            found.is_some() == self.joint_map().contains_key(id),
            found.is_some() ==> *found.unwrap() == self.joint_map()[id],
    {
        joint_arena_get(&self.joints, id)
    }

    /// The link under a handle, if the handle resolves.
    pub fn link(&self, id: LinkId) -> (found: Option<&Link>)
        ensures
            found.is_some() == self.link_map().contains_key(id),
            found.is_some() ==> *found.unwrap() == self.link_map()[id],
    {
        link_arena_get(&self.links, id)
    }

    /// The number of joints.
    pub fn joint_count(&self) -> (count: usize)
        ensures
            counts(count, self.joint_map().dom()),
    {
        joint_arena_len(&self.joints)
    }

    /// The number of links.
    pub fn link_count(&self) -> (count: usize)
        ensures
            counts(count, self.link_map().dom()),
    {
        link_arena_len(&self.links)
    }

    /// The handles of all joints, each once.
    pub fn joint_ids(&self) -> (ids: Vec<JointId>)
        ensures
            ids@.no_duplicates(),
            ids@.to_set() == self.joint_map().dom(),
    {
        joint_arena_handles(&self.joints)
    }

    /// The handles of all links, each once.
    pub fn link_ids(&self) -> (ids: Vec<LinkId>)
        ensures
            ids@.no_duplicates(),
            ids@.to_set() == self.link_map().dom(),
    {
        link_arena_handles(&self.links)
    }

    /// Where the joint under a handle is, if the handle resolves.
    pub fn position_of(&self, id: JointId) -> (position: Option<Position>)
        ensures
            position == position_in(self.joint_map(), id),
    {
        match joint_arena_get(&self.joints, id) {
            Some(joint) => Some(joint.position),
            None => None,
        }
    }

    /// Puts the joint under a handle at a position. Returns whether the
    /// handle resolved; if it did not, nothing has changed.
    pub fn set_position(&mut self, id: JointId, position: Position) -> (found: bool)
        ensures
            found == old(self).joint_map().contains_key(id),
            final(self).joint_map() == moved(old(self).joint_map(), id, Some(position)),
            same_shape(old(self).joint_map(), final(self).joint_map()),
            final(self).link_map() == old(self).link_map(),
            final(self).constraints == old(self).constraints,
    {
        let found = match joint_arena_get_mut(&mut self.joints, id) {
            Some(joint) => {
                joint.position = position;
                true
            },
            None => false,
        };
        proof {
            lemma_moved_same_shape(old(self).joint_map(), id, Some(position));
        }
        found
    }

    /// Moves the joint under a handle where a correction wants it.
    fn correct(&mut self, id: JointId, to: Option<Position>)
        ensures
            final(self).joint_map() == moved(old(self).joint_map(), id, to),
            final(self).link_map() == old(self).link_map(),
            final(self).constraints == old(self).constraints,
    {
        match to {
            Some(position) => {
                self.set_position(id, position);
            },
            None => {},
        }
    }

    /// Where the two ends of the link under a handle are.
    fn link_ends(&self, id: LinkId) -> (ends: Option<(Position, Position)>)
        ensures
            ends == ends_in(self.joint_map(), self.link_map(), id),
    {
        let link = match link_arena_get(&self.links, id) {
            Some(link) => link,
            None => {
                return None;
            },
        };
        if link.joints.len() != 2 {
            return None;
        }
        let start = match self.position_of(link.joints[0]) {
            Some(position) => position,
            None => {
                return None;
            },
        };
        let end = match self.position_of(link.joints[1]) {
            Some(position) => position,
            None => {
                return None;
            },
        };
        Some((start, end))
    }

    /// The two joints under two different handles, to be changed in place.
    pub fn get_two_joints_mut(&mut self, a: JointId, b: JointId) -> (pair: Option<
        (&mut Joint, &mut Joint),
    >)
        ensures
            match pair {
                Some((first, second)) => {
                    &&& a != b
                    &&& old(self).joint_map().contains_key(a)
                    &&& old(self).joint_map().contains_key(b)
                    &&& *first == old(self).joint_map()[a]
                    &&& *second == old(self).joint_map()[b]
                    &&& final(self).joint_map() == old(self).joint_map().insert(
                        a,
                        *final(first),
                    ).insert(b, *final(second))
                },
                None => {
                    &&& a == b || !old(self).joint_map().contains_key(a) || !old(
                        self,
                    ).joint_map().contains_key(b)
                    &&& final(self).joint_map() == old(self).joint_map()
                },
            },
            final(self).link_map() == old(self).link_map(),
            final(self).constraints == old(self).constraints,
    {
        if a == b {
            None
        } else {
            match joint_arena_get2_mut(&mut self.joints, a, b) {
                (Some(first), Some(second)) => Some((first, second)),
                _ => None,
            }
        }
    }
}

impl FixedPositionConstraint {
    /// What is read when the constraint is checked.
    pub open spec fn reading(&self, joints: Map<JointId, Joint>) -> Option<Problem> {
        match position_in(joints, self.joint_id) {
            Some(position) => Some(
                Problem::FixedPosition { position, target_position: self.target_position },
            ),
            None => None,
        }
    }

    /// The joints after the constraint was applied to `before`.
    pub open spec fn applied(&self, before: Map<JointId, Joint>) -> Map<JointId, Joint> {
        moved(before, self.joint_id, Some(self.target_position))
    }

    /// Puts the joint at the stored position. A handle that does not resolve
    /// leaves everything as it is.
    pub fn apply(&self, sim: &mut Simulation)
        ensures
            final(sim).joint_map() == self.applied(old(sim).joint_map()),
            old(sim).joint_map().contains_key(self.joint_id) ==> final(sim).joint_map()[self.joint_id].position
                == self.target_position,
            final(sim).link_map() == old(sim).link_map(),
            final(sim).constraints == old(sim).constraints,
    {
        sim.set_position(self.joint_id, self.target_position);
    }

    /// Whether `check` finds the joint at the stored position. `false` if
    /// the handle does not resolve.
    pub fn is_satisfied<C: Fn(Problem) -> bool>(&self, sim: &Simulation, check: &C) -> (ok: bool)
        requires
            forall|p: Problem| check.requires((p,)),
        ensures
            holds(self.reading(sim.joint_map()), check, ok),
    {
        match sim.position_of(self.joint_id) {
            Some(position) => check(
                Problem::FixedPosition { position, target_position: self.target_position },
            ),
            None => false,
        }
    }
}

/// The answer `ok` to whether a constraint holds: `false` where nothing could
/// be read, and else what `check` said of what was read.
pub open spec fn holds<C: Fn(Problem) -> bool>(reading: Option<Problem>, check: &C, ok: bool) -> bool {
    match reading {
        Some(problem) => check.ensures((problem,), ok),
        None => !ok,
    }
}

/// The joints `after` a constraint that moves `first`, and `second` if there
/// is one, was applied to `before`: where nothing could be read, nothing has
/// changed, and else the joints are where `kernel` wanted them.
pub open spec fn corrected<K: Fn(Problem) -> Correction>(
    problem: Option<Problem>,
    first: JointId,
    second: Option<JointId>,
    kernel: &K,
    before: Map<JointId, Joint>,
    after: Map<JointId, Joint>,
) -> bool {
    match problem {
        Some(problem) => exists|c: Correction| #[trigger]
            kernel.ensures((problem,), c) && after == committed(before, first, second, c),
        None => after == before,
    }
}

/// The joints after a correction was written back.
pub open spec fn committed(
    before: Map<JointId, Joint>,
    first: JointId,
    second: Option<JointId>,
    c: Correction,
) -> Map<JointId, Joint> {
    match second {
        Some(second) => moved(moved(before, first, c.first), second, c.second),
        None => moved(before, first, c.first),
    }
}

impl DistanceConstraint {
    /// What is read when the constraint is checked: both joints must be there.
    pub open spec fn reading(&self, joints: Map<JointId, Joint>) -> Option<Problem> {
        if joints.contains_key(self.joint_a) && joints.contains_key(self.joint_b) {
            Some(
                Problem::Distance {
                    a: joints[self.joint_a].position,
                    b: joints[self.joint_b].position,
                    target_distance: self.target_distance,
                },
            )
        } else {
            None
        }
    }

    /// What is read when the constraint is applied: both joints must be
    /// there, and they must be two.
    pub open spec fn problem(&self, joints: Map<JointId, Joint>) -> Option<Problem> {
        if self.joint_a != self.joint_b {
            self.reading(joints)
        } else {
            None
        }
    }

    /// Moves both joints where `kernel` wants them.
    pub fn apply<K: Fn(Problem) -> Correction>(&self, sim: &mut Simulation, kernel: &K)
        requires
            forall|p: Problem| kernel.requires((p,)),
        ensures
            corrected(
                self.problem(old(sim).joint_map()),
                self.joint_a,
                Some(self.joint_b),
                kernel,
                old(sim).joint_map(),
                final(sim).joint_map(),
            ),
            final(sim).link_map() == old(sim).link_map(),
            final(sim).constraints == old(sim).constraints,
    {
        let ghost before = sim.joint_map();
        match sim.get_two_joints_mut(self.joint_a, self.joint_b) {
            Some((first, second)) => {
                let problem = Problem::Distance {
                    a: first.position,
                    b: second.position,
                    target_distance: self.target_distance,
                };
                let c = kernel(problem);
                match c.first {
                    Some(position) => {
                        first.position = position;
                    },
                    None => {},
                }
                match c.second {
                    Some(position) => {
                        second.position = position;
                    },
                    None => {},
                }
                proof {
                    assert(kernel.ensures((problem,), c));
                    assert(sim.joint_map() =~= committed(
                        before,
                        self.joint_a,
                        Some(self.joint_b),
                        c,
                    ));
                }
            },
            None => {},
        }
    }

    /// Whether `check` finds the two joints at the stored distance. `false`
    /// if a handle does not resolve.
    pub fn is_satisfied<C: Fn(Problem) -> bool>(&self, sim: &Simulation, check: &C) -> (ok: bool)
        requires
            forall|p: Problem| check.requires((p,)),
        ensures
            holds(self.reading(sim.joint_map()), check, ok),
    {
        match (sim.position_of(self.joint_a), sim.position_of(self.joint_b)) {
            (Some(a), Some(b)) => check(
                Problem::Distance { a, b, target_distance: self.target_distance },
            ),
            _ => false,
        }
    }
}

impl PlaneConstraint {
    /// What is read when the constraint is applied or checked.
    pub open spec fn reading(&self, joints: Map<JointId, Joint>) -> Option<Problem> {
        match position_in(joints, self.joint_id) {
            Some(position) => Some(
                Problem::Plane { position, normal: self.normal, plane_point: self.plane_point },
            ),
            None => None,
        }
    }

    fn read(&self, sim: &Simulation) -> (problem: Option<Problem>)
        ensures
            problem == self.reading(sim.joint_map()),
    {
        match sim.position_of(self.joint_id) {
            Some(position) => Some(
                Problem::Plane { position, normal: self.normal, plane_point: self.plane_point },
            ),
            None => None,
        }
    }

    /// Moves the joint where `kernel` wants it.
    pub fn apply<K: Fn(Problem) -> Correction>(&self, sim: &mut Simulation, kernel: &K)
        requires
            forall|p: Problem| kernel.requires((p,)),
        ensures
            corrected(
                self.reading(old(sim).joint_map()),
                self.joint_id,
                None,
                kernel,
                old(sim).joint_map(),
                final(sim).joint_map(),
            ),
            final(sim).link_map() == old(sim).link_map(),
            final(sim).constraints == old(sim).constraints,
    {
        match self.read(sim) {
            Some(problem) => {
                let c = kernel(problem);
                sim.correct(self.joint_id, c.first);
                assert(kernel.ensures((problem,), c));
            },
            None => {},
        }
    }

    /// Whether `check` finds the joint in the plane. `false` if the handle
    /// does not resolve.
    pub fn is_satisfied<C: Fn(Problem) -> bool>(&self, sim: &Simulation, check: &C) -> (ok: bool)
        requires
            forall|p: Problem| check.requires((p,)),
        ensures
            holds(self.reading(sim.joint_map()), check, ok),
    {
        match self.read(sim) {
            Some(problem) => check(problem),
            None => false,
        }
    }
}

impl PrismaticConstraintVector {
    /// What is read when the constraint is applied or checked.
    pub open spec fn reading(&self, joints: Map<JointId, Joint>) -> Option<Problem> {
        match position_in(joints, self.joint_id) {
            Some(position) => Some(
                Problem::Prismatic { position, axis: self.axis, origin: self.origin },
            ),
            None => None,
        }
    }

    fn read(&self, sim: &Simulation) -> (problem: Option<Problem>)
        ensures
            problem == self.reading(sim.joint_map()),
    {
        match sim.position_of(self.joint_id) {
            Some(position) => Some(
                Problem::Prismatic { position, axis: self.axis, origin: self.origin },
            ),
            None => None,
        }
    }

    /// Moves the joint where `kernel` wants it.
    pub fn apply<K: Fn(Problem) -> Correction>(&self, sim: &mut Simulation, kernel: &K)
        requires
            forall|p: Problem| kernel.requires((p,)),
        ensures
            corrected(
                self.reading(old(sim).joint_map()),
                self.joint_id,
                None,
                kernel,
                old(sim).joint_map(),
                final(sim).joint_map(),
            ),
            final(sim).link_map() == old(sim).link_map(),
            final(sim).constraints == old(sim).constraints,
    {
        match self.read(sim) {
            Some(problem) => {
                let c = kernel(problem);
                sim.correct(self.joint_id, c.first);
                assert(kernel.ensures((problem,), c));
            },
            None => {},
        }
    }

    /// Whether `check` finds the joint on the line. `false` if the handle
    /// does not resolve.
    pub fn is_satisfied<C: Fn(Problem) -> bool>(&self, sim: &Simulation, check: &C) -> (ok: bool)
        requires
            forall|p: Problem| check.requires((p,)),
        ensures
            holds(self.reading(sim.joint_map()), check, ok),
    {
        match self.read(sim) {
            Some(problem) => check(problem),
            None => false,
        }
    }
}

impl PrismaticConstraintLink {
    /// What is read when the constraint is applied or checked: the link must
    /// be there with both its ends, and so must the joint.
    pub open spec fn reading(&self, joints: Map<JointId, Joint>, links: Map<LinkId, Link>) -> Option<
        Problem,
    > {
        match ends_in(joints, links, self.link_id) {
            Some((start, end)) => match position_in(joints, self.joint_id) {
                Some(position) => Some(
                    Problem::PrismaticLink { position, start, end, origin: self.origin },
                ),
                None => None,
            },
            None => None,
        }
    }

    fn read(&self, sim: &Simulation) -> (problem: Option<Problem>)
        ensures
            problem == self.reading(sim.joint_map(), sim.link_map()),
    {
        match sim.link_ends(self.link_id) {
            Some((start, end)) => match sim.position_of(self.joint_id) {
                Some(position) => Some(
                    Problem::PrismaticLink { position, start, end, origin: self.origin },
                ),
                None => None,
            },
            None => None,
        }
    }

    /// Moves the joint where `kernel` wants it.
    pub fn apply<K: Fn(Problem) -> Correction>(&self, sim: &mut Simulation, kernel: &K)
        requires
            forall|p: Problem| kernel.requires((p,)),
        ensures
            corrected(
                self.reading(old(sim).joint_map(), old(sim).link_map()),
                self.joint_id,
                None,
                kernel,
                old(sim).joint_map(),
                final(sim).joint_map(),
            ),
            final(sim).link_map() == old(sim).link_map(),
            final(sim).constraints == old(sim).constraints,
    {
        match self.read(sim) {
            Some(problem) => {
                let c = kernel(problem);
                sim.correct(self.joint_id, c.first);
                assert(kernel.ensures((problem,), c));
            },
            None => {},
        }
    }

    /// Whether `check` finds the joint on the line. `false` if a handle does
    /// not resolve.
    pub fn is_satisfied<C: Fn(Problem) -> bool>(&self, sim: &Simulation, check: &C) -> (ok: bool)
        requires
            forall|p: Problem| check.requires((p,)),
        ensures
            holds(self.reading(sim.joint_map(), sim.link_map()), check, ok),
    {
        match self.read(sim) {
            Some(problem) => check(problem),
            None => false,
        }
    }
}

impl FixedAngleConstraint {
    /// What is read when the constraint is checked: the pivot and both
    /// joints must be there.
    pub open spec fn reading(&self, joints: Map<JointId, Joint>) -> Option<Problem> {
        if joints.contains_key(self.pivot_joint_id) && joints.contains_key(self.joint_a_id)
            && joints.contains_key(self.joint_b_id) {
            Some(
                Problem::FixedAngle {
                    a: joints[self.joint_a_id].position,
                    b: joints[self.joint_b_id].position,
                    pivot: joints[self.pivot_joint_id].position,
                    target_angle: self.target_angle,
                },
            )
        } else {
            None
        }
    }

    /// What is read when the constraint is applied: the two joints must
    /// moreover be two.
    pub open spec fn problem(&self, joints: Map<JointId, Joint>) -> Option<Problem> {
        if self.joint_a_id != self.joint_b_id {
            self.reading(joints)
        } else {
            None
        }
    }

    /// Moves the two joints where `kernel` wants them. The pivot stays.
    pub fn apply<K: Fn(Problem) -> Correction>(&self, sim: &mut Simulation, kernel: &K)
        requires
            forall|p: Problem| kernel.requires((p,)),
        ensures
            corrected(
                self.problem(old(sim).joint_map()),
                self.joint_a_id,
                Some(self.joint_b_id),
                kernel,
                old(sim).joint_map(),
                final(sim).joint_map(),
            ),
            final(sim).link_map() == old(sim).link_map(),
            final(sim).constraints == old(sim).constraints,
    {
        let ghost before = sim.joint_map();
        let pivot = match sim.position_of(self.pivot_joint_id) {
            Some(position) => position,
            None => {
                return ;
            },
        };
        match sim.get_two_joints_mut(self.joint_a_id, self.joint_b_id) {
            Some((first, second)) => {
                let problem = Problem::FixedAngle {
                    a: first.position,
                    b: second.position,
                    pivot,
                    target_angle: self.target_angle,
                };
                let c = kernel(problem);
                match c.first {
                    Some(position) => {
                        first.position = position;
                    },
                    None => {},
                }
                match c.second {
                    Some(position) => {
                        second.position = position;
                    },
                    None => {},
                }
                proof {
                    assert(kernel.ensures((problem,), c));
                    assert(sim.joint_map() =~= committed(
                        before,
                        self.joint_a_id,
                        Some(self.joint_b_id),
                        c,
                    ));
                }
            },
            None => {},
        }
    }

    /// Whether `check` finds the two joints at the stored angle about the
    /// pivot. `false` if a handle does not resolve.
    pub fn is_satisfied<C: Fn(Problem) -> bool>(&self, sim: &Simulation, check: &C) -> (ok: bool)
        requires
            forall|p: Problem| check.requires((p,)),
        ensures
            holds(self.reading(sim.joint_map()), check, ok),
    {
        match (
            sim.position_of(self.pivot_joint_id),
            sim.position_of(self.joint_a_id),
            sim.position_of(self.joint_b_id),
        ) {
            (Some(pivot), Some(a), Some(b)) => check(
                Problem::FixedAngle { a, b, pivot, target_angle: self.target_angle },
            ),
            _ => false,
        }
    }
}

impl RevoluteConstraint {
    /// What is read when the constraint is checked: the pivot and the moving
    /// joint must be there.
    pub open spec fn reading(&self, joints: Map<JointId, Joint>) -> Option<Problem> {
        if joints.contains_key(self.pivot_joint_id) && joints.contains_key(self.moving_joint_id) {
            Some(
                Problem::Revolute {
                    pivot: joints[self.pivot_joint_id].position,
                    moving: joints[self.moving_joint_id].position,
                    rest_direction: self.rest_direction,
                    min_angle: self.min_angle,
                    max_angle: self.max_angle,
                },
            )
        } else {
            None
        }
    }

    /// What is read when the constraint is applied: the two joints must
    /// moreover be two.
    pub open spec fn problem(&self, joints: Map<JointId, Joint>) -> Option<Problem> {
        if self.pivot_joint_id != self.moving_joint_id {
            self.reading(joints)
        } else {
            None
        }
    }

    /// Moves the moving joint where `kernel` wants it. The pivot stays.
    pub fn apply<K: Fn(Problem) -> Correction>(&self, sim: &mut Simulation, kernel: &K)
        requires
            forall|p: Problem| kernel.requires((p,)),
        ensures
            corrected(
                self.problem(old(sim).joint_map()),
                self.moving_joint_id,
                None,
                kernel,
                old(sim).joint_map(),
                final(sim).joint_map(),
            ),
            final(sim).link_map() == old(sim).link_map(),
            final(sim).constraints == old(sim).constraints,
    {
        let ghost before = sim.joint_map();
        match sim.get_two_joints_mut(self.pivot_joint_id, self.moving_joint_id) {
            Some((pivot, moving)) => {
                let problem = Problem::Revolute {
                    pivot: pivot.position,
                    moving: moving.position,
                    rest_direction: self.rest_direction,
                    min_angle: self.min_angle,
                    max_angle: self.max_angle,
                };
                let c = kernel(problem);
                match c.first {
                    Some(position) => {
                        moving.position = position;
                    },
                    None => {},
                }
                proof {
                    assert(kernel.ensures((problem,), c));
                    assert(sim.joint_map() =~= committed(before, self.moving_joint_id, None, c));
                }
            },
            None => {},
        }
    }

    /// Whether `check` finds the angle between the bounds. `false` if a
    /// handle does not resolve.
    pub fn is_satisfied<C: Fn(Problem) -> bool>(&self, sim: &Simulation, check: &C) -> (ok: bool)
        requires
            forall|p: Problem| check.requires((p,)),
        ensures
            holds(self.reading(sim.joint_map()), check, ok),
    {
        match (sim.position_of(self.pivot_joint_id), sim.position_of(self.moving_joint_id)) {
            (Some(pivot), Some(moving)) => check(
                Problem::Revolute {
                    pivot,
                    moving,
                    rest_direction: self.rest_direction,
                    min_angle: self.min_angle,
                    max_angle: self.max_angle,
                },
            ),
            _ => false,
        }
    }
}

impl Constraint {
    /// What is read when the constraint is checked.
    pub open spec fn reading(&self, joints: Map<JointId, Joint>, links: Map<LinkId, Link>) -> Option<
        Problem,
    > {
        match *self {
            Constraint::FixedPosition(c) => c.reading(joints),
            Constraint::Distance(c) => c.reading(joints),
            Constraint::Plane(c) => c.reading(joints),
            Constraint::PrismaticVector(c) => c.reading(joints),
            Constraint::PrismaticLink(c) => c.reading(joints, links),
            Constraint::FixedAngle(c) => c.reading(joints),
            Constraint::Revolute(c) => c.reading(joints),
        }
    }

    /// The joints `after` the constraint was applied to `before` with `kernel`.
    pub open spec fn applied<K: Fn(Problem) -> Correction>(
        &self,
        kernel: &K,
        before: Map<JointId, Joint>,
        links: Map<LinkId, Link>,
        after: Map<JointId, Joint>,
    ) -> bool {
        match *self {
            Constraint::FixedPosition(c) => after == c.applied(before),
            Constraint::Distance(c) => corrected(
                c.problem(before),
                c.joint_a,
                Some(c.joint_b),
                kernel,
                before,
                after,
            ),
            Constraint::Plane(c) => corrected(
                c.reading(before),
                c.joint_id,
                None,
                kernel,
                before,
                after,
            ),
            Constraint::PrismaticVector(c) => corrected(
                c.reading(before),
                c.joint_id,
                None,
                kernel,
                before,
                after,
            ),
            Constraint::PrismaticLink(c) => corrected(
                c.reading(before, links),
                c.joint_id,
                None,
                kernel,
                before,
                after,
            ),
            Constraint::FixedAngle(c) => corrected(
                c.problem(before),
                c.joint_a_id,
                Some(c.joint_b_id),
                kernel,
                before,
                after,
            ),
            Constraint::Revolute(c) => corrected(
                c.problem(before),
                c.moving_joint_id,
                None,
                kernel,
                before,
                after,
            ),
        }
    }

    /// Every handle of the constraint resolves.
    pub open spec fn resolves(&self, joints: Map<JointId, Joint>, links: Map<LinkId, Link>) -> bool {
        match *self {
            Constraint::FixedPosition(c) => joints.contains_key(c.joint_id),
            Constraint::Distance(c) => joints.contains_key(c.joint_a) && joints.contains_key(
                c.joint_b,
            ),
            Constraint::Plane(c) => joints.contains_key(c.joint_id),
            Constraint::PrismaticVector(c) => joints.contains_key(c.joint_id),
            Constraint::PrismaticLink(c) => joints.contains_key(c.joint_id) && links.contains_key(
                c.link_id,
            ),
            Constraint::FixedAngle(c) => joints.contains_key(c.joint_a_id) && joints.contains_key(
                c.joint_b_id,
            ) && joints.contains_key(c.pivot_joint_id),
            Constraint::Revolute(c) => joints.contains_key(c.pivot_joint_id)
                && joints.contains_key(c.moving_joint_id),
        }
    }

    /// Corrects the joints of the constraint. If one of its handles does not
    /// resolve, nothing changes.
    pub fn apply<K: Fn(Problem) -> Correction>(&self, sim: &mut Simulation, kernel: &K)
        requires
            forall|p: Problem| kernel.requires((p,)),
        ensures
            self.applied(
                kernel,
                old(sim).joint_map(),
                old(sim).link_map(),
                final(sim).joint_map(),
            ),
            same_shape(old(sim).joint_map(), final(sim).joint_map()),
            final(sim).link_map() == old(sim).link_map(),
            final(sim).constraints == old(sim).constraints,
    {
        match self {
            Constraint::FixedPosition(c) => c.apply(sim),
            Constraint::Distance(c) => c.apply(sim, kernel),
            Constraint::Plane(c) => c.apply(sim, kernel),
            Constraint::PrismaticVector(c) => c.apply(sim, kernel),
            Constraint::PrismaticLink(c) => c.apply(sim, kernel),
            Constraint::FixedAngle(c) => c.apply(sim, kernel),
            Constraint::Revolute(c) => c.apply(sim, kernel),
        }
        proof {
            lemma_applied_same_shape(
                *self,
                kernel,
                old(sim).joint_map(),
                old(sim).link_map(),
                sim.joint_map(),
            );
        }
    }

    /// Whether `check` finds the constraint met. `false` if one of its
    /// handles does not resolve.
    pub fn is_satisfied<C: Fn(Problem) -> bool>(&self, sim: &Simulation, check: &C) -> (ok: bool)
        requires
            forall|p: Problem| check.requires((p,)),
        ensures
            holds(self.reading(sim.joint_map(), sim.link_map()), check, ok),
    {
        match self {
            Constraint::FixedPosition(c) => c.is_satisfied(sim, check),
            Constraint::Distance(c) => c.is_satisfied(sim, check),
            Constraint::Plane(c) => c.is_satisfied(sim, check),
            Constraint::PrismaticVector(c) => c.is_satisfied(sim, check),
            Constraint::PrismaticLink(c) => c.is_satisfied(sim, check),
            Constraint::FixedAngle(c) => c.is_satisfied(sim, check),
            Constraint::Revolute(c) => c.is_satisfied(sim, check),
        }
    }
}

/// In `states`, each constraint was applied to the state before it and gave
/// the state after it.
pub open spec fn applied_at<K: Fn(Problem) -> Correction>(
    constraints: Seq<Constraint>,
    kernel: &K,
    links: Map<LinkId, Link>,
    states: Seq<Map<JointId, Joint>>,
    i: int,
) -> bool {
    constraints[i].applied(kernel, states[i], links, states[i + 1])
}

/// `states` are the joints before a pass, after each constraint of it, and so
/// after the pass.
pub open spec fn pass_trace<K: Fn(Problem) -> Correction>(
    constraints: Seq<Constraint>,
    kernel: &K,
    links: Map<LinkId, Link>,
    states: Seq<Map<JointId, Joint>>,
) -> bool {
    &&& states.len() == constraints.len() + 1
    &&& forall|i: int|
        0 <= i < constraints.len() ==> #[trigger] applied_at(constraints, kernel, links, states, i)
}

/// The joints `after` one pass: the constraints were applied to `before` one
/// after the other, each to what the one before it left.
pub open spec fn swept<K: Fn(Problem) -> Correction>(
    constraints: Seq<Constraint>,
    kernel: &K,
    before: Map<JointId, Joint>,
    links: Map<LinkId, Link>,
    after: Map<JointId, Joint>,
) -> bool {
    exists|states: Seq<Map<JointId, Joint>>| #[trigger]
        pass_trace(constraints, kernel, links, states) && states.first() == before
            && states.last() == after
}

/// In `states`, a pass took the state at `i` to the one after it.
pub open spec fn swept_at<K: Fn(Problem) -> Correction>(
    constraints: Seq<Constraint>,
    kernel: &K,
    links: Map<LinkId, Link>,
    states: Seq<Map<JointId, Joint>>,
    i: int,
) -> bool {
    swept(constraints, kernel, states[i], links, states[i + 1])
}

/// `states` are the joints before the first of `passes` passes and after each.
pub open spec fn step_trace<K: Fn(Problem) -> Correction>(
    constraints: Seq<Constraint>,
    kernel: &K,
    passes: nat,
    links: Map<LinkId, Link>,
    states: Seq<Map<JointId, Joint>>,
) -> bool {
    &&& states.len() == passes + 1
    &&& forall|i: int| 0 <= i < passes ==> #[trigger] swept_at(constraints, kernel, links, states, i)
}

/// The joints `after` a number of passes, each over what the one before it left.
pub open spec fn stepped<K: Fn(Problem) -> Correction>(
    constraints: Seq<Constraint>,
    kernel: &K,
    passes: nat,
    before: Map<JointId, Joint>,
    links: Map<LinkId, Link>,
    after: Map<JointId, Joint>,
) -> bool {
    exists|states: Seq<Map<JointId, Joint>>| #[trigger]
        step_trace(constraints, kernel, passes, links, states) && states.first() == before
            && states.last() == after
}

/// Moving a joint changes no joint's kind or links, and adds or removes none.
pub proof fn lemma_moved_same_shape(joints: Map<JointId, Joint>, id: JointId, to: Option<Position>)
    ensures
        same_shape(joints, moved(joints, id, to)),
{
    assert(moved(joints, id, to).dom() =~= joints.dom());
}

/// Joints that only moved, and then only moved again, have only moved.
pub proof fn lemma_same_shape_transitive(
    a: Map<JointId, Joint>,
    b: Map<JointId, Joint>,
    c: Map<JointId, Joint>,
)
    requires
        same_shape(a, b),
        same_shape(b, c),
    ensures
        same_shape(a, c),
{
    assert forall|id: JointId| #[trigger] a.contains_key(id) implies c[id].joint_type
        == a[id].joint_type && c[id].connected_links == a[id].connected_links by {
        assert(b.contains_key(id));
    }
}

/// Applying a constraint moves joints and does nothing else to them,
/// whatever the kernel answers.
pub proof fn lemma_applied_same_shape<K: Fn(Problem) -> Correction>(
    constraint: Constraint,
    kernel: &K,
    before: Map<JointId, Joint>,
    links: Map<LinkId, Link>,
    after: Map<JointId, Joint>,
)
    requires
        constraint.applied(kernel, before, links, after),
    ensures
        same_shape(before, after),
{
    match constraint {
        Constraint::FixedPosition(c) => {
            lemma_moved_same_shape(before, c.joint_id, Some(c.target_position));
        },
        Constraint::Distance(c) => {
            lemma_corrected_same_shape(
                c.problem(before),
                c.joint_a,
                Some(c.joint_b),
                kernel,
                before,
                after,
            );
        },
        Constraint::Plane(c) => {
            lemma_corrected_same_shape(c.reading(before), c.joint_id, None, kernel, before, after);
        },
        Constraint::PrismaticVector(c) => {
            lemma_corrected_same_shape(c.reading(before), c.joint_id, None, kernel, before, after);
        },
        Constraint::PrismaticLink(c) => {
            lemma_corrected_same_shape(
                c.reading(before, links),
                c.joint_id,
                None,
                kernel,
                before,
                after,
            );
        },
        Constraint::FixedAngle(c) => {
            lemma_corrected_same_shape(
                c.problem(before),
                c.joint_a_id,
                Some(c.joint_b_id),
                kernel,
                before,
                after,
            );
        },
        Constraint::Revolute(c) => {
            lemma_corrected_same_shape(
                c.problem(before),
                c.moving_joint_id,
                None,
                kernel,
                before,
                after,
            );
        },
    }
}

proof fn lemma_corrected_same_shape<K: Fn(Problem) -> Correction>(
    problem: Option<Problem>,
    first: JointId,
    second: Option<JointId>,
    kernel: &K,
    before: Map<JointId, Joint>,
    after: Map<JointId, Joint>,
)
    requires
        corrected(problem, first, second, kernel, before, after),
    ensures
        same_shape(before, after),
{
    match problem {
        Some(problem) => {
            let c = choose|c: Correction| #[trigger]
                kernel.ensures((problem,), c) && after == committed(before, first, second, c);
            lemma_moved_same_shape(before, first, c.first);
            match second {
                Some(second) => {
                    lemma_moved_same_shape(moved(before, first, c.first), second, c.second);
                    lemma_same_shape_transitive(before, moved(before, first, c.first), after);
                },
                None => {},
            }
        },
        None => {},
    }
}

proof fn lemma_pass_trace_same_shape<K: Fn(Problem) -> Correction>(
    constraints: Seq<Constraint>,
    kernel: &K,
    links: Map<LinkId, Link>,
    states: Seq<Map<JointId, Joint>>,
    upto: int,
)
    requires
        pass_trace(constraints, kernel, links, states),
        0 <= upto <= constraints.len(),
    ensures
        same_shape(states[0], states[upto]),
    decreases upto,
{
    if upto > 0 {
        lemma_pass_trace_same_shape(constraints, kernel, links, states, upto - 1);
        assert(applied_at(constraints, kernel, links, states, upto - 1));
        lemma_applied_same_shape(
            constraints[upto - 1],
            kernel,
            states[upto - 1],
            links,
            states[upto],
        );
        lemma_same_shape_transitive(states[0], states[upto - 1], states[upto]);
    }
}

/// A pass moves joints and does nothing else to them.
pub proof fn lemma_swept_same_shape<K: Fn(Problem) -> Correction>(
    constraints: Seq<Constraint>,
    kernel: &K,
    before: Map<JointId, Joint>,
    links: Map<LinkId, Link>,
    after: Map<JointId, Joint>,
)
    requires
        swept(constraints, kernel, before, links, after),
    ensures
        same_shape(before, after),
{
    let states = choose|states: Seq<Map<JointId, Joint>>| #[trigger]
        pass_trace(constraints, kernel, links, states) && states.first() == before
            && states.last() == after;
    lemma_pass_trace_same_shape(constraints, kernel, links, states, constraints.len() as int);
}

proof fn lemma_step_trace_same_shape<K: Fn(Problem) -> Correction>(
    constraints: Seq<Constraint>,
    kernel: &K,
    passes: nat,
    links: Map<LinkId, Link>,
    states: Seq<Map<JointId, Joint>>,
    upto: int,
)
    requires
        step_trace(constraints, kernel, passes, links, states),
        0 <= upto <= passes,
    ensures
        same_shape(states[0], states[upto]),
    decreases upto,
{
    if upto > 0 {
        lemma_step_trace_same_shape(constraints, kernel, passes, links, states, upto - 1);
        assert(swept_at(constraints, kernel, links, states, upto - 1));
        lemma_swept_same_shape(constraints, kernel, states[upto - 1], links, states[upto]);
        lemma_same_shape_transitive(states[0], states[upto - 1], states[upto]);
    }
}

/// Any number of passes moves joints and does nothing else to them.
pub proof fn lemma_stepped_same_shape<K: Fn(Problem) -> Correction>(
    constraints: Seq<Constraint>,
    kernel: &K,
    passes: nat,
    before: Map<JointId, Joint>,
    links: Map<LinkId, Link>,
    after: Map<JointId, Joint>,
)
    requires
        stepped(constraints, kernel, passes, before, links, after),
    ensures
        same_shape(before, after),
{
    let states = choose|states: Seq<Map<JointId, Joint>>| #[trigger]
        step_trace(constraints, kernel, passes, links, states) && states.first() == before
            && states.last() == after;
    lemma_step_trace_same_shape(constraints, kernel, passes, links, states, passes as int);
}

/// The kernel has at most one answer to each problem.
pub open spec fn single_valued<K: Fn(Problem) -> Correction>(kernel: &K) -> bool {
    forall|p: Problem, first: Correction, second: Correction|
        #![trigger kernel.ensures((p,), first), kernel.ensures((p,), second)]
        kernel.ensures((p,), first) && kernel.ensures((p,), second) ==> first == second
}

proof fn lemma_corrected_unique<K: Fn(Problem) -> Correction>(
    problem: Option<Problem>,
    first: JointId,
    second: Option<JointId>,
    kernel: &K,
    before: Map<JointId, Joint>,
    one: Map<JointId, Joint>,
    other: Map<JointId, Joint>,
)
    requires
        single_valued(kernel),
        corrected(problem, first, second, kernel, before, one),
        corrected(problem, first, second, kernel, before, other),
    ensures
        one == other,
{
    match problem {
        Some(problem) => {
            let c = choose|c: Correction| #[trigger]
                kernel.ensures((problem,), c) && one == committed(before, first, second, c);
            let d = choose|d: Correction| #[trigger]
                kernel.ensures((problem,), d) && other == committed(before, first, second, d);
            assert(c == d);
        },
        None => {},
    }
}

/// With a kernel that has one answer to each problem, applying a constraint
/// has one outcome.
pub proof fn lemma_applied_unique<K: Fn(Problem) -> Correction>(
    constraint: Constraint,
    kernel: &K,
    before: Map<JointId, Joint>,
    links: Map<LinkId, Link>,
    one: Map<JointId, Joint>,
    other: Map<JointId, Joint>,
)
    requires
        single_valued(kernel),
        constraint.applied(kernel, before, links, one),
        constraint.applied(kernel, before, links, other),
    ensures
        one == other,
{
    match constraint {
        Constraint::FixedPosition(c) => {},
        Constraint::Distance(c) => {
            lemma_corrected_unique(
                c.problem(before),
                c.joint_a,
                Some(c.joint_b),
                kernel,
                before,
                one,
                other,
            );
        },
        Constraint::Plane(c) => {
            lemma_corrected_unique(c.reading(before), c.joint_id, None, kernel, before, one, other);
        },
        Constraint::PrismaticVector(c) => {
            lemma_corrected_unique(c.reading(before), c.joint_id, None, kernel, before, one, other);
        },
        Constraint::PrismaticLink(c) => {
            lemma_corrected_unique(
                c.reading(before, links),
                c.joint_id,
                None,
                kernel,
                before,
                one,
                other,
            );
        },
        Constraint::FixedAngle(c) => {
            lemma_corrected_unique(
                c.problem(before),
                c.joint_a_id,
                Some(c.joint_b_id),
                kernel,
                before,
                one,
                other,
            );
        },
        Constraint::Revolute(c) => {
            lemma_corrected_unique(
                c.problem(before),
                c.moving_joint_id,
                None,
                kernel,
                before,
                one,
                other,
            );
        },
    }
}

proof fn lemma_pass_trace_unique<K: Fn(Problem) -> Correction>(
    constraints: Seq<Constraint>,
    kernel: &K,
    links: Map<LinkId, Link>,
    one: Seq<Map<JointId, Joint>>,
    other: Seq<Map<JointId, Joint>>,
    upto: int,
)
    requires
        single_valued(kernel),
        pass_trace(constraints, kernel, links, one),
        pass_trace(constraints, kernel, links, other),
        one[0] == other[0],
        0 <= upto <= constraints.len(),
    ensures
        one[upto] == other[upto],
    decreases upto,
{
    if upto > 0 {
        lemma_pass_trace_unique(constraints, kernel, links, one, other, upto - 1);
        assert(applied_at(constraints, kernel, links, one, upto - 1));
        assert(applied_at(constraints, kernel, links, other, upto - 1));
        lemma_applied_unique(
            constraints[upto - 1],
            kernel,
            one[upto - 1],
            links,
            one[upto],
            other[upto],
        );
    }
}

/// With a kernel that has one answer to each problem, a pass has one outcome.
pub proof fn lemma_swept_unique<K: Fn(Problem) -> Correction>(
    constraints: Seq<Constraint>,
    kernel: &K,
    before: Map<JointId, Joint>,
    links: Map<LinkId, Link>,
    one: Map<JointId, Joint>,
    other: Map<JointId, Joint>,
)
    requires
        single_valued(kernel),
        swept(constraints, kernel, before, links, one),
        swept(constraints, kernel, before, links, other),
    ensures
        one == other,
{
    let first = choose|states: Seq<Map<JointId, Joint>>| #[trigger]
        pass_trace(constraints, kernel, links, states) && states.first() == before
            && states.last() == one;
    let second = choose|states: Seq<Map<JointId, Joint>>| #[trigger]
        pass_trace(constraints, kernel, links, states) && states.first() == before
            && states.last() == other;
    lemma_pass_trace_unique(constraints, kernel, links, first, second, constraints.len() as int);
}

proof fn lemma_step_trace_unique<K: Fn(Problem) -> Correction>(
    constraints: Seq<Constraint>,
    kernel: &K,
    passes: nat,
    links: Map<LinkId, Link>,
    one: Seq<Map<JointId, Joint>>,
    other: Seq<Map<JointId, Joint>>,
    upto: int,
)
    requires
        single_valued(kernel),
        step_trace(constraints, kernel, passes, links, one),
        step_trace(constraints, kernel, passes, links, other),
        one[0] == other[0],
        0 <= upto <= passes,
    ensures
        one[upto] == other[upto],
    decreases upto,
{
    if upto > 0 {
        lemma_step_trace_unique(constraints, kernel, passes, links, one, other, upto - 1);
        assert(swept_at(constraints, kernel, links, one, upto - 1));
        assert(swept_at(constraints, kernel, links, other, upto - 1));
        lemma_swept_unique(constraints, kernel, one[upto - 1], links, one[upto], other[upto]);
    }
}

/// With a kernel that has one answer to each problem, relaxing a mechanism
/// has one outcome: the contract of `step` leaves nothing open.
pub proof fn lemma_stepped_unique<K: Fn(Problem) -> Correction>(
    constraints: Seq<Constraint>,
    kernel: &K,
    passes: nat,
    before: Map<JointId, Joint>,
    links: Map<LinkId, Link>,
    one: Map<JointId, Joint>,
    other: Map<JointId, Joint>,
)
    requires
        single_valued(kernel),
        stepped(constraints, kernel, passes, before, links, one),
        stepped(constraints, kernel, passes, before, links, other),
    ensures
        one == other,
{
    let first = choose|states: Seq<Map<JointId, Joint>>| #[trigger]
        step_trace(constraints, kernel, passes, links, states) && states.first() == before
            && states.last() == one;
    let second = choose|states: Seq<Map<JointId, Joint>>| #[trigger]
        step_trace(constraints, kernel, passes, links, states) && states.first() == before
            && states.last() == other;
    lemma_step_trace_unique(constraints, kernel, passes, links, first, second, passes as int);
}

/// Every handle that the links, the joints and the constraints hold resolves.
pub open spec fn closed(
    joints: Map<JointId, Joint>,
    links: Map<LinkId, Link>,
    constraints: Seq<Constraint>,
) -> bool {
    &&& forall|id: LinkId| #[trigger]
        links.contains_key(id) ==> links[id].joints@.len() == 2 && joints.contains_key(
            links[id].joints@[0],
        ) && joints.contains_key(links[id].joints@[1])
    &&& forall|id: JointId, k: int|
        joints.contains_key(id) && 0 <= k < joints[id].connected_links@.len()
            ==> links.contains_key(#[trigger] joints[id].connected_links@[k])
    &&& forall|i: int|
        0 <= i < constraints.len() ==> (#[trigger] constraints[i]).resolves(joints, links)
}

/// Joints that only moved resolve the same handles.
pub proof fn lemma_closed_same_shape(
    before: Map<JointId, Joint>,
    after: Map<JointId, Joint>,
    links: Map<LinkId, Link>,
    constraints: Seq<Constraint>,
)
    requires
        closed(before, links, constraints),
        same_shape(before, after),
    ensures
        closed(after, links, constraints),
{
    assert forall|id: JointId| after.contains_key(id) == before.contains_key(id) by {
        assert(after.dom().contains(id) == before.dom().contains(id));
    }
    assert forall|id: JointId, k: int|
        after.contains_key(id) && 0 <= k < after[id].connected_links@.len() implies links.contains_key(
        #[trigger] after[id].connected_links@[k],
    ) by {
        assert(before.contains_key(id));
        assert(links.contains_key(before[id].connected_links@[k]));
    }
    assert forall|i: int| 0 <= i < constraints.len() implies (#[trigger] constraints[i]).resolves(
        after,
        links,
    ) by {
        assert(constraints[i].resolves(before, links));
    }
}

impl Simulation {
    /// Every handle in the mechanism resolves in the mechanism.
    pub open spec fn well_formed(&self) -> bool {
        closed(self.joint_map(), self.link_map(), self.constraints@)
    }

    /// One pass: applies every constraint once, in order.
    pub fn solve_constraints<K: Fn(Problem) -> Correction>(&mut self, kernel: &K)
        requires
            forall|p: Problem| kernel.requires((p,)),
        ensures
            swept(
                old(self).constraints@,
                kernel,
                old(self).joint_map(),
                old(self).link_map(),
                final(self).joint_map(),
            ),
            same_shape(old(self).joint_map(), final(self).joint_map()),
            final(self).link_map() == old(self).link_map(),
            final(self).constraints == old(self).constraints,
            old(self).well_formed() ==> final(self).well_formed(),
    {
        let ghost constraints = self.constraints@;
        let ghost links = self.link_map();
        let ghost before = self.joint_map();
        let ghost mut states = seq![before];
        let mut i: usize = 0;
        while i < self.constraints.len()
            invariant
                forall|p: Problem| kernel.requires((p,)),
                i <= constraints.len(),
                self.constraints@ == constraints,
                self.constraints == old(self).constraints,
                self.link_map() == links,
                states.len() == i + 1,
                states[0] == before,
                states[i as int] == self.joint_map(),
                forall|k: int|
                    0 <= k < i ==> #[trigger] applied_at(constraints, kernel, links, states, k),
            decreases constraints.len() - i,
        {
            let constraint = self.constraints[i];
            constraint.apply(self, kernel);
            proof {
                let longer = states.push(self.joint_map());
                assert forall|k: int| 0 <= k < i + 1 implies #[trigger] applied_at(
                    constraints,
                    kernel,
                    links,
                    longer,
                    k,
                ) by {
                    if k < i {
                        assert(applied_at(constraints, kernel, links, states, k));
                    }
                }
                states = longer;
            }
            i += 1;
        }
        proof {
            assert(pass_trace(constraints, kernel, links, states));
            lemma_swept_same_shape(constraints, kernel, before, links, self.joint_map());
            if old(self).well_formed() {
                lemma_closed_same_shape(before, self.joint_map(), links, constraints);
            }
        }
    }

    /// Relaxes the mechanism: twice `iterations` passes. `dt` is not used.
    pub fn step<K: Fn(Problem) -> Correction>(&mut self, dt: Scalar, iterations: usize, kernel: &K)
        requires
            forall|p: Problem| kernel.requires((p,)),
        ensures
            stepped(
                old(self).constraints@,
                kernel,
                2 * (iterations as nat),
                old(self).joint_map(),
                old(self).link_map(),
                final(self).joint_map(),
            ),
            same_shape(old(self).joint_map(), final(self).joint_map()),
            final(self).link_map() == old(self).link_map(),
            final(self).constraints == old(self).constraints,
            old(self).well_formed() ==> final(self).well_formed(),
    {
        let ghost constraints = self.constraints@;
        let ghost links = self.link_map();
        let ghost before = self.joint_map();
        let ghost mut states = seq![before];
        let mut i: usize = 0;
        while i < iterations
            invariant
                forall|p: Problem| kernel.requires((p,)),
                i <= iterations,
                self.constraints == old(self).constraints,
                self.constraints@ == constraints,
                self.link_map() == links,
                states.len() == 2 * i + 1,
                states[0] == before,
                states[2 * i] == self.joint_map(),
                forall|k: int|
                    0 <= k < 2 * i ==> #[trigger] swept_at(constraints, kernel, links, states, k),
                old(self).well_formed() ==> self.well_formed(),
            decreases iterations - i,
        {
            self.solve_constraints(kernel);
            let ghost middle = self.joint_map();
            self.solve_constraints(kernel);
            proof {
                let longer = states.push(middle).push(self.joint_map());
                assert forall|k: int| 0 <= k < 2 * i + 2 implies #[trigger] swept_at(
                    constraints,
                    kernel,
                    links,
                    longer,
                    k,
                ) by {
                    if k < 2 * i {
                        assert(swept_at(constraints, kernel, links, states, k));
                    }
                }
                states = longer;
            }
            i += 1;
        }
        proof {
            assert(step_trace(constraints, kernel, 2 * (iterations as nat), links, states));
            lemma_stepped_same_shape(
                constraints,
                kernel,
                2 * (iterations as nat),
                before,
                links,
                self.joint_map(),
            );
        }
    }
}

impl Default for Simulation {
    fn default() -> (sim: Simulation)
        ensures
            sim.joint_map() == (Map::<JointId, Joint>::empty()),
            sim.link_map() == (Map::<LinkId, Link>::empty()),
            sim.constraints@ == (Seq::<Constraint>::empty()),
    {
        Simulation::new()
    }
}

/// Holding a joint in place a second time changes nothing.
pub proof fn lemma_fixed_position_idempotent(
    constraint: FixedPositionConstraint,
    joints: Map<JointId, Joint>,
)
    ensures
        constraint.applied(constraint.applied(joints)) == constraint.applied(joints),
{
    assert(constraint.applied(constraint.applied(joints)) =~= constraint.applied(joints));
}

/// After a joint was held in place it is where the constraint wants it, and
/// every other joint is where it was.
pub proof fn lemma_fixed_position_exact(
    constraint: FixedPositionConstraint,
    joints: Map<JointId, Joint>,
    id: JointId,
)
    requires
        joints.contains_key(id),
    ensures
        constraint.applied(joints).contains_key(id),
        id == constraint.joint_id ==> constraint.applied(joints)[id].position
            == constraint.target_position,
        id != constraint.joint_id ==> constraint.applied(joints)[id] == joints[id],
{
}

} // verus!
