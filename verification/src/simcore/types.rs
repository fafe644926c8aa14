//! Joints, links, constraints, and the mechanism that owns them.

use crate::simcore::numeric::{Position, Scalar, Vec2, Vec3};
use generational_arena::Arena;
use vstd::prelude::*;

verus! {

/// The place of a joint or of a link in its store: a slot and the generation
/// of the slot's occupant.
#[derive(Clone, Copy, Debug, PartialEq, Eq, Hash, Structural)]
pub struct Handle {
    pub index: usize,
    pub generation: u64,
}

/// The handle of a joint.
pub type JointId = Handle;

/// The handle of a link.
pub type LinkId = Handle;

/// How a joint is meant to move. The solver does not read it.
#[derive(Clone, Copy, Debug)]
pub enum JointType {
    Fixed,
    Revolute,
    Slider { axis: Vec2 },
}

/// A point of the mechanism: where it is, how it is meant to move, and the
/// links that end in it, in the order in which they were connected.
#[derive(Clone, Debug)]
pub struct Joint {
    pub position: Position,
    pub joint_type: JointType,
    pub connected_links: Vec<LinkId>,
}

/// A connection between joints: two of them, by convention.
#[derive(Clone, Debug)]
pub struct Link {
    pub joints: Vec<JointId>,
    pub rigid: bool,
}

/// Holds a joint where it was when the constraint was made.
#[derive(Clone, Copy, Debug)]
pub struct FixedPositionConstraint {
    pub joint_id: JointId,
    pub target_position: Position,
}

/// Keeps two joints at a given distance.
#[derive(Clone, Copy, Debug)]
pub struct DistanceConstraint {
    pub joint_a: JointId,
    pub joint_b: JointId,
    pub target_distance: Scalar,
}

/// Keeps a joint in the plane through `plane_point` with the given normal.
#[derive(Clone, Copy, Debug)]
pub struct PlaneConstraint {
    pub joint_id: JointId,
    pub normal: Vec3,
    pub plane_point: Vec3,
}

/// Keeps a joint on the line through `origin` along `axis`.
#[derive(Clone, Copy, Debug)]
pub struct PrismaticConstraintVector {
    pub joint_id: JointId,
    pub axis: Vec3,
    pub origin: Vec3,
}

/// Keeps a joint on the line through `origin` along a link, whose direction
/// is taken from its end points whenever the constraint is applied.
#[derive(Clone, Copy, Debug)]
pub struct PrismaticConstraintLink {
    pub joint_id: JointId,
    pub link_id: LinkId,
    pub origin: Vec3,
}

/// Keeps the angle at `pivot_joint_id` between two joints.
#[derive(Clone, Copy, Debug)]
pub struct FixedAngleConstraint {
    pub joint_a_id: JointId,
    pub joint_b_id: JointId,
    pub pivot_joint_id: JointId,
    /// In radians.
    pub target_angle: Scalar,
}

/// Keeps the angle of a joint about a pivot, measured from a rest direction,
/// between two bounds.
#[derive(Clone, Copy, Debug)]
pub struct RevoluteConstraint {
    pub pivot_joint_id: JointId,
    pub moving_joint_id: JointId,
    pub rest_direction: Vec3,
    /// In radians.
    pub min_angle: Scalar,
    /// In radians.
    pub max_angle: Scalar,
}

/// A rule that corrects the position of one or two joints.
#[derive(Clone, Copy, Debug)]
pub enum Constraint {
    FixedPosition(FixedPositionConstraint),
    Distance(DistanceConstraint),
    Plane(PlaneConstraint),
    PrismaticVector(PrismaticConstraintVector),
    PrismaticLink(PrismaticConstraintLink),
    FixedAngle(FixedAngleConstraint),
    Revolute(RevoluteConstraint),
}

/// A mechanism: its joints and links, each found by its handle, and its
/// constraints in the order in which they are applied.
#[derive(Debug)]
pub struct Simulation {
    pub joints: Arena<Joint>,
    pub links: Arena<Link>,
    pub constraints: Vec<Constraint>,
}

} // verus!
