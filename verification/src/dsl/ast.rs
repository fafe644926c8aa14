//! The syntax tree of a mechanism description.
//!
//! The tree keeps what was written: names as text, numbers as their literals.
//! It exists between parsing and compilation only.

use vstd::prelude::*;

verus! {

/// A number as it was written: an optional minus sign, digits, and an
/// optional fraction.
#[derive(Debug)]
pub struct Literal {
    pub text: String,
}

impl DeepView for Literal {
    type V = Seq<char>;

    open spec fn deep_view(&self) -> Seq<char> {
        self.text@
    }
}

/// Three numbers in parentheses.
#[derive(Debug)]
pub struct VectorLiteral {
    pub x: Literal,
    pub y: Literal,
    pub z: Literal,
}

/// What a [`VectorLiteral`] holds, as contracts speak of it. The types
/// named `...View` below are the same for the other parts of the tree.
pub struct VectorLiteralView {
    pub x: Seq<char>,
    pub y: Seq<char>,
    pub z: Seq<char>,
}

impl DeepView for VectorLiteral {
    type V = VectorLiteralView;

    open spec fn deep_view(&self) -> VectorLiteralView {
        VectorLiteralView { x: self.x.text@, y: self.y.text@, z: self.z.text@ }
    }
}

/// A direction: one of the coordinate axes by its letter, or a vector.
#[derive(Debug)]
pub enum Axis {
    X,
    Y,
    Z,
    Vector(VectorLiteral),
}

pub enum AxisView {
    X,
    Y,
    Z,
    Vector(VectorLiteralView),
}

impl DeepView for Axis {
    type V = AxisView;

    open spec fn deep_view(&self) -> AxisView {
        match self {
            Axis::X => AxisView::X,
            Axis::Y => AxisView::Y,
            Axis::Z => AxisView::Z,
            Axis::Vector(v) => AxisView::Vector(v.deep_view()),
        }
    }
}

/// The unit in which an angle was written.
#[derive(Clone, Copy, Debug, PartialEq, Eq, Structural)]
pub enum AngleUnit {
    Radians,
    Degrees,
}

/// A joint: its name and two or three coordinates.
#[derive(Debug)]
pub struct JointDecl {
    pub name: String,
    pub x: Literal,
    pub y: Literal,
    pub z: Option<Literal>,
}

pub struct JointDeclView {
    pub name: Seq<char>,
    pub x: Seq<char>,
    pub y: Seq<char>,
    pub z: Option<Seq<char>>,
}

impl DeepView for JointDecl {
    type V = JointDeclView;

    open spec fn deep_view(&self) -> JointDeclView {
        JointDeclView {
            name: self.name@,
            x: self.x.text@,
            y: self.y.text@,
            z: self.z.deep_view(),
        }
    }
}

/// A link: its name and the names of the two joints it connects.
#[derive(Debug)]
pub struct LinkDecl {
    pub name: String,
    pub joint_a: String,
    pub joint_b: String,
}

pub struct LinkDeclView {
    pub name: Seq<char>,
    pub joint_a: Seq<char>,
    pub joint_b: Seq<char>,
}

impl DeepView for LinkDecl {
    type V = LinkDeclView;

    open spec fn deep_view(&self) -> LinkDeclView {
        LinkDeclView { name: self.name@, joint_a: self.joint_a@, joint_b: self.joint_b@ }
    }
}

/// A constraint as it was written.
#[derive(Debug)]
pub enum ConstraintDecl {
    Distance { a: String, b: String, value: Literal },
    Fixed { joints: Vec<String> },
    Plane { joints: Vec<String>, normal: Axis, point: Option<VectorLiteral> },
    PrismaticVector { joints: Vec<String>, axis: Axis, origin: VectorLiteral },
    PrismaticLink { joints: Vec<String>, link: String, origin: VectorLiteral },
    FixedAngle { joint_a: String, pivot: String, joint_c: String, angle: Literal, unit: AngleUnit },
    Revolute { joint_a: String, joint_b: String, axis: Axis, min_angle: Literal, max_angle: Literal },
}

pub enum ConstraintDeclView {
    Distance { a: Seq<char>, b: Seq<char>, value: Seq<char> },
    Fixed { joints: Seq<Seq<char>> },
    Plane { joints: Seq<Seq<char>>, normal: AxisView, point: Option<VectorLiteralView> },
    PrismaticVector { joints: Seq<Seq<char>>, axis: AxisView, origin: VectorLiteralView },
    PrismaticLink { joints: Seq<Seq<char>>, link: Seq<char>, origin: VectorLiteralView },
    FixedAngle {
        joint_a: Seq<char>,
        pivot: Seq<char>,
        joint_c: Seq<char>,
        angle: Seq<char>,
        unit: AngleUnit,
    },
    Revolute {
        joint_a: Seq<char>,
        joint_b: Seq<char>,
        axis: AxisView,
        min_angle: Seq<char>,
        max_angle: Seq<char>,
    },
}

impl DeepView for ConstraintDecl {
    type V = ConstraintDeclView;

    open spec fn deep_view(&self) -> ConstraintDeclView {
        match self {
            ConstraintDecl::Distance { a, b, value } => ConstraintDeclView::Distance {
                a: a@,
                b: b@,
                value: value.text@,
            },
            ConstraintDecl::Fixed { joints } => ConstraintDeclView::Fixed {
                joints: joints.deep_view(),
            },
            ConstraintDecl::Plane { joints, normal, point } => ConstraintDeclView::Plane {
                joints: joints.deep_view(),
                normal: normal.deep_view(),
                point: point.deep_view(),
            },
            ConstraintDecl::PrismaticVector { joints, axis, origin } => {
                ConstraintDeclView::PrismaticVector {
                    joints: joints.deep_view(),
                    axis: axis.deep_view(),
                    origin: origin.deep_view(),
                }
            },
            ConstraintDecl::PrismaticLink { joints, link, origin } => {
                ConstraintDeclView::PrismaticLink {
                    joints: joints.deep_view(),
                    link: link@,
                    origin: origin.deep_view(),
                }
            },
            ConstraintDecl::FixedAngle { joint_a, pivot, joint_c, angle, unit } => {
                ConstraintDeclView::FixedAngle {
                    joint_a: joint_a@,
                    pivot: pivot@,
                    joint_c: joint_c@,
                    angle: angle.text@,
                    unit: *unit,
                }
            },
            ConstraintDecl::Revolute { joint_a, joint_b, axis, min_angle, max_angle } => {
                ConstraintDeclView::Revolute {
                    joint_a: joint_a@,
                    joint_b: joint_b@,
                    axis: axis.deep_view(),
                    min_angle: min_angle.text@,
                    max_angle: max_angle.text@,
                }
            },
        }
    }
}

impl ConstraintDecl {
    pub open spec fn spec_constraint_type(&self) -> Seq<char> {
        match self {
            ConstraintDecl::Distance { .. } => "Distance"@,
            ConstraintDecl::Fixed { .. } => "Fixed"@,
            ConstraintDecl::Plane { .. } => "Plane"@,
            ConstraintDecl::PrismaticVector { .. } => "PrismaticVector"@,
            ConstraintDecl::PrismaticLink { .. } => "PrismaticLink"@,
            ConstraintDecl::FixedAngle { .. } => "FixedAngle"@,
            ConstraintDecl::Revolute { .. } => "Revolute"@,
        }
    }

    /// The name of the kind of constraint.
    pub fn constraint_type(&self) -> (name: &'static str)
        ensures
            name@ == self.spec_constraint_type(),
    {
        match self {
            ConstraintDecl::Distance { .. } => "Distance",
            ConstraintDecl::Fixed { .. } => "Fixed",
            ConstraintDecl::Plane { .. } => "Plane",
            ConstraintDecl::PrismaticVector { .. } => "PrismaticVector",
            ConstraintDecl::PrismaticLink { .. } => "PrismaticLink",
            ConstraintDecl::FixedAngle { .. } => "FixedAngle",
            ConstraintDecl::Revolute { .. } => "Revolute",
        }
    }
}

/// A whole description: the mechanism's name and its declarations, each kind
/// in the order in which it was written.
#[derive(Debug)]
pub struct Program {
    pub sim_name: String,
    pub joints: Vec<JointDecl>,
    pub links: Vec<LinkDecl>,
    pub constraints: Vec<ConstraintDecl>,
}

pub struct ProgramView {
    pub sim_name: Seq<char>,
    pub joints: Seq<JointDeclView>,
    pub links: Seq<LinkDeclView>,
    pub constraints: Seq<ConstraintDeclView>,
}

impl DeepView for Program {
    type V = ProgramView;

    open spec fn deep_view(&self) -> ProgramView {
        ProgramView {
            sim_name: self.sim_name@,
            joints: self.joints.deep_view(),
            links: self.links.deep_view(),
            constraints: self.constraints.deep_view(),
        }
    }
}

} // verus!
