//! Numbers, vectors and positions, held as bit patterns.

use vstd::prelude::*;

verus! {

/// A single-precision number, identified by its IEEE-754 bit pattern.
///
/// Two scalars are equal when their bit patterns are the same.
#[derive(Clone, Copy, Debug, PartialEq, Eq, Structural)]
pub struct Scalar {
    pub bits: u32,
}

/// The bit pattern of positive zero.
pub const ZERO_BITS: u32 = 0;

/// The bit pattern of one.
pub const ONE_BITS: u32 = 0x3f80_0000;

impl Scalar {
    pub fn from_bits(bits: u32) -> (s: Scalar)
        ensures
            s.bits == bits,
    {
        Scalar { bits }
    }

    pub fn to_bits(self) -> (bits: u32)
        ensures
            bits == self.bits,
    {
        self.bits
    }

    pub open spec fn spec_zero() -> Scalar {
        Scalar { bits: ZERO_BITS }
    }

    pub open spec fn spec_one() -> Scalar {
        Scalar { bits: ONE_BITS }
    }

    /// Positive zero.
    #[verifier::when_used_as_spec(spec_zero)]
    pub fn zero() -> (s: Scalar)
        ensures
            s == Scalar::spec_zero(),
    {
        Scalar { bits: ZERO_BITS }
    }

    /// One.
    #[verifier::when_used_as_spec(spec_one)]
    pub fn one() -> (s: Scalar)
        ensures
            s == Scalar::spec_one(),
    {
        Scalar { bits: ONE_BITS }
    }
}

/// A vector of two scalars.
#[derive(Clone, Copy, Debug, PartialEq, Eq, Structural)]
pub struct Vec2 {
    pub x: Scalar,
    pub y: Scalar,
}

/// A vector of three scalars.
#[derive(Clone, Copy, Debug, PartialEq, Eq, Structural)]
pub struct Vec3 {
    pub x: Scalar,
    pub y: Scalar,
    pub z: Scalar,
}

impl Vec2 {
    pub fn new(x: Scalar, y: Scalar) -> (v: Vec2)
        ensures
            v == (Vec2 { x, y }),
    {
        Vec2 { x, y }
    }

    pub open spec fn spec_extend(self, z: Scalar) -> Vec3 {
        Vec3 { x: self.x, y: self.y, z }
    }

    /// The three-component vector with the same `x` and `y` and the given `z`.
    #[verifier::when_used_as_spec(spec_extend)]
    pub fn extend(self, z: Scalar) -> (v: Vec3)
        ensures
            v == self.spec_extend(z),
    {
        Vec3 { x: self.x, y: self.y, z }
    }
}

impl Vec3 {
    pub fn new(x: Scalar, y: Scalar, z: Scalar) -> (v: Vec3)
        ensures
            v == (Vec3 { x, y, z }),
    {
        Vec3 { x, y, z }
    }

    pub open spec fn spec_zero() -> Vec3 {
        Vec3 { x: Scalar::spec_zero(), y: Scalar::spec_zero(), z: Scalar::spec_zero() }
    }

    pub open spec fn spec_unit_x() -> Vec3 {
        Vec3 { x: Scalar::spec_one(), y: Scalar::spec_zero(), z: Scalar::spec_zero() }
    }

    pub open spec fn spec_unit_y() -> Vec3 {
        Vec3 { x: Scalar::spec_zero(), y: Scalar::spec_one(), z: Scalar::spec_zero() }
    }

    pub open spec fn spec_unit_z() -> Vec3 {
        Vec3 { x: Scalar::spec_zero(), y: Scalar::spec_zero(), z: Scalar::spec_one() }
    }

    /// The origin.
    #[verifier::when_used_as_spec(spec_zero)]
    pub fn zero() -> (v: Vec3)
        ensures
            v == Vec3::spec_zero(),
    {
        Vec3 { x: Scalar::zero(), y: Scalar::zero(), z: Scalar::zero() }
    }

    /// The unit vector along the first axis.
    #[verifier::when_used_as_spec(spec_unit_x)]
    pub fn unit_x() -> (v: Vec3)
        ensures
            v == Vec3::spec_unit_x(),
    {
        Vec3 { x: Scalar::one(), y: Scalar::zero(), z: Scalar::zero() }
    }

    /// The unit vector along the second axis.
    #[verifier::when_used_as_spec(spec_unit_y)]
    pub fn unit_y() -> (v: Vec3)
        ensures
            v == Vec3::spec_unit_y(),
    {
        Vec3 { x: Scalar::zero(), y: Scalar::one(), z: Scalar::zero() }
    }

    /// The unit vector along the third axis.
    #[verifier::when_used_as_spec(spec_unit_z)]
    pub fn unit_z() -> (v: Vec3)
        ensures
            v == Vec3::spec_unit_z(),
    {
        Vec3 { x: Scalar::zero(), y: Scalar::zero(), z: Scalar::one() }
    }

    pub open spec fn spec_truncate(self) -> Vec2 {
        Vec2 { x: self.x, y: self.y }
    }

    /// The two-component vector made of `x` and `y`.
    #[verifier::when_used_as_spec(spec_truncate)]
    pub fn truncate(self) -> (v: Vec2)
        ensures
            v == self.spec_truncate(),
    {
        Vec2 { x: self.x, y: self.y }
    }
}

/// Where a joint is: in the plane, or in space.
#[derive(Clone, Copy, Debug, PartialEq, Eq, Structural)]
pub enum Position {
    Vec2(Vec2),
    Vec3(Vec3),
}

impl Position {
    pub open spec fn spec_as_vec3(&self) -> Vec3 {
        match *self {
            Position::Vec2(v) => v.spec_extend(Scalar::spec_zero()),
            Position::Vec3(v) => v,
        }
    }

    pub open spec fn spec_as_vec2(&self) -> Vec2 {
        match *self {
            Position::Vec2(v) => v,
            Position::Vec3(v) => v.spec_truncate(),
        }
    }

    /// The position in space; a planar position lies at height zero.
    #[verifier::when_used_as_spec(spec_as_vec3)]
    pub fn as_vec3(&self) -> (v: Vec3)
        ensures
            v == self.spec_as_vec3(),
    {
        match *self {
            Position::Vec2(v) => v.extend(Scalar::zero()),
            Position::Vec3(v) => v,
        }
    }

    /// The position in the plane; the third component of a spatial position is dropped.
    #[verifier::when_used_as_spec(spec_as_vec2)]
    pub fn as_vec2(&self) -> (v: Vec2)
        ensures
            v == self.spec_as_vec2(),
    {
        match *self {
            Position::Vec2(v) => v,
            Position::Vec3(v) => v.truncate(),
        }
    }
}

} // verus!
