//! Points, rotations and transforms as the library sees them: tuples of numbers
//! that are carried, checked for finiteness, and handed back.
use crate::scalar::Scalar;
use vstd::prelude::*;

verus! {

/// A point or vector in space.
#[derive(Clone, Copy, Debug, PartialEq, Eq, Structural)]
pub struct Point3 {
    pub x: Scalar,
    pub y: Scalar,
    pub z: Scalar,
}

impl Point3 {
    pub open spec fn finite(self) -> bool {
        self.x.is_finite() && self.y.is_finite() && self.z.is_finite()
    }

    /// Whether all coordinates are finite.
    pub fn is_finite(self) -> (b: bool)
        ensures
            b == self.finite(),
    {
        self.x.is_finite() && self.y.is_finite() && self.z.is_finite()
    }

    pub open spec fn spec_zero() -> Point3 {
        Point3 { x: Scalar::zero(), y: Scalar::zero(), z: Scalar::zero() }
    }

    /// The origin.
    #[verifier::when_used_as_spec(spec_zero)]
    pub fn zero() -> (point: Point3)
        ensures
            point == Point3::spec_zero(),
    {
        Point3 { x: Scalar::zero(), y: Scalar::zero(), z: Scalar::zero() }
    }
}

/// A rotation as a unit quaternion.
#[derive(Clone, Copy, Debug, PartialEq, Eq, Structural)]
pub struct Quaternion {
    pub w: Scalar,
    pub x: Scalar,
    pub y: Scalar,
    pub z: Scalar,
}

impl Quaternion {
    pub open spec fn finite(self) -> bool {
        self.w.is_finite() && self.x.is_finite() && self.y.is_finite() && self.z.is_finite()
    }

    /// Whether all components are finite.
    pub fn is_finite(self) -> (b: bool)
        ensures
            b == self.finite(),
    {
        self.w.is_finite() && self.x.is_finite() && self.y.is_finite() && self.z.is_finite()
    }
}

/// A rigid transform from world to camera coordinates.
#[derive(Clone, Copy, Debug, PartialEq, Eq, Structural)]
pub struct Pose {
    pub rotation: Quaternion,
    pub translation: Point3,
}

impl Pose {
    pub open spec fn finite(self) -> bool {
        self.rotation.finite() && self.translation.finite()
    }

    /// Whether rotation and translation are finite.
    pub fn is_finite(self) -> (b: bool)
        ensures
            b == self.finite(),
    {
        self.rotation.is_finite() && self.translation.is_finite()
    }
}

/// A similarity transform.
#[derive(Clone, Copy, Debug, PartialEq, Eq, Structural)]
pub struct Sim3 {
    pub rotation: Quaternion,
    pub translation: Point3,
    pub scale: Scalar,
}

/// A pose is finite exactly where each of its seven numbers is; so are its parts.
pub proof fn finite_poses_have_finite_parts(pose: Pose)
    ensures
        pose.translation.finite() <==> pose.translation.x.abs().lt(Scalar::infinity())
            && pose.translation.y.abs().lt(Scalar::infinity()) && pose.translation.z.abs().lt(
            Scalar::infinity(),
        ),
        pose.rotation.finite() <==> pose.rotation.w.abs().lt(Scalar::infinity())
            && pose.rotation.x.abs().lt(Scalar::infinity()) && pose.rotation.y.abs().lt(
            Scalar::infinity(),
        ) && pose.rotation.z.abs().lt(Scalar::infinity()),
        pose.finite() <==> pose.rotation.finite() && pose.translation.finite(),
{
}

} // verus!
