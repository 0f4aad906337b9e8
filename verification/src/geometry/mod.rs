//! The primitive algebra: points, planes, circles, arcs and lines.

use vstd::prelude::*;
use crate::error::KernelError;
use crate::fixed::{Scalar, ONE_RAW};
use crate::vector::{Vec3, V3, v3_norm, v3_unit, v3_is_unit, DEGENERATE_NORM};
use crate::geometry::line::Line;

pub mod arc;
pub mod line;
pub mod point;

verus! {

/// A plane: the points `p` with `normal . (p - center) = 0`.
pub struct Plane {
    pub normal: Vec3,
    pub center: Vec3,
}

/// The unit vector along the third axis.
pub open spec fn axis_z() -> V3 {
    V3 { x: 0, y: 0, z: ONE_RAW as int }
}

/// The unit vector along the second axis.
pub open spec fn axis_y() -> V3 {
    V3 { x: 0, y: ONE_RAW as int, z: 0 }
}

/// The unit vector along the first axis.
pub open spec fn axis_x() -> V3 {
    V3 { x: ONE_RAW as int, y: 0, z: 0 }
}

/// The origin.
pub open spec fn origin() -> V3 {
    V3 { x: 0, y: 0, z: 0 }
}

/// The three axes have unit length.
pub proof fn lemma_axes_are_unit()
    ensures
        v3_is_unit(axis_x()),
        v3_is_unit(axis_y()),
        v3_is_unit(axis_z()),
{
    assert(0x1_0000_0000int * 0x1_0000_0000int == 0x1_0000_0000_0000_0000int) by (nonlinear_arith);
    assert(ONE_RAW * ONE_RAW == 0x1_0000_0000_0000_0000int);
    assert(0int * 0int == 0int);
}

impl Plane {
    /// A plane is well formed when its normal has unit length.
    pub open spec fn wf(&self) -> bool {
        v3_is_unit(self.normal@)
    }

    /// The plane through `center` whose normal points along `normal`. The
    /// normal is normalised here; a direction shorter than
    /// `DEGENERATE_NORM` is refused.
    pub fn new(normal: Vec3, center: Vec3) -> (r: Result<Plane, KernelError>)
        ensures
            v3_norm(normal@) < DEGENERATE_NORM ==> r == Err::<Plane, KernelError>(
                KernelError::DegenerateInput,
            ),
            v3_norm(normal@) >= DEGENERATE_NORM ==> r is Ok && r->Ok_0.normal@ == v3_unit(
                normal@,
            ) && r->Ok_0.center == center && r->Ok_0.wf(),
    {
        match normal.normalize() {
            Some(unit) => Ok(Plane { normal: unit, center }),
            None => Err(KernelError::DegenerateInput),
        }
    }

    /// The plane of the first two axes, through the origin.
    pub fn xy() -> (r: Plane)
        ensures
            r.normal@ == axis_z(),
            r.center@ == origin(),
            r.wf(),
    {
        proof {
            lemma_axes_are_unit();
        }
        Plane { normal: Vec3::from_ints(0, 0, 1), center: Vec3::zero() }
    }

    /// The plane of the first and third axes, through the origin.
    pub fn xz() -> (r: Plane)
        ensures
            r.normal@ == axis_y(),
            r.center@ == origin(),
            r.wf(),
    {
        proof {
            lemma_axes_are_unit();
        }
        Plane { normal: Vec3::from_ints(0, 1, 0), center: Vec3::zero() }
    }

    /// The plane of the last two axes, through the origin.
    pub fn yz() -> (r: Plane)
        ensures
            r.normal@ == axis_x(),
            r.center@ == origin(),
            r.wf(),
    {
        proof {
            lemma_axes_are_unit();
        }
        Plane { normal: Vec3::from_ints(1, 0, 0), center: Vec3::zero() }
    }
}

/// A circle: a centre and a positive radius.
pub struct Circle {
    pub center: Vec3,
    pub radius: Scalar,
}

impl Circle {
    /// A circle is well formed when its radius is positive.
    pub open spec fn wf(&self) -> bool {
        self.radius@ > 0
    }

    /// The circle about `center`; a radius that is not positive is refused.
    pub fn new(center: Vec3, radius: Scalar) -> (r: Result<Circle, KernelError>)
        ensures
            radius@ <= 0 ==> r == Err::<Circle, KernelError>(KernelError::DegenerateInput),
            radius@ > 0 ==> r is Ok && r->Ok_0.center == center && r->Ok_0.radius == radius,
    {
        if radius.raw <= 0 {
            Err(KernelError::DegenerateInput)
        } else {
            Ok(Circle { center, radius })
        }
    }
}

/// A chain of lines.
pub struct PolyLine {
    pub lines: Vec<Line>,
}

} // verus!
