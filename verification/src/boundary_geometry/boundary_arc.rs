//! An arc as one edge of a boundary loop.

use vstd::prelude::*;
use crate::error::KernelError;
use crate::fixed::Scalar;
use crate::vector::Vec3;
use crate::geometry::Circle;
use crate::geometry::arc::{Arc, ArcDirection, arc_data_valid};
use crate::geometry::point::Point;

verus! {

/// The sense in which a boundary arc runs from its start to its end: as
/// for an `Arc`, clockwise is the short way round.
#[derive(Clone, Copy, Debug, PartialEq, Eq, Structural)]
pub enum Direction {
    CW,
    CCW,
}

/// An arc used as one edge of a loop.
pub struct BoundaryArc {
    pub circle: Circle,
    pub start: Point,
    pub end: Point,
    pub direction: Direction,
}

impl BoundaryArc {
    /// The arc of the primitive algebra that this edge runs along.
    pub open spec fn arc(&self) -> Arc {
        Arc {
            radius: self.circle.radius,
            start: self.start.0,
            end: self.end.0,
            center: self.circle.center,
            direction: match self.direction {
                Direction::CW => ArcDirection::CW,
                Direction::CCW => ArcDirection::CCW,
            },
        }
    }

    /// The boundary arc with the given data; refused as an `Arc` with the
    /// same data would be.
    pub fn new(center: Vec3, radius: Scalar, start: Vec3, end: Vec3, direction: Direction) -> (r:
        Result<BoundaryArc, KernelError>)
        ensures
            !arc_data_valid(radius@, start@, end@, center@) ==> r == Err::<
                BoundaryArc,
                KernelError,
            >(KernelError::DegenerateInput),
            arc_data_valid(radius@, start@, end@, center@) ==> r is Ok && r->Ok_0.circle.center
                == center && r->Ok_0.circle.radius == radius && r->Ok_0.start.0 == start
                && r->Ok_0.end.0 == end && r->Ok_0.direction == direction,
    {
        match Arc::new(radius, start, end, center, ArcDirection::CW) {
            Err(e) => Err(KernelError::DegenerateInput),
            Ok(_) => Ok(
                BoundaryArc {
                    circle: Circle { center, radius },
                    start: Point(start),
                    end: Point(end),
                    direction,
                },
            ),
        }
    }

    /// The arc of the primitive algebra that this edge runs along.
    pub fn to_arc(&self) -> (r: Arc)
        ensures
            r == self.arc(),
    {
        Arc {
            radius: self.circle.radius,
            start: self.start.0,
            end: self.end.0,
            center: self.circle.center,
            direction: match self.direction {
                Direction::CW => ArcDirection::CW,
                Direction::CCW => ArcDirection::CCW,
            },
        }
    }

    /// The same arc run from its end to its start.
    pub fn reversed(&self) -> (r: BoundaryArc)
        ensures
            r.circle.center == self.circle.center,
            r.circle.radius == self.circle.radius,
            r.start == self.end,
            r.end == self.start,
            r.direction == self.direction,
    {
        BoundaryArc {
            circle: Circle { center: self.circle.center, radius: self.circle.radius },
            start: self.end,
            end: self.start,
            direction: self.direction,
        }
    }
}

} // verus!
