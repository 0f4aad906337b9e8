//! A straight segment as one edge of a boundary loop.

use vstd::prelude::*;
use crate::vector::Vec3;
use crate::geometry::line::{Line, TwoPointLine};
use crate::geometry::point::Point;

verus! {

/// A segment used as one edge of a loop: the line it lies on, and its two
/// ends.
pub struct BoundaryLine {
    pub line: Line,
    pub a: Point,
    pub b: Point,
}

impl BoundaryLine {
    /// The segment from `a` to `b`.
    pub fn new(a: Vec3, b: Vec3) -> (r: BoundaryLine)
        ensures
            r.a.0 == a,
            r.b.0 == b,
            r.line == Line::TwoPoint(TwoPointLine { a: Point(a), b: Point(b) }),
    {
        BoundaryLine { line: Line::TwoPoint(TwoPointLine::new(a, b)), a: Point(a), b: Point(b) }
    }

    /// The same segment run from `b` to `a`.
    pub fn reversed(&self) -> (r: BoundaryLine)
        ensures
            r.a == self.b,
            r.b == self.a,
            r.line == Line::TwoPoint(TwoPointLine { a: self.b, b: self.a }),
    {
        BoundaryLine::new(self.b.0, self.a.0)
    }
}

} // verus!
