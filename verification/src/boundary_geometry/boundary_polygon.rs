//! A chain of straight segments as one edge of a boundary loop.

use vstd::prelude::*;
use crate::geometry::point::Point;

verus! {

/// An open chain through its vertices, in order. A chain has an edge only
/// where it has two vertices or more.
pub struct BoundaryPolygon {
    pub vertices: Vec<Point>,
}

impl BoundaryPolygon {
    /// The chain through the given vertices.
    pub fn new(vertices: Vec<Point>) -> (r: BoundaryPolygon)
        ensures
            r.vertices == vertices,
    {
        BoundaryPolygon { vertices }
    }

    /// The same chain run from its last vertex to its first.
    pub fn reversed(&self) -> (r: BoundaryPolygon)
        ensures
            r.vertices@ == self.vertices@.reverse(),
    {
        let n = self.vertices.len();
        let mut out: Vec<Point> = Vec::new();
        let mut i: usize = 0;
        while i < n
            invariant
                n == self.vertices@.len(),
                i <= n,
                out@.len() == i,
                forall|j: int| 0 <= j < i ==> out@[j] == self.vertices@[n - 1 - j],
            decreases n - i,
        {
            out.push(self.vertices[n - 1 - i]);
            i = i + 1;
        }
        assert(out@ =~= self.vertices@.reverse());
        BoundaryPolygon { vertices: out }
    }
}

} // verus!
