//! A geometry kernel for computer-aided design over exact fixed-point
//! arithmetic: points, lines, arcs and planes; sketches with relations and
//! their solver; boundary loops and their assembly.

use vstd::prelude::*;

pub mod boundary_geometry;
pub mod error;
pub mod fixed;
pub mod geometry;
pub mod rotation;
pub mod sketch;
pub mod vector;

verus! {

/// A vertex that carries a position of any kind.
pub struct Vertex<T>(pub T);

/// A line between two vertices.
pub struct Line<T> {
    pub from: Vertex<T>,
    pub to: Vertex<T>,
}

/// A plane through three positions.
pub struct Plane<T>(pub T, pub T, pub T);

/// A sphere about a centre.
pub struct Sphere<T, U> {
    pub center: T,
    pub radius: U,
}

} // verus!
