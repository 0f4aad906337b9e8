//! Boundary loops: closed chains of lines, arcs and polygons that bound a
//! surface.

pub mod boundary_arc;
pub mod boundary_line;
pub mod boundary_loop;
pub mod boundary_polygon;
pub mod checks;
pub mod edges;

pub use boundary_arc::{BoundaryArc, Direction};
pub use boundary_line::BoundaryLine;
pub use boundary_loop::{assemble_loop, BoundaryElement, BoundaryLoop, LoopConfig};
pub use checks::Axis;
pub use boundary_polygon::BoundaryPolygon;
