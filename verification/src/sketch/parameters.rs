//! The scalar parameters of the elements of a sketch, by number.

use vstd::prelude::*;
use crate::fixed::Scalar;
use crate::vector::{Vec3, V3};
use crate::geometry::arc::Arc;
use crate::geometry::line::{Line, ParametricLine, TwoPointLine, ImplicitLine};
use crate::geometry::point::Point;
use crate::sketch::{SketchElement, SketchLine, SketchPoint, SketchArc};

verus! {

/// The coordinate of `v` with the number `j`.
pub open spec fn coordinate(v: V3, j: int) -> int {
    if j == 0 {
        v.x
    } else if j == 1 {
        v.y
    } else {
        v.z
    }
}

/// The coordinate of `v` with the number `j`.
fn get_coordinate(v: &Vec3, j: usize) -> (r: Scalar)
    requires
        j < 3,
    ensures
        r@ == coordinate(v@, j as int),
{
    if j == 0 {
        v.x
    } else if j == 1 {
        v.y
    } else {
        v.z
    }
}

/// The vector `v` with its coordinate `j` replaced by `s`.
pub open spec fn with_coordinate(v: Vec3, j: int, s: Scalar) -> Vec3 {
    if j == 0 {
        Vec3 { x: s, y: v.y, z: v.z }
    } else if j == 1 {
        Vec3 { x: v.x, y: s, z: v.z }
    } else {
        Vec3 { x: v.x, y: v.y, z: s }
    }
}

/// The vector `v` with its coordinate `j` replaced.
fn set_coordinate(v: &Vec3, j: usize, s: Scalar) -> (r: Vec3)
    requires
        j < 3,
    ensures
        r == with_coordinate(*v, j as int, s),
        forall|k: int|
            0 <= k < 3 ==> #[trigger] coordinate(r@, k) == if k == j {
                s@
            } else {
                coordinate(v@, k)
            },
{
    if j == 0 {
        Vec3 { x: s, y: v.y, z: v.z }
    } else if j == 1 {
        Vec3 { x: v.x, y: s, z: v.z }
    } else {
        Vec3 { x: v.x, y: v.y, z: s }
    }
}

impl SketchElement {
    /// The parameter with the number `j`. A point has its coordinates; a
    /// parametric line its point and then its direction; a two-point line
    /// its first and then its second point; an implicit line its four
    /// coefficients; an arc its centre, its radius, its start and its end.
    pub open spec fn parameter(self, j: int) -> int {
        match self {
            SketchElement::Point(p) => coordinate(p.0@, j),
            SketchElement::Line(l) => match l.0 {
                Line::Parametric(f) => if j < 3 {
                    coordinate(f.p@, j)
                } else {
                    coordinate(f.v@, j - 3)
                },
                Line::TwoPoint(f) => if j < 3 {
                    coordinate(f.a@, j)
                } else {
                    coordinate(f.b@, j - 3)
                },
                Line::Implicit(f) => if j == 0 {
                    f.a@
                } else if j == 1 {
                    f.b@
                } else if j == 2 {
                    f.c@
                } else {
                    f.d@
                },
            },
            SketchElement::Arc(a) => if j < 3 {
                coordinate(a.0.center@, j)
            } else if j == 3 {
                a.0.radius@
            } else if j < 7 {
                coordinate(a.0.start@, j - 4)
            } else {
                coordinate(a.0.end@, j - 7)
            },
        }
    }

    /// The element with its parameter `j` replaced by `value`.
    pub open spec fn replaced(self, j: int, value: Scalar) -> SketchElement {
        match self {
            SketchElement::Point(p) => SketchElement::Point(
                SketchPoint(Point(with_coordinate(p.0.0, j, value))),
            ),
            SketchElement::Line(l) => match l.0 {
                Line::Parametric(f) => if j < 3 {
                    SketchElement::Line(
                        SketchLine(
                            Line::Parametric(
                                ParametricLine { p: with_coordinate(f.p, j, value), v: f.v },
                            ),
                        ),
                    )
                } else {
                    SketchElement::Line(
                        SketchLine(
                            Line::Parametric(
                                ParametricLine { p: f.p, v: with_coordinate(f.v, j - 3, value) },
                            ),
                        ),
                    )
                },
                Line::TwoPoint(f) => if j < 3 {
                    SketchElement::Line(
                        SketchLine(
                            Line::TwoPoint(
                                TwoPointLine { a: Point(with_coordinate(f.a.0, j, value)), b: f.b },
                            ),
                        ),
                    )
                } else {
                    SketchElement::Line(
                        SketchLine(
                            Line::TwoPoint(
                                TwoPointLine {
                                    a: f.a,
                                    b: Point(with_coordinate(f.b.0, j - 3, value)),
                                },
                            ),
                        ),
                    )
                },
                Line::Implicit(f) => SketchElement::Line(
                    SketchLine(
                        Line::Implicit(
                            if j == 0 {
                                ImplicitLine { a: value, b: f.b, c: f.c, d: f.d }
                            } else if j == 1 {
                                ImplicitLine { a: f.a, b: value, c: f.c, d: f.d }
                            } else if j == 2 {
                                ImplicitLine { a: f.a, b: f.b, c: value, d: f.d }
                            } else {
                                ImplicitLine { a: f.a, b: f.b, c: f.c, d: value }
                            },
                        ),
                    ),
                ),
            },
            SketchElement::Arc(a) => SketchElement::Arc(
                SketchArc(
                    if j < 3 {
                        Arc {
                            radius: a.0.radius,
                            start: a.0.start,
                            end: a.0.end,
                            center: with_coordinate(a.0.center, j, value),
                            direction: a.0.direction,
                        }
                    } else if j == 3 {
                        Arc {
                            radius: value,
                            start: a.0.start,
                            end: a.0.end,
                            center: a.0.center,
                            direction: a.0.direction,
                        }
                    } else if j < 7 {
                        Arc {
                            radius: a.0.radius,
                            start: with_coordinate(a.0.start, j - 4, value),
                            end: a.0.end,
                            center: a.0.center,
                            direction: a.0.direction,
                        }
                    } else {
                        Arc {
                            radius: a.0.radius,
                            start: a.0.start,
                            end: with_coordinate(a.0.end, j - 7, value),
                            center: a.0.center,
                            direction: a.0.direction,
                        }
                    },
                ),
            ),
        }
    }

    /// Whether two elements differ in their parameters at most: they are
    /// of one kind, lines in one representation, arcs of one direction.
    pub open spec fn same_shape(self, other: SketchElement) -> bool {
        match self {
            SketchElement::Point(_) => other is Point,
            SketchElement::Line(l) => other is Line && match l.0 {
                Line::Parametric(_) => other->Line_0.0 is Parametric,
                Line::TwoPoint(_) => other->Line_0.0 is TwoPoint,
                Line::Implicit(_) => other->Line_0.0 is Implicit,
            },
            SketchElement::Arc(a) => other is Arc && other->Arc_0.0.direction == a.0.direction,
        }
    }

    /// The parameter with the number `j`.
    pub fn get_parameter(&self, j: usize) -> (r: Scalar)
        requires
            j < self.parameters(),
        ensures
            r@ == self.parameter(j as int),
    {
        match self {
            SketchElement::Point(p) => get_coordinate(&p.0.0, j),
            SketchElement::Line(l) => match &l.0 {
                Line::Parametric(f) => if j < 3 {
                    get_coordinate(&f.p, j)
                } else {
                    get_coordinate(&f.v, j - 3)
                },
                Line::TwoPoint(f) => if j < 3 {
                    get_coordinate(&f.a.0, j)
                } else {
                    get_coordinate(&f.b.0, j - 3)
                },
                Line::Implicit(f) => if j == 0 {
                    f.a
                } else if j == 1 {
                    f.b
                } else if j == 2 {
                    f.c
                } else {
                    f.d
                },
            },
            SketchElement::Arc(a) => if j < 3 {
                get_coordinate(&a.0.center, j)
            } else if j == 3 {
                a.0.radius
            } else if j < 7 {
                get_coordinate(&a.0.start, j - 4)
            } else {
                get_coordinate(&a.0.end, j - 7)
            },
        }
    }

    /// The element with its parameter `j` replaced by `value`, and every
    /// other parameter as it was.
    pub fn with_parameter(&self, j: usize, value: Scalar) -> (r: SketchElement)
        requires
            j < self.parameters(),
        ensures
            r == self.replaced(j as int, value),
            r.same_shape(*self),
            r.parameters() == self.parameters(),
            forall|k: int|
                0 <= k < self.parameters() ==> #[trigger] r.parameter(k) == if k == j {
                    value@
                } else {
                    self.parameter(k)
                },
    {
        match self {
            SketchElement::Point(p) => SketchElement::Point(
                SketchPoint(Point(set_coordinate(&p.0.0, j, value))),
            ),
            SketchElement::Line(l) => match &l.0 {
                Line::Parametric(f) => if j < 3 {
                    SketchElement::Line(
                        SketchLine(
                            Line::Parametric(
                                ParametricLine { p: set_coordinate(&f.p, j, value), v: f.v },
                            ),
                        ),
                    )
                } else {
                    SketchElement::Line(
                        SketchLine(
                            Line::Parametric(
                                ParametricLine { p: f.p, v: set_coordinate(&f.v, j - 3, value) },
                            ),
                        ),
                    )
                },
                Line::TwoPoint(f) => if j < 3 {
                    SketchElement::Line(
                        SketchLine(
                            Line::TwoPoint(
                                TwoPointLine { a: Point(set_coordinate(&f.a.0, j, value)), b: f.b },
                            ),
                        ),
                    )
                } else {
                    SketchElement::Line(
                        SketchLine(
                            Line::TwoPoint(
                                TwoPointLine {
                                    a: f.a,
                                    b: Point(set_coordinate(&f.b.0, j - 3, value)),
                                },
                            ),
                        ),
                    )
                },
                Line::Implicit(f) => {
                    let g = if j == 0 {
                        ImplicitLine { a: value, b: f.b, c: f.c, d: f.d }
                    } else if j == 1 {
                        ImplicitLine { a: f.a, b: value, c: f.c, d: f.d }
                    } else if j == 2 {
                        ImplicitLine { a: f.a, b: f.b, c: value, d: f.d }
                    } else {
                        ImplicitLine { a: f.a, b: f.b, c: f.c, d: value }
                    };
                    SketchElement::Line(SketchLine(Line::Implicit(g)))
                },
            },
            SketchElement::Arc(a) => {
                let b = if j < 3 {
                    Arc {
                        radius: a.0.radius,
                        start: a.0.start,
                        end: a.0.end,
                        center: set_coordinate(&a.0.center, j, value),
                        direction: a.0.direction,
                    }
                } else if j == 3 {
                    Arc {
                        radius: value,
                        start: a.0.start,
                        end: a.0.end,
                        center: a.0.center,
                        direction: a.0.direction,
                    }
                } else if j < 7 {
                    Arc {
                        radius: a.0.radius,
                        start: set_coordinate(&a.0.start, j - 4, value),
                        end: a.0.end,
                        center: a.0.center,
                        direction: a.0.direction,
                    }
                } else {
                    Arc {
                        radius: a.0.radius,
                        start: a.0.start,
                        end: set_coordinate(&a.0.end, j - 7, value),
                        center: a.0.center,
                        direction: a.0.direction,
                    }
                };
                SketchElement::Arc(SketchArc(b))
            },
        }
    }
}

} // verus!
