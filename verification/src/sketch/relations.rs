//! The relations of a sketch. A relation names the elements that it
//! governs by their index in the sketch; it never holds a copy of them.

use vstd::prelude::*;

verus! {

/// The kind of a sketch element.
#[derive(Clone, Copy, Debug, PartialEq, Eq, Structural)]
pub enum ElementKind {
    Line,
    Point,
    Arc,
}

/// What a point is to lie on.
#[derive(Clone, Copy, Debug, PartialEq, Eq, Structural)]
pub enum CoincidentOther {
    Line(usize),
    Arc(usize),
    Point(usize),
}

/// A point lies on a line, on the circle of an arc, or on another point.
#[derive(Clone, Copy, Debug, PartialEq, Eq, Structural)]
pub struct Coincident {
    pub point: usize,
    pub other: CoincidentOther,
}

/// Two lines stand at a right angle.
#[derive(Clone, Copy, Debug, PartialEq, Eq, Structural)]
pub struct Perpendicular {
    pub line: usize,
    pub perp: usize,
}

/// What an arc is to touch.
#[derive(Clone, Copy, Debug, PartialEq, Eq, Structural)]
pub enum TangentOther {
    Line(usize),
    Arc(usize),
}

/// An arc touches a line or another arc.
#[derive(Clone, Copy, Debug, PartialEq, Eq, Structural)]
pub struct Tangent {
    pub arc: usize,
    pub other: TangentOther,
}

/// A constraint over the elements of a sketch.
#[derive(Clone, Copy, Debug, PartialEq, Eq, Structural)]
pub enum Relation {
    /// The line does not change its second coordinate.
    Horizontal(usize),
    /// The line does not change its first coordinate.
    Vertical(usize),
    Coincident(Coincident),
    Perpendicular(Perpendicular),
    Tangent(Tangent),
    /// The element keeps every parameter that it has.
    Fixed(usize),
    /// The two lines are one line.
    Colinear(usize, usize),
    /// The two arcs share their centre and their radius.
    Coradial(usize, usize),
    /// The two lines have one direction.
    Parallel(usize, usize),
    /// The two arcs share their centre.
    Concentric(usize, usize),
    /// The point is the middle of the line.
    Midpoint(usize, usize),
    /// The point lies on both lines.
    Intersection(usize, usize, usize),
    /// Two lines of one length, or two arcs of one radius.
    Equal(usize, usize),
}

/// `None` where element `i` exists and has kind `k`, else `i`.
pub open spec fn need(kinds: Seq<ElementKind>, i: usize, k: ElementKind) -> Option<usize> {
    if i < kinds.len() && kinds[i as int] == k {
        None
    } else {
        Some(i)
    }
}

/// The first of two findings.
pub open spec fn or_else(a: Option<usize>, b: Option<usize>) -> Option<usize> {
    if a is Some {
        a
    } else {
        b
    }
}

impl Relation {
    /// The first element that the relation names and the sketch does not
    /// hold, or holds as another kind than the relation needs; `None` where
    /// every element named is there.
    pub open spec fn missing(self, kinds: Seq<ElementKind>) -> Option<usize> {
        match self {
            Relation::Horizontal(l) => need(kinds, l, ElementKind::Line),
            Relation::Vertical(l) => need(kinds, l, ElementKind::Line),
            Relation::Coincident(c) => or_else(
                need(kinds, c.point, ElementKind::Point),
                match c.other {
                    CoincidentOther::Line(l) => need(kinds, l, ElementKind::Line),
                    CoincidentOther::Arc(a) => need(kinds, a, ElementKind::Arc),
                    CoincidentOther::Point(p) => need(kinds, p, ElementKind::Point),
                },
            ),
            Relation::Perpendicular(p) => or_else(
                need(kinds, p.line, ElementKind::Line),
                need(kinds, p.perp, ElementKind::Line),
            ),
            Relation::Tangent(t) => or_else(
                need(kinds, t.arc, ElementKind::Arc),
                match t.other {
                    TangentOther::Line(l) => need(kinds, l, ElementKind::Line),
                    TangentOther::Arc(a) => need(kinds, a, ElementKind::Arc),
                },
            ),
            Relation::Fixed(e) => if e < kinds.len() {
                None
            } else {
                Some(e)
            },
            Relation::Colinear(a, b) => or_else(
                need(kinds, a, ElementKind::Line),
                need(kinds, b, ElementKind::Line),
            ),
            Relation::Coradial(a, b) => or_else(
                need(kinds, a, ElementKind::Arc),
                need(kinds, b, ElementKind::Arc),
            ),
            Relation::Parallel(a, b) => or_else(
                need(kinds, a, ElementKind::Line),
                need(kinds, b, ElementKind::Line),
            ),
            Relation::Concentric(a, b) => or_else(
                need(kinds, a, ElementKind::Arc),
                need(kinds, b, ElementKind::Arc),
            ),
            Relation::Midpoint(p, l) => or_else(
                need(kinds, p, ElementKind::Point),
                need(kinds, l, ElementKind::Line),
            ),
            Relation::Intersection(p, a, b) => or_else(
                need(kinds, p, ElementKind::Point),
                or_else(need(kinds, a, ElementKind::Line), need(kinds, b, ElementKind::Line)),
            ),
            Relation::Equal(a, b) => if a >= kinds.len() || kinds[a as int] == ElementKind::Point {
                Some(a)
            } else {
                need(kinds, b, kinds[a as int])
            },
        }
    }

    /// How many scalar equations the relation contributes.
    pub open spec fn equations(self) -> nat {
        match self {
            Relation::Horizontal(_) => 1,
            Relation::Vertical(_) => 1,
            Relation::Coincident(c) => match c.other {
                CoincidentOther::Line(_) => 2,
                CoincidentOther::Arc(_) => 1,
                CoincidentOther::Point(_) => 3,
            },
            Relation::Perpendicular(_) => 1,
            Relation::Tangent(_) => 1,
            Relation::Fixed(_) => 0,
            Relation::Colinear(_, _) => 4,
            Relation::Coradial(_, _) => 4,
            Relation::Parallel(_, _) => 2,
            Relation::Concentric(_, _) => 3,
            Relation::Midpoint(_, _) => 3,
            Relation::Intersection(_, _, _) => 4,
            Relation::Equal(_, _) => 1,
        }
    }

    /// Whether the relation speaks of element `i`.
    pub open spec fn mentions(self, i: usize) -> bool {
        match self {
            Relation::Horizontal(l) => l == i,
            Relation::Vertical(l) => l == i,
            Relation::Coincident(c) => c.point == i || match c.other {
                CoincidentOther::Line(l) => l == i,
                CoincidentOther::Arc(a) => a == i,
                CoincidentOther::Point(p) => p == i,
            },
            Relation::Perpendicular(p) => p.line == i || p.perp == i,
            Relation::Tangent(t) => t.arc == i || match t.other {
                TangentOther::Line(l) => l == i,
                TangentOther::Arc(a) => a == i,
            },
            Relation::Fixed(e) => e == i,
            Relation::Colinear(a, b) => a == i || b == i,
            Relation::Coradial(a, b) => a == i || b == i,
            Relation::Parallel(a, b) => a == i || b == i,
            Relation::Concentric(a, b) => a == i || b == i,
            Relation::Midpoint(p, l) => p == i || l == i,
            Relation::Intersection(p, a, b) => p == i || a == i || b == i,
            Relation::Equal(a, b) => a == i || b == i,
        }
    }

    /// How many scalar equations the relation contributes.
    pub fn equation_count(&self) -> (r: u8)
        ensures
            r == self.equations(),
    {
        match self {
            Relation::Horizontal(_) => 1,
            Relation::Vertical(_) => 1,
            Relation::Coincident(c) => match c.other {
                CoincidentOther::Line(_) => 2,
                CoincidentOther::Arc(_) => 1,
                CoincidentOther::Point(_) => 3,
            },
            Relation::Perpendicular(_) => 1,
            Relation::Tangent(_) => 1,
            Relation::Fixed(_) => 0,
            Relation::Colinear(_, _) => 4,
            Relation::Coradial(_, _) => 4,
            Relation::Parallel(_, _) => 2,
            Relation::Concentric(_, _) => 3,
            Relation::Midpoint(_, _) => 3,
            Relation::Intersection(_, _, _) => 4,
            Relation::Equal(_, _) => 1,
        }
    }

    /// Whether the relation speaks of element `i`.
    pub fn names(&self, i: usize) -> (r: bool)
        ensures
            r == self.mentions(i),
    {
        match self {
            Relation::Horizontal(l) => *l == i,
            Relation::Vertical(l) => *l == i,
            Relation::Coincident(c) => c.point == i || match c.other {
                CoincidentOther::Line(l) => l == i,
                CoincidentOther::Arc(a) => a == i,
                CoincidentOther::Point(p) => p == i,
            },
            Relation::Perpendicular(p) => p.line == i || p.perp == i,
            Relation::Tangent(t) => t.arc == i || match t.other {
                TangentOther::Line(l) => l == i,
                TangentOther::Arc(a) => a == i,
            },
            Relation::Fixed(e) => *e == i,
            Relation::Colinear(a, b) => *a == i || *b == i,
            Relation::Coradial(a, b) => *a == i || *b == i,
            Relation::Parallel(a, b) => *a == i || *b == i,
            Relation::Concentric(a, b) => *a == i || *b == i,
            Relation::Midpoint(p, l) => *p == i || *l == i,
            Relation::Intersection(p, a, b) => *p == i || *a == i || *b == i,
            Relation::Equal(a, b) => *a == i || *b == i,
        }
    }
}

} // verus!
