//! Sketches: a plane, the elements drawn on it, and the relations that
//! hold between them.

use vstd::prelude::*;
use crate::error::KernelError;
use crate::vector::V3;
use crate::geometry::Plane;
use crate::geometry::arc::{Arc, chord_ends};
use crate::geometry::line::Line;
use crate::geometry::point::Point;
use crate::sketch::relations::{
    Relation, ElementKind, CoincidentOther, TangentOther, need, or_else,
};

pub mod accounting;
pub mod linear;
pub mod parameters;
pub mod relations;
pub mod residual;
pub mod solver;

verus! {

/// The plane of a sketch.
pub struct SketchPlane(pub Plane);

impl SketchPlane {
    /// The plane of the first two axes.
    pub fn xy() -> (r: SketchPlane)
        ensures
            r.0.wf(),
            r.0.normal@ == crate::geometry::axis_z(),
            r.0.center@ == crate::geometry::origin(),
    {
        SketchPlane(Plane::xy())
    }

    /// The plane of the first and third axes.
    pub fn xz() -> (r: SketchPlane)
        ensures
            r.0.wf(),
            r.0.normal@ == crate::geometry::axis_y(),
            r.0.center@ == crate::geometry::origin(),
    {
        SketchPlane(Plane::xz())
    }

    /// The plane of the last two axes.
    pub fn yz() -> (r: SketchPlane)
        ensures
            r.0.wf(),
            r.0.normal@ == crate::geometry::axis_x(),
            r.0.center@ == crate::geometry::origin(),
    {
        SketchPlane(Plane::yz())
    }
}

/// A line of a sketch.
#[derive(Clone, Copy, Debug, PartialEq, Eq, Structural)]
pub struct SketchLine(pub Line);

/// A point of a sketch.
#[derive(Clone, Copy, Debug, PartialEq, Eq, Structural)]
pub struct SketchPoint(pub Point);

/// An arc of a sketch.
#[derive(Clone, Copy, Debug, PartialEq, Eq, Structural)]
pub struct SketchArc(pub Arc);

/// An element of a sketch.
#[derive(Clone, Copy, Debug, PartialEq, Eq, Structural)]
pub enum SketchElement {
    Line(SketchLine),
    Point(SketchPoint),
    Arc(SketchArc),
}

impl SketchElement {
    /// The kind of the element.
    pub open spec fn spec_kind(&self) -> ElementKind {
        match *self {
            SketchElement::Line(_) => ElementKind::Line,
            SketchElement::Point(_) => ElementKind::Point,
            SketchElement::Arc(_) => ElementKind::Arc,
        }
    }

    /// The kind of the element.
    #[verifier::when_used_as_spec(spec_kind)]
    pub fn kind(&self) -> (r: ElementKind)
        ensures
            r == self.spec_kind(),
    {
        match self {
            SketchElement::Line(_) => ElementKind::Line,
            SketchElement::Point(_) => ElementKind::Point,
            SketchElement::Arc(_) => ElementKind::Arc,
        }
    }

    /// How many scalar parameters the element has: three for a point, six
    /// for a parametric or a two-point line, four for an implicit line, ten
    /// for an arc.
    pub open spec fn parameters(self) -> nat {
        match self {
            SketchElement::Point(_) => 3,
            SketchElement::Line(l) => match l.0 {
                Line::Parametric(_) => 6,
                Line::TwoPoint(_) => 6,
                Line::Implicit(_) => 4,
            },
            SketchElement::Arc(_) => 10,
        }
    }

    /// How many scalar parameters the element has.
    pub fn parameter_count(&self) -> (r: usize)
        ensures
            r == self.parameters(),
    {
        match self {
            SketchElement::Point(_) => 3,
            SketchElement::Line(l) => match l.0 {
                Line::Parametric(_) => 6,
                Line::TwoPoint(_) => 6,
                Line::Implicit(_) => 4,
            },
            SketchElement::Arc(_) => 10,
        }
    }
}

/// The kinds of a sequence of elements.
pub open spec fn kinds_of(elements: Seq<SketchElement>) -> Seq<ElementKind> {
    Seq::new(elements.len(), |i: int| elements[i].spec_kind())
}

/// Whether some relation pins element `i`.
pub open spec fn pinned(relations: Seq<Relation>, i: usize) -> bool {
    exists|r: int| 0 <= r < relations.len() && #[trigger] relations[r] == Relation::Fixed(i)
}

/// The free scalar parameters of the first `n` elements: those of the
/// elements that no relation pins.
pub open spec fn free_parameters(elements: Seq<SketchElement>, relations: Seq<Relation>, n: nat) -> nat
    decreases n,
{
    if n == 0 {
        0
    } else {
        free_parameters(elements, relations, (n - 1) as nat) + if pinned(
            relations,
            (n - 1) as usize,
        ) {
            0
        } else {
            elements[n - 1].parameters()
        }
    }
}

/// The scalar equations of the first `n` relations.
pub open spec fn equation_total(relations: Seq<Relation>, n: nat) -> nat
    decreases n,
{
    if n == 0 {
        0
    } else {
        equation_total(relations, (n - 1) as nat) + relations[n - 1].equations()
    }
}

/// The degrees of freedom: the free parameters less the equations.
pub open spec fn degrees_of_freedom(elements: Seq<SketchElement>, relations: Seq<Relation>) -> int {
    free_parameters(elements, relations, elements.len()) - equation_total(
        relations,
        relations.len(),
    )
}

/// A plane, the elements drawn on it, and the relations between them.
pub struct Sketch {
    pub plane: SketchPlane,
    pub elements: Vec<SketchElement>,
    pub relations: Vec<Relation>,
}

/// `None` where element `i` exists and has kind `k`, else `i`.
fn check_kind(elements: &Vec<SketchElement>, i: usize, k: ElementKind) -> (r: Option<usize>)
    ensures
        r == need(kinds_of(elements@), i, k),
{
    if i < elements.len() && elements[i].kind() == k {
        None
    } else {
        Some(i)
    }
}

/// The first of two findings.
fn first_of(a: Option<usize>, b: Option<usize>) -> (r: Option<usize>)
    ensures
        r == or_else(a, b),
{
    match a {
        Some(_) => a,
        None => b,
    }
}

/// The first element that a relation names and the elements lack.
pub fn missing_element(relation: &Relation, elements: &Vec<SketchElement>) -> (r: Option<usize>)
    ensures
        r == relation.missing(kinds_of(elements@)),
{
    match relation {
        Relation::Horizontal(l) => check_kind(elements, *l, ElementKind::Line),
        Relation::Vertical(l) => check_kind(elements, *l, ElementKind::Line),
        Relation::Coincident(c) => first_of(
            check_kind(elements, c.point, ElementKind::Point),
            match c.other {
                CoincidentOther::Line(l) => check_kind(elements, l, ElementKind::Line),
                CoincidentOther::Arc(a) => check_kind(elements, a, ElementKind::Arc),
                CoincidentOther::Point(p) => check_kind(elements, p, ElementKind::Point),
            },
        ),
        Relation::Perpendicular(p) => first_of(
            check_kind(elements, p.line, ElementKind::Line),
            check_kind(elements, p.perp, ElementKind::Line),
        ),
        Relation::Tangent(t) => first_of(
            check_kind(elements, t.arc, ElementKind::Arc),
            match t.other {
                TangentOther::Line(l) => check_kind(elements, l, ElementKind::Line),
                TangentOther::Arc(a) => check_kind(elements, a, ElementKind::Arc),
            },
        ),
        Relation::Fixed(e) => if *e < elements.len() {
            None
        } else {
            Some(*e)
        },
        Relation::Colinear(a, b) => first_of(
            check_kind(elements, *a, ElementKind::Line),
            check_kind(elements, *b, ElementKind::Line),
        ),
        Relation::Coradial(a, b) => first_of(
            check_kind(elements, *a, ElementKind::Arc),
            check_kind(elements, *b, ElementKind::Arc),
        ),
        Relation::Parallel(a, b) => first_of(
            check_kind(elements, *a, ElementKind::Line),
            check_kind(elements, *b, ElementKind::Line),
        ),
        Relation::Concentric(a, b) => first_of(
            check_kind(elements, *a, ElementKind::Arc),
            check_kind(elements, *b, ElementKind::Arc),
        ),
        Relation::Midpoint(p, l) => first_of(
            check_kind(elements, *p, ElementKind::Point),
            check_kind(elements, *l, ElementKind::Line),
        ),
        Relation::Intersection(p, a, b) => first_of(
            check_kind(elements, *p, ElementKind::Point),
            first_of(
                check_kind(elements, *a, ElementKind::Line),
                check_kind(elements, *b, ElementKind::Line),
            ),
        ),
        Relation::Equal(a, b) => {
            if *a >= elements.len() {
                Some(*a)
            } else {
                let k = elements[*a].kind();
                match k {
                    ElementKind::Point => Some(*a),
                    _ => check_kind(elements, *b, k),
                }
            }
        },
    }
}

impl Sketch {
    /// A sketch is well formed when every relation names elements that the
    /// sketch holds, each of the kind that the relation needs.
    pub open spec fn wf(&self) -> bool {
        forall|r: int|
            0 <= r < self.relations@.len() ==> (#[trigger] self.relations@[r]).missing(
                kinds_of(self.elements@),
            ) is None
    }

    /// The sketch on `plane` with no element and no relation.
    pub fn new(plane: SketchPlane) -> (r: Sketch)
        ensures
            r.plane == plane,
            r.elements@.len() == 0,
            r.relations@.len() == 0,
            r.wf(),
    {
        Sketch { plane, elements: Vec::new(), relations: Vec::new() }
    }

    /// Adds an element and returns its index, which it keeps for good.
    pub fn add_element(&mut self, element: SketchElement) -> (index: usize)
        ensures
            index == old(self).elements@.len(),
            final(self).elements@ == old(self).elements@.push(element),
            final(self).relations == old(self).relations,
            final(self).plane == old(self).plane,
            old(self).wf() ==> final(self).wf(),
    {
        let index = self.elements.len();
        self.elements.push(element);
        proof {
            let before = kinds_of(old(self).elements@);
            let after = kinds_of(self.elements@);
            assert forall|r: int| old(self).wf() && 0 <= r < self.relations@.len() implies (
            #[trigger] self.relations@[r]).missing(after) is None by {
                let rel = old(self).relations@[r];
                assert(rel.missing(before) is None);
                assert(forall|i: int| 0 <= i < before.len() ==> before[i] == after[i]);
            }
        }
        index
    }

    /// Adds a relation and returns its index. A relation that names an
    /// element which the sketch does not hold, or holds as another kind
    /// than the relation needs, is refused, and the sketch stays as it was.
    pub fn add_relation(&mut self, relation: Relation) -> (r: Result<usize, KernelError>)
        ensures
            old(self).wf() ==> final(self).wf(),
            final(self).elements == old(self).elements,
            final(self).plane == old(self).plane,
            match relation.missing(kinds_of(old(self).elements@)) {
                Some(element) => r == Err::<usize, KernelError>(
                    KernelError::InvalidElementReference { element },
                ) && final(self).relations == old(self).relations,
                None => r == Ok::<usize, KernelError>(old(self).relations@.len() as usize)
                    && final(self).relations@ == old(self).relations@.push(relation),
            },
    {
        match missing_element(&relation, &self.elements) {
            Some(element) => Err(KernelError::InvalidElementReference { element }),
            None => {
                let index = self.relations.len();
                self.relations.push(relation);
                Ok(index)
            },
        }
    }

    /// Takes the relation at `index` out of the sketch; the relations after
    /// it move down by one. An index past the last relation is refused.
    pub fn remove_relation(&mut self, index: usize) -> (r: Result<Relation, KernelError>)
        ensures
            old(self).wf() ==> final(self).wf(),
            final(self).elements == old(self).elements,
            final(self).plane == old(self).plane,
            index >= old(self).relations@.len() ==> r == Err::<Relation, KernelError>(
                KernelError::InvalidArgument,
            ) && final(self).relations == old(self).relations,
            index < old(self).relations@.len() ==> r == Ok::<Relation, KernelError>(
                old(self).relations@[index as int],
            ) && final(self).relations@ == old(self).relations@.remove(index as int),
    {
        if index >= self.relations.len() {
            Err(KernelError::InvalidArgument)
        } else {
            let removed = self.relations.remove(index);
            Ok(removed)
        }
    }
}

/// The straight segments that stand for one element: none for a point,
/// the segment between its two points for a line, its chords for an arc.
pub open spec fn element_segments(e: SketchElement, segments: u32) -> Result<
    Seq<(V3, V3)>,
    KernelError,
> {
    match e {
        SketchElement::Point(_) => Ok(Seq::empty()),
        SketchElement::Line(l) => match l.0.two_point_result() {
            None => Err(KernelError::UnsupportedConversion),
            Some(ends) => Ok(seq![ends]),
        },
        SketchElement::Arc(a) => if segments == 0 {
            Err(KernelError::InvalidArgument)
        } else if a.0.frame() is None {
            Err(KernelError::DegenerateInput)
        } else {
            Ok(
                Seq::new(
                    segments as nat,
                    |k: int|
                        (a.0.chord_point(segments as int, k), a.0.chord_point(segments as int, k + 1)),
                ),
            )
        },
    }
}

/// The straight segments that stand for the first `n` elements, in order,
/// or the error of the first element that has none.
pub open spec fn segments_prefix(els: Seq<SketchElement>, segments: u32, n: nat) -> Result<
    Seq<(V3, V3)>,
    KernelError,
>
    decreases n,
{
    if n == 0 {
        Ok(Seq::empty())
    } else {
        match segments_prefix(els, segments, (n - 1) as nat) {
            Err(e) => Err(e),
            Ok(before) => match element_segments(els[n - 1], segments) {
                Err(e) => Err(e),
                Ok(own) => Ok(before + own),
            },
        }
    }
}

/// The ends of every line of a sequence of lines in two-point form.
pub open spec fn segment_ends(lines: Seq<Line>) -> Seq<(V3, V3)> {
    lines.map_values(|l: Line| chord_ends(l))
}

/// Whether every line is in two-point form.
pub open spec fn all_two_point(lines: Seq<Line>) -> bool {
    forall|k: int| 0 <= k < lines.len() ==> #[trigger] lines[k] is TwoPoint
}

/// An error in a prefix is the error of every longer prefix.
pub proof fn lemma_segments_error(els: Seq<SketchElement>, segments: u32, n: nat, m: nat)
    requires
        n <= m,
        segments_prefix(els, segments, n) is Err,
    ensures
        segments_prefix(els, segments, m) == segments_prefix(els, segments, n),
    decreases m - n,
{
    if n < m {
        lemma_segments_error(els, segments, n, (m - 1) as nat);
    }
}

/// Appends the segments of one element to `out`.
fn push_element_segments(out: &mut Vec<Line>, e: &SketchElement, segments: u32) -> (r: Result<
    (),
    KernelError,
>)
    requires
        all_two_point(old(out)@),
    ensures
        match element_segments(*e, segments) {
            Err(err) => r == Err::<(), KernelError>(err),
            Ok(own) => r is Ok && all_two_point(final(out)@) && segment_ends(final(out)@)
                == segment_ends(old(out)@) + own,
        },
{
    match e {
        SketchElement::Point(_) => {
            assert(segment_ends(out@) =~= segment_ends(old(out)@) + Seq::<(V3, V3)>::empty());
            Ok(())
        },
        SketchElement::Line(l) => match l.0.to_two_point_line() {
            Err(_) => Err(KernelError::UnsupportedConversion),
            Ok(t) => {
                out.push(Line::TwoPoint(t));
                assert(segment_ends(out@) =~= segment_ends(old(out)@) + seq![(t.a@, t.b@)]);
                Ok(())
            },
        },
        SketchElement::Arc(a) => match a.0.to_lines(segments) {
            Err(err) => Err(err),
            Ok(lines) => {
                let ghost own = element_segments(*e, segments)->Ok_0;
                let mut k: usize = 0;
                assert(segment_ends(out@) =~= segment_ends(old(out)@) + own.take(0));
                while k < lines.len()
                    invariant
                        lines@.len() == segments,
                        segments >= 1,
                        a.0.frame() is Some,
                        k <= lines@.len(),
                        *e == SketchElement::Arc(*a),
                        own == element_segments(*e, segments)->Ok_0,
                        forall|j: int|
                            0 <= j < segments ==> #[trigger] lines@[j] is TwoPoint && chord_ends(
                                lines@[j],
                            ) == (
                                a.0.chord_point(segments as int, j),
                                a.0.chord_point(segments as int, j + 1),
                            ),
                        all_two_point(out@),
                        segment_ends(out@) == segment_ends(old(out)@) + own.take(k as int),
                    decreases lines@.len() - k,
                {
                    let ghost before = out@;
                    assert(lines@[k as int] is TwoPoint);
                    out.push(lines[k]);
                    proof {
                        assert(segment_ends(out@) =~= segment_ends(before).push(own[k as int]));
                        assert(own.take(k + 1) =~= own.take(k as int).push(own[k as int]));
                        assert(segment_ends(out@) =~= segment_ends(old(out)@) + own.take(k + 1));
                    }
                    k = k + 1;
                }
                assert(own.take(k as int) =~= own);
                Ok(())
            },
        },
    }
}

impl Sketch {
    /// The sketch as straight segments, element by element: a line gives
    /// the segment between its two points, an arc its `segments` chords, a
    /// point nothing. The first element that cannot be drawn fails the
    /// whole: a line without two distinct points, an arc without a frame,
    /// or any arc where `segments` is zero.
    pub fn to_lines(&self, segments: u32) -> (r: Result<Vec<Line>, KernelError>)
        ensures
            match segments_prefix(self.elements@, segments, self.elements@.len()) {
                Err(e) => r == Err::<Vec<Line>, KernelError>(e),
                Ok(ends) => r is Ok && all_two_point(r->Ok_0@) && segment_ends(r->Ok_0@) == ends,
            },
    {
        let mut out: Vec<Line> = Vec::new();
        let mut i: usize = 0;
        assert(segment_ends(out@) =~= Seq::<(V3, V3)>::empty());
        while i < self.elements.len()
            invariant
                i <= self.elements@.len(),
                all_two_point(out@),
                segments_prefix(self.elements@, segments, i as nat) == Ok::<
                    Seq<(V3, V3)>,
                    KernelError,
                >(segment_ends(out@)),
            decreases self.elements@.len() - i,
        {
            match push_element_segments(&mut out, &self.elements[i], segments) {
                Err(e) => {
                    proof {
                        lemma_segments_error(
                            self.elements@,
                            segments,
                            (i + 1) as nat,
                            self.elements@.len(),
                        );
                    }
                    return Err(e);
                },
                Ok(()) => {},
            }
            i = i + 1;
        }
        Ok(out)
    }
}

/// The straight segments that stand for the first `n` sketches, sketch by
/// sketch, or the error of the first sketch that cannot be drawn.
pub open spec fn sketches_prefix(sketches: Seq<Sketch>, segments: u32, n: nat) -> Result<
    Seq<(V3, V3)>,
    KernelError,
>
    decreases n,
{
    if n == 0 {
        Ok(Seq::empty())
    } else {
        match sketches_prefix(sketches, segments, (n - 1) as nat) {
            Err(e) => Err(e),
            Ok(before) => match segments_prefix(
                sketches[n - 1].elements@,
                segments,
                sketches[n - 1].elements@.len(),
            ) {
                Err(e) => Err(e),
                Ok(own) => Ok(before + own),
            },
        }
    }
}

/// An error in a prefix is the error of every longer prefix.
pub proof fn lemma_sketches_error(sketches: Seq<Sketch>, segments: u32, n: nat, m: nat)
    requires
        n <= m,
        sketches_prefix(sketches, segments, n) is Err,
    ensures
        sketches_prefix(sketches, segments, m) == sketches_prefix(sketches, segments, n),
    decreases m - n,
{
    if n < m {
        lemma_sketches_error(sketches, segments, n, (m - 1) as nat);
    }
}

/// Every sketch as straight segments, one sketch after the other.
pub fn generate_lines(sketches: &Vec<Sketch>, segments: u32) -> (r: Result<Vec<Line>, KernelError>)
    ensures
        match sketches_prefix(sketches@, segments, sketches@.len()) {
            Err(e) => r == Err::<Vec<Line>, KernelError>(e),
            Ok(ends) => r is Ok && all_two_point(r->Ok_0@) && segment_ends(r->Ok_0@) == ends,
        },
{
    let mut out: Vec<Line> = Vec::new();
    let mut i: usize = 0;
    assert(segment_ends(out@) =~= Seq::<(V3, V3)>::empty());
    while i < sketches.len()
        invariant
            i <= sketches@.len(),
            all_two_point(out@),
            sketches_prefix(sketches@, segments, i as nat) == Ok::<Seq<(V3, V3)>, KernelError>(
                segment_ends(out@),
            ),
        decreases sketches@.len() - i,
    {
        match sketches[i].to_lines(segments) {
            Err(e) => {
                proof {
                    lemma_sketches_error(sketches@, segments, (i + 1) as nat, sketches@.len());
                }
                return Err(e);
            },
            Ok(own) => {
                let ghost before = out@;
                let mut k: usize = 0;
                assert(segment_ends(out@) =~= segment_ends(before) + segment_ends(own@).take(0));
                while k < own.len()
                    invariant
                        k <= own@.len(),
                        all_two_point(own@),
                        all_two_point(out@),
                        segment_ends(out@) == segment_ends(before) + segment_ends(own@).take(
                            k as int,
                        ),
                    decreases own@.len() - k,
                {
                    let ghost held = out@;
                    assert(own@[k as int] is TwoPoint);
                    out.push(own[k]);
                    proof {
                        assert(segment_ends(out@) =~= segment_ends(held).push(
                            segment_ends(own@)[k as int],
                        ));
                        assert(segment_ends(own@).take(k + 1) =~= segment_ends(own@).take(
                            k as int,
                        ).push(segment_ends(own@)[k as int]));
                        assert(segment_ends(out@) =~= segment_ends(before) + segment_ends(
                            own@,
                        ).take(k + 1));
                    }
                    k = k + 1;
                }
                assert(segment_ends(own@).take(own@.len() as int) =~= segment_ends(own@));
            },
        }
        i = i + 1;
    }
    Ok(out)
}

} // verus!
