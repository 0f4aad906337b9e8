//! The equations of a sketch: what every relation asks of the elements it
//! names, as a vector of residuals that vanishes where the relation holds.

use vstd::prelude::*;
use crate::error::KernelError;
use crate::fixed::{Scalar, fx_add, fx_sub, saturate, magnitude, trunc_div, lemma_mul_bounded, lemma_mul_sign};
use crate::vector::{
    Vec3, V3, v3_sub, v3_dot, v3_cross, v3_norm, v3_unit, DEGENERATE_NORM,
};
use crate::geometry::arc::Arc;
use crate::geometry::line::Line;
use crate::sketch::{SketchElement, kinds_of};
use crate::sketch::relations::{Relation, CoincidentOther, TangentOther};

verus! {

/// The three coordinates of a vector as a sequence.
pub open spec fn coordinates(v: V3) -> Seq<int> {
    seq![v.x, v.y, v.z]
}

/// The line at index `i`.
pub open spec fn line_at(els: Seq<SketchElement>, i: usize) -> Line {
    els[i as int]->Line_0.0
}

/// The arc at index `i`.
pub open spec fn arc_at(els: Seq<SketchElement>, i: usize) -> Arc {
    els[i as int]->Arc_0.0
}

/// The point at index `i`.
pub open spec fn point_at(els: Seq<SketchElement>, i: usize) -> V3 {
    els[i as int]->Point_0.0@
}

/// How far the point `q` lies from the circle of `arc`, signed.
pub open spec fn circle_gap(q: V3, arc: Arc) -> int {
    fx_sub(saturate(v3_norm(v3_sub(q, arc.center@))), arc.radius@)
}

/// How far two arcs are from touching: the gap to the nearer of the two
/// ways in which circles touch, from outside and from inside.
pub open spec fn arcs_gap(a: Arc, b: Arc) -> int {
    let d = saturate(v3_norm(v3_sub(a.center@, b.center@)));
    let outside = fx_sub(d, fx_add(a.radius@, b.radius@));
    let inside = fx_sub(d, saturate(magnitude(fx_sub(a.radius@, b.radius@))));
    if magnitude(outside) <= magnitude(inside) {
        outside
    } else {
        inside
    }
}

/// The middle of two points, coordinate by coordinate.
pub open spec fn middle(a: V3, b: V3) -> V3 {
    V3 {
        x: trunc_div(fx_add(a.x, b.x), 2),
        y: trunc_div(fx_add(a.y, b.y), 2),
        z: trunc_div(fx_add(a.z, b.z), 2),
    }
}

/// What two elements of one kind are to have in common under `Equal`: two
/// lines the norm of their direction, two arcs their radius.
pub open spec fn equal_gap(e: SketchElement, f: SketchElement) -> Result<Seq<int>, KernelError> {
    match e {
        SketchElement::Arc(a) => Ok(seq![fx_sub(a.0.radius@, f->Arc_0.0.radius@)]),
        _ => match (e->Line_0.0.parametric_form(), f->Line_0.0.parametric_form()) {
            (Some((_, v)), Some((_, w))) => Ok(
                seq![fx_sub(saturate(v3_norm(v)), saturate(v3_norm(w)))],
            ),
            _ => Err(KernelError::UnsupportedConversion),
        },
    }
}

/// The residuals of one relation over the elements `els`, which hold every
/// element that it names. A line that has no parametric form has no
/// residual, and a line too short to have a direction cannot be touched.
pub open spec fn relation_residual(r: Relation, els: Seq<SketchElement>) -> Result<
    Seq<int>,
    KernelError,
> {
    match r {
        Relation::Horizontal(l) => match line_at(els, l).parametric_form() {
            Some((_, v)) => Ok(seq![v.y]),
            None => Err(KernelError::UnsupportedConversion),
        },
        Relation::Vertical(l) => match line_at(els, l).parametric_form() {
            Some((_, v)) => Ok(seq![v.x]),
            None => Err(KernelError::UnsupportedConversion),
        },
        Relation::Coincident(c) => match c.other {
            CoincidentOther::Line(l) => match line_at(els, l).parametric_form() {
                Some((p, v)) => Ok(coordinates(v3_cross(v, v3_sub(point_at(els, c.point), p)))),
                None => Err(KernelError::UnsupportedConversion),
            },
            CoincidentOther::Arc(a) => Ok(seq![circle_gap(point_at(els, c.point), arc_at(els, a))]),
            CoincidentOther::Point(q) => Ok(
                coordinates(v3_sub(point_at(els, c.point), point_at(els, q))),
            ),
        },
        Relation::Perpendicular(p) => match (
            line_at(els, p.line).parametric_form(),
            line_at(els, p.perp).parametric_form(),
        ) {
            (Some((_, v)), Some((_, w))) => Ok(seq![v3_dot(v, w)]),
            _ => Err(KernelError::UnsupportedConversion),
        },
        Relation::Tangent(t) => match t.other {
            TangentOther::Line(l) => match line_at(els, l).parametric_form() {
                Some((p, v)) => if v3_norm(v) < DEGENERATE_NORM {
                    Err(KernelError::DegenerateInput)
                } else {
                    Ok(
                        seq![
                            fx_sub(
                                saturate(
                                    v3_norm(v3_cross(v3_unit(v), v3_sub(arc_at(els, t.arc).center@, p))),
                                ),
                                arc_at(els, t.arc).radius@,
                            ),
                        ],
                    )
                },
                None => Err(KernelError::UnsupportedConversion),
            },
            TangentOther::Arc(b) => Ok(seq![arcs_gap(arc_at(els, t.arc), arc_at(els, b))]),
        },
        Relation::Fixed(_) => Ok(Seq::empty()),
        Relation::Colinear(a, b) => match (
            line_at(els, a).parametric_form(),
            line_at(els, b).parametric_form(),
        ) {
            (Some((p, v)), Some((q, w))) => Ok(
                coordinates(v3_cross(v, w)) + coordinates(v3_cross(v, v3_sub(q, p))),
            ),
            _ => Err(KernelError::UnsupportedConversion),
        },
        Relation::Coradial(a, b) => Ok(
            coordinates(v3_sub(arc_at(els, a).center@, arc_at(els, b).center@)) + seq![
                fx_sub(arc_at(els, a).radius@, arc_at(els, b).radius@),
            ],
        ),
        Relation::Parallel(a, b) => match (
            line_at(els, a).parametric_form(),
            line_at(els, b).parametric_form(),
        ) {
            (Some((_, v)), Some((_, w))) => Ok(coordinates(v3_cross(v, w))),
            _ => Err(KernelError::UnsupportedConversion),
        },
        Relation::Concentric(a, b) => Ok(
            coordinates(v3_sub(arc_at(els, a).center@, arc_at(els, b).center@)),
        ),
        Relation::Midpoint(p, l) => match line_at(els, l).two_point_form() {
            Some((a, b)) => Ok(coordinates(v3_sub(point_at(els, p), middle(a, b)))),
            None => Err(KernelError::UnsupportedConversion),
        },
        Relation::Intersection(p, a, b) => match (
            line_at(els, a).parametric_form(),
            line_at(els, b).parametric_form(),
        ) {
            (Some((o, v)), Some((q, w))) => Ok(
                coordinates(v3_cross(v, v3_sub(point_at(els, p), o))) + coordinates(
                    v3_cross(w, v3_sub(point_at(els, p), q)),
                ),
            ),
            _ => Err(KernelError::UnsupportedConversion),
        },
        Relation::Equal(a, b) => equal_gap(els[a as int], els[b as int]),
    }
}

/// The residuals of the first `n` relations, one after the other, or the
/// error of the first relation that has none.
pub open spec fn residual_prefix(rels: Seq<Relation>, els: Seq<SketchElement>, n: nat) -> Result<
    Seq<int>,
    KernelError,
>
    decreases n,
{
    if n == 0 {
        Ok(Seq::empty())
    } else {
        match residual_prefix(rels, els, (n - 1) as nat) {
            Err(e) => Err(e),
            Ok(before) => match relation_residual(rels[n - 1], els) {
                Err(e) => Err(e),
                Ok(own) => Ok(before + own),
            },
        }
    }
}

/// The residuals of a sketch.
pub open spec fn residuals_of(rels: Seq<Relation>, els: Seq<SketchElement>) -> Result<
    Seq<int>,
    KernelError,
> {
    residual_prefix(rels, els, rels.len())
}

/// The sum of the squares of the first `n` members.
pub open spec fn square_sum(rs: Seq<int>, n: nat) -> int
    decreases n,
{
    if n == 0 {
        0
    } else {
        square_sum(rs, (n - 1) as nat) + rs[n - 1] * rs[n - 1]
    }
}

/// Whether the Euclidean norm of `rs` is at most `tol`. The comparison is
/// exact.
pub open spec fn is_small(rs: Seq<int>, tol: int) -> bool {
    tol >= 0 && square_sum(rs, rs.len()) <= tol * tol
}

/// Whether the elements meet the relations up to `tol`.
pub open spec fn satisfied(rels: Seq<Relation>, els: Seq<SketchElement>, tol: int) -> bool {
    residuals_of(rels, els) is Ok && is_small(residuals_of(rels, els)->Ok_0, tol)
}

/// Whether every relation names elements that are there.
pub open spec fn all_present(rels: Seq<Relation>, els: Seq<SketchElement>) -> bool {
    forall|r: int| 0 <= r < rels.len() ==> (#[trigger] rels[r]).missing(kinds_of(els)) is None
}

/// The raw values of a vector of scalars.
pub open spec fn raws(v: Seq<Scalar>) -> Seq<int> {
    v.map_values(|s: Scalar| s@)
}

/// A sum of squares is never negative and never shrinks.
pub proof fn lemma_square_sum_monotone(rs: Seq<int>, n: nat, m: nat)
    requires
        n <= m,
    ensures
        0 <= square_sum(rs, n) <= square_sum(rs, m),
    decreases m,
{
    if m == 0 {
    } else if n == m {
        lemma_square_sum_monotone(rs, (n - 1) as nat, (m - 1) as nat);
        assert(rs[m - 1] * rs[m - 1] >= 0) by (nonlinear_arith);
    } else {
        lemma_square_sum_monotone(rs, n, (m - 1) as nat);
        assert(rs[m - 1] * rs[m - 1] >= 0) by (nonlinear_arith);
    }
}

/// Whether the Euclidean norm of `rs` is at most `tol`.
pub(crate) fn small(rs: &Vec<Scalar>, tol: Scalar) -> (r: bool)
    ensures
        r == is_small(raws(rs@), tol@),
{
    if tol.raw < 0 {
        return false;
    }
    let ghost model = raws(rs@);
    let limit: u128 = crate::fixed::magnitude_of(tol.raw);
    proof {
        lemma_mul_bounded(limit as int, limit as int, 0x8000_0000_0000_0000, 0x8000_0000_0000_0000);
    }
    let bound: u128 = limit * limit;
    let mut sum: u128 = 0;
    let mut i: usize = 0;
    while i < rs.len()
        invariant
            i <= rs@.len(),
            model == raws(rs@),
            bound == tol@ * tol@,
            bound <= 0x4000_0000_0000_0000_0000_0000_0000_0000,
            sum == square_sum(model, i as nat),
            sum <= bound,
        decreases rs@.len() - i,
    {
        let m: u128 = crate::fixed::magnitude_of(rs[i].raw);
        proof {
            lemma_mul_bounded(m as int, m as int, 0x8000_0000_0000_0000, 0x8000_0000_0000_0000);
            lemma_mul_sign(rs@[i as int]@, rs@[i as int]@);
            assert(model[i as int] == rs@[i as int]@);
        }
        let term: u128 = m * m;
        if term > bound - sum {
            proof {
                lemma_square_sum_monotone(model, (i + 1) as nat, model.len());
            }
            return false;
        }
        sum = sum + term;
        i = i + 1;
    }
    true
}

/// The three coordinates of `v` appended to `out`.
fn push_coordinates(out: &mut Vec<Scalar>, v: Vec3)
    ensures
        raws(final(out)@) == raws(old(out)@) + coordinates(v@),
{
    out.push(v.x);
    out.push(v.y);
    out.push(v.z);
    assert(raws(out@) =~= raws(old(out)@) + coordinates(v@));
}

/// One scalar appended to `out`.
fn push_scalar(out: &mut Vec<Scalar>, s: Scalar)
    ensures
        raws(final(out)@) == raws(old(out)@) + seq![s@],
{
    out.push(s);
    assert(raws(out@) =~= raws(old(out)@) + seq![s@]);
}

/// The line at index `i`, as a point and a direction.
fn line_parts(els: &Vec<SketchElement>, i: usize) -> (r: Option<(Vec3, Vec3)>)
    requires
        i < els@.len(),
        els@[i as int] is Line,
    ensures
        r is Some <==> line_at(els@, i).parametric_form() is Some,
        r is Some ==> line_at(els@, i).parametric_form() == Some((r->Some_0.0@, r->Some_0.1@)),
{
    match &els[i] {
        SketchElement::Line(l) => l.0.parametric_parts(),
        _ => None,
    }
}

/// The arc at index `i`.
fn arc_of(els: &Vec<SketchElement>, i: usize) -> (r: Arc)
    requires
        i < els@.len(),
        els@[i as int] is Arc,
    ensures
        r == arc_at(els@, i),
{
    match &els[i] {
        SketchElement::Arc(a) => a.0,
        _ => Arc {
            radius: Scalar::zero(),
            start: Vec3::zero(),
            end: Vec3::zero(),
            center: Vec3::zero(),
            direction: crate::geometry::arc::ArcDirection::CW,
        },
    }
}

/// The point at index `i`.
fn point_of(els: &Vec<SketchElement>, i: usize) -> (r: Vec3)
    requires
        i < els@.len(),
        els@[i as int] is Point,
    ensures
        r@ == point_at(els@, i),
{
    match &els[i] {
        SketchElement::Point(p) => p.0.0,
        _ => Vec3::zero(),
    }
}

/// The gap between a point and the circle of an arc.
fn gap_to_circle(q: Vec3, arc: &Arc) -> (r: Scalar)
    ensures
        r@ == circle_gap(q@, *arc),
{
    q.sub(arc.center).length().sub(arc.radius)
}

/// The gap between two arcs and the nearer way of touching.
fn gap_between_arcs(a: &Arc, b: &Arc) -> (r: Scalar)
    ensures
        r@ == arcs_gap(*a, *b),
{
    let d = a.center.sub(b.center).length();
    let outside = d.sub(a.radius.add(b.radius));
    let inside = d.sub(a.radius.sub(b.radius).abs());
    if crate::fixed::magnitude_of(outside.raw) <= crate::fixed::magnitude_of(inside.raw) {
        outside
    } else {
        inside
    }
}

/// Appends the residuals of one relation to `out`.
pub(crate) fn push_residual(out: &mut Vec<Scalar>, relation: &Relation, els: &Vec<SketchElement>) -> (r:
    Result<(), KernelError>)
    requires
        relation.missing(kinds_of(els@)) is None,
    ensures
        match relation_residual(*relation, els@) {
            Err(e) => r == Err::<(), KernelError>(e),
            Ok(own) => r is Ok && raws(final(out)@) == raws(old(out)@) + own,
        },
        r is Err ==> raws(final(out)@) == raws(old(out)@),
{
    let ghost kinds = kinds_of(els@);
    assert(forall|i: int| 0 <= i < els@.len() ==> kinds[i] == els@[i].spec_kind());
    match relation {
        Relation::Horizontal(l) => match line_parts(els, *l) {
            Some((_, v)) => {
                push_scalar(out, v.y);
                Ok(())
            },
            None => Err(KernelError::UnsupportedConversion),
        },
        Relation::Vertical(l) => match line_parts(els, *l) {
            Some((_, v)) => {
                push_scalar(out, v.x);
                Ok(())
            },
            None => Err(KernelError::UnsupportedConversion),
        },
        Relation::Coincident(c) => match c.other {
            CoincidentOther::Line(l) => match line_parts(els, l) {
                Some((p, v)) => {
                    push_coordinates(out, v.cross(point_of(els, c.point).sub(p)));
                    Ok(())
                },
                None => Err(KernelError::UnsupportedConversion),
            },
            CoincidentOther::Arc(a) => {
                let arc = arc_of(els, a);
                push_scalar(out, gap_to_circle(point_of(els, c.point), &arc));
                Ok(())
            },
            CoincidentOther::Point(q) => {
                push_coordinates(out, point_of(els, c.point).sub(point_of(els, q)));
                Ok(())
            },
        },
        Relation::Perpendicular(p) => match (line_parts(els, p.line), line_parts(els, p.perp)) {
            (Some((_, v)), Some((_, w))) => {
                push_scalar(out, v.dot(w));
                Ok(())
            },
            _ => Err(KernelError::UnsupportedConversion),
        },
        Relation::Tangent(t) => match t.other {
            TangentOther::Line(l) => match line_parts(els, l) {
                Some((p, v)) => match v.normalize() {
                    None => Err(KernelError::DegenerateInput),
                    Some(unit) => {
                        let arc = arc_of(els, t.arc);
                        let reach = unit.cross(arc.center.sub(p)).length();
                        push_scalar(out, reach.sub(arc.radius));
                        Ok(())
                    },
                },
                None => Err(KernelError::UnsupportedConversion),
            },
            TangentOther::Arc(b) => {
                let first = arc_of(els, t.arc);
                let second = arc_of(els, b);
                push_scalar(out, gap_between_arcs(&first, &second));
                Ok(())
            },
        },
        Relation::Fixed(_) => {
            assert(raws(out@) =~= raws(old(out)@) + Seq::<int>::empty());
            Ok(())
        },
        Relation::Colinear(a, b) => match (line_parts(els, *a), line_parts(els, *b)) {
            (Some((p, v)), Some((q, w))) => {
                let ghost start = raws(out@);
                push_coordinates(out, v.cross(w));
                push_coordinates(out, v.cross(q.sub(p)));
                assert(raws(out@) =~= start + (coordinates(v3_cross(v@, w@)) + coordinates(
                    v3_cross(v@, v3_sub(q@, p@)),
                )));
                Ok(())
            },
            _ => Err(KernelError::UnsupportedConversion),
        },
        Relation::Coradial(a, b) => {
            let first = arc_of(els, *a);
            let second = arc_of(els, *b);
            let ghost start = raws(out@);
            push_coordinates(out, first.center.sub(second.center));
            push_scalar(out, first.radius.sub(second.radius));
            assert(raws(out@) =~= start + (coordinates(v3_sub(first.center@, second.center@))
                + seq![fx_sub(first.radius@, second.radius@)]));
            Ok(())
        },
        Relation::Parallel(a, b) => match (line_parts(els, *a), line_parts(els, *b)) {
            (Some((_, v)), Some((_, w))) => {
                push_coordinates(out, v.cross(w));
                Ok(())
            },
            _ => Err(KernelError::UnsupportedConversion),
        },
        Relation::Concentric(a, b) => {
            let first = arc_of(els, *a);
            let second = arc_of(els, *b);
            push_coordinates(out, first.center.sub(second.center));
            Ok(())
        },
        Relation::Midpoint(p, l) => {
            let ends = match &els[*l] {
                SketchElement::Line(line) => line.0.two_point_parts(),
                _ => None,
            };
            match ends {
                Some((a, b)) => {
                    let sum = a.add(b);
                    let mid = Vec3 { x: sum.x.half(), y: sum.y.half(), z: sum.z.half() };
                    push_coordinates(out, point_of(els, *p).sub(mid));
                    Ok(())
                },
                None => Err(KernelError::UnsupportedConversion),
            }
        },
        Relation::Intersection(p, a, b) => match (line_parts(els, *a), line_parts(els, *b)) {
            (Some((o, v)), Some((q, w))) => {
                let ghost start = raws(out@);
                let at = point_of(els, *p);
                push_coordinates(out, v.cross(at.sub(o)));
                push_coordinates(out, w.cross(at.sub(q)));
                assert(raws(out@) =~= start + (coordinates(v3_cross(v@, v3_sub(at@, o@)))
                    + coordinates(v3_cross(w@, v3_sub(at@, q@)))));
                Ok(())
            },
            _ => Err(KernelError::UnsupportedConversion),
        },
        Relation::Equal(a, b) => {
            match &els[*a] {
                SketchElement::Arc(first) => {
                    let second = arc_of(els, *b);
                    push_scalar(out, first.0.radius.sub(second.radius));
                    Ok(())
                },
                _ => match (line_parts(els, *a), line_parts(els, *b)) {
                    (Some((_, v)), Some((_, w))) => {
                        push_scalar(out, v.length().sub(w.length()));
                        Ok(())
                    },
                    _ => Err(KernelError::UnsupportedConversion),
                },
            }
        },
    }
}

/// Whether an error is one that a primitive raises when it meets geometry
/// that it cannot work on.
pub open spec fn is_primitive_failure(e: KernelError) -> bool {
    e is UnsupportedConversion || e is DegenerateInput
}

/// A sketch has no residuals only because a primitive failed.
pub proof fn lemma_residual_failure(rels: Seq<Relation>, els: Seq<SketchElement>, n: nat)
    requires
        residual_prefix(rels, els, n) is Err,
    ensures
        is_primitive_failure(residual_prefix(rels, els, n)->Err_0),
    decreases n,
{
    if n > 0 {
        if residual_prefix(rels, els, (n - 1) as nat) is Err {
            lemma_residual_failure(rels, els, (n - 1) as nat);
        }
    }
}

/// An error in a prefix is the error of every longer prefix.
pub proof fn lemma_residual_error(rels: Seq<Relation>, els: Seq<SketchElement>, n: nat, m: nat)
    requires
        n <= m,
        residual_prefix(rels, els, n) is Err,
    ensures
        residual_prefix(rels, els, m) == residual_prefix(rels, els, n),
    decreases m - n,
{
    if n < m {
        lemma_residual_error(rels, els, n, (m - 1) as nat);
    }
}

/// The residuals of a sketch whose relations name elements that are there.
pub(crate) fn residuals(rels: &Vec<Relation>, els: &Vec<SketchElement>) -> (r: Result<
    Vec<Scalar>,
    KernelError,
>)
    requires
        all_present(rels@, els@),
    ensures
        match residuals_of(rels@, els@) {
            Err(e) => r == Err::<Vec<Scalar>, KernelError>(e),
            Ok(rs) => r is Ok && raws(r->Ok_0@) == rs,
        },
        r is Err ==> is_primitive_failure(r->Err_0),
{
    proof {
        if residuals_of(rels@, els@) is Err {
            lemma_residual_failure(rels@, els@, rels@.len());
        }
    }
    let mut out: Vec<Scalar> = Vec::new();
    let mut i: usize = 0;
    assert(raws(out@) =~= Seq::<int>::empty());
    while i < rels.len()
        invariant
            i <= rels@.len(),
            all_present(rels@, els@),
            residual_prefix(rels@, els@, i as nat) == Ok::<Seq<int>, KernelError>(raws(out@)),
        decreases rels@.len() - i,
    {
        match push_residual(&mut out, &rels[i], els) {
            Err(e) => {
                proof {
                    lemma_residual_error(rels@, els@, (i + 1) as nat, rels@.len());
                }
                return Err(e);
            },
            Ok(()) => {},
        }
        i = i + 1;
    }
    Ok(out)
}

} // verus!
