//! Lines in their three interchangeable representations.

use vstd::prelude::*;
use crate::error::KernelError;
use crate::fixed::{Scalar, fx_add, fx_mul, fx_mul_div, fx_neg, trunc_div, mul_div_raw};
use crate::vector::{
    Vec3, V3, v3_add, v3_sub, v3_cross, v3_scale, v3_norm, v3_unit, DEGENERATE_NORM,
};
use crate::geometry::Plane;
use crate::geometry::point::{Point, project_point};

verus! {

/// A line through `p` along `v`: the points `p + t * v`.
#[derive(Clone, Copy, Debug, PartialEq, Eq, Structural)]
pub struct ParametricLine {
    pub p: Vec3,
    pub v: Vec3,
}

impl ParametricLine {
    /// The line through `p` along `v`.
    pub fn new(p: Vec3, v: Vec3) -> (r: ParametricLine)
        ensures
            r.p == p,
            r.v == v,
    {
        ParametricLine { p, v }
    }
}

/// The segment from `a` to `b`, and the line through them.
#[derive(Clone, Copy, Debug, PartialEq, Eq, Structural)]
pub struct TwoPointLine {
    pub a: Point,
    pub b: Point,
}

impl TwoPointLine {
    /// The segment from `a` to `b`.
    pub fn new(a: Vec3, b: Vec3) -> (r: TwoPointLine)
        ensures
            r.a.0 == a,
            r.b.0 == b,
    {
        TwoPointLine { a: Point(a), b: Point(b) }
    }

    /// The unit vector from `a` towards `b`; refused where the two are
    /// closer than `DEGENERATE_NORM`.
    pub fn normal(&self) -> (r: Result<Vec3, KernelError>)
        ensures
            v3_norm(v3_sub(self.b@, self.a@)) < DEGENERATE_NORM ==> r == Err::<Vec3, KernelError>(
                KernelError::DegenerateInput,
            ),
            v3_norm(v3_sub(self.b@, self.a@)) >= DEGENERATE_NORM ==> r is Ok && r->Ok_0@
                == v3_unit(v3_sub(self.b@, self.a@)),
    {
        match self.b.0.sub(self.a.0).normalize() {
            Some(unit) => Ok(unit),
            None => Err(KernelError::DegenerateInput),
        }
    }

    /// The coordinates of the two endpoints.
    pub fn to_points(&self) -> (r: [[Scalar; 3]; 2])
        ensures
            r@.len() == 2,
            r@[0]@ == seq![self.a.0.x, self.a.0.y, self.a.0.z],
            r@[1]@ == seq![self.b.0.x, self.b.0.y, self.b.0.z],
    {
        [self.a.0.to_array(), self.b.0.to_array()]
    }
}

/// The line in which the plane `a x + b y + c z + d = 0` meets the plane
/// `z = 0`.
#[derive(Clone, Copy, Debug, PartialEq, Eq, Structural)]
pub struct ImplicitLine {
    pub a: Scalar,
    pub b: Scalar,
    pub c: Scalar,
    pub d: Scalar,
}

/// The squared length of the in-plane normal `(a, b)` of an implicit line.
pub open spec fn implicit_normal_sq(a: int, b: int) -> int {
    fx_add(fx_mul(a, a), fx_mul(b, b))
}

/// The point of an implicit line nearest the origin:
/// `-d * (a, b, 0) / (a^2 + b^2)`.
pub open spec fn implicit_foot(a: int, b: int, d: int) -> V3 {
    V3 {
        x: fx_neg(fx_mul_div(a, d, implicit_normal_sq(a, b))),
        y: fx_neg(fx_mul_div(b, d, implicit_normal_sq(a, b))),
        z: 0,
    }
}

/// The direction of an implicit line: `(-b, a, 0)`.
pub open spec fn implicit_direction(a: int, b: int) -> V3 {
    V3 { x: fx_neg(b), y: a, z: 0 }
}

/// A line in one of three representations. The parametric and the implicit
/// form describe an unbounded line; the two-point form also bounds a
/// segment.
#[derive(Clone, Copy, Debug, PartialEq, Eq, Structural)]
pub enum Line {
    /// `P(t) = p + t * v`.
    Parametric(ParametricLine),
    /// Two distinct points of the line.
    TwoPoint(TwoPointLine),
    /// `a x + b y + c z + d = 0`, cut with the plane `z = 0`.
    Implicit(ImplicitLine),
}

impl Line {
    /// A point and a direction of the line, where the representation
    /// determines them.
    pub open spec fn parametric_form(self) -> Option<(V3, V3)> {
        match self {
            Line::Parametric(l) => Some((l.p@, l.v@)),
            Line::TwoPoint(l) => Some((l.a@, v3_sub(l.b@, l.a@))),
            Line::Implicit(l) => if implicit_normal_sq(l.a@, l.b@) == 0 {
                None
            } else {
                Some((implicit_foot(l.a@, l.b@, l.d@), implicit_direction(l.a@, l.b@)))
            },
        }
    }

    /// Two points of the line: the given ones of a two-point line, else the
    /// points at the parameters zero and one.
    pub open spec fn two_point_form(self) -> Option<(V3, V3)> {
        match self {
            Line::TwoPoint(l) => Some((l.a@, l.b@)),
            _ => match self.parametric_form() {
                Some((p, v)) => Some((p, v3_add(p, v))),
                None => None,
            },
        }
    }

    /// The parametric form where it exists and its direction is not zero.
    pub open spec fn parametric_result(self) -> Option<(V3, V3)> {
        match self.parametric_form() {
            Some((p, v)) => if v == (V3 { x: 0, y: 0, z: 0 }) {
                None
            } else {
                Some((p, v))
            },
            None => None,
        }
    }

    /// The two-point form where it exists and its points differ.
    pub open spec fn two_point_result(self) -> Option<(V3, V3)> {
        match self.two_point_form() {
            Some((a, b)) => if a == b {
                None
            } else {
                Some((a, b))
            },
            None => None,
        }
    }

    /// The endpoints of the projection of the line onto a plane, or the
    /// reason why there is none.
    pub open spec fn projection(self, normal: V3, center: V3) -> Result<(V3, V3), KernelError> {
        match self.two_point_result() {
            None => Err(KernelError::UnsupportedConversion),
            Some((a, b)) => {
                let pa = project_point(a, normal, center);
                let pb = project_point(b, normal, center);
                if v3_norm(v3_sub(pb, pa)) < DEGENERATE_NORM {
                    Err(KernelError::DegenerateProjection)
                } else {
                    Ok((pa, pb))
                }
            },
        }
    }

    /// The six corners of the two triangles that cover a ribbon of the
    /// given width about the segment from `a` to `b`, in a plane with the
    /// given normal.
    pub open spec fn ribbon(a: V3, b: V3, normal: V3, width: int) -> Seq<V3> {
        let up = v3_cross(v3_unit(v3_sub(b, a)), normal);
        let offset = v3_scale(up, trunc_div(width, 2));
        let tl = v3_add(a, offset);
        let bl = v3_sub(a, offset);
        let tr = v3_add(b, offset);
        let br = v3_sub(b, offset);
        seq![bl, tr, tl, bl, br, tr]
    }

    /// A point and a direction of the line, where the representation
    /// determines them.
    pub fn parametric_parts(&self) -> (r: Option<(Vec3, Vec3)>)
        ensures
            r is Some <==> self.parametric_form() is Some,
            r is Some ==> self.parametric_form() == Some((r->Some_0.0@, r->Some_0.1@)),
    {
        match self {
            Line::Parametric(l) => Some((l.p, l.v)),
            Line::TwoPoint(l) => Some((l.a.0, l.b.0.sub(l.a.0))),
            Line::Implicit(l) => {
                let n = l.a.mul(l.a).add(l.b.mul(l.b));
                if n.raw == 0 {
                    None
                } else {
                    let x = Scalar { raw: mul_div_raw(l.a.raw, l.d.raw, n.raw) }.neg();
                    let y = Scalar { raw: mul_div_raw(l.b.raw, l.d.raw, n.raw) }.neg();
                    let foot = Vec3 { x, y, z: Scalar::zero() };
                    let direction = Vec3 { x: l.b.neg(), y: l.a, z: Scalar::zero() };
                    Some((foot, direction))
                }
            },
        }
    }

    /// Two points of the line, where the representation determines them.
    pub fn two_point_parts(&self) -> (r: Option<(Vec3, Vec3)>)
        ensures
            r is Some <==> self.two_point_form() is Some,
            r is Some ==> self.two_point_form() == Some((r->Some_0.0@, r->Some_0.1@)),
    {
        match self {
            Line::TwoPoint(l) => Some((l.a.0, l.b.0)),
            _ => match self.parametric_parts() {
                Some((p, v)) => Some((p, p.add(v))),
                None => None,
            },
        }
    }

    /// The line in parametric form. The conversion fails where the
    /// representation does not determine a direction.
    pub fn to_parametric(&self) -> (r: Result<ParametricLine, KernelError>)
        ensures
            self.parametric_result() is None ==> r == Err::<ParametricLine, KernelError>(
                KernelError::UnsupportedConversion,
            ),
            self.parametric_result() is Some ==> r is Ok && self.parametric_result() == Some(
                (r->Ok_0.p@, r->Ok_0.v@),
            ),
    {
        match self.parametric_parts() {
            Some((p, v)) => {
                if v.x.raw == 0 && v.y.raw == 0 && v.z.raw == 0 {
                    Err(KernelError::UnsupportedConversion)
                } else {
                    Ok(ParametricLine { p, v })
                }
            },
            None => Err(KernelError::UnsupportedConversion),
        }
    }

    /// The line in two-point form. The conversion fails where the
    /// representation does not yield two distinct points.
    pub fn to_two_point_line(&self) -> (r: Result<TwoPointLine, KernelError>)
        ensures
            self.two_point_result() is None ==> r == Err::<TwoPointLine, KernelError>(
                KernelError::UnsupportedConversion,
            ),
            self.two_point_result() is Some ==> r is Ok && self.two_point_result() == Some(
                (r->Ok_0.a@, r->Ok_0.b@),
            ),
    {
        match self.two_point_parts() {
            Some((a, b)) => {
                if a.x.raw == b.x.raw && a.y.raw == b.y.raw && a.z.raw == b.z.raw {
                    Err(KernelError::UnsupportedConversion)
                } else {
                    Ok(TwoPointLine { a: Point(a), b: Point(b) })
                }
            },
            None => Err(KernelError::UnsupportedConversion),
        }
    }

    /// The line in two-point form; the same conversion as
    /// `to_two_point_line`.
    pub fn to_two_point(&self) -> (r: Result<TwoPointLine, KernelError>)
        ensures
            self.two_point_result() is None ==> r == Err::<TwoPointLine, KernelError>(
                KernelError::UnsupportedConversion,
            ),
            self.two_point_result() is Some ==> r is Ok && self.two_point_result() == Some(
                (r->Ok_0.a@, r->Ok_0.b@),
            ),
    {
        self.to_two_point_line()
    }

    /// The projection of the line onto `plane`, in two-point form. A line
    /// that runs along the normal of the plane has no projection.
    pub fn project_to_plane(&self, plane: &Plane) -> (r: Result<Line, KernelError>)
        ensures
            match self.projection(plane.normal@, plane.center@) {
                Ok((a, b)) => r is Ok && r->Ok_0 is TwoPoint && r->Ok_0->TwoPoint_0.a@ == a
                    && r->Ok_0->TwoPoint_0.b@ == b,
                Err(e) => r == Err::<Line, KernelError>(e),
            },
    {
        match self.to_two_point_line() {
            Err(_) => Err(KernelError::UnsupportedConversion),
            Ok(tpl) => {
                let a = tpl.a.project_to_plane(plane);
                let b = tpl.b.project_to_plane(plane);
                let n = b.0.sub(a.0).norm_wide();
                if n < 0x1_0000 {
                    Err(KernelError::DegenerateProjection)
                } else {
                    Ok(Line::TwoPoint(TwoPointLine { a, b }))
                }
            },
        }
    }

    /// A ribbon of the given width about the projection of the line onto
    /// `plane`: two triangles, as six corners.
    pub fn generate_projected_quad(&self, plane: &Plane, width: Scalar) -> (r: Result<
        [Vec3; 6],
        KernelError,
    >)
        ensures
            match self.projection(plane.normal@, plane.center@) {
                Ok((a, b)) => r is Ok && r->Ok_0@.map_values(|v: Vec3| v@) == Line::ribbon(
                    a,
                    b,
                    plane.normal@,
                    width@,
                ),
                Err(e) => r == Err::<[Vec3; 6], KernelError>(e),
            },
    {
        match self.project_to_plane(plane) {
            Err(e) => Err(e),
            Ok(projected) => {
                match projected {
                    Line::TwoPoint(tpl) => {
                        match tpl.b.0.sub(tpl.a.0).normalize() {
                            None => Err(KernelError::DegenerateProjection),
                            Some(line_dir) => {
                                let line_up = line_dir.cross(plane.normal);
                                let offset = line_up.scale(width.half());
                                let tl = tpl.a.0.add(offset);
                                let bl = tpl.a.0.sub(offset);
                                let tr = tpl.b.0.add(offset);
                                let br = tpl.b.0.sub(offset);
                                let quad = [bl, tr, tl, bl, br, tr];
                                assert(quad@.map_values(|v: Vec3| v@) =~= Line::ribbon(
                                    tpl.a@,
                                    tpl.b@,
                                    plane.normal@,
                                    width@,
                                ));
                                Ok(quad)
                            },
                        }
                    },
                    _ => Err(KernelError::DegenerateProjection),
                }
            },
        }
    }
}

/// The corners of the ribbon about one line, or the reason why it has
/// none.
pub open spec fn ribbon_of(line: Line, normal: V3, center: V3, width: int) -> Result<
    Seq<V3>,
    KernelError,
> {
    match line.projection(normal, center) {
        Err(e) => Err(e),
        Ok((a, b)) => Ok(Line::ribbon(a, b, normal, width)),
    }
}

/// The corners of the ribbons about the first `n` lines, six for each line
/// in order, or the error of the first line that has no ribbon.
pub open spec fn ribbons_prefix(lines: Seq<Line>, normal: V3, center: V3, width: int, n: nat) -> Result<
    Seq<V3>,
    KernelError,
>
    decreases n,
{
    if n == 0 {
        Ok(Seq::empty())
    } else {
        match ribbons_prefix(lines, normal, center, width, (n - 1) as nat) {
            Err(e) => Err(e),
            Ok(before) => match ribbon_of(lines[n - 1], normal, center, width) {
                Err(e) => Err(e),
                Ok(own) => Ok(before + own),
            },
        }
    }
}

/// The views of a sequence of vectors.
pub open spec fn corner_views(corners: Seq<Vec3>) -> Seq<V3> {
    corners.map_values(|v: Vec3| v@)
}

/// An error in a prefix is the error of every longer prefix.
pub proof fn lemma_ribbons_error(
    lines: Seq<Line>,
    normal: V3,
    center: V3,
    width: int,
    n: nat,
    m: nat,
)
    requires
        n <= m,
        ribbons_prefix(lines, normal, center, width, n) is Err,
    ensures
        ribbons_prefix(lines, normal, center, width, m) == ribbons_prefix(
            lines,
            normal,
            center,
            width,
            n,
        ),
    decreases m - n,
{
    if n < m {
        lemma_ribbons_error(lines, normal, center, width, n, (m - 1) as nat);
    }
}

/// The corners of the ribbons that stand for `lines` in `plane`: six for
/// every line, in the order of the lines. The first line without a ribbon
/// fails the whole.
pub fn generate_vertices(lines: &Vec<Line>, plane: &Plane, width: Scalar) -> (r: Result<
    Vec<Vec3>,
    KernelError,
>)
    ensures
        match ribbons_prefix(lines@, plane.normal@, plane.center@, width@, lines@.len()) {
            Err(e) => r == Err::<Vec<Vec3>, KernelError>(e),
            Ok(corners) => r is Ok && corner_views(r->Ok_0@) == corners,
        },
{
    let mut out: Vec<Vec3> = Vec::new();
    let mut i: usize = 0;
    assert(corner_views(out@) =~= Seq::<V3>::empty());
    while i < lines.len()
        invariant
            i <= lines@.len(),
            ribbons_prefix(lines@, plane.normal@, plane.center@, width@, i as nat) == Ok::<
                Seq<V3>,
                KernelError,
            >(corner_views(out@)),
        decreases lines@.len() - i,
    {
        match lines[i].generate_projected_quad(plane, width) {
            Err(e) => {
                proof {
                    lemma_ribbons_error(
                        lines@,
                        plane.normal@,
                        plane.center@,
                        width@,
                        (i + 1) as nat,
                        lines@.len(),
                    );
                }
                return Err(e);
            },
            Ok(quad) => {
                let ghost before = out@;
                let ghost own = ribbon_of(lines@[i as int], plane.normal@, plane.center@, width@)->Ok_0;
                assert(quad@.map_values(|v: Vec3| v@) == own);
                assert(own.len() == 6);
                out.push(quad[0]);
                out.push(quad[1]);
                out.push(quad[2]);
                out.push(quad[3]);
                out.push(quad[4]);
                out.push(quad[5]);
                assert(corner_views(out@) =~= corner_views(before) + own) by {
                    assert(forall|k: int| 0 <= k < 6 ==> own[k] == quad@[k]@);
                }
            },
        }
        i = i + 1;
    }
    Ok(out)
}

} // verus!
