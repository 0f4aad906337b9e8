//! Points and their projection onto a plane.

use vstd::prelude::*;
use crate::fixed::{
    magnitude, trunc_div, MAX_RAW, ONE_RAW, lemma_mul_sign, lemma_mul_one_zero,
    lemma_trunc_error, lemma_trunc_bounded, lemma_product_bounded,
};
use crate::vector::{
    Vec3, V3, v3_sub, v3_scale, v3_dot, v3_is_raw, v3_is_unit, v3_norm_sq, lemma_unit_coordinates,
};
use crate::geometry::{Plane, axis_x, axis_y, axis_z};

verus! {

/// A point in space.
#[derive(Clone, Copy, Debug, PartialEq, Eq, Structural)]
pub struct Point(pub Vec3);

impl View for Point {
    type V = V3;

    open spec fn view(&self) -> V3 {
        self.0@
    }
}

/// The signed distance of `p` from the plane through `center` with unit
/// normal `normal`.
pub open spec fn plane_offset(p: V3, normal: V3, center: V3) -> int {
    v3_dot(v3_sub(p, center), normal)
}

/// The foot of the perpendicular from `p` to the plane:
/// `p - ((p - center) . normal) * normal`.
pub open spec fn project_point(p: V3, normal: V3, center: V3) -> V3 {
    v3_sub(p, v3_scale(normal, plane_offset(p, normal, center)))
}

impl Point {
    /// The point at `p`.
    pub fn new(p: Vec3) -> (r: Point)
        ensures
            r.0 == p,
    {
        Point(p)
    }

    /// The foot of the perpendicular from the point to `plane`.
    pub fn project_to_plane(&self, plane: &Plane) -> (r: Point)
        ensures
            r@ == project_point(self@, plane.normal@, plane.center@),
    {
        let v = self.0.sub(plane.center);
        let dist = v.dot(plane.normal);
        Point(self.0.sub(plane.normal.scale(dist)))
    }
}

/// A point that lies on the plane is its own projection.
pub proof fn lemma_project_fixes_plane_points(p: V3, normal: V3, center: V3)
    requires
        v3_is_raw(p),
        plane_offset(p, normal, center) == 0,
    ensures
        project_point(p, normal, center) == p,
{
    lemma_mul_sign(normal.x, 0);
    lemma_mul_sign(normal.y, 0);
    lemma_mul_sign(normal.z, 0);
    assert(normal.x * 0 == 0 && normal.y * 0 == 0 && normal.z * 0 == 0) by (nonlinear_arith);
}

/// Projecting twice is projecting once, wherever the first projection
/// lands on the plane to the last bit.
pub proof fn lemma_projection_idempotent(p: V3, normal: V3, center: V3)
    requires
        plane_offset(project_point(p, normal, center), normal, center) == 0,
    ensures
        project_point(project_point(p, normal, center), normal, center) == project_point(
            p,
            normal,
            center,
        ),
{
    lemma_project_fixes_plane_points(project_point(p, normal, center), normal, center);
}

/// On a plane whose normal is one of the axes, projecting twice is
/// projecting once, for every point whose distance from the plane is a raw
/// value.
pub proof fn lemma_projection_idempotent_on_axis_planes(p: V3, normal: V3, center: V3)
    requires
        v3_is_raw(p),
        v3_is_raw(center),
        normal == axis_x() || normal == axis_y() || normal == axis_z(),
        normal == axis_x() ==> magnitude(p.x - center.x) <= MAX_RAW,
        normal == axis_y() ==> magnitude(p.y - center.y) <= MAX_RAW,
        normal == axis_z() ==> magnitude(p.z - center.z) <= MAX_RAW,
    ensures
        project_point(project_point(p, normal, center), normal, center) == project_point(
            p,
            normal,
            center,
        ),
{
    let s = v3_sub(p, center);
    lemma_mul_one_zero(s.x);
    lemma_mul_one_zero(s.y);
    lemma_mul_one_zero(s.z);
    let d = plane_offset(p, normal, center);
    lemma_mul_one_zero(d);
    let q = project_point(p, normal, center);
    let t = v3_sub(q, center);
    lemma_mul_one_zero(t.x);
    lemma_mul_one_zero(t.y);
    lemma_mul_one_zero(t.z);
    assert(plane_offset(q, normal, center) == 0);
    lemma_projection_idempotent(p, normal, center);
}

/// The largest magnitude of a coordinate for which the bound on a second
/// projection is stated: `2^50` raw units.
pub const REACH_RAW: i64 = 0x4_0000_0000_0000;

/// Every coordinate is at most `REACH_RAW` in magnitude.
pub open spec fn within_reach(a: V3) -> bool {
    &&& magnitude(a.x) <= REACH_RAW
    &&& magnitude(a.y) <= REACH_RAW
    &&& magnitude(a.z) <= REACH_RAW
}

/// How far a second projection may move a coordinate of a point that was
/// projected from the signed distance `offset`: ten raw units, and the
/// `2^29`-th part of the distance.
pub open spec fn drift_bound(offset: int) -> int {
    magnitude(offset) / 0x2000_0000 + 10
}

/// The signed distance of a point from a plane, where no coordinate is out
/// of reach: the sum of three rounded products, itself bounded.
proof fn lemma_offset_exact(t: V3, n: V3, reach: int)
    requires
        magnitude(t.x) <= reach,
        magnitude(t.y) <= reach,
        magnitude(t.z) <= reach,
        0 <= reach <= 0x200_0000_0000_0000,
        magnitude(n.x) <= ONE_RAW + 4,
        magnitude(n.y) <= ONE_RAW + 4,
        magnitude(n.z) <= ONE_RAW + 4,
    ensures
        v3_dot(t, n) == trunc_div(t.x * n.x, ONE_RAW as int) + trunc_div(
            t.y * n.y,
            ONE_RAW as int,
        ) + trunc_div(t.z * n.z, ONE_RAW as int),
        magnitude(v3_dot(t, n)) <= 6 * reach,
{
    lemma_product_bounded(t.x, n.x, reach, ONE_RAW + 4);
    lemma_product_bounded(t.y, n.y, reach, ONE_RAW + 4);
    lemma_product_bounded(t.z, n.z, reach, ONE_RAW + 4);
    assert(reach * (ONE_RAW + 4) < (2 * reach + 1) * ONE_RAW) by (nonlinear_arith)
        requires
            0 <= reach <= 0x200_0000_0000_0000,
    ;
    lemma_trunc_bounded(t.x * n.x, 2 * reach);
    lemma_trunc_bounded(t.y * n.y, 2 * reach);
    lemma_trunc_bounded(t.z * n.z, 2 * reach);
}

/// The arithmetic at the heart of the bound: what the second signed
/// distance `d2` comes to, given the first `d1`, the squared norm `n2` of
/// the normal, and what the roundings lost.
proof fn lemma_second_offset(
    d1: int,
    d2: int,
    n2: int,
    alpha: int,
    gamma: int,
    beta_n: int,
)
    by (nonlinear_arith)
    requires
        0x1_0000_0000 * (0x1_0000_0000 * d2) == d1 * (0x1_0000_0000_0000_0000 - n2) - 0x1_0000_0000
            * alpha - beta_n + 0x1_0000_0000 * gamma,
        -0x8_0000_0000 <= 0x1_0000_0000_0000_0000 - n2 <= 0x8_0000_0000,
        -3 * 0x1_0000_0000 < alpha < 3 * 0x1_0000_0000,
        -3 * 0x1_0000_0000 < gamma < 3 * 0x1_0000_0000,
        -3 * 0x1_0000_0000 * 0x1_0000_0004 < beta_n < 3 * 0x1_0000_0000 * 0x1_0000_0004,
    ensures
        magnitude(d2) <= magnitude(d1) / 0x2000_0000 + 10,
{
    let k = magnitude(d1) / 0x2000_0000;
    assert(magnitude(d1) < (k + 1) * 0x2000_0000);
    let e = 0x1_0000_0000_0000_0000 - n2;
    assert(d1 * e <= magnitude(d1) * 0x8_0000_0000 && d1 * e >= -(magnitude(d1) * 0x8_0000_0000));
    assert(magnitude(d1) * 0x8_0000_0000 < (k + 1) * 0x1_0000_0000_0000_0000);
    let whole = 0x1_0000_0000 * (0x1_0000_0000 * d2);
    assert(whole == 0x1_0000_0000_0000_0000 * d2);
    assert(whole < (k + 11) * 0x1_0000_0000_0000_0000);
    assert(whole > -((k + 11) * 0x1_0000_0000_0000_0000));
}

/// Projecting a point twice is nearly projecting it once: the second
/// projection moves no coordinate by more than `drift_bound` of the signed
/// distance that the first one removed. This holds for every plane with a
/// unit normal and all coordinates within reach.
pub proof fn lemma_projection_nearly_idempotent(p: V3, normal: V3, center: V3)
    requires
        v3_is_unit(normal),
        within_reach(p),
        within_reach(center),
    ensures
        ({
            let once = project_point(p, normal, center);
            let twice = project_point(once, normal, center);
            let slack = drift_bound(plane_offset(p, normal, center));
            &&& magnitude(twice.x - once.x) <= slack
            &&& magnitude(twice.y - once.y) <= slack
            &&& magnitude(twice.z - once.z) <= slack
        }),
{
    let one = ONE_RAW as int;
    let n = normal;
    lemma_unit_coordinates(n);
    let s = v3_sub(p, center);
    assert(s.x == p.x - center.x && s.y == p.y - center.y && s.z == p.z - center.z);
    lemma_offset_exact(s, n, 2 * REACH_RAW);
    let d1 = plane_offset(p, n, center);
    let ax = trunc_div(s.x * n.x, one);
    let ay = trunc_div(s.y * n.y, one);
    let az = trunc_div(s.z * n.z, one);
    assert(d1 == ax + ay + az);
    lemma_trunc_error(s.x * n.x);
    lemma_trunc_error(s.y * n.y);
    lemma_trunc_error(s.z * n.z);
    let alpha = (one * ax - s.x * n.x) + (one * ay - s.y * n.y) + (one * az - s.z * n.z);
    // the first projection
    let reach1 = 12 * REACH_RAW;
    lemma_product_bounded(n.x, d1, one + 4, reach1);
    lemma_product_bounded(n.y, d1, one + 4, reach1);
    lemma_product_bounded(n.z, d1, one + 4, reach1);
    assert((one + 4) * reach1 < (2 * reach1 + 1) * one) by (nonlinear_arith)
        requires
            reach1 == 12 * 0x4_0000_0000_0000,
            one == 0x1_0000_0000,
    ;
    lemma_trunc_bounded(n.x * d1, 2 * reach1);
    lemma_trunc_bounded(n.y * d1, 2 * reach1);
    lemma_trunc_bounded(n.z * d1, 2 * reach1);
    let wx = trunc_div(n.x * d1, one);
    let wy = trunc_div(n.y * d1, one);
    let wz = trunc_div(n.z * d1, one);
    lemma_trunc_error(n.x * d1);
    lemma_trunc_error(n.y * d1);
    lemma_trunc_error(n.z * d1);
    let once = project_point(p, n, center);
    assert(once.x == p.x - wx && once.y == p.y - wy && once.z == p.z - wz);
    // the second signed distance
    let t = v3_sub(once, center);
    assert(t.x == s.x - wx && t.y == s.y - wy && t.z == s.z - wz);
    lemma_offset_exact(t, n, 26 * REACH_RAW);
    let d2 = plane_offset(once, n, center);
    let gx = trunc_div(t.x * n.x, one);
    let gy = trunc_div(t.y * n.y, one);
    let gz = trunc_div(t.z * n.z, one);
    assert(d2 == gx + gy + gz);
    lemma_trunc_error(t.x * n.x);
    lemma_trunc_error(t.y * n.y);
    lemma_trunc_error(t.z * n.z);
    let gamma = (one * gx - t.x * n.x) + (one * gy - t.y * n.y) + (one * gz - t.z * n.z);
    let bx = one * wx - n.x * d1;
    let by = one * wy - n.y * d1;
    let bz = one * wz - n.z * d1;
    lemma_product_bounded(bx, n.x, 0xffff_ffff, 0x1_0000_0004);
    lemma_product_bounded(by, n.y, 0xffff_ffff, 0x1_0000_0004);
    lemma_product_bounded(bz, n.z, 0xffff_ffff, 0x1_0000_0004);
    let beta_n = bx * n.x + by * n.y + bz * n.z;
    let n2 = v3_norm_sq(n);
    assert(one * (one * d2) == d1 * (one * one - n2) - one * alpha - beta_n + one * gamma) by {
        lemma_offset_algebra(s.x, n.x, wx, d1, bx);
        lemma_offset_algebra(s.y, n.y, wy, d1, by);
        lemma_offset_algebra(s.z, n.z, wz, d1, bz);
        assert(one * (one * d2) == one * (one * gx) + one * (one * gy) + one * (one * gz))
            by (nonlinear_arith)
            requires
                d2 == gx + gy + gz,
        ;
        assert(one * (one * gx) == one * (t.x * n.x) + one * (one * gx - t.x * n.x))
            by (nonlinear_arith);
        assert(one * (one * gy) == one * (t.y * n.y) + one * (one * gy - t.y * n.y))
            by (nonlinear_arith);
        assert(one * (one * gz) == one * (t.z * n.z) + one * (one * gz - t.z * n.z))
            by (nonlinear_arith);
        assert(one * gamma == one * (one * gx - t.x * n.x) + one * (one * gy - t.y * n.y) + one * (
        one * gz - t.z * n.z)) by (nonlinear_arith)
            requires
                gamma == (one * gx - t.x * n.x) + (one * gy - t.y * n.y) + (one * gz - t.z * n.z),
        ;
        assert(one * alpha == one * (one * ax - s.x * n.x) + one * (one * ay - s.y * n.y) + one * (
        one * az - s.z * n.z)) by (nonlinear_arith)
            requires
                alpha == (one * ax - s.x * n.x) + (one * ay - s.y * n.y) + (one * az - s.z * n.z),
        ;
        assert(d1 * (one * one - n2) == d1 * (one * one) - d1 * (n.x * n.x) - d1 * (n.y * n.y) - d1
            * (n.z * n.z)) by (nonlinear_arith)
            requires
                n2 == n.x * n.x + n.y * n.y + n.z * n.z,
        ;
        assert(d1 * (one * one) == one * (one * ax) + one * (one * ay) + one * (one * az))
            by (nonlinear_arith)
            requires
                d1 == ax + ay + az,
        ;
        assert(one * (one * ax) == one * (s.x * n.x) + one * (one * ax - s.x * n.x))
            by (nonlinear_arith);
        assert(one * (one * ay) == one * (s.y * n.y) + one * (one * ay - s.y * n.y))
            by (nonlinear_arith);
        assert(one * (one * az) == one * (s.z * n.z) + one * (one * az - s.z * n.z))
            by (nonlinear_arith);
    }
    assert(one * one == 0x1_0000_0000_0000_0000) by (nonlinear_arith)
        requires
            one == 0x1_0000_0000,
    ;
    lemma_second_offset(d1, d2, n2, alpha, gamma, beta_n);
    // the second projection
    let slack = drift_bound(d1);
    lemma_product_bounded(n.x, d2, one + 4, slack);
    lemma_product_bounded(n.y, d2, one + 4, slack);
    lemma_product_bounded(n.z, d2, one + 4, slack);
    assert((one + 4) * slack < (slack + 1) * one) by (nonlinear_arith)
        requires
            0 <= slack <= 0x3fff_ffff,
            one == 0x1_0000_0000,
    ;
    lemma_trunc_bounded(n.x * d2, slack);
    lemma_trunc_bounded(n.y * d2, slack);
    lemma_trunc_bounded(n.z * d2, slack);
}

/// One coordinate of the algebra of two projections: with `t = s - w` and
/// `b = ONE_RAW * w - n * d`, the product `t * n`, scaled, is the product
/// `s * n`, scaled, less `n * n * d` and `b * n`.
proof fn lemma_offset_algebra(s: int, n: int, w: int, d: int, b: int)
    by (nonlinear_arith)
    requires
        b == 0x1_0000_0000 * w - n * d,
    ensures
        0x1_0000_0000 * ((s - w) * n) == 0x1_0000_0000 * (s * n) - d * (n * n) - b * n,
{
}

} // verus!
