//! Three-dimensional vectors over fixed-point scalars.
//!
//! [`V3`] is the mathematical model: a triple of raw integers. [`Vec3`] is
//! the executable vector; its view is a `V3`, and every operation is
//! specified by a function on `V3`.

use vstd::prelude::*;
use crate::fixed::{
    Scalar, ONE_RAW, MIN_RAW, MAX_RAW, fx_add, fx_sub, fx_neg, fx_mul, fx_mul_div, saturate, trunc_div, int_sqrt,
    magnitude, mul_wide, mul_div_wide, saturate_wide, int_sqrt_wide, magnitude_of,
    lemma_mul_bounded, lemma_mul_sign, lemma_square_monotone, is_int_sqrt, lemma_int_sqrt_exists,
    lemma_quotient_bounds,
};

verus! {

/// A triple of raw coordinates.
pub struct V3 {
    pub x: int,
    pub y: int,
    pub z: int,
}

/// Componentwise saturating sum.
pub open spec fn v3_add(a: V3, b: V3) -> V3 {
    V3 { x: fx_add(a.x, b.x), y: fx_add(a.y, b.y), z: fx_add(a.z, b.z) }
}

/// Componentwise saturating difference.
pub open spec fn v3_sub(a: V3, b: V3) -> V3 {
    V3 { x: fx_sub(a.x, b.x), y: fx_sub(a.y, b.y), z: fx_sub(a.z, b.z) }
}

/// Componentwise saturating negation.
pub open spec fn v3_neg(a: V3) -> V3 {
    V3 { x: fx_neg(a.x), y: fx_neg(a.y), z: fx_neg(a.z) }
}

/// The vector scaled by the scalar with raw value `s`.
pub open spec fn v3_scale(a: V3, s: int) -> V3 {
    V3 { x: fx_mul(a.x, s), y: fx_mul(a.y, s), z: fx_mul(a.z, s) }
}

/// The dot product: every product is rounded toward zero, the sum is exact
/// and saturates once.
pub open spec fn v3_dot(a: V3, b: V3) -> int {
    saturate(
        trunc_div(a.x * b.x, ONE_RAW as int) + trunc_div(a.y * b.y, ONE_RAW as int) + trunc_div(
            a.z * b.z,
            ONE_RAW as int,
        ),
    )
}

/// One component of a cross product: `p * q - r * s`.
pub open spec fn cross_term(p: int, q: int, r: int, s: int) -> int {
    saturate(trunc_div(p * q, ONE_RAW as int) - trunc_div(r * s, ONE_RAW as int))
}

/// The cross product.
pub open spec fn v3_cross(a: V3, b: V3) -> V3 {
    V3 {
        x: cross_term(a.y, b.z, a.z, b.y),
        y: cross_term(a.z, b.x, a.x, b.z),
        z: cross_term(a.x, b.y, a.y, b.x),
    }
}

/// The exact squared Euclidean norm, in squared raw units.
pub open spec fn v3_norm_sq(a: V3) -> int {
    a.x * a.x + a.y * a.y + a.z * a.z
}

/// The exact Euclidean norm, rounded down to a whole raw unit.
pub open spec fn v3_norm(a: V3) -> int {
    int_sqrt(v3_norm_sq(a))
}

/// The exact difference of two triples.
pub open spec fn v3_diff(a: V3, b: V3) -> V3 {
    V3 { x: a.x - b.x, y: a.y - b.y, z: a.z - b.z }
}

/// Whether `a` and `b` are at most `eps` apart, decided exactly.
pub open spec fn v3_within(a: V3, b: V3, eps: int) -> bool {
    eps >= 0 && v3_norm_sq(v3_diff(a, b)) <= eps * eps
}

/// The vector `a` rescaled by `ONE_RAW / v3_norm(a)`.
pub open spec fn v3_rescale(a: V3) -> V3
    recommends
        v3_norm(a) > 0,
{
    V3 {
        x: fx_mul_div(a.x, ONE_RAW as int, v3_norm(a)),
        y: fx_mul_div(a.y, ONE_RAW as int, v3_norm(a)),
        z: fx_mul_div(a.z, ONE_RAW as int, v3_norm(a)),
    }
}

/// The unit vector along `a`: rescaled twice, so that the rounding of a
/// short vector's norm does not survive in the result.
pub open spec fn v3_unit(a: V3) -> V3
    recommends
        v3_norm(a) > 0,
{
    v3_rescale(v3_rescale(a))
}

/// The squared norm of a triple of raw values fits in 128 bits.
pub proof fn lemma_norm_sq_bounded(a: V3)
    requires
        magnitude(a.x) <= 0x8000_0000_0000_0000,
        magnitude(a.y) <= 0x8000_0000_0000_0000,
        magnitude(a.z) <= 0x8000_0000_0000_0000,
    ensures
        0 <= a.x * a.x <= 0x4000_0000_0000_0000_0000_0000_0000_0000,
        0 <= a.y * a.y <= 0x4000_0000_0000_0000_0000_0000_0000_0000,
        0 <= a.z * a.z <= 0x4000_0000_0000_0000_0000_0000_0000_0000,
        0 <= v3_norm_sq(a) <= 0xc000_0000_0000_0000_0000_0000_0000_0000,
{
    lemma_mul_sign(a.x, a.x);
    lemma_mul_sign(a.y, a.y);
    lemma_mul_sign(a.z, a.z);
    lemma_mul_bounded(
        magnitude(a.x),
        magnitude(a.x),
        0x8000_0000_0000_0000,
        0x8000_0000_0000_0000,
    );
    lemma_mul_bounded(
        magnitude(a.y),
        magnitude(a.y),
        0x8000_0000_0000_0000,
        0x8000_0000_0000_0000,
    );
    lemma_mul_bounded(
        magnitude(a.z),
        magnitude(a.z),
        0x8000_0000_0000_0000,
        0x8000_0000_0000_0000,
    );
}

/// Below this norm, in raw units, a vector is too short to have a direction.
pub const DEGENERATE_NORM: i64 = 0x1_0000;

/// How far the squared norm of a unit vector may lie from `ONE_RAW * ONE_RAW`.
pub const UNIT_TOLERANCE: i64 = 0x8_0000_0000;

/// Every coordinate is a raw value.
pub open spec fn v3_in_range(a: V3) -> bool {
    &&& magnitude(a.x) <= 0x8000_0000_0000_0000
    &&& magnitude(a.y) <= 0x8000_0000_0000_0000
    &&& magnitude(a.z) <= 0x8000_0000_0000_0000
}

/// Every coordinate is the raw value of a scalar.
pub open spec fn v3_is_raw(a: V3) -> bool {
    &&& MIN_RAW <= a.x <= MAX_RAW
    &&& MIN_RAW <= a.y <= MAX_RAW
    &&& MIN_RAW <= a.z <= MAX_RAW
}

/// Whether `a` has unit length, up to the rounding of its coordinates.
pub open spec fn v3_is_unit(a: V3) -> bool {
    magnitude(v3_norm_sq(a) - ONE_RAW * ONE_RAW) <= UNIT_TOLERANCE
}

/// What rescaling does to one coordinate `c` of a vector of norm `l`: the
/// result does not saturate, its magnitude `q` is the quotient of
/// `|c| * ONE_RAW` by `l`, and it is at least a half where `c` is at least
/// half the norm.
pub proof fn lemma_rescale_component(c: int, l: int)
    requires
        1 <= l,
        magnitude(c) <= l,
        magnitude(c) <= 0x8000_0000_0000_0000,
    ensures
        magnitude(fx_mul_div(c, ONE_RAW as int, l)) == (magnitude(c) * ONE_RAW) / l,
        magnitude(fx_mul_div(c, ONE_RAW as int, l)) <= ONE_RAW,
        2 * magnitude(c) >= l ==> magnitude(fx_mul_div(c, ONE_RAW as int, l)) >= 0x8000_0000,
{
    let m = magnitude(c);
    lemma_mul_sign(c, ONE_RAW as int);
    let x = m * ONE_RAW;
    lemma_quotient_bounds(x, l);
    let t = x / l;
    assert(t <= ONE_RAW) by (nonlinear_arith)
        requires
            t * l <= x,
            x == m * ONE_RAW,
            m <= l,
            l >= 1,
            t >= 0,
    ;
    if 2 * m >= l {
        assert(t >= 0x8000_0000) by (nonlinear_arith)
            requires
                x < (t + 1) * l,
                x == m * 0x1_0000_0000,
                2 * m >= l,
                l >= 1,
                t >= 0,
        ;
    }
}

/// A vector with a norm has a coordinate that is at least half of it, and
/// none that exceeds it.
pub proof fn lemma_norm_dominates(a: V3)
    requires
        v3_in_range(a),
    ensures
        is_int_sqrt(v3_norm_sq(a), v3_norm(a)),
        magnitude(a.x) <= v3_norm(a),
        magnitude(a.y) <= v3_norm(a),
        magnitude(a.z) <= v3_norm(a),
        2 * magnitude(a.x) >= v3_norm(a) || 2 * magnitude(a.y) >= v3_norm(a) || 2 * magnitude(
            a.z,
        ) >= v3_norm(a),
{
    lemma_norm_sq_bounded(a);
    let s = v3_norm_sq(a);
    let l = v3_norm(a);
    lemma_int_sqrt_exists(s);
    let mx = magnitude(a.x);
    let my = magnitude(a.y);
    let mz = magnitude(a.z);
    lemma_mul_sign(a.x, a.x);
    lemma_mul_sign(a.y, a.y);
    lemma_mul_sign(a.z, a.z);
    assert(mx <= l && my <= l && mz <= l) by (nonlinear_arith)
        requires
            s == mx * mx + my * my + mz * mz,
            s < (l + 1) * (l + 1),
            mx >= 0,
            my >= 0,
            mz >= 0,
            l >= 0,
    ;
    assert(2 * mx >= l || 2 * my >= l || 2 * mz >= l) by (nonlinear_arith)
        requires
            s == mx * mx + my * my + mz * mz,
            l * l <= s,
            mx >= 0,
            my >= 0,
            mz >= 0,
            l >= 0,
    ;
}

/// Rescaling a vector that has a direction gives one whose norm is at least
/// a half, with every coordinate at most one in magnitude.
pub proof fn lemma_rescale_norm(a: V3)
    requires
        v3_in_range(a),
        v3_norm(a) >= 1,
    ensures
        v3_in_range(v3_rescale(a)),
        v3_norm(v3_rescale(a)) >= 0x8000_0000,
{
    let l = v3_norm(a);
    let w = v3_rescale(a);
    lemma_norm_dominates(a);
    lemma_rescale_component(a.x, l);
    lemma_rescale_component(a.y, l);
    lemma_rescale_component(a.z, l);
    lemma_norm_sq_bounded(w);
    lemma_int_sqrt_exists(v3_norm_sq(w));
    let lw = v3_norm(w);
    let qx = magnitude(w.x);
    let qy = magnitude(w.y);
    let qz = magnitude(w.z);
    lemma_mul_sign(w.x, w.x);
    lemma_mul_sign(w.y, w.y);
    lemma_mul_sign(w.z, w.z);
    assert(lw >= 0x8000_0000) by (nonlinear_arith)
        requires
            v3_norm_sq(w) == qx * qx + qy * qy + qz * qz,
            v3_norm_sq(w) < (lw + 1) * (lw + 1),
            qx >= 0x8000_0000 || qy >= 0x8000_0000 || qz >= 0x8000_0000,
            qx >= 0,
            qy >= 0,
            qz >= 0,
            lw >= 0,
    ;
}

/// Squares of a coordinate before and after rescaling by `ONE_RAW / l`,
/// where `q` is the magnitude after and `c` the magnitude before.
proof fn lemma_component_squares(c: int, q: int, l: int)
    by (nonlinear_arith)
    requires
        c >= 0,
        q >= 0,
        l >= 1,
        q * l <= c * 0x1_0000_0000,
        c * 0x1_0000_0000 < (q + 1) * l,
    ensures
        (q * q) * (l * l) <= (c * c) * 0x1_0000_0000_0000_0000,
        (c * c) * 0x1_0000_0000_0000_0000 < (q * q + 2 * q + 1) * (l * l),
{
    assert((q * l) * (q * l) <= (c * 0x1_0000_0000) * (c * 0x1_0000_0000));
    assert((c * 0x1_0000_0000) * (c * 0x1_0000_0000) < ((q + 1) * l) * ((q + 1) * l));
    assert((q * l) * (q * l) == (q * q) * (l * l));
    assert(((q + 1) * l) * ((q + 1) * l) == (q * q + 2 * q + 1) * (l * l));
    assert((c * 0x1_0000_0000) * (c * 0x1_0000_0000) == (c * c) * 0x1_0000_0000_0000_0000);
}

/// The arithmetic at the heart of normalisation: three magnitudes `qa`,
/// `qb`, `qc` of rescaled coordinates, whose squares bracket the squares
/// `sa`, `sb`, `sc` of the coordinates before as `lemma_component_squares`
/// says, have squares that sum to nearly `ONE_RAW^2`.
proof fn lemma_unit_sum(
    qa: int,
    qb: int,
    qc: int,
    sa: int,
    sb: int,
    sc: int,
    l: int,
)
    by (nonlinear_arith)
    requires
        l >= 0x8000_0000,
        0 <= qa <= 0x1_0000_0000,
        0 <= qb <= 0x1_0000_0000,
        0 <= qc <= 0x1_0000_0000,
        l * l <= sa + sb + sc,
        sa + sb + sc < (l + 1) * (l + 1),
        (qa * qa) * (l * l) <= sa * 0x1_0000_0000_0000_0000,
        (qb * qb) * (l * l) <= sb * 0x1_0000_0000_0000_0000,
        (qc * qc) * (l * l) <= sc * 0x1_0000_0000_0000_0000,
        sa * 0x1_0000_0000_0000_0000 < (qa * qa + 2 * qa + 1) * (l * l),
        sb * 0x1_0000_0000_0000_0000 < (qb * qb + 2 * qb + 1) * (l * l),
        sc * 0x1_0000_0000_0000_0000 < (qc * qc + 2 * qc + 1) * (l * l),
    ensures
        qa * qa + qb * qb + qc * qc <= 0x1_0000_0000_0000_0000 + 6 * 0x1_0000_0000,
        qa * qa + qb * qb + qc * qc >= 0x1_0000_0000_0000_0000 - 6 * 0x1_0000_0000 - 3,
{
    let q = qa * qa + qb * qb + qc * qc;
    let s = sa + sb + sc;
    let l2 = l * l;
    assert(q * l2 == (qa * qa) * l2 + (qb * qb) * l2 + (qc * qc) * l2);
    assert(q * l2 <= s * 0x1_0000_0000_0000_0000);
    assert(s <= l2 + 2 * l);
    assert(q * l2 <= (l2 + 2 * l) * 0x1_0000_0000_0000_0000);
    assert(2 * l * 0x1_0000_0000_0000_0000 <= 4 * 0x1_0000_0000 * l2) by {
        assert(l * 0x1_0000_0000 <= 2 * l2);
    }
    assert(q * l2 <= (0x1_0000_0000_0000_0000 + 4 * 0x1_0000_0000) * l2);
    assert(l2 > 0);
    if q > 0x1_0000_0000_0000_0000 + 4 * 0x1_0000_0000 {
        assert(q * l2 > (0x1_0000_0000_0000_0000 + 4 * 0x1_0000_0000) * l2);
    }
    let r = q + 2 * qa + 2 * qb + 2 * qc + 3;
    assert(r * l2 == (qa * qa + 2 * qa + 1) * l2 + (qb * qb + 2 * qb + 1) * l2 + (qc * qc + 2
        * qc + 1) * l2);
    assert(s * 0x1_0000_0000_0000_0000 < r * l2);
    assert(l2 * 0x1_0000_0000_0000_0000 < r * l2);
    if r <= 0x1_0000_0000_0000_0000 {
        assert(r * l2 <= 0x1_0000_0000_0000_0000 * l2);
    }
}

/// Rescaling a vector whose norm is at least a half gives a unit vector.
pub proof fn lemma_rescale_is_unit(w: V3)
    requires
        v3_in_range(w),
        v3_norm(w) >= 0x8000_0000,
    ensures
        v3_is_unit(v3_rescale(w)),
        v3_in_range(v3_rescale(w)),
{
    let l = v3_norm(w);
    let n = v3_rescale(w);
    lemma_norm_dominates(w);
    lemma_rescale_component(w.x, l);
    lemma_rescale_component(w.y, l);
    lemma_rescale_component(w.z, l);
    let ca = magnitude(w.x);
    let cb = magnitude(w.y);
    let cc = magnitude(w.z);
    let qa = magnitude(n.x);
    let qb = magnitude(n.y);
    let qc = magnitude(n.z);
    lemma_quotient_bounds(ca * ONE_RAW, l);
    lemma_quotient_bounds(cb * ONE_RAW, l);
    lemma_quotient_bounds(cc * ONE_RAW, l);
    lemma_component_squares(ca, qa, l);
    lemma_component_squares(cb, qb, l);
    lemma_component_squares(cc, qc, l);
    lemma_mul_sign(w.x, w.x);
    lemma_mul_sign(w.y, w.y);
    lemma_mul_sign(w.z, w.z);
    lemma_mul_sign(n.x, n.x);
    lemma_mul_sign(n.y, n.y);
    lemma_mul_sign(n.z, n.z);
    lemma_unit_sum(qa, qb, qc, ca * ca, cb * cb, cc * cc, l);
}

/// Normalising a vector that has a direction gives a unit vector: its
/// squared norm differs from one by at most `UNIT_TOLERANCE`.
pub proof fn lemma_unit_is_unit(a: V3)
    requires
        v3_in_range(a),
        v3_norm(a) >= 1,
    ensures
        v3_is_unit(v3_unit(a)),
        v3_in_range(v3_unit(a)),
{
    lemma_rescale_norm(a);
    lemma_rescale_is_unit(v3_rescale(a));
}

/// A coordinate of a unit vector is at most a little more than one.
pub proof fn lemma_unit_coordinates(n: V3)
    requires
        v3_is_unit(n),
    ensures
        magnitude(n.x) <= ONE_RAW + 4,
        magnitude(n.y) <= ONE_RAW + 4,
        magnitude(n.z) <= ONE_RAW + 4,
{
    let x = magnitude(n.x);
    let y = magnitude(n.y);
    let z = magnitude(n.z);
    lemma_mul_sign(n.x, n.x);
    lemma_mul_sign(n.y, n.y);
    lemma_mul_sign(n.z, n.z);
    assert(x <= 0x1_0000_0004 && y <= 0x1_0000_0004 && z <= 0x1_0000_0004) by (nonlinear_arith)
        requires
            x * x + y * y + z * z <= 0x1_0000_0000_0000_0000 + 0x8_0000_0000,
            x >= 0,
            y >= 0,
            z >= 0,
    ;
}

/// A vector of three fixed-point coordinates.
#[derive(Clone, Copy, Debug, PartialEq, Eq, Structural)]
pub struct Vec3 {
    pub x: Scalar,
    pub y: Scalar,
    pub z: Scalar,
}

impl View for Vec3 {
    type V = V3;

    open spec fn view(&self) -> V3 {
        V3 { x: self.x@, y: self.y@, z: self.z@ }
    }
}

/// The square of a raw value, exactly.
fn square_wide(a: i64) -> (r: u128)
    ensures
        r == a * a,
        r <= 0x4000_0000_0000_0000_0000_0000_0000_0000,
{
    let m = magnitude_of(a);
    proof {
        lemma_mul_sign(a as int, a as int);
        lemma_mul_bounded(m as int, m as int, 0x8000_0000_0000_0000, 0x8000_0000_0000_0000);
    }
    m * m
}

impl Vec3 {
    /// The vector with the given coordinates.
    pub fn new(x: Scalar, y: Scalar, z: Scalar) -> (r: Vec3)
        ensures
            r@ == (V3 { x: x@, y: y@, z: z@ }),
    {
        Vec3 { x, y, z }
    }

    /// The vector with whole-number coordinates.
    pub fn from_ints(x: i32, y: i32, z: i32) -> (r: Vec3)
        ensures
            r@ == (V3 { x: x * ONE_RAW, y: y * ONE_RAW, z: z * ONE_RAW }),
    {
        Vec3 { x: Scalar::from_int(x), y: Scalar::from_int(y), z: Scalar::from_int(z) }
    }

    /// The zero vector.
    pub fn zero() -> (r: Vec3)
        ensures
            r@ == (V3 { x: 0, y: 0, z: 0 }),
    {
        Vec3 { x: Scalar::zero(), y: Scalar::zero(), z: Scalar::zero() }
    }

    /// Componentwise sum.
    pub fn add(self, other: Vec3) -> (r: Vec3)
        ensures
            r@ == v3_add(self@, other@),
    {
        Vec3 { x: self.x.add(other.x), y: self.y.add(other.y), z: self.z.add(other.z) }
    }

    /// Componentwise difference.
    pub fn sub(self, other: Vec3) -> (r: Vec3)
        ensures
            r@ == v3_sub(self@, other@),
    {
        Vec3 { x: self.x.sub(other.x), y: self.y.sub(other.y), z: self.z.sub(other.z) }
    }

    /// Componentwise negation.
    pub fn neg(self) -> (r: Vec3)
        ensures
            r@ == v3_neg(self@),
    {
        Vec3 { x: self.x.neg(), y: self.y.neg(), z: self.z.neg() }
    }

    /// The vector scaled by `s`.
    pub fn scale(self, s: Scalar) -> (r: Vec3)
        ensures
            r@ == v3_scale(self@, s@),
    {
        Vec3 { x: self.x.mul(s), y: self.y.mul(s), z: self.z.mul(s) }
    }

    /// The dot product.
    pub fn dot(self, other: Vec3) -> (r: Scalar)
        ensures
            r@ == v3_dot(self@, other@),
    {
        let px = mul_wide(self.x.raw, other.x.raw);
        let py = mul_wide(self.y.raw, other.y.raw);
        let pz = mul_wide(self.z.raw, other.z.raw);
        Scalar { raw: saturate_wide(px + py + pz) }
    }

    /// The cross product.
    pub fn cross(self, other: Vec3) -> (r: Vec3)
        ensures
            r@ == v3_cross(self@, other@),
    {
        let x = saturate_wide(
            mul_wide(self.y.raw, other.z.raw) - mul_wide(self.z.raw, other.y.raw),
        );
        let y = saturate_wide(
            mul_wide(self.z.raw, other.x.raw) - mul_wide(self.x.raw, other.z.raw),
        );
        let z = saturate_wide(
            mul_wide(self.x.raw, other.y.raw) - mul_wide(self.y.raw, other.x.raw),
        );
        Vec3 { x: Scalar { raw: x }, y: Scalar { raw: y }, z: Scalar { raw: z } }
    }

    /// The exact norm in raw units, rounded down.
    pub fn norm_wide(self) -> (r: u128)
        ensures
            r == v3_norm(self@),
            r <= 0xffff_ffff_ffff_ffff,
    {
        proof {
            lemma_norm_sq_bounded(self@);
        }
        let sum: u128 = square_wide(self.x.raw) + square_wide(self.y.raw) + square_wide(
            self.z.raw,
        );
        int_sqrt_wide(sum)
    }

    /// The Euclidean length, rounded down and saturated.
    pub fn length(self) -> (r: Scalar)
        ensures
            r@ == saturate(v3_norm(self@)),
    {
        let n = self.norm_wide();
        if n > 0x7fff_ffff_ffff_ffff {
            Scalar { raw: 0x7fff_ffff_ffff_ffff }
        } else {
            Scalar { raw: n as i64 }
        }
    }

    /// The vector rescaled by `ONE_RAW / norm`.
    pub fn rescale(self) -> (r: Vec3)
        requires
            v3_norm(self@) > 0,
        ensures
            r@ == v3_rescale(self@),
    {
        let n = self.norm_wide();
        let x = saturate_wide(mul_div_wide(self.x.raw, ONE_RAW, n, false));
        let y = saturate_wide(mul_div_wide(self.y.raw, ONE_RAW, n, false));
        let z = saturate_wide(mul_div_wide(self.z.raw, ONE_RAW, n, false));
        Vec3 { x: Scalar { raw: x }, y: Scalar { raw: y }, z: Scalar { raw: z } }
    }

    /// The unit vector along `self`; `None` exactly when the vector is
    /// shorter than `DEGENERATE_NORM`.
    pub fn normalize(self) -> (r: Option<Vec3>)
        ensures
            v3_norm(self@) < DEGENERATE_NORM ==> r is None,
            v3_norm(self@) >= DEGENERATE_NORM ==> r is Some && r->Some_0@ == v3_unit(self@)
                && v3_is_unit(r->Some_0@),
    {
        let n = self.norm_wide();
        if n < 0x1_0000 {
            None
        } else {
            proof {
                lemma_rescale_norm(self@);
                lemma_unit_is_unit(self@);
            }
            Some(self.rescale().rescale())
        }
    }

    /// The coordinates in order.
    pub fn to_array(self) -> (r: [Scalar; 3])
        ensures
            r@ == seq![self.x, self.y, self.z],
    {
        [self.x, self.y, self.z]
    }

    /// Whether the two vectors are at most `eps` apart. The comparison is
    /// exact: no rounding takes part in it.
    pub fn within(self, other: Vec3, eps: Scalar) -> (r: bool)
        ensures
            r == v3_within(self@, other@, eps@),
    {
        if eps.raw < 0 {
            return false;
        }
        let e: u128 = eps.raw as u128;
        let dx = coordinate_gap(self.x.raw, other.x.raw);
        let dy = coordinate_gap(self.y.raw, other.y.raw);
        let dz = coordinate_gap(self.z.raw, other.z.raw);
        proof {
            let d = v3_diff(self@, other@);
            lemma_mul_sign(d.x, d.x);
            lemma_mul_sign(d.y, d.y);
            lemma_mul_sign(d.z, d.z);
            lemma_mul_bounded(e as int, e as int, 0x8000_0000_0000_0000, 0x8000_0000_0000_0000);
            if dx <= e {
                lemma_mul_bounded(dx as int, dx as int, e as int, e as int);
            } else {
                lemma_square_monotone(e as int + 1, dx as int);
            }
            if dy <= e {
                lemma_mul_bounded(dy as int, dy as int, e as int, e as int);
            } else {
                lemma_square_monotone(e as int + 1, dy as int);
            }
            if dz <= e {
                lemma_mul_bounded(dz as int, dz as int, e as int, e as int);
            } else {
                lemma_square_monotone(e as int + 1, dz as int);
            }
            assert((e + 1) * (e + 1) > e * e) by (nonlinear_arith)
                requires
                    e >= 0,
            ;
            assert(dx * dx >= 0 && dy * dy >= 0 && dz * dz >= 0) by (nonlinear_arith);
        }
        if dx > e || dy > e || dz > e {
            return false;
        }
        dx * dx + dy * dy + dz * dz <= e * e
    }
}

/// The magnitude of the exact difference of two raw values.
fn coordinate_gap(a: i64, b: i64) -> (r: u128)
    ensures
        r == magnitude(a - b),
        r <= 0xffff_ffff_ffff_ffff,
{
    let d: i128 = a as i128 - b as i128;
    if d < 0 {
        (-d) as u128
    } else {
        d as u128
    }
}

} // verus!
