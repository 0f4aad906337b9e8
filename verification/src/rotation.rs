//! Plane rotations by their cosine and sine, and the division of a rotation
//! into equal steps.
//!
//! A rotation is divided by `n` without any table of angles: the binary
//! digits of `1 / n` are produced by long division, the rotation is halved
//! once per digit with the half-angle formulas, and the halves that belong
//! to a digit one are composed.

use vstd::prelude::*;
use crate::fixed::{
    Scalar, ONE_RAW, fx_add, fx_sub, fx_mul, fx_mul_div, fx_sqrt, trunc_div, mul_div_raw,
};
use crate::vector::{Vec3, V3, v3_add, v3_scale, v3_cross};

verus! {

/// How many binary digits of `1 / n` take part in a division.
pub const FRACTION_BITS: u32 = 40;

/// The mathematical model of a rotation: the raw cosine and sine of its
/// angle.
pub struct Turn {
    pub cos: int,
    pub sin: int,
}

/// The rotation by no angle at all.
pub open spec fn turn_identity() -> Turn {
    Turn { cos: ONE_RAW as int, sin: 0 }
}

/// The rotation `a` followed by the rotation `b`.
pub open spec fn turn_compose(a: Turn, b: Turn) -> Turn {
    Turn {
        cos: fx_sub(fx_mul(a.cos, b.cos), fx_mul(a.sin, b.sin)),
        sin: fx_add(fx_mul(a.sin, b.cos), fx_mul(a.cos, b.sin)),
    }
}

/// A sine between zero and one.
pub open spec fn clamp_unit(v: int) -> int {
    if v < 0 {
        0
    } else if v > ONE_RAW {
        ONE_RAW as int
    } else {
        v
    }
}

/// The cosine of half the angle of `t`, the angle taken between zero and a
/// full turn: `sqrt((1 + cos) / 2)`, negative where the sine of `t` is.
pub open spec fn half_cos(t: Turn) -> int {
    if t.sin >= 0 {
        fx_sqrt(trunc_div(fx_add(ONE_RAW as int, t.cos), 2))
    } else {
        -fx_sqrt(trunc_div(fx_add(ONE_RAW as int, t.cos), 2))
    }
}

/// The rotation by half the angle of `t`. Its sine is `sin / (2 * cos')`,
/// which keeps its precision for small angles.
pub open spec fn turn_half(t: Turn) -> Turn {
    Turn {
        cos: half_cos(t),
        sin: if half_cos(t) == 0 {
            ONE_RAW as int
        } else {
            clamp_unit(fx_mul_div(t.sin, ONE_RAW as int, 2 * half_cos(t)))
        },
    }
}

/// The state of a division after some digits: the rotation halved so far,
/// the rotation composed so far, and the remainder of the long division.
pub struct Division {
    pub halved: Turn,
    pub composed: Turn,
    pub remainder: int,
}

/// The division of `t` by `n` after `digits` binary digits of `1 / n`.
pub open spec fn division_after(t: Turn, n: int, digits: nat) -> Division
    decreases digits,
{
    if digits == 0 {
        Division { halved: t, composed: turn_identity(), remainder: 1 }
    } else {
        let before = division_after(t, n, (digits - 1) as nat);
        let halved = turn_half(before.halved);
        if 2 * before.remainder >= n {
            Division {
                halved,
                composed: turn_compose(before.composed, halved),
                remainder: 2 * before.remainder - n,
            }
        } else {
            Division { halved, composed: before.composed, remainder: 2 * before.remainder }
        }
    }
}

/// The rotation by the `n`-th part of the angle of `t`: for `n` of two or
/// more the halves of `t` that the binary digits of `1 / n` pick, composed;
/// `t` itself for `n = 1`; and no rotation for `n = 0`.
pub open spec fn turn_fraction(t: Turn, n: int) -> Turn {
    if n >= 2 {
        division_after(t, n, FRACTION_BITS as nat).composed
    } else if n == 1 {
        t
    } else {
        turn_identity()
    }
}

/// The vector `p`, perpendicular to the unit vector `axis`, turned about it
/// by `t`: `p * cos + (axis x p) * sin`.
pub open spec fn turn_about(p: V3, axis: V3, t: Turn) -> V3 {
    v3_add(v3_scale(p, t.cos), v3_scale(v3_cross(axis, p), t.sin))
}

/// A rotation in a plane, held as the cosine and sine of its angle.
#[derive(Clone, Copy, Debug, PartialEq, Eq, Structural)]
pub struct Rotation {
    pub cos: Scalar,
    pub sin: Scalar,
}

impl View for Rotation {
    type V = Turn;

    open spec fn view(&self) -> Turn {
        Turn { cos: self.cos@, sin: self.sin@ }
    }
}

impl Rotation {
    /// The rotation by no angle.
    pub fn identity() -> (r: Rotation)
        ensures
            r@ == turn_identity(),
    {
        Rotation { cos: Scalar::one(), sin: Scalar::zero() }
    }

    /// `self` followed by `other`.
    pub fn compose(self, other: Rotation) -> (r: Rotation)
        ensures
            r@ == turn_compose(self@, other@),
    {
        Rotation {
            cos: self.cos.mul(other.cos).sub(self.sin.mul(other.sin)),
            sin: self.sin.mul(other.cos).add(self.cos.mul(other.sin)),
        }
    }

    /// The rotation by half the angle.
    pub fn half(self) -> (r: Rotation)
        ensures
            r@ == turn_half(self@),
    {
        let root = Scalar::one().add(self.cos).half().sqrt();
        proof {
            // a square root of a raw value is far from the ends of the range
            assert(0 <= root@ <= 0x1_0000_0000_0000) by {
                crate::fixed::lemma_sqrt_small(trunc_div(fx_add(ONE_RAW as int, self.cos@), 2));
            }
        }
        let cos = if self.sin.raw >= 0 {
            root
        } else {
            Scalar { raw: -root.raw }
        };
        if cos.raw == 0 {
            Rotation { cos, sin: Scalar::one() }
        } else {
            let q = mul_div_raw(self.sin.raw, ONE_RAW, 2 * cos.raw);
            let sin = if q < 0 {
                0
            } else if q > ONE_RAW {
                ONE_RAW
            } else {
                q
            };
            Rotation { cos, sin: Scalar { raw: sin } }
        }
    }

    /// The rotation by the `n`-th part of the angle.
    pub fn fraction(self, n: u32) -> (r: Rotation)
        ensures
            r@ == turn_fraction(self@, n as int),
    {
        if n == 0 {
            return Rotation::identity();
        }
        if n == 1 {
            return self;
        }
        let mut halved = self;
        let mut composed = Rotation::identity();
        let mut remainder: u64 = 1;
        let mut digit: u32 = 0;
        while digit < FRACTION_BITS
            invariant
                digit <= FRACTION_BITS,
                n >= 2,
                0 <= remainder < n,
                division_after(self@, n as int, digit as nat) == (Division {
                    halved: halved@,
                    composed: composed@,
                    remainder: remainder as int,
                }),
            decreases FRACTION_BITS - digit,
        {
            halved = halved.half();
            let doubled: u64 = 2 * remainder;
            if doubled >= n as u64 {
                composed = composed.compose(halved);
                remainder = doubled - n as u64;
            } else {
                remainder = doubled;
            }
            digit = digit + 1;
        }
        composed
    }

    /// The vector `p` turned about the unit vector `axis`, to which it is
    /// perpendicular.
    pub fn turn(self, p: Vec3, axis: Vec3) -> (r: Vec3)
        ensures
            r@ == turn_about(p@, axis@, self@),
    {
        p.scale(self.cos).add(axis.cross(p).scale(self.sin))
    }
}

} // verus!
