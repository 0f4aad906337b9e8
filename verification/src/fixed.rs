//! Fixed-point scalars.
//!
//! Every coordinate, length and tolerance of the kernel is a [`Scalar`]: a
//! signed 64-bit integer that counts units of `2^-32`. Arithmetic is exact
//! where the result is representable, rounds toward zero where it is not a
//! multiple of the unit, and saturates at the ends of the range, so no
//! operation can fail or wrap. The specification of each operation is a
//! function on mathematical integers.

use vstd::prelude::*;

verus! {

/// The raw value of the scalar one.
pub const ONE_RAW: i64 = 0x1_0000_0000;

/// The largest raw value.
pub const MAX_RAW: i64 = 0x7fff_ffff_ffff_ffff;

/// The smallest raw value.
pub const MIN_RAW: i64 = -0x8000_0000_0000_0000;

/// The absolute value of an integer.
pub open spec fn magnitude(v: int) -> int {
    if v < 0 {
        -v
    } else {
        v
    }
}

/// The nearest raw value to `v`.
pub open spec fn saturate(v: int) -> int {
    if v < MIN_RAW {
        MIN_RAW as int
    } else if v > MAX_RAW {
        MAX_RAW as int
    } else {
        v
    }
}

/// The quotient `n / d` rounded toward zero.
pub open spec fn trunc_div(n: int, d: int) -> int
    recommends
        d != 0,
{
    if (n < 0) == (d < 0) {
        magnitude(n) / magnitude(d)
    } else {
        -(magnitude(n) / magnitude(d))
    }
}

/// Raw sum.
pub open spec fn fx_add(a: int, b: int) -> int {
    saturate(a + b)
}

/// Raw difference.
pub open spec fn fx_sub(a: int, b: int) -> int {
    saturate(a - b)
}

/// Raw negation.
pub open spec fn fx_neg(a: int) -> int {
    saturate(-a)
}

/// Raw value of `a * b / d`, the product taken exactly.
pub open spec fn fx_mul_div(a: int, b: int, d: int) -> int
    recommends
        d != 0,
{
    saturate(trunc_div(a * b, d))
}

/// Raw product of two scalars.
pub open spec fn fx_mul(a: int, b: int) -> int {
    fx_mul_div(a, b, ONE_RAW as int)
}

/// Raw quotient of two scalars.
pub open spec fn fx_div(a: int, b: int) -> int
    recommends
        b != 0,
{
    fx_mul_div(a, ONE_RAW as int, b)
}

/// `r` is the integer square root of `n`.
pub open spec fn is_int_sqrt(n: int, r: int) -> bool {
    0 <= r && r * r <= n && n < (r + 1) * (r + 1)
}

/// The integer square root of `n`: the largest `r` with `r * r <= n`.
pub open spec fn int_sqrt(n: int) -> int
    recommends
        n >= 0,
{
    choose|r: int| is_int_sqrt(n, r)
}

/// Raw square root of a scalar; zero for negative arguments.
pub open spec fn fx_sqrt(a: int) -> int {
    if a <= 0 {
        0
    } else {
        int_sqrt(a * ONE_RAW)
    }
}

/// A product of bounded factors is bounded by the product of the bounds.
pub proof fn lemma_mul_bounded(a: int, b: int, ba: int, bb: int)
    by (nonlinear_arith)
    requires
        0 <= a <= ba,
        0 <= b <= bb,
    ensures
        0 <= a * b <= ba * bb,
{
}

/// The magnitude of a product is the product of the magnitudes, and the
/// product is negative exactly when one nonzero factor is.
pub proof fn lemma_mul_sign(a: int, b: int)
    by (nonlinear_arith)
    ensures
        magnitude(a * b) == magnitude(a) * magnitude(b),
        (a * b < 0) == ((a < 0 && b > 0) || (a > 0 && b < 0)),
{
}

/// An integer has at most one integer square root.
pub proof fn lemma_int_sqrt_unique(n: int, r: int, s: int)
    by (nonlinear_arith)
    requires
        is_int_sqrt(n, r),
        is_int_sqrt(n, s),
    ensures
        r == s,
{
    if r < s {
        assert((r + 1) * (r + 1) <= s * s);
    } else if s < r {
        assert((s + 1) * (s + 1) <= r * r);
    }
}

/// Whatever satisfies `is_int_sqrt` is the value of `int_sqrt`.
pub proof fn lemma_int_sqrt_is(n: int, r: int)
    requires
        is_int_sqrt(n, r),
    ensures
        int_sqrt(n) == r,
{
    lemma_int_sqrt_unique(n, r, int_sqrt(n));
}

/// Every natural number has an integer square root.
pub proof fn lemma_int_sqrt_exists(n: int)
    requires
        n >= 0,
    ensures
        is_int_sqrt(n, int_sqrt(n)),
    decreases n,
{
    if n == 0 {
        assert(is_int_sqrt(0, 0));
    } else {
        lemma_int_sqrt_exists(n - 1);
        let r = int_sqrt(n - 1);
        if (r + 1) * (r + 1) <= n {
            assert(is_int_sqrt(n, r + 1)) by (nonlinear_arith)
                requires
                    (r + 1) * (r + 1) <= n,
                    r >= 0,
                    n - 1 < (r + 1) * (r + 1),
            ;
        } else {
            assert(is_int_sqrt(n, r));
        }
    }
}

/// The quotient of a natural number by a positive one, bracketed.
pub proof fn lemma_quotient_bounds(x: int, d: int)
    by (nonlinear_arith)
    requires
        x >= 0,
        d > 0,
    ensures
        0 <= x / d,
        (x / d) * d <= x,
        x < (x / d + 1) * d,
{
}

/// The square root of a raw value stays below `2^48`.
pub proof fn lemma_sqrt_small(a: int)
    requires
        a <= MAX_RAW,
    ensures
        0 <= fx_sqrt(a) <= 0x1_0000_0000_0000,
{
    if a > 0 {
        let n = a * ONE_RAW;
        lemma_mul_bounded(a, ONE_RAW as int, MAX_RAW as int, ONE_RAW as int);
        lemma_int_sqrt_exists(n);
        let r = int_sqrt(n);
        if r > 0x1_0000_0000_0000 {
            lemma_square_monotone(0x1_0000_0000_0000, r);
        }
    }
}

/// Squaring is monotone on the naturals.
pub proof fn lemma_square_monotone(a: int, b: int)
    by (nonlinear_arith)
    requires
        0 <= a <= b,
    ensures
        a * a <= b * b,
{
}

/// Multiplying a raw value by one, or by zero, is exact.
pub proof fn lemma_mul_one_zero(x: int)
    ensures
        trunc_div(x * ONE_RAW, ONE_RAW as int) == x,
        trunc_div(ONE_RAW * x, ONE_RAW as int) == x,
        trunc_div(x * 0, ONE_RAW as int) == 0,
        trunc_div(0 * x, ONE_RAW as int) == 0,
{
    lemma_mul_sign(x, ONE_RAW as int);
    assert(x * 0 == 0 && 0 * x == 0) by (nonlinear_arith);
    assert(x * ONE_RAW == ONE_RAW * x) by (nonlinear_arith);
    assert((magnitude(x) * ONE_RAW) / (ONE_RAW as int) == magnitude(x)) by (nonlinear_arith);
}

/// What rounding a product toward zero loses: less than one raw unit.
pub proof fn lemma_trunc_error(x: int)
    ensures
        -ONE_RAW < ONE_RAW * trunc_div(x, ONE_RAW as int) - x < ONE_RAW,
{
    let m = magnitude(x);
    lemma_quotient_bounds(m, ONE_RAW as int);
    let q = m / (ONE_RAW as int);
    assert(q * ONE_RAW == ONE_RAW * q) by (nonlinear_arith);
    assert((q + 1) * ONE_RAW == ONE_RAW * q + ONE_RAW) by (nonlinear_arith);
    assert(ONE_RAW * (-q) == -(ONE_RAW * q)) by (nonlinear_arith);
}

/// A product of bounded magnitude has a bounded rounded quotient.
pub proof fn lemma_trunc_bounded(x: int, m: int)
    requires
        m >= 0,
        magnitude(x) < (m + 1) * ONE_RAW,
    ensures
        magnitude(trunc_div(x, ONE_RAW as int)) <= m,
{
    let a = magnitude(x);
    lemma_quotient_bounds(a, ONE_RAW as int);
    let q = a / (ONE_RAW as int);
    assert(q <= m) by (nonlinear_arith)
        requires
            q * ONE_RAW <= a,
            a < (m + 1) * ONE_RAW,
            q >= 0,
            m >= 0,
    ;
}

/// The magnitude of a product of two bounded integers.
pub proof fn lemma_product_bounded(a: int, b: int, ba: int, bb: int)
    requires
        magnitude(a) <= ba,
        magnitude(b) <= bb,
    ensures
        magnitude(a * b) <= ba * bb,
{
    lemma_mul_sign(a, b);
    lemma_mul_bounded(magnitude(a), magnitude(b), ba, bb);
}

/// The magnitude of a raw value, widened.
pub fn magnitude_of(a: i64) -> (m: u128)
    ensures
        m == magnitude(a as int),
        m <= 0x8000_0000_0000_0000,
{
    if a >= 0 {
        a as u128
    } else {
        let wide: i128 = a as i128;
        (-wide) as u128
    }
}

/// The raw value nearest to a wide integer.
pub fn saturate_wide(v: i128) -> (r: i64)
    ensures
        r == saturate(v as int),
{
    if v < MIN_RAW as i128 {
        MIN_RAW
    } else if v > MAX_RAW as i128 {
        MAX_RAW
    } else {
        v as i64
    }
}

/// `a * b / d` for a divisor given by its magnitude and sign: the product
/// is exact and the quotient rounds toward zero.
pub fn mul_div_wide(a: i64, b: i64, divisor_magnitude: u128, divisor_negative: bool) -> (r: i128)
    requires
        divisor_magnitude > 0,
    ensures
        r == trunc_div(
            a * b,
            if divisor_negative {
                -(divisor_magnitude as int)
            } else {
                divisor_magnitude as int
            },
        ),
        -0x4000_0000_0000_0000_0000_0000_0000_0000 <= r <= 0x4000_0000_0000_0000_0000_0000_0000_0000,
{
    let ma = magnitude_of(a);
    let mb = magnitude_of(b);
    proof {
        lemma_mul_bounded(ma as int, mb as int, 0x8000_0000_0000_0000, 0x8000_0000_0000_0000);
        lemma_mul_sign(a as int, b as int);
    }
    let product: u128 = ma * mb;
    let q: u128 = product / divisor_magnitude;
    let product_negative = (a < 0 && b > 0) || (a > 0 && b < 0);
    if product_negative != divisor_negative {
        -(q as i128)
    } else {
        q as i128
    }
}

/// The exact product of two raw values as a wide raw value, rounded toward
/// zero.
pub fn mul_wide(a: i64, b: i64) -> (r: i128)
    ensures
        r == trunc_div(a * b, ONE_RAW as int),
        -0x4000_0000_0000_0000_0000_0000 <= r <= 0x4000_0000_0000_0000_0000_0000,
{
    let ma = magnitude_of(a);
    let mb = magnitude_of(b);
    proof {
        lemma_mul_bounded(ma as int, mb as int, 0x8000_0000_0000_0000, 0x8000_0000_0000_0000);
        lemma_mul_sign(a as int, b as int);
    }
    let product: u128 = ma * mb;
    let q: u128 = product / 0x1_0000_0000;
    if (a < 0 && b > 0) || (a > 0 && b < 0) {
        -(q as i128)
    } else {
        q as i128
    }
}

/// `a * b / d` on raw values: the product is exact, the quotient rounds
/// toward zero and the result saturates.
pub fn mul_div_raw(a: i64, b: i64, d: i64) -> (r: i64)
    requires
        d != 0,
    ensures
        r == fx_mul_div(a as int, b as int, d as int),
{
    let md = magnitude_of(d);
    saturate_wide(mul_div_wide(a, b, md, d < 0))
}

/// The integer square root of `n`, found by bisection.
pub fn int_sqrt_wide(n: u128) -> (r: u128)
    ensures
        r == int_sqrt(n as int),
        is_int_sqrt(n as int, r as int),
        r < 0x1_0000_0000_0000_0000,
{
    let mut lo: u128 = 0;
    let mut hi: u128 = 0x1_0000_0000_0000_0000;
    proof {
        assert(0x1_0000_0000_0000_0000int * 0x1_0000_0000_0000_0000int > n) by (nonlinear_arith)
            requires
                n <= 0xffff_ffff_ffff_ffff_ffff_ffff_ffff_ffff,
        ;
    }
    while hi - lo > 1
        invariant
            lo < hi <= 0x1_0000_0000_0000_0000,
            lo * lo <= n,
            n < hi * hi,
        decreases hi - lo,
    {
        let mid: u128 = lo + (hi - lo) / 2;
        proof {
            lemma_mul_bounded(
                mid as int,
                mid as int,
                0xffff_ffff_ffff_ffff,
                0xffff_ffff_ffff_ffff,
            );
        }
        if mid * mid <= n {
            lo = mid;
        } else {
            hi = mid;
        }
    }
    proof {
        assert(hi == lo + 1);
        lemma_int_sqrt_is(n as int, lo as int);
    }
    lo
}

/// A fixed-point number: `raw` counts units of `2^-32`.
#[derive(Clone, Copy, Debug, PartialEq, Eq, Structural)]
pub struct Scalar {
    pub raw: i64,
}

impl View for Scalar {
    type V = int;

    open spec fn view(&self) -> int {
        self.raw as int
    }
}

impl Scalar {
    /// The scalar with the given raw value.
    pub fn from_raw(raw: i64) -> (r: Scalar)
        ensures
            r@ == raw,
    {
        Scalar { raw }
    }

    /// The scalar that stands for a whole number.
    pub fn from_int(units: i32) -> (r: Scalar)
        ensures
            r@ == units * ONE_RAW,
    {
        let wide: i64 = units as i64;
        Scalar { raw: wide * ONE_RAW }
    }

    /// Zero.
    pub fn zero() -> (r: Scalar)
        ensures
            r@ == 0,
    {
        Scalar { raw: 0 }
    }

    /// One.
    pub fn one() -> (r: Scalar)
        ensures
            r@ == ONE_RAW,
    {
        Scalar { raw: ONE_RAW }
    }

    /// Saturating sum.
    pub fn add(self, other: Scalar) -> (r: Scalar)
        ensures
            r@ == fx_add(self@, other@),
    {
        let wide: i128 = self.raw as i128 + other.raw as i128;
        Scalar { raw: saturate_wide(wide) }
    }

    /// Saturating difference.
    pub fn sub(self, other: Scalar) -> (r: Scalar)
        ensures
            r@ == fx_sub(self@, other@),
    {
        let wide: i128 = self.raw as i128 - other.raw as i128;
        Scalar { raw: saturate_wide(wide) }
    }

    /// Saturating negation.
    pub fn neg(self) -> (r: Scalar)
        ensures
            r@ == fx_neg(self@),
    {
        let wide: i128 = -(self.raw as i128);
        Scalar { raw: saturate_wide(wide) }
    }

    /// Saturating absolute value.
    pub fn abs(self) -> (r: Scalar)
        ensures
            r@ == saturate(magnitude(self@)),
    {
        if self.raw < 0 {
            self.neg()
        } else {
            self
        }
    }

    /// Product, rounded toward zero.
    pub fn mul(self, other: Scalar) -> (r: Scalar)
        ensures
            r@ == fx_mul(self@, other@),
    {
        Scalar { raw: mul_div_raw(self.raw, other.raw, ONE_RAW) }
    }

    /// Quotient, rounded toward zero; `None` exactly when the divisor is zero.
    pub fn div(self, other: Scalar) -> (r: Option<Scalar>)
        ensures
            other@ == 0 ==> r is None,
            other@ != 0 ==> r is Some && r->Some_0@ == fx_div(self@, other@),
    {
        if other.raw == 0 {
            None
        } else {
            Some(Scalar { raw: mul_div_raw(self.raw, ONE_RAW, other.raw) })
        }
    }

    /// Half of the scalar, rounded toward zero.
    pub fn half(self) -> (r: Scalar)
        ensures
            r@ == trunc_div(self@, 2),
    {
        Scalar { raw: self.raw / 2 }
    }

    /// Square root, rounded down; zero for negative arguments.
    pub fn sqrt(self) -> (r: Scalar)
        ensures
            r@ == fx_sqrt(self@),
    {
        if self.raw <= 0 {
            Scalar { raw: 0 }
        } else {
            let wide: u128 = self.raw as u128;
            proof {
                lemma_mul_bounded(wide as int, ONE_RAW as int, MAX_RAW as int, ONE_RAW as int);
            }
            let scaled: u128 = wide * (ONE_RAW as u128);
            let root = int_sqrt_wide(scaled);
            proof {
                // root * root <= raw * 2^32 < 2^95, so root < 2^48.
                if root >= 0x1_0000_0000_0000 {
                    lemma_square_monotone(0x1_0000_0000_0000, root as int);
                }
            }
            Scalar { raw: root as i64 }
        }
    }

    /// Whether the scalar is zero.
    pub fn is_zero(self) -> (r: bool)
        ensures
            r == (self@ == 0),
    {
        self.raw == 0
    }

    /// Whether `self` is less than `other`.
    pub fn lt(self, other: Scalar) -> (r: bool)
        ensures
            r == (self@ < other@),
    {
        self.raw < other.raw
    }

    /// Whether `self` is at most `other`.
    pub fn le(self, other: Scalar) -> (r: bool)
        ensures
            r == (self@ <= other@),
    {
        self.raw <= other.raw
    }
}

} // verus!
