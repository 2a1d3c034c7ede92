//! Saturating signed fixed-point arithmetic.
//!
//! A value `x: i64` stands for the real number `x / SCALE`. Every operation
//! saturates at `±FP_MAX` instead of overflowing, and division by zero
//! saturates as well: numerical degeneracies are clamped to safe bounds
//! rather than propagated.

use vstd::prelude::*;
use vstd::arithmetic::div_mod::lemma_fundamental_div_mod;
use vstd::arithmetic::div_mod::lemma_div_multiples_vanish;
use vstd::arithmetic::div_mod::lemma_div_is_ordered;

verus! {

/// One whole unit in fixed-point representation.
pub const SCALE: i64 = 65536;

/// Largest magnitude any fixed-point value may take (2^40).
pub const FP_MAX: i64 = 1099511627776;

/// Fixed-point value of pi.
pub const PI_FP: i64 = 205887;

/// Fixed-point value of 2*pi.
pub const TWO_PI_FP: i64 = 411774;

/// Fixed-point value of pi/2.
pub const HALF_PI_FP: i64 = 102943;

pub open spec fn fits(x: int) -> bool {
    -(FP_MAX as int) <= x <= FP_MAX as int
}

pub open spec fn abs_i(x: int) -> int {
    if x >= 0 { x } else { -x }
}

/// Clamp to the representable range.
pub open spec fn sat(x: int) -> int {
    if x > FP_MAX as int {
        FP_MAX as int
    } else if x < -(FP_MAX as int) {
        -(FP_MAX as int)
    } else {
        x
    }
}

/// Division truncated toward zero, as the hardware performs it.
pub open spec fn tdiv(n: int, d: int) -> int
    recommends
        d != 0,
{
    if (n >= 0) == (d > 0) {
        abs_i(n) / abs_i(d)
    } else {
        -(abs_i(n) / abs_i(d))
    }
}

/// Fixed-point product, truncated then saturated.
pub open spec fn fmul(a: int, b: int) -> int {
    sat(tdiv(a * b, SCALE as int))
}

/// Fixed-point quotient; division by zero saturates by the numerator's sign.
pub open spec fn fdiv(a: int, b: int) -> int {
    if b == 0 {
        if a >= 0 {
            FP_MAX as int
        } else {
            -(FP_MAX as int)
        }
    } else {
        sat(tdiv(a * (SCALE as int), b))
    }
}

pub open spec fn fadd(a: int, b: int) -> int {
    sat(a + b)
}

pub open spec fn fsub(a: int, b: int) -> int {
    sat(a - b)
}

pub open spec fn is_isqrt(n: int, r: int) -> bool {
    0 <= r && r * r <= n && n < (r + 1) * (r + 1)
}

/// The integer square root, as the unique `r` with `r*r <= n < (r+1)*(r+1)`.
pub open spec fn isqrt(n: int) -> int {
    choose|r: int| is_isqrt(n, r)
}

/// Fixed-point square root of a non-negative value.
pub open spec fn fsqrt(x: int) -> int {
    isqrt(x * (SCALE as int))
}

/// Clamp to one whole unit in magnitude.
pub open spec fn clamp_one(v: int) -> int {
    if v > SCALE as int {
        SCALE as int
    } else if v < -(SCALE as int) {
        -(SCALE as int)
    } else {
        v
    }
}

/// Parabolic sine approximation on the half turn `[0, pi]`.
pub open spec fn sin_half_approx(x: int) -> int {
    fdiv(4 * fmul(x, PI_FP as int - x), fmul(PI_FP as int, PI_FP as int))
}

/// Sine approximation on a full turn `[0, 2*pi]`, odd about `pi`.
pub open spec fn sin_approx(x: int) -> int {
    if x <= PI_FP as int {
        sin_half_approx(x)
    } else {
        -sin_half_approx(x - PI_FP as int)
    }
}

/// The sine argument that yields the cosine: a quarter turn ahead, wrapped.
pub open spec fn cos_arg(x: int) -> int {
    if x + HALF_PI_FP as int > TWO_PI_FP as int {
        x + HALF_PI_FP as int - TWO_PI_FP as int
    } else {
        x + HALF_PI_FP as int
    }
}

proof fn lemma_mul_fits(a: int, b: int)
    by (nonlinear_arith)
    requires
        fits(a),
        fits(b),
    ensures
        -(FP_MAX as int) * (FP_MAX as int) <= a * b <= (FP_MAX as int) * (FP_MAX as int),
{
}

pub proof fn lemma_isqrt_unique(n: int, r1: int, r2: int)
    by (nonlinear_arith)
    requires
        is_isqrt(n, r1),
        is_isqrt(n, r2),
    ensures
        r1 == r2,
{
}

/// The magnitude of a fixed-point product never exceeds the product of the
/// operands' magnitude bounds.
pub proof fn lemma_fmul_abs_le(a: int, b: int, aa: int, bb: int)
    by (nonlinear_arith)
    requires
        abs_i(a) <= aa,
        abs_i(b) <= bb,
        0 <= aa,
        0 <= bb,
    ensures
        abs_i(fmul(a, b)) <= aa * bb,
{
}

/// Multiplying a scaled value by `d` and truncating by `d` is exact.
pub proof fn lemma_tdiv_mul_exact(a: int, d: int)
    requires
        0 < d,
    ensures
        tdiv(a * d, d) == a,
{
    if a >= 0 {
        assert(abs_i(a * d) == a * d && a * d >= 0) by (nonlinear_arith)
            requires
                0 <= a,
                0 < d,
        ;
        assert(a * d == d * a) by (nonlinear_arith);
        lemma_div_multiples_vanish(a, d);
    } else {
        assert(abs_i(a * d) == (-a) * d && a * d < 0) by (nonlinear_arith)
            requires
                a < 0,
                0 < d,
        ;
        assert((-a) * d == d * (-a)) by (nonlinear_arith);
        lemma_div_multiples_vanish(-a, d);
    }
}

pub proof fn lemma_fmul_self_nonneg(a: int)
    by (nonlinear_arith)
    ensures
        0 <= fmul(a, a),
{
}

pub proof fn lemma_fmul_nonneg(a: int, b: int)
    by (nonlinear_arith)
    requires
        0 <= a,
        0 <= b,
    ensures
        0 <= fmul(a, b),
{
}

/// A product with a factor of at most one whole unit does not grow.
pub proof fn lemma_fmul_le_left(a: int, b: int)
    requires
        0 <= a,
        0 <= b <= SCALE as int,
    ensures
        0 <= fmul(a, b) <= a,
{
    assert(0 <= a * b <= a * (SCALE as int)) by (nonlinear_arith)
        requires
            0 <= a,
            0 <= b <= SCALE as int,
    ;
    lemma_div_is_ordered(a * b, a * (SCALE as int), SCALE as int);
    lemma_tdiv_mul_exact(a, SCALE as int);
}

pub fn fp_add(a: i64, b: i64) -> (r: i64)
    requires
        fits(a as int),
        fits(b as int),
    ensures
        r as int == fadd(a as int, b as int),
        fits(r as int),
{
    let s: i64 = a + b;
    if s > FP_MAX {
        FP_MAX
    } else if s < -FP_MAX {
        -FP_MAX
    } else {
        s
    }
}

pub fn fp_sub(a: i64, b: i64) -> (r: i64)
    requires
        fits(a as int),
        fits(b as int),
    ensures
        r as int == fsub(a as int, b as int),
        fits(r as int),
{
    let s: i64 = a - b;
    if s > FP_MAX {
        FP_MAX
    } else if s < -FP_MAX {
        -FP_MAX
    } else {
        s
    }
}

pub fn fp_neg(a: i64) -> (r: i64)
    requires
        fits(a as int),
    ensures
        r as int == -(a as int),
        fits(r as int),
{
    -a
}

pub fn fp_mul(a: i64, b: i64) -> (r: i64)
    requires
        fits(a as int),
        fits(b as int),
    ensures
        r as int == fmul(a as int, b as int),
        fits(r as int),
{
    proof {
        lemma_mul_fits(a as int, b as int);
    }
    let p: i128 = (a as i128) * (b as i128);
    let neg: bool = p < 0;
    let m: u128 = if neg {
        (-p) as u128
    } else {
        p as u128
    };
    let q: u128 = m / (SCALE as u128);
    let qc: u128 = if q > FP_MAX as u128 {
        FP_MAX as u128
    } else {
        q
    };
    let r: i64 = if neg {
        -(qc as i64)
    } else {
        qc as i64
    };
    r
}

pub fn fp_div(a: i64, b: i64) -> (r: i64)
    requires
        fits(a as int),
        fits(b as int),
    ensures
        r as int == fdiv(a as int, b as int),
        fits(r as int),
{
    if b == 0 {
        if a >= 0 {
            FP_MAX
        } else {
            -FP_MAX
        }
    } else {
        let aa: i128 = if a < 0 {
            -(a as i128)
        } else {
            a as i128
        };
        let na: u128 = (aa as u128) * (SCALE as u128);
        let db: u128 = if b < 0 {
            (-(b as i128)) as u128
        } else {
            b as u128
        };
        let neg: bool = (a < 0) != (b < 0);
        let q: u128 = na / db;
        let qc: u128 = if q > FP_MAX as u128 {
            FP_MAX as u128
        } else {
            q
        };
        let r: i64 = if neg {
            -(qc as i64)
        } else {
            qc as i64
        };
        proof {
            assert(na as int == abs_i((a as int) * (SCALE as int)));
            assert(db as int == abs_i(b as int));
            assert(neg == (((a as int) * (SCALE as int) >= 0) != (b as int > 0)));
        }
        r
    }
}

/// Whole number converted to fixed point.
pub fn fp_from_int(n: i64) -> (r: i64)
    requires
        -16777216 <= n <= 16777216,
    ensures
        r as int == n as int * SCALE as int,
        fits(r as int),
{
    n * SCALE
}

pub fn isqrt64(n: u64) -> (r: u64)
    ensures
        is_isqrt(n as int, r as int),
{
    let mut lo: u64 = 0;
    let mut hi: u64 = 4294967296u64;
    while lo + 1 < hi
        invariant
            lo < hi <= 4294967296u64,
            (lo as int) * (lo as int) <= n as int,
            (n as int) < (hi as int) * (hi as int),
        decreases hi - lo,
    {
        let mid: u64 = lo + (hi - lo) / 2;
        let q: u64 = n / mid;
        proof {
            lemma_fundamental_div_mod(n as int, mid as int);
        }
        if mid <= q {
            proof {
                assert((mid as int) * (mid as int) <= n as int) by (nonlinear_arith)
                    requires
                        (mid as int) <= (q as int),
                        n as int == (mid as int) * (q as int) + (n as int) % (mid as int),
                        0 <= (n as int) % (mid as int),
                        0 < (mid as int),
                ;
            }
            lo = mid;
        } else {
            proof {
                assert((n as int) < (mid as int) * (mid as int)) by (nonlinear_arith)
                    requires
                        (q as int) < (mid as int),
                        n as int == (mid as int) * (q as int) + (n as int) % (mid as int),
                        (n as int) % (mid as int) < mid as int,
                        0 <= (q as int),
                        0 < (mid as int),
                ;
            }
            hi = mid;
        }
    }
    lo
}

pub fn fp_sqrt(x: i64) -> (r: i64)
    requires
        0 <= x,
        fits(x as int),
    ensures
        r as int == fsqrt(x as int),
        0 <= r,
        r <= 268435456,
        fits(r as int),
{
    let n: u64 = (x as u64) * (SCALE as u64);
    let r: u64 = isqrt64(n);
    proof {
        assert(is_isqrt(n as int, r as int));
        assert((r as int) <= 268435456int) by (nonlinear_arith)
            requires
                is_isqrt(n as int, r as int),
                (n as int) <= 72057594037927936int,
        ;
        lemma_isqrt_unique(n as int, r as int, isqrt(n as int));
    }
    r as i64
}

/// Sine of an angle in `[0, 2*pi]`, clamped into one unit of magnitude.
pub fn fp_sin(x: i64) -> (r: i64)
    requires
        0 <= x <= TWO_PI_FP,
    ensures
        r as int == clamp_one(sin_approx(x as int)),
        -SCALE <= r <= SCALE,
{
    let xr: i64 = if x <= PI_FP {
        x
    } else {
        x - PI_FP
    };
    let t: i64 = fp_mul(xr, PI_FP - xr);
    proof {
        lemma_fmul_abs_le(xr as int, PI_FP as int - xr as int, TWO_PI_FP as int, PI_FP as int);
    }
    let num: i64 = 4 * t;
    let pi2: i64 = fp_mul(PI_FP, PI_FP);
    let v: i64 = fp_div(num, pi2);
    let vs: i64 = if x > PI_FP {
        -v
    } else {
        v
    };
    if vs > SCALE {
        SCALE
    } else if vs < -SCALE {
        -SCALE
    } else {
        vs
    }
}

/// Cosine of an angle in `[0, 2*pi]`, via the shifted sine.
pub fn fp_cos(x: i64) -> (r: i64)
    requires
        0 <= x <= TWO_PI_FP,
    ensures
        r as int == clamp_one(sin_approx(cos_arg(x as int))),
        -SCALE <= r <= SCALE,
{
    let y0: i64 = x + HALF_PI_FP;
    let y: i64 = if y0 > TWO_PI_FP {
        y0 - TWO_PI_FP
    } else {
        y0
    };
    fp_sin(y)
}


pub open spec fn max0(x: int) -> int {
    if x < 0 { 0 } else { x }
}

/// A quotient whose numerator does not exceed the (positive) denominator in
/// magnitude stays within one unit.
pub proof fn lemma_fdiv_abs_le_one(p: int, q: int)
    requires
        0 < q,
        abs_i(p) <= q,
    ensures
        abs_i(fdiv(p, q)) <= SCALE as int,
        0 <= p ==> 0 <= fdiv(p, q),
{
    assert(abs_i(p * (SCALE as int)) == abs_i(p) * (SCALE as int)) by (nonlinear_arith);
    assert(abs_i(p) * (SCALE as int) <= q * (SCALE as int)) by (nonlinear_arith)
        requires
            abs_i(p) <= q,
    ;
    lemma_div_is_ordered(abs_i(p) * (SCALE as int), q * (SCALE as int), q);
    assert(q * (SCALE as int) == q * (SCALE as int));
    lemma_div_multiples_vanish(SCALE as int, q);
    assert((q * (SCALE as int)) / q == SCALE as int);
}

/// A product of two factors each within one unit stays within one unit.
pub proof fn lemma_fmul_unit_bound(a: int, b: int)
    requires
        abs_i(a) <= SCALE as int,
        abs_i(b) <= SCALE as int,
    ensures
        abs_i(fmul(a, b)) <= SCALE as int,
{
    assert(abs_i(a * b) <= (SCALE as int) * (SCALE as int)) by (nonlinear_arith)
        requires
            abs_i(a) <= SCALE as int,
            abs_i(b) <= SCALE as int,
    ;
    lemma_div_is_ordered(abs_i(a * b), (SCALE as int) * (SCALE as int), SCALE as int);
    lemma_div_multiples_vanish(SCALE as int, SCALE as int);
}


/// Sharper magnitude bound on a product: the bound itself is rescaled.
pub proof fn lemma_fmul_abs_div(a: int, b: int, aa: int, bb: int)
    requires
        abs_i(a) <= aa,
        abs_i(b) <= bb,
        0 <= aa,
        0 <= bb,
    ensures
        abs_i(fmul(a, b)) <= (aa * bb) / (SCALE as int),
{
    assert(abs_i(a * b) <= aa * bb) by (nonlinear_arith)
        requires
            abs_i(a) <= aa,
            abs_i(b) <= bb,
            0 <= aa,
            0 <= bb,
    ;
    lemma_div_is_ordered(abs_i(a * b), aa * bb, SCALE as int);
}


/// A quotient of non-negatives is non-negative.
pub proof fn lemma_fdiv_nonneg(a: int, b: int)
    requires
        0 <= a,
        0 <= b,
    ensures
        0 <= fdiv(a, b),
{
    if b != 0 {
        assert(0 <= a * (SCALE as int));
    }
}


/// Fixed-point multiplication is commutative.
pub proof fn lemma_fmul_comm(a: int, b: int)
    ensures
        fmul(a, b) == fmul(b, a),
{
    assert(a * b == b * a) by (nonlinear_arith);
}

} // verus!
