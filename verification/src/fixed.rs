use vstd::prelude::*;

verus! {

/// Scalar arithmetic for the renderer.
///
/// All geometric quantities are fixed-point numbers: an `i64` holding the
/// real value scaled by `FX_ONE`. Every operation saturates at
/// `[-FX_LIMIT, FX_LIMIT]`, so arithmetic is total and never overflows or
/// produces an invalid value; each executable operation returns exactly the
/// value of its spec-level counterpart.

/// The fixed-point scale: 1.0 is represented as `FX_ONE`.
pub const FX_ONE: i64 = 65536;

/// Saturation bound for all fixed-point values (2^62).
pub const FX_LIMIT: i64 = 0x4000_0000_0000_0000;

/// Clamp a mathematical integer into the saturation range.
pub open spec fn sat64(v: int) -> i64 {
    if v >= FX_LIMIT {
        FX_LIMIT
    } else if v <= -FX_LIMIT {
        (-FX_LIMIT) as i64
    } else {
        v as i64
    }
}

/// Division truncating toward zero (the semantics of `/` on Rust's signed
/// integers), defined for positive divisors.
pub open spec fn tdiv(a: int, b: int) -> int {
    if a >= 0 {
        a / b
    } else {
        -((-a) / b)
    }
}

/// Division truncating toward zero for any nonzero divisor.
pub open spec fn tdivz(a: int, b: int) -> int {
    if b < 0 {
        tdiv(-a, -b)
    } else {
        tdiv(a, b)
    }
}

pub open spec fn fx_add_s(a: i64, b: i64) -> i64 {
    sat64(a + b)
}

pub open spec fn fx_sub_s(a: i64, b: i64) -> i64 {
    sat64(a - b)
}

pub open spec fn fx_neg_s(a: i64) -> i64 {
    sat64(-a)
}

pub open spec fn fx_mul_s(a: i64, b: i64) -> i64 {
    sat64(tdiv(a * b, FX_ONE as int))
}

/// Fixed-point division; division by zero yields zero (degenerate inputs are
/// treated as a miss by the callers rather than a fault).
pub open spec fn fx_div_s(a: i64, b: i64) -> i64 {
    if b == 0 {
        0
    } else {
        sat64(tdivz(a * (FX_ONE as int), b as int))
    }
}

pub open spec fn fx_from_int_s(v: i64) -> i64 {
    sat64(v * (FX_ONE as int))
}

pub open spec fn fx_min_s(a: i64, b: i64) -> i64 {
    if a <= b {
        a
    } else {
        b
    }
}

pub open spec fn fx_max_s(a: i64, b: i64) -> i64 {
    if a >= b {
        a
    } else {
        b
    }
}

pub open spec fn fx_abs_s(a: i64) -> i64 {
    if a >= 0 {
        a
    } else {
        sat64(-a)
    }
}

/// `r` is the integer square root of `x`.
pub open spec fn is_isqrt(x: int, r: int) -> bool {
    &&& r >= 0
    &&& r * r <= x
    &&& x < (r + 1) * (r + 1)
}

/// The integer square root, as a function. `lemma_sqrt_floor` shows that for
/// nonnegative `x` it satisfies `is_isqrt` and is the unique such value.
pub open spec fn sqrt_floor(x: int) -> int {
    choose|r: int| is_isqrt(x, r)
}

/// Square root of a fixed-point value; negative inputs yield zero.
pub open spec fn fx_sqrt_s(a: i64) -> i64 {
    if a <= 0 {
        0
    } else {
        sqrt_floor(a * (FX_ONE as int)) as i64
    }
}

proof fn lemma_isqrt_exists(x: int) -> (r: int)
    requires
        x >= 0,
    ensures
        is_isqrt(x, r),
    decreases x,
{
    if x == 0 {
        assert(is_isqrt(0, 0)) by (nonlinear_arith);
        0
    } else {
        let p = lemma_isqrt_exists(x - 1);
        if (p + 1) * (p + 1) <= x {
            assert(is_isqrt(x, p + 1)) by (nonlinear_arith)
                requires
                    p >= 0,
                    x - 1 < (p + 1) * (p + 1),
                    (p + 1) * (p + 1) <= x,
            ;
            p + 1
        } else {
            p
        }
    }
}

pub proof fn lemma_sqrt_floor(x: int)
    requires
        x >= 0,
    ensures
        is_isqrt(x, sqrt_floor(x)),
        forall|r: int| is_isqrt(x, r) ==> r == sqrt_floor(x),
{
    let w = lemma_isqrt_exists(x);
    assert(is_isqrt(x, sqrt_floor(x)));
    assert forall|r: int| is_isqrt(x, r) implies r == sqrt_floor(x) by {
        let s = sqrt_floor(x);
        assert(r == s) by (nonlinear_arith)
            requires
                r >= 0,
                s >= 0,
                r * r <= x < (r + 1) * (r + 1),
                s * s <= x < (s + 1) * (s + 1),
        ;
    }
}

pub proof fn lemma_sat_monotone(v1: int, v2: int)
    requires
        v1 <= v2,
    ensures
        sat64(v1) <= sat64(v2),
{
}

pub proof fn lemma_tdiv_monotone(x1: int, x2: int, b: int)
    requires
        x1 <= x2,
        b > 0,
    ensures
        tdiv(x1, b) <= tdiv(x2, b),
{
    if x1 >= 0 {
        vstd::arithmetic::div_mod::lemma_div_is_ordered(x1, x2, b);
    } else if x2 >= 0 {
        vstd::arithmetic::div_mod::lemma_div_pos_is_pos(x2, b);
        vstd::arithmetic::div_mod::lemma_div_pos_is_pos(-x1, b);
    } else {
        vstd::arithmetic::div_mod::lemma_div_is_ordered(-x2, -x1, b);
    }
}

/// Fixed-point division by a positive divisor is monotone in the
/// numerator.
pub proof fn lemma_fx_div_monotone(n1: i64, n2: i64, a: i64)
    requires
        n1 <= n2,
        a > 0,
    ensures
        fx_div_s(n1, a) <= fx_div_s(n2, a),
{
    lemma_tdiv_monotone(n1 * (FX_ONE as int), n2 * (FX_ONE as int), a as int);
    lemma_sat_monotone(tdiv(n1 * (FX_ONE as int), a as int), tdiv(n2 * (FX_ONE as int), a as int));
}

pub proof fn lemma_fx_sqrt_nonneg(a: i64)
    ensures
        fx_sqrt_s(a) >= 0,
{
    if a > 0 {
        lemma_sqrt_floor(a * (FX_ONE as int));
        let s = sqrt_floor(a * (FX_ONE as int));
        assert(s <= 0x400_0000_0000) by (nonlinear_arith)
            requires
                s >= 0,
                s * s <= a * (FX_ONE as int),
                a * (FX_ONE as int) < 0x10_0000_0000_0000_0000_0000,
        ;
    }
}

/// Clamp a 128-bit intermediate into the saturation range.
pub fn fx_sat(v: i128) -> (r: i64)
    ensures
        r == sat64(v as int),
{
    let lim: i128 = FX_LIMIT as i128;
    if v >= lim {
        FX_LIMIT
    } else if v <= -lim {
        -FX_LIMIT
    } else {
        v as i64
    }
}

/// Saturating fixed-point addition.
pub fn fx_add(a: i64, b: i64) -> (r: i64)
    ensures
        r == fx_add_s(a, b),
{
    fx_sat(a as i128 + b as i128)
}

/// Saturating fixed-point subtraction.
pub fn fx_sub(a: i64, b: i64) -> (r: i64)
    ensures
        r == fx_sub_s(a, b),
{
    fx_sat(a as i128 - b as i128)
}

/// Saturating fixed-point negation.
pub fn fx_neg(a: i64) -> (r: i64)
    ensures
        r == fx_neg_s(a),
{
    fx_sat(-(a as i128))
}

/// Saturating fixed-point multiplication.
pub fn fx_mul(a: i64, b: i64) -> (r: i64)
    ensures
        r == fx_mul_s(a, b),
{
    let pa = a as i128;
    let pb = b as i128;
    proof {
        assert(-0x4000_0000_0000_0000_0000_0000_0000_0000 <= pa * pb
            <= 0x4000_0000_0000_0000_0000_0000_0000_0000) by (nonlinear_arith)
            requires
                -0x8000_0000_0000_0000 <= pa <= 0x8000_0000_0000_0000,
                -0x8000_0000_0000_0000 <= pb <= 0x8000_0000_0000_0000,
        ;
    }
    let p = pa * pb;
    fx_sat(p / (FX_ONE as i128))
}

/// Saturating fixed-point division; division by zero yields zero.
pub fn fx_div(a: i64, b: i64) -> (r: i64)
    ensures
        r == fx_div_s(a, b),
{
    if b == 0 {
        0
    } else {
        let num = (a as i128) * (FX_ONE as i128);
        let den = if b < 0 {
            -(b as i128)
        } else {
            b as i128
        };
        let q = if b < 0 {
            (-num) / den
        } else {
            num / den
        };
        fx_sat(q)
    }
}

/// Convert a whole number to fixed point.
pub fn fx_from_int(v: i64) -> (r: i64)
    ensures
        r == fx_from_int_s(v),
{
    fx_sat((v as i128) * (FX_ONE as i128))
}

pub fn fx_min(a: i64, b: i64) -> (r: i64)
    ensures
        r == fx_min_s(a, b),
{
    if a <= b {
        a
    } else {
        b
    }
}

pub fn fx_max(a: i64, b: i64) -> (r: i64)
    ensures
        r == fx_max_s(a, b),
{
    if a >= b {
        a
    } else {
        b
    }
}

pub fn fx_abs(a: i64) -> (r: i64)
    ensures
        r == fx_abs_s(a),
{
    if a >= 0 {
        a
    } else {
        fx_sat(-(a as i128))
    }
}

/// Floor of the square root of a 128-bit unsigned value.
pub fn isqrt_u128(x: u128) -> (r: u64)
    ensures
        is_isqrt(x as int, r as int),
{
    if x == 0 {
        return 0;
    }
    let mut lo: u128 = 0;
    let mut hi: u128 = 0x1_0000_0000_0000_0000;
    if x < hi {
        hi = x;
        if hi < 2 {
            hi = 2;
        }
    }
    proof {
        assert(x < hi * hi) by (nonlinear_arith)
            requires
                hi >= 2,
                x >= 1,
                x < 0x1_0000_0000_0000_0000 ==> hi >= x,
                x >= 0x1_0000_0000_0000_0000 ==> hi == 0x1_0000_0000_0000_0000,
        ;
    }
    while lo + 1 < hi
        invariant
            lo < hi,
            hi <= 0x1_0000_0000_0000_0000,
            lo * lo <= x,
            x < hi * hi,
        decreases hi - lo,
    {
        let mid = lo + (hi - lo) / 2;
        proof {
            assert(mid * mid < 0x1_0000_0000_0000_0000_0000_0000_0000_0000) by (nonlinear_arith)
                requires
                    0 <= mid < 0x1_0000_0000_0000_0000,
            ;
        }
        let sq = mid * mid;
        if sq <= x {
            lo = mid;
        } else {
            hi = mid;
        }
    }
    proof {
        assert(lo < 0x1_0000_0000_0000_0000);
    }
    lo as u64
}

/// Saturating fixed-point square root; negative inputs yield zero.
pub fn fx_sqrt(a: i64) -> (r: i64)
    ensures
        r == fx_sqrt_s(a),
{
    if a <= 0 {
        return 0;
    }
    proof {
        assert((a as u128) * (FX_ONE as u128) < 0x8_0000_0000_0000_0000_0000) by (nonlinear_arith)
            requires
                (a as u128) < 0x8000_0000_0000_0000,
        ;
    }
    let x = (a as u128) * (FX_ONE as u128);
    let s = isqrt_u128(x);
    proof {
        lemma_sqrt_floor(x as int);
        assert(s * s <= x < 0x4000_0000_0000_0000_0000_0000_0000_0000);
        assert(s as int <= 0x7fff_ffff_ffff_ffff) by (nonlinear_arith)
            requires
                s >= 0,
                s * s < 0x4000_0000_0000_0000_0000_0000_0000_0000,
        ;
    }
    s as i64
}

} // verus!
