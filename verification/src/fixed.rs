//! Q16.16 fixed-point scalars.
//!
//! A scalar counts in steps of `1/FX_ONE`; all simulation coordinates,
//! velocities and color intermediates are such values, held in `i64`.
//! Saturating operations keep every produced value inside
//! `[-FX_LIMIT, FX_LIMIT]`, so no intermediate computation can overflow.

use vstd::prelude::*;

verus! {

/// Number of fractional steps per unit: values count in 1/65536ths.
pub const FX_ONE: i64 = 65536;

/// Largest magnitude (in 1/65536ths) a coordinate-like value may take.
pub const FX_LIMIT: i64 = 0x100_0000_0000;

/// A scalar is in range when its magnitude does not exceed `FX_LIMIT`.
pub open spec fn fx_in_range(v: int) -> bool {
    -FX_LIMIT <= v <= FX_LIMIT
}

/// Clamp an integer into the representable band.
pub open spec fn fx_clamp(v: int) -> int {
    if v > FX_LIMIT as int {
        FX_LIMIT as int
    } else if v < -FX_LIMIT as int {
        -FX_LIMIT as int
    } else {
        v
    }
}

/// Magnitude of an integer.
pub open spec fn abs_val(v: int) -> int {
    if v >= 0 {
        v
    } else {
        -v
    }
}

/// Division rounding toward zero, the rounding of Rust's integer `/`.
pub open spec fn div_trunc(a: int, b: int) -> int
    recommends
        b > 0,
{
    if a >= 0 {
        a / b
    } else {
        -((-a) / b)
    }
}

/// Saturating fixed-point addition.
pub fn fx_add_sat(a: i64, b: i64) -> (r: i64)
    requires
        fx_in_range(a as int),
        fx_in_range(b as int),
    ensures
        r as int == fx_clamp(a + b),
        fx_in_range(r as int),
{
    let s = a + b;
    if s > FX_LIMIT {
        FX_LIMIT
    } else if s < -FX_LIMIT {
        -FX_LIMIT
    } else {
        s
    }
}

/// Saturating fixed-point subtraction.
pub fn fx_sub_sat(a: i64, b: i64) -> (r: i64)
    requires
        fx_in_range(a as int),
        fx_in_range(b as int),
    ensures
        r as int == fx_clamp(a - b),
        fx_in_range(r as int),
{
    let s = a - b;
    if s > FX_LIMIT {
        FX_LIMIT
    } else if s < -FX_LIMIT {
        -FX_LIMIT
    } else {
        s
    }
}

/// The value of a saturating fixed-point product.
pub open spec fn fx_mul_val(a: int, b: int) -> int {
    fx_clamp(div_trunc(a * b, FX_ONE as int))
}

/// Saturating fixed-point multiplication: `a * b / FX_ONE`, rounded toward
/// zero, clamped into range.
pub fn fx_mul_sat(a: i64, b: i64) -> (r: i64)
    requires
        fx_in_range(a as int),
        fx_in_range(b as int),
    ensures
        r as int == fx_mul_val(a as int, b as int),
        fx_in_range(r as int),
{
    let neg = (a < 0) != (b < 0);
    let ma: u64 = if a >= 0 {
        a as u64
    } else {
        (-a) as u64
    };
    let mb: u64 = if b >= 0 {
        b as u64
    } else {
        (-b) as u64
    };
    let ghost ai = a as int;
    let ghost bi = b as int;
    proof {
        assert(ma as int == abs_val(ai) && mb as int == abs_val(bi));
        assert(ma as int * mb as int <= FX_LIMIT as int * FX_LIMIT as int)
            by (nonlinear_arith)
            requires
                0 <= ma as int <= FX_LIMIT as int,
                0 <= mb as int <= FX_LIMIT as int,
        ;
    }
    let mp: u128 = (ma as u128) * (mb as u128);
    let q: u128 = mp / (FX_ONE as u128);
    proof {
        assert(abs_val(ai) * abs_val(bi) == abs_val(ai * bi)) by (nonlinear_arith);
        assert((ai >= 0 && bi >= 0) ==> ai * bi >= 0) by (nonlinear_arith);
        assert((ai < 0 && bi < 0) ==> ai * bi >= 0) by (nonlinear_arith);
        assert((ai >= 0 && bi < 0) ==> ai * bi <= 0) by (nonlinear_arith);
        assert((ai < 0 && bi >= 0) ==> ai * bi <= 0) by (nonlinear_arith);
    }
    let signed: i128 = if neg {
        -(q as i128)
    } else {
        q as i128
    };
    proof {
        assert(signed as int == div_trunc(ai * bi, FX_ONE as int));
    }
    if signed > FX_LIMIT as i128 {
        FX_LIMIT
    } else if signed < -(FX_LIMIT as i128) {
        -FX_LIMIT
    } else {
        signed as i64
    }
}

/// Largest scale factor the saturating scaler accepts.
pub const FX_T_MAX: i64 = 0x4_0000_0000_0000;

/// Saturating fixed-point scaling by a possibly large nonnegative factor:
/// `a * t / FX_ONE`, rounded toward zero, clamped into range.
pub fn fx_scale_sat(a: i64, t: i64) -> (r: i64)
    requires
        fx_in_range(a as int),
        0 <= t <= FX_T_MAX,
    ensures
        r as int == fx_clamp(div_trunc(a * t, FX_ONE as int)),
        fx_in_range(r as int),
{
    let ghost ai = a as int;
    let ma: u64 = if a >= 0 {
        a as u64
    } else {
        (-a) as u64
    };
    proof {
        assert(ma as int == abs_val(ai));
        assert(ma as int * t as int <= FX_LIMIT as int * FX_T_MAX) by (nonlinear_arith)
            requires
                0 <= ma as int <= FX_LIMIT as int,
                0 <= t as int <= FX_T_MAX as int,
        ;
        assert(abs_val(ai) * (t as int) == abs_val(ai * t)) by (nonlinear_arith)
            requires
                t >= 0,
        ;
        assert((ai >= 0 && t >= 0) ==> ai * t >= 0) by (nonlinear_arith);
        assert((ai < 0 && t >= 0) ==> ai * t <= 0) by (nonlinear_arith);
    }
    let p: u128 = ma as u128 * (t as u128);
    let q: u128 = p / (FX_ONE as u128);
    proof {
        assert(q as int <= p as int) by (nonlinear_arith)
            requires
                q as int == p as int / (FX_ONE as int),
                p as int >= 0,
                FX_ONE == 65536,
        ;
    }
    let signed: i128 = if a >= 0 {
        q as i128
    } else {
        -(q as i128)
    };
    proof {
        assert(signed as int == div_trunc(ai * t, FX_ONE as int));
    }
    if signed > FX_LIMIT as i128 {
        FX_LIMIT
    } else if signed < -(FX_LIMIT as i128) {
        -FX_LIMIT
    } else {
        signed as i64
    }
}

/// The magnitude of a truncating quotient, scaled back by the divisor, never
/// exceeds the magnitude of the dividend.
pub proof fn lemma_div_trunc_abs(a: int, b: int)
    requires
        b >= 1,
    ensures
        abs_val(div_trunc(a, b)) * b <= abs_val(a),
        abs_val(div_trunc(a, b)) <= abs_val(a),
{
    let q = abs_val(div_trunc(a, b));
    assert(q == abs_val(a) / b);
    assert(abs_val(a) / b * b <= abs_val(a)) by (nonlinear_arith)
        requires
            b >= 1,
            abs_val(a) >= 0,
    ;
    assert(q * 1 <= q * b) by (nonlinear_arith)
        requires
            q >= 0,
            b >= 1,
    ;
}

/// `r` is the integer square root of `n`.
pub open spec fn is_isqrt(r: int, n: int) -> bool {
    0 <= r && r * r <= n && n < (r + 1) * (r + 1)
}

/// The integer square root, defined by counting up.
pub open spec fn isqrt_rec(n: nat) -> int
    decreases n,
{
    if n == 0 {
        0
    } else {
        let p = isqrt_rec((n - 1) as nat);
        if (p + 1) * (p + 1) <= n {
            p + 1
        } else {
            p
        }
    }
}

/// `isqrt_rec` really is the integer square root.
pub proof fn lemma_isqrt_rec(n: nat)
    ensures
        is_isqrt(isqrt_rec(n), n as int),
    decreases n,
{
    if n == 0 {
    } else {
        lemma_isqrt_rec((n - 1) as nat);
        let p = isqrt_rec((n - 1) as nat);
        assert((p + 1) * (p + 1) < (p + 2) * (p + 2)) by (nonlinear_arith)
            requires
                p >= 0,
        ;
    }
}

/// Two integer square roots of the same number are equal.
pub proof fn lemma_isqrt_unique(r1: int, r2: int, n: int)
    requires
        is_isqrt(r1, n),
        is_isqrt(r2, n),
    ensures
        r1 == r2,
{
    assert(r1 < r2 ==> (r1 + 1) * (r1 + 1) <= r2 * r2) by (nonlinear_arith)
        requires
            0 <= r1,
            0 <= r2,
    ;
    assert(r2 < r1 ==> (r2 + 1) * (r2 + 1) <= r1 * r1) by (nonlinear_arith)
        requires
            0 <= r1,
            0 <= r2,
    ;
}

/// Integer square root by bisection.
pub fn isqrt_u128(n: u128) -> (r: u64)
    requires
        (n as int) < 0x4000_0000_0000_0000_0000_0000_0000_0000,
    ensures
        r as int == isqrt_rec(n as nat),
        is_isqrt(r as int, n as int),
{
    let mut lo: u128 = 0;
    let mut hi: u128 = 0x8000_0000_0000_0000;
    proof {
        assert(0x8000_0000_0000_0000int * 0x8000_0000_0000_0000
            == 0x4000_0000_0000_0000_0000_0000_0000_0000int) by (nonlinear_arith);
    }
    while hi - lo > 1
        invariant
            lo < hi,
            hi <= 0x8000_0000_0000_0000,
            lo * lo <= n,
            (n as int) < hi * hi,
        decreases hi - lo,
    {
        let mid = lo + (hi - lo) / 2;
        proof {
            assert(mid * mid <= 0x8000_0000_0000_0000int * 0x8000_0000_0000_0000)
                by (nonlinear_arith)
                requires
                    0 <= mid as int <= 0x8000_0000_0000_0000,
            ;
        }
        if mid * mid <= n {
            lo = mid;
        } else {
            hi = mid;
        }
    }
    proof {
        lemma_isqrt_rec(n as nat);
        lemma_isqrt_unique(lo as int, isqrt_rec(n as nat), n as int);
    }
    lo as u64
}

/// Truncating `a * m / d` on fixed-point magnitudes.
pub fn mul_div_trunc(a: i64, m: i64, d: i64) -> (r: i64)
    requires
        fx_in_range(a as int),
        0 <= m <= FX_LIMIT,
        d >= 1,
        abs_val(a as int * m as int) <= d * FX_LIMIT,
    ensures
        r as int == div_trunc(a as int * m as int, d as int),
        fx_in_range(r as int),
{
    let ghost ai = a as int;
    let ma: u64 = if a >= 0 {
        a as u64
    } else {
        (-a) as u64
    };
    proof {
        assert(ma as int == abs_val(ai));
        assert(ma as int * m as int <= FX_LIMIT as int * FX_LIMIT as int) by (nonlinear_arith)
            requires
                0 <= ma as int <= FX_LIMIT as int,
                0 <= m as int <= FX_LIMIT as int,
        ;
        assert(abs_val(ai) * (m as int) == abs_val(ai * m)) by (nonlinear_arith)
            requires
                m >= 0,
        ;
    }
    let p: u128 = ma as u128 * m as u128;
    let q: u128 = p / (d as u128);
    proof {
        assert(p as int / (d as int) <= FX_LIMIT) by (nonlinear_arith)
            requires
                d >= 1,
                p as int <= d as int * (FX_LIMIT as int),
        ;
        assert((ai >= 0 && m >= 0) ==> ai * m >= 0) by (nonlinear_arith);
        assert((ai < 0 && m >= 0) ==> ai * m <= 0) by (nonlinear_arith);
    }
    if a >= 0 {
        q as i64
    } else {
        -(q as i64)
    }
}

} // verus!
