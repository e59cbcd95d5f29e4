//! Fixed-point 2D vectors and interpolation.

use vstd::prelude::*;
use crate::fixed::{
    abs_val, div_trunc, fx_clamp, fx_in_range, fx_add_sat, fx_sub_sat, is_isqrt, isqrt_rec,
    isqrt_u128, lemma_div_trunc_abs, lemma_isqrt_rec, mul_div_trunc, FX_LIMIT, FX_ONE,
};

verus! {

/// A 2D vector of Q16.16 fixed-point coordinates.
#[derive(Clone, Copy, Debug, PartialEq, Eq, Structural)]
pub struct Vec2 {
    pub x: i64,
    pub y: i64,
}

/// Both coordinates are inside the representable band.
pub open spec fn vec2_wf(v: Vec2) -> bool {
    fx_in_range(v.x as int) && fx_in_range(v.y as int)
}

/// The squared Euclidean length, exact (scaled by `FX_ONE * FX_ONE`).
pub open spec fn norm_sq(v: Vec2) -> int {
    v.x * v.x + v.y * v.y
}

/// The vector clamped to length at most `m`: unchanged when already short
/// enough, otherwise scaled by `m` over the rounded-down true length.
pub open spec fn spec_clamp_length(v: Vec2, m: int) -> Vec2 {
    if norm_sq(v) <= m * m {
        v
    } else {
        let len = isqrt_rec(norm_sq(v) as nat);
        Vec2 { x: div_trunc(v.x * m, len) as i64, y: div_trunc(v.y * m, len) as i64 }
    }
}

/// Linear interpolation: the value at `x` of the line mapping
/// `[old_min, old_max]` onto `[new_min, new_max]`, rounded toward zero and
/// clamped into the representable band.
pub open spec fn spec_lerp(x: int, old_min: int, old_max: int, new_min: int, new_max: int) -> int {
    fx_clamp(new_min + div_trunc((x - old_min) * (new_max - new_min), old_max - old_min))
}

impl Vec2 {
    /// Build a vector from its coordinates.
    pub fn new(x: i64, y: i64) -> (r: Vec2)
        ensures
            r == (Vec2 { x, y }),
    {
        Vec2 { x, y }
    }

    /// Componentwise saturating addition.
    pub fn add_sat(self, other: Vec2) -> (r: Vec2)
        requires
            vec2_wf(self),
            vec2_wf(other),
        ensures
            r.x as int == fx_clamp(self.x + other.x),
            r.y as int == fx_clamp(self.y + other.y),
            vec2_wf(r),
    {
        Vec2 { x: fx_add_sat(self.x, other.x), y: fx_add_sat(self.y, other.y) }
    }

    /// Componentwise saturating subtraction.
    pub fn sub_sat(self, other: Vec2) -> (r: Vec2)
        requires
            vec2_wf(self),
            vec2_wf(other),
        ensures
            r.x as int == fx_clamp(self.x - other.x),
            r.y as int == fx_clamp(self.y - other.y),
            vec2_wf(r),
    {
        Vec2 { x: fx_sub_sat(self.x, other.x), y: fx_sub_sat(self.y, other.y) }
    }

    /// The dot product, exact (scaled by `FX_ONE * FX_ONE`).
    pub fn dot(self, other: Vec2) -> (r: i128)
        requires
            vec2_wf(self),
            vec2_wf(other),
        ensures
            r as int == self.x * other.x + self.y * other.y,
    {
        proof {
            lemma_prod_in_band(self.x as int, other.x as int);
            lemma_prod_in_band(self.y as int, other.y as int);
        }
        self.x as i128 * other.x as i128 + self.y as i128 * other.y as i128
    }

    /// The squared length, exact.
    pub fn length_squared(self) -> (r: i128)
        requires
            vec2_wf(self),
        ensures
            r as int == norm_sq(self),
            r >= 0,
    {
        proof {
            lemma_norm_sq_bounds(self);
        }
        self.dot(self)
    }

    /// The squared distance to `other`, measured on the saturating
    /// difference.
    pub fn distance_squared(self, other: Vec2) -> (r: i128)
        requires
            vec2_wf(self),
            vec2_wf(other),
        ensures
            r as int == norm_sq(
                Vec2 {
                    x: fx_clamp(self.x - other.x) as i64,
                    y: fx_clamp(self.y - other.y) as i64,
                },
            ),
            r >= 0,
    {
        self.sub_sat(other).length_squared()
    }

    /// Clamp this vector's length to at most `max_length`.
    pub fn clamp_length_max(self, max_length: i64) -> (r: Vec2)
        requires
            vec2_wf(self),
            0 <= max_length <= FX_LIMIT,
        ensures
            r == spec_clamp_length(self, max_length as int),
            vec2_wf(r),
    {
        proof {
            lemma_norm_sq_bounds(self);
            lemma_prod_in_band(max_length as int, max_length as int);
        }
        let lsq: i128 = self.length_squared();
        let m2: i128 = max_length as i128 * max_length as i128;
        if lsq > m2 {
            let lenu: u64 = isqrt_u128(lsq as u128);
            proof {
                lemma_isqrt_in_band(lenu as int, lsq as int);
            }
            let len: i64 = lenu as i64;
            proof {
                lemma_component_small(self.x as int, lsq as int, len as int);
                lemma_component_small(self.y as int, lsq as int, len as int);
                assert(len >= 1) by (nonlinear_arith)
                    requires
                        is_isqrt(len as int, lsq as int),
                        lsq as int >= 1,
                ;
                lemma_abs_mul_le(self.x as int, max_length as int, len as int);
                lemma_abs_mul_le(self.y as int, max_length as int, len as int);
            }
            let rx = mul_div_trunc(self.x, max_length, len);
            let ry = mul_div_trunc(self.y, max_length, len);
            Vec2 { x: rx, y: ry }
        } else {
            self
        }
    }
}

/// A product of two in-band scalars fits comfortably in 128 bits.
proof fn lemma_prod_in_band(a: int, b: int)
    requires
        -FX_LIMIT <= a <= FX_LIMIT,
        -FX_LIMIT <= b <= FX_LIMIT,
    ensures
        -(FX_LIMIT as int * FX_LIMIT) <= a * b <= FX_LIMIT as int * FX_LIMIT,
{
    assert(-(FX_LIMIT as int * FX_LIMIT) <= a * b <= FX_LIMIT as int * FX_LIMIT)
        by (nonlinear_arith)
        requires
            -FX_LIMIT <= a <= FX_LIMIT,
            -FX_LIMIT <= b <= FX_LIMIT,
    ;
}

/// The squared norm of an in-band vector is nonnegative and bounded.
proof fn lemma_norm_sq_bounds(v: Vec2)
    requires
        vec2_wf(v),
    ensures
        0 <= norm_sq(v) <= 2 * (FX_LIMIT as int * FX_LIMIT),
        v.x * v.x <= norm_sq(v),
        v.y * v.y <= norm_sq(v),
{
    assert(0 <= v.x * v.x <= FX_LIMIT as int * FX_LIMIT && 0 <= v.y * v.y <= FX_LIMIT as int
        * FX_LIMIT) by (nonlinear_arith)
        requires
            -FX_LIMIT <= v.x <= FX_LIMIT,
            -FX_LIMIT <= v.y <= FX_LIMIT,
    ;
}

/// An integer square root of a number in the band fits well below `i64`.
proof fn lemma_isqrt_in_band(r: int, n: int)
    requires
        is_isqrt(r, n),
        n <= 2 * (FX_LIMIT as int * FX_LIMIT),
    ensures
        r <= 0x4_0000_0000_0000,
{
    assert(r > 0x4_0000_0000_0000 ==> r * r > 2 * (FX_LIMIT as int * FX_LIMIT))
        by (nonlinear_arith);
}

/// Each component's magnitude is at most the integer square root of the
/// squared norm.
proof fn lemma_component_small(x: int, lsq: int, len: int)
    requires
        is_isqrt(len, lsq),
        x * x <= lsq,
    ensures
        abs_val(x) <= len,
{
    assert(abs_val(x) > len ==> x * x >= (len + 1) * (len + 1)) by (nonlinear_arith)
        requires
            len >= 0,
    ;
}

/// `|x * m| <= len * FX_LIMIT` when `|x| <= len` and `0 <= m <= FX_LIMIT`.
proof fn lemma_abs_mul_le(x: int, m: int, len: int)
    requires
        abs_val(x) <= len,
        0 <= m <= FX_LIMIT,
    ensures
        abs_val(x * m) <= len * FX_LIMIT,
{
    assert(abs_val(x * m) == abs_val(x) * m) by (nonlinear_arith)
        requires
            m >= 0,
    ;
    assert(abs_val(x) * m <= len * FX_LIMIT) by (nonlinear_arith)
        requires
            0 <= abs_val(x) <= len,
            0 <= m <= FX_LIMIT,
    ;
}

/// Clamping to length `m` leaves a short vector alone and otherwise yields a
/// vector whose squared length is at most `(m + 1) * (m + 1)`: scaling by the
/// rounded-down length can overshoot the target length by less than one
/// fixed-point step.
pub proof fn lemma_clamp_length_norm(v: Vec2, m: int)
    requires
        vec2_wf(v),
        0 <= m <= FX_LIMIT,
    ensures
        norm_sq(spec_clamp_length(v, m)) <= if norm_sq(v) <= m * m {
            norm_sq(v)
        } else {
            (m + 1) * (m + 1)
        },
{
    if norm_sq(v) <= m * m {
    } else {
        let lsq = norm_sq(v);
        lemma_norm_sq_bounds(v);
        lemma_isqrt_rec(lsq as nat);
        let len = isqrt_rec(lsq as nat);
        assert(is_isqrt(len, lsq));
        assert(len >= 1) by (nonlinear_arith)
            requires
                is_isqrt(len, lsq),
                lsq >= 1,
        ;
        assert(len >= m) by (nonlinear_arith)
            requires
                is_isqrt(len, lsq),
                lsq > m * m,
                m >= 0,
        ;
        let rx = div_trunc(v.x * m, len);
        let ry = div_trunc(v.y * m, len);
        lemma_div_trunc_abs(v.x * m, len);
        lemma_div_trunc_abs(v.y * m, len);
        lemma_component_small(v.x as int, lsq, len);
        lemma_component_small(v.y as int, lsq, len);
        assert(abs_val(v.x * m) <= len * m) by (nonlinear_arith)
            requires
                abs_val(v.x as int) <= len,
                m >= 0,
        ;
        assert(abs_val(v.y * m) <= len * m) by (nonlinear_arith)
            requires
                abs_val(v.y as int) <= len,
                m >= 0,
        ;
        assert(abs_val(rx) <= m) by (nonlinear_arith)
            requires
                abs_val(rx) * len <= len * m,
                len >= 1,
        ;
        assert(abs_val(ry) <= m) by (nonlinear_arith)
            requires
                abs_val(ry) * len <= len * m,
                len >= 1,
        ;
        assert(norm_sq(spec_clamp_length(v, m)) == rx * rx + ry * ry);
        // |rx| * len <= |x * m|, so (rx * len)^2 <= (x * m)^2.
        assert(len * len * (rx * rx) <= (v.x * m) * (v.x * m)) by (nonlinear_arith)
            requires
                abs_val(rx) * len <= abs_val(v.x * m),
                len >= 1,
        ;
        assert(len * len * (ry * ry) <= (v.y * m) * (v.y * m)) by (nonlinear_arith)
            requires
                abs_val(ry) * len <= abs_val(v.y * m),
                len >= 1,
        ;
        // (x*m)^2 + (y*m)^2 == lsq * m^2 <= ((len+1) * m)^2 <= (len * (m+1))^2.
        assert((v.x * m) * (v.x * m) + (v.y * m) * (v.y * m) == lsq * (m * m))
            by (nonlinear_arith)
            requires
                lsq == v.x * v.x + v.y * v.y,
        ;
        assert(lsq * (m * m) <= ((len + 1) * (len + 1)) * (m * m)) by (nonlinear_arith)
            requires
                lsq < (len + 1) * (len + 1),
                m * m >= 0,
        ;
        assert(((len + 1) * (len + 1)) * (m * m) <= (len * len) * ((m + 1) * (m + 1)))
            by (nonlinear_arith)
            requires
                0 <= m <= len,
        ;
        assert(rx * rx + ry * ry <= (m + 1) * (m + 1)) by (nonlinear_arith)
            requires
                len >= 1,
                len * len * (rx * rx) <= (v.x * m) * (v.x * m),
                len * len * (ry * ry) <= (v.y * m) * (v.y * m),
                (v.x * m) * (v.x * m) + (v.y * m) * (v.y * m) <= (len * len) * ((m + 1) * (m
                    + 1)),
        ;
    }
}

/// Rational approximation of the sine over half a turn: for `x` in
/// `[0, FX_ONE]` half-turns, `sin(pi * x)` is approximated by
/// `16 u / (5 - 4 u)` with `u = x (1 - x)`, all in fixed point. The value is
/// `0` at both ends and exactly `1` at the quarter turn.
pub open spec fn spec_sin_half(x: int) -> int {
    let u = x * (FX_ONE - x) / FX_ONE as int;
    (16 * u * FX_ONE) / (5 * FX_ONE - 4 * u)
}

/// The sine of `t` turns, for `t` in `[0, 1)`: the half-turn approximation,
/// mirrored and negated on the second half.
pub open spec fn spec_sin_turn(t: int) -> int {
    if t <= FX_ONE as int / 2 {
        spec_sin_half(2 * t)
    } else {
        -spec_sin_half(2 * t - FX_ONE)
    }
}

/// The cosine of `t` turns, for `t` in `[0, 1)`: the sine a quarter turn
/// ahead.
pub open spec fn spec_cos_turn(t: int) -> int {
    let c = t + FX_ONE as int / 4;
    if c < FX_ONE as int {
        spec_sin_turn(c)
    } else {
        spec_sin_turn(c - FX_ONE)
    }
}

/// The half-turn sine stays within `[0, 1]`.
proof fn lemma_sin_half_range(x: int)
    requires
        0 <= x <= FX_ONE,
    ensures
        0 <= spec_sin_half(x) <= FX_ONE,
{
    let u = x * (FX_ONE - x) / FX_ONE as int;
    assert(0 <= x * (FX_ONE - x) <= 0x4000_0000) by (nonlinear_arith)
        requires
            0 <= x <= FX_ONE as int,
    ;
    assert(0 <= u <= 16384) by (nonlinear_arith)
        requires
            u == x * (FX_ONE - x) / FX_ONE as int,
            0 <= x * (FX_ONE - x) <= 0x4000_0000,
    ;
    assert(16 * u * FX_ONE <= (5 * FX_ONE - 4 * u) * FX_ONE) by (nonlinear_arith)
        requires
            0 <= u <= 16384,
    ;
    assert(0 <= (16 * u * FX_ONE) / (5 * FX_ONE - 4 * u) <= FX_ONE) by (nonlinear_arith)
        requires
            0 <= u <= 16384,
            16 * u * FX_ONE <= (5 * FX_ONE - 4 * u) * FX_ONE,
    ;
}

/// Half-turn sine, in execution.
fn sin_half(x: i64) -> (r: i64)
    requires
        0 <= x <= FX_ONE,
    ensures
        r as int == spec_sin_half(x as int),
        0 <= r <= FX_ONE,
{
    proof {
        lemma_sin_half_range(x as int);
        assert(0 <= x as int * (FX_ONE - x as int) <= 0x4000_0000) by (nonlinear_arith)
            requires
                0 <= x as int <= FX_ONE as int,
        ;
    }
    let prod: u64 = (x as u64) * ((FX_ONE - x) as u64);
    let u: u64 = prod / (FX_ONE as u64);
    proof {
        assert(0 <= u as int <= 16384) by (nonlinear_arith)
            requires
                u as int == prod as int / FX_ONE as int,
                0 <= prod as int <= 0x4000_0000,
        ;
    }
    let num: u64 = 16 * u * (FX_ONE as u64);
    let den: u64 = 5 * (FX_ONE as u64) - 4 * u;
    (num / den) as i64
}

/// The sine of `t` turns.
pub fn sin_turn(t: i64) -> (r: i64)
    requires
        0 <= t < FX_ONE,
    ensures
        r as int == spec_sin_turn(t as int),
        -FX_ONE <= r <= FX_ONE,
{
    if t <= FX_ONE / 2 {
        sin_half(2 * t)
    } else {
        -sin_half(2 * t - FX_ONE)
    }
}

/// The cosine of `t` turns.
pub fn cos_turn(t: i64) -> (r: i64)
    requires
        0 <= t < FX_ONE,
    ensures
        r as int == spec_cos_turn(t as int),
        -FX_ONE <= r <= FX_ONE,
{
    let c = t + FX_ONE / 4;
    if c < FX_ONE {
        sin_turn(c)
    } else {
        sin_turn(c - FX_ONE)
    }
}

/// Linear interpolation between two ranges.
pub fn lerp(x: i64, old_min: i64, old_max: i64, new_min: i64, new_max: i64) -> (r: i64)
    requires
        fx_in_range(x as int),
        fx_in_range(old_min as int),
        fx_in_range(old_max as int),
        fx_in_range(new_min as int),
        fx_in_range(new_max as int),
        old_min < old_max,
    ensures
        r as int == spec_lerp(x as int, old_min as int, old_max as int, new_min as int,
            new_max as int),
        fx_in_range(r as int),
{
    let dx: i64 = x - old_min;
    let span_new: i64 = new_max - new_min;
    let span_old: i64 = old_max - old_min;
    let neg = (dx < 0) != (span_new < 0);
    let ma: u64 = if dx >= 0 {
        dx as u64
    } else {
        (-dx) as u64
    };
    let mb: u64 = if span_new >= 0 {
        span_new as u64
    } else {
        (-span_new) as u64
    };
    let ghost ai = dx as int;
    let ghost bi = span_new as int;
    proof {
        assert(ma as int == abs_val(ai) && mb as int == abs_val(bi));
        assert(ma as int * mb as int <= (4 * FX_LIMIT) as int * (4 * FX_LIMIT))
            by (nonlinear_arith)
            requires
                0 <= ma as int <= 2 * FX_LIMIT,
                0 <= mb as int <= 2 * FX_LIMIT,
        ;
        assert(abs_val(ai) * abs_val(bi) == abs_val(ai * bi)) by (nonlinear_arith);
        assert((ai >= 0 && bi >= 0) ==> ai * bi >= 0) by (nonlinear_arith);
        assert((ai < 0 && bi < 0) ==> ai * bi >= 0) by (nonlinear_arith);
        assert((ai >= 0 && bi < 0) ==> ai * bi <= 0) by (nonlinear_arith);
        assert((ai < 0 && bi >= 0) ==> ai * bi <= 0) by (nonlinear_arith);
    }
    let p: u128 = ma as u128 * mb as u128;
    let q: u128 = p / (span_old as u128);
    proof {
        assert(q as int <= p as int) by (nonlinear_arith)
            requires
                span_old as int >= 1,
                q as int == p as int / (span_old as int),
                p as int >= 0,
        ;
    }
    let signed: i128 = if neg {
        -(q as i128)
    } else {
        q as i128
    };
    proof {
        assert(signed as int == div_trunc(ai * bi, span_old as int));
    }
    let shifted: i128 = new_min as i128 + signed;
    if shifted > FX_LIMIT as i128 {
        FX_LIMIT
    } else if shifted < -(FX_LIMIT as i128) {
        -FX_LIMIT
    } else {
        shifted as i64
    }
}

} // verus!
