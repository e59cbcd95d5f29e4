//! RGBA8 colors with straight (non-premultiplied) alpha.
//!
//! Compositing follows Porter-Duff "source over". Its formulas are usually
//! stated over normalized channels in `[0, 1]`; here every step is exact
//! rational arithmetic over the byte values, truncated once at
//! requantization.

use vstd::prelude::*;
use crate::fixed::FX_ONE;

verus! {

/// A color: four 8-bit channels, straight alpha.
#[derive(Clone, Copy, Debug, PartialEq, Eq, Structural)]
pub struct Color {
    pub r: u8,
    pub g: u8,
    pub b: u8,
    pub a: u8,
}

/// The numerator of the source-over alpha, on a denominator of `255 * 255`:
/// `a = a_top + a_bot * (1 - a_top)` scaled by `255 * 255`.
pub open spec fn blend_alpha_num(ta: int, ba: int) -> int {
    255 * ta + ba * (255 - ta)
}

/// A blended color channel, requantized to a byte by truncation:
/// `(c_top * a_top + c_bot * a_bot * (1 - a_top)) / a`, all over bytes.
pub open spec fn blend_channel(tc: int, ta: int, bc: int, ba: int) -> int {
    (255 * tc * ta + bc * ba * (255 - ta)) / blend_alpha_num(ta, ba)
}

/// Source-over compositing of `top` onto `bot`; fully transparent output is
/// the all-zero color.
pub open spec fn spec_blend(bot: Color, top: Color) -> Color {
    if blend_alpha_num(top.a as int, bot.a as int) == 0 {
        Color { r: 0, g: 0, b: 0, a: 0 }
    } else {
        Color {
            r: blend_channel(top.r as int, top.a as int, bot.r as int, bot.a as int) as u8,
            g: blend_channel(top.g as int, top.a as int, bot.g as int, bot.a as int) as u8,
            b: blend_channel(top.b as int, top.a as int, bot.b as int, bot.a as int) as u8,
            a: (blend_alpha_num(top.a as int, bot.a as int) / 255) as u8,
        }
    }
}

/// A channel value stays a byte: the numerator is at most `255` times the
/// alpha numerator.
proof fn lemma_blend_channel_bound(tc: int, ta: int, bc: int, ba: int)
    requires
        0 <= tc <= 255,
        0 <= ta <= 255,
        0 <= bc <= 255,
        0 <= ba <= 255,
        blend_alpha_num(ta, ba) > 0,
    ensures
        0 <= blend_channel(tc, ta, bc, ba) <= 255,
{
    let an = blend_alpha_num(ta, ba);
    let num = 255 * tc * ta + bc * ba * (255 - ta);
    assert(0 <= num && num <= 255 * an) by (nonlinear_arith)
        requires
            0 <= tc <= 255,
            0 <= ta <= 255,
            0 <= bc <= 255,
            0 <= ba <= 255,
            an == 255 * ta + ba * (255 - ta),
            num == 255 * tc * ta + bc * ba * (255 - ta),
    ;
    assert(0 <= num / an <= 255) by (nonlinear_arith)
        requires
            an >= 1,
            0 <= num,
            num <= 255 * an,
    ;
}

impl Color {
    /// The all-zero, fully transparent color.
    pub fn transparent() -> (r: Color)
        ensures
            r == (Color { r: 0, g: 0, b: 0, a: 0 }),
    {
        Color { r: 0, g: 0, b: 0, a: 0 }
    }

    /// Decode a packed `0xRRGGBBAA` value.
    pub fn hex(rgba: u32) -> (c: Color)
        ensures
            c == spec_hex(rgba),
    {
        let r = ((rgba & 0xff00_0000) >> 24) as u8;
        let g = ((rgba & 0x00ff_0000) >> 16) as u8;
        let b = ((rgba & 0x0000_ff00) >> 8) as u8;
        let a = (rgba & 0x0000_00ff) as u8;
        proof {
            assert(((rgba & 0xff00_0000) >> 24) == rgba / 0x100_0000 % 0x100) by (bit_vector);
            assert(((rgba & 0x00ff_0000) >> 16) == rgba / 0x1_0000 % 0x100) by (bit_vector);
            assert(((rgba & 0x0000_ff00) >> 8) == rgba / 0x100 % 0x100) by (bit_vector);
            assert((rgba & 0x0000_00ff) == rgba % 0x100) by (bit_vector);
        }
        Color { r, g, b, a }
    }

    /// Source-over compositing of `top` onto `self`.
    pub fn blend(self, top: Color) -> (c: Color)
        ensures
            c == spec_blend(self, top),
    {
        let ta = top.a as u32;
        let ba = self.a as u32;
        proof {
            assert(0 <= ba as int * (255 - ta as int) <= 65025 && 255 * ta as int + ba as int * (
            255 - ta as int) <= 65025) by (nonlinear_arith)
                requires
                    0 <= ta as int <= 255,
                    0 <= ba as int <= 255,
            ;
        }
        let an: u32 = 255 * ta + ba * (255 - ta);
        if an == 0 {
            Color { r: 0, g: 0, b: 0, a: 0 }
        } else {
            let r = blend_channel_exec(top.r, ta, self.r, ba, an);
            let g = blend_channel_exec(top.g, ta, self.g, ba, an);
            let b = blend_channel_exec(top.b, ta, self.b, ba, an);
            let a = (an / 255) as u8;
            Color { r, g, b, a }
        }
    }

    /// Scale this color's alpha by the fixed-point factor `f` in `[0, 1]`,
    /// leaving the color channels alone.
    pub fn fade(self, f: i64) -> (c: Color)
        requires
            0 <= f <= FX_ONE,
        ensures
            c == spec_fade(self, f as int),
    {
        proof {
            assert(0 <= self.a as int * f <= 255 * FX_ONE) by (nonlinear_arith)
                requires
                    0 <= self.a as int <= 255,
                    0 <= f <= FX_ONE as int,
            ;
        }
        let a = ((self.a as u64 * f as u64) / (FX_ONE as u64)) as u8;
        Color { r: self.r, g: self.g, b: self.b, a }
    }
}

/// The color decoded from a packed `0xRRGGBBAA` value.
pub open spec fn spec_hex(rgba: u32) -> Color {
    Color {
        r: (rgba / 0x100_0000 % 0x100) as u8,
        g: (rgba / 0x1_0000 % 0x100) as u8,
        b: (rgba / 0x100 % 0x100) as u8,
        a: (rgba % 0x100) as u8,
    }
}

/// The color with its alpha scaled by the fixed-point factor `f`.
pub open spec fn spec_fade(c: Color, f: int) -> Color {
    Color { r: c.r, g: c.g, b: c.b, a: (c.a * f / FX_ONE as int) as u8 }
}

/// One blended channel over byte values; `an` is the alpha numerator.
fn blend_channel_exec(tc: u8, ta: u32, bc: u8, ba: u32, an: u32) -> (r: u8)
    requires
        ta <= 255,
        ba <= 255,
        an as int == blend_alpha_num(ta as int, ba as int),
        an > 0,
    ensures
        r as int == blend_channel(tc as int, ta as int, bc as int, ba as int),
{
    proof {
        lemma_blend_channel_bound(tc as int, ta as int, bc as int, ba as int);
        assert(0 <= 255 * (tc as int) * (ta as int) <= 255 * 255 * 255) by (nonlinear_arith)
            requires
                0 <= tc as int <= 255,
                0 <= ta as int <= 255,
        ;
        assert(0 <= (bc as int) * (ba as int) <= 65025 && 0 <= (bc as int) * (ba as int) * (255
            - ta as int) <= 255 * 255 * 255) by (nonlinear_arith)
            requires
                0 <= bc as int <= 255,
                0 <= ba as int <= 255,
                0 <= ta as int <= 255,
        ;
    }
    let num: u32 = 255 * (tc as u32) * ta + (bc as u32) * (ba as u32) * (255 - ta);
    (num / an) as u8
}

/// Fifth power.
pub open spec fn pow5(y: int) -> int {
    y * y * y * y * y
}

/// Twelfth power, as the square of the square of the cube.
pub open spec fn pow12(y: int) -> int {
    let c = y * y * y;
    let s = c * c;
    s * s
}

/// The twelfth power is strictly monotone on nonnegative integers.
proof fn lemma_pow12_mono(a: int, b: int)
    requires
        0 <= a < b,
    ensures
        pow12(a) < pow12(b),
{
    assert(0 <= a * a * a && a * a * a < b * b * b) by (nonlinear_arith)
        requires
            0 <= a < b,
    ;
    let ca = a * a * a;
    let cb = b * b * b;
    assert(0 <= ca * ca && ca * ca < cb * cb) by (nonlinear_arith)
        requires
            0 <= ca < cb,
    ;
    let sa = ca * ca;
    let sb = cb * cb;
    assert(sa * sa < sb * sb) by (nonlinear_arith)
        requires
            0 <= sa < sb,
    ;
}

/// `r` is the integer twelfth root of `n`.
pub open spec fn is_root12(r: int, n: int) -> bool {
    0 <= r && pow12(r) <= n && n < pow12(r + 1)
}

/// The integer twelfth root, defined by counting up.
pub open spec fn root12_rec(n: nat) -> int
    decreases n,
{
    if n == 0 {
        0
    } else {
        let p = root12_rec((n - 1) as nat);
        if pow12(p + 1) <= n {
            p + 1
        } else {
            p
        }
    }
}

/// `root12_rec` really is the integer twelfth root.
proof fn lemma_root12_rec(n: nat)
    ensures
        is_root12(root12_rec(n), n as int),
    decreases n,
{
    if n == 0 {
    } else {
        lemma_root12_rec((n - 1) as nat);
        let p = root12_rec((n - 1) as nat);
        lemma_pow12_mono(p + 1, p + 2);
    }
}

/// Integer twelfth root by bisection, for inputs up to `1024^12`.
fn root12_u128(n: u128) -> (r: u64)
    requires
        n as int <= pow12(1024),
    ensures
        r as int == root12_rec(n as nat),
        is_root12(r as int, n as int),
        r <= 1024,
{
    let mut lo: u64 = 0;
    let mut hi: u64 = 1025;
    proof {
        assert(pow12(0) == 0);
        assert(pow12(1024) < pow12(1025)) by {
            lemma_pow12_mono(1024, 1025);
        }
    }
    while hi - lo > 1
        invariant
            lo < hi,
            hi <= 1025,
            pow12(lo as int) <= n as int,
            (n as int) < pow12(hi as int),
        decreases hi - lo,
    {
        let mid = lo + (hi - lo) / 2;
        let m = mid as u128;
        proof {
            assert(0 <= m as int * m as int <= 1025 * 1025 && m as int * m as int * (m as int)
                <= 1025 * 1025 * 1025) by (nonlinear_arith)
                requires
                    0 <= m as int <= 1025,
            ;
        }
        let c: u128 = m * m * m;
        proof {
            assert(c as int * c as int <= (1025int * 1025 * 1025) * (1025int * 1025 * 1025))
                by (nonlinear_arith)
                requires
                    0 <= c as int <= 1025int * 1025 * 1025,
            ;
        }
        let s: u128 = c * c;
        proof {
            let s6 = (1025int * 1025 * 1025) * (1025int * 1025 * 1025);
            assert(s as int * s as int <= s6 * s6) by (nonlinear_arith)
                requires
                    0 <= s as int,
                    s as int <= s6,
            ;
        }
        let p: u128 = s * s;
        proof {
            assert(p as int == pow12(mid as int));
        }
        if p <= n {
            lo = mid;
        } else {
            hi = mid;
        }
    }
    proof {
        lemma_root12_rec(n as nat);
        let rr = root12_rec(n as nat);
        // Both lo and rr are twelfth roots of n, so they agree.
        if lo as int + 1 <= rr {
            lemma_pow12_mono_le(lo as int + 1, rr);
        }
        if rr + 1 <= lo as int {
            lemma_pow12_mono_le(rr + 1, lo as int);
        }
        if lo > 1024 {
            lemma_pow12_mono(1024, lo as int);
        }
    }
    lo
}

/// The twelfth power is monotone on nonnegative integers.
proof fn lemma_pow12_mono_le(a: int, b: int)
    requires
        0 <= a <= b,
    ensures
        pow12(a) <= pow12(b),
{
    if a < b {
        lemma_pow12_mono(a, b);
    }
}

/// One full hue turn, in fixed-point degrees.
pub const HUE_TURN: i64 = 360 * 65536;

/// A hue wrapped into `[0, 360)` degrees, fixed point.
pub open spec fn wrap_hue(h: int) -> int {
    if h >= 0 {
        h % (HUE_TURN as int)
    } else {
        let m = (-h) % (HUE_TURN as int);
        if m == 0 {
            0
        } else {
            HUE_TURN as int - m
        }
    }
}

/// A percentage clamped to `[0, 100]` and rescaled to a fixed-point fraction
/// of one.
pub open spec fn pct_unit(p: int) -> int {
    let c = if p < 0 {
        0
    } else if p > 100 * (FX_ONE as int) {
        100 * (FX_ONE as int)
    } else {
        p
    };
    c / 100
}

/// The sRGB transfer curve applied to a linear-light value in `[0, 1]` fixed
/// point: the linear segment below `0.0031308`, elsewhere
/// `1.055 * x^(1/2.4) - 0.055`, with the twelfth root carried out on a
/// 10-bit grid.
pub open spec fn spec_srgb_q16(lin: int) -> int {
    if lin <= 205 {
        lin * 1292 / 100
    } else {
        let y = root12_rec((pow5(lin / 64) * 0x40_0000_0000_0000_0000) as nat);
        let num = (1055 * y - 55 * 1024) * 64;
        if num < 0 {
            0
        } else {
            num / 1000
        }
    }
}

/// The color generated from hue (degrees), saturation, value and alpha
/// (percent), all fixed point: the standard hexagonal HSV map to linear RGB,
/// re-encoded through the sRGB transfer curve, quantized to bytes.
pub open spec fn spec_hsva(h: int, s: int, v: int, a: int) -> Color {
    let hw = wrap_hue(h);
    let su = pct_unit(s);
    let vu = pct_unit(v);
    let au = pct_unit(a);
    let h6 = hw / 60;
    let sector = h6 / (FX_ONE as int);
    let hm = h6 % (2 * FX_ONE as int);
    let d = if hm >= FX_ONE as int {
        hm - FX_ONE as int
    } else {
        FX_ONE as int - hm
    };
    let c = vu * su / (FX_ONE as int);
    let x = c * (FX_ONE as int - d) / (FX_ONE as int);
    let m = vu - c;
    let rgb = if sector == 0 {
        (c, x, 0int)
    } else if sector == 1 {
        (x, c, 0int)
    } else if sector == 2 {
        (0int, c, x)
    } else if sector == 3 {
        (0int, x, c)
    } else if sector == 4 {
        (x, 0int, c)
    } else {
        (c, 0int, x)
    };
    Color {
        r: (spec_srgb_q16(rgb.0 + m) * 255 / (FX_ONE as int)) as u8,
        g: (spec_srgb_q16(rgb.1 + m) * 255 / (FX_ONE as int)) as u8,
        b: (spec_srgb_q16(rgb.2 + m) * 255 / (FX_ONE as int)) as u8,
        a: (au * 255 / (FX_ONE as int)) as u8,
    }
}

/// The transfer curve keeps `[0, 1]` fixed point in `[0, 1]`.
proof fn lemma_srgb_range(lin: int)
    requires
        0 <= lin <= FX_ONE,
    ensures
        0 <= spec_srgb_q16(lin) <= FX_ONE,
{
    if lin <= 205 {
        assert(0 <= lin * 1292 / 100 <= FX_ONE) by (nonlinear_arith)
            requires
                0 <= lin <= 205,
        ;
    } else {
        let xg = lin / 64;
        assert(0 <= xg <= 1024);
        lemma_pow5_bound(xg);
        let n = pow5(xg) * 0x40_0000_0000_0000_0000;
        lemma_pow12_of_1024();
        assert(0 <= n <= pow12(1024));
        lemma_root12_rec(n as nat);
        let y = root12_rec(n as nat);
        if y > 1024 {
            lemma_pow12_mono(1024, y);
        }
        assert(0 <= y <= 1024);
        let num = (1055 * y - 55 * 1024) * 64;
        assert(num <= 65536000);
        assert(num >= 0 ==> num / 1000 <= FX_ONE);
    }
}

/// The fifth power of a value on the 10-bit grid stays within fifty bits.
proof fn lemma_pow5_bound(x: int)
    requires
        0 <= x <= 1024,
    ensures
        0 <= pow5(x) <= 0x4_0000_0000_0000,
{
    assert(0 <= x * x * x * x * x <= 0x4_0000_0000_0000 && 0 <= x * x <= 0x10_0000 && 0 <= x
        * x * x <= 0x4000_0000 && 0 <= x * x * x * x <= 0x100_0000_0000) by (nonlinear_arith)
        requires
            0 <= x <= 1024,
    ;
}

/// The twelfth power of the grid size, as a literal.
proof fn lemma_pow12_of_1024()
    ensures
        pow12(1024) == 0x100_0000_0000_0000_0000_0000_0000_0000,
{
    assert(1024int * 1024 * 1024 == 0x4000_0000);
    assert(0x4000_0000int * 0x4000_0000 == 0x1000_0000_0000_0000);
    assert(0x1000_0000_0000_0000int * 0x1000_0000_0000_0000
        == 0x100_0000_0000_0000_0000_0000_0000_0000);
}

/// Srgb transfer curve, in execution.
fn srgb_q16(lin: i64) -> (r: i64)
    requires
        0 <= lin <= FX_ONE,
    ensures
        r as int == spec_srgb_q16(lin as int),
        0 <= r <= FX_ONE,
{
    proof {
        lemma_srgb_range(lin as int);
    }
    if lin <= 205 {
        ((lin as u64 * 1292) / 100) as i64
    } else {
        let xg: u64 = lin as u64 / 64;
        proof {
            lemma_pow5_bound(xg as int);
            lemma_pow12_of_1024();
            assert(0 <= xg as int * (xg as int) <= 0x10_0000 && 0 <= xg as int * (xg as int) * (
            xg as int) <= 0x4000_0000 && 0 <= xg as int * (xg as int) * (xg as int) * (xg as int)
                <= 0x100_0000_0000 && 0 <= xg as int * (xg as int) * (xg as int) * (xg as int) * (
            xg as int) <= 0x4_0000_0000_0000) by (nonlinear_arith)
                requires
                    0 <= xg as int <= 1024,
            ;
        }
        let x5: u128 = xg as u128 * xg as u128 * xg as u128 * xg as u128 * xg as u128;
        let n: u128 = x5 * 0x40_0000_0000_0000_0000;
        let y = root12_u128(n);
        let scaled: u64 = 1055 * y;
        if scaled < 56320 {
            0
        } else {
            (((scaled - 56320) * 64) / 1000) as i64
        }
    }
}

impl Color {
    /// Generate a color from hue (degrees), saturation, value and alpha
    /// (percent), all fixed point. The hue wraps around the circle; the
    /// other inputs clamp to `[0, 100]`.
    pub fn hsva(h: i64, s: i64, v: i64, a: i64) -> (c: Color)
        ensures
            c == spec_hsva(h as int, s as int, v as int, a as int),
    {
        let hw: u64 = if h >= 0 {
            (h as u64) % (HUE_TURN as u64)
        } else {
            let m = ((-(h as i128)) as u128 % (HUE_TURN as u128)) as u64;
            if m == 0 {
                0
            } else {
                (HUE_TURN as u64) - m
            }
        };
        let su: u64 = pct_unit_exec(s);
        let vu: u64 = pct_unit_exec(v);
        let au: u64 = pct_unit_exec(a);
        let h6: u64 = hw / 60;
        let sector: u64 = h6 / (FX_ONE as u64);
        let hm: u64 = h6 % (2 * FX_ONE as u64);
        let d: u64 = if hm >= FX_ONE as u64 {
            hm - FX_ONE as u64
        } else {
            FX_ONE as u64 - hm
        };
        proof {
            assert(vu as int * su as int / (FX_ONE as int) <= vu as int) by (nonlinear_arith)
                requires
                    0 <= vu as int <= FX_ONE as int,
                    0 <= su as int <= FX_ONE as int,
                    FX_ONE == 65536,
            ;
        }
        let c: u64 = vu * su / (FX_ONE as u64);
        proof {
            assert(c as int * (FX_ONE as int - d as int) / (FX_ONE as int) <= c as int)
                by (nonlinear_arith)
                requires
                    0 <= c as int <= FX_ONE as int,
                    0 <= d as int <= FX_ONE as int,
                    FX_ONE == 65536,
            ;
        }
        let x: u64 = c * (FX_ONE as u64 - d) / (FX_ONE as u64);
        let m: u64 = vu - c;
        let r0: u64;
        let g0: u64;
        let b0: u64;
        if sector == 0 {
            r0 = c;
            g0 = x;
            b0 = 0;
        } else if sector == 1 {
            r0 = x;
            g0 = c;
            b0 = 0;
        } else if sector == 2 {
            r0 = 0;
            g0 = c;
            b0 = x;
        } else if sector == 3 {
            r0 = 0;
            g0 = x;
            b0 = c;
        } else if sector == 4 {
            r0 = x;
            g0 = 0;
            b0 = c;
        } else {
            r0 = c;
            g0 = 0;
            b0 = x;
        }
        let rl = srgb_q16((r0 + m) as i64);
        let gl = srgb_q16((g0 + m) as i64);
        let bl = srgb_q16((b0 + m) as i64);
        let rb = ((rl as u64 * 255) / (FX_ONE as u64)) as u8;
        let gb = ((gl as u64 * 255) / (FX_ONE as u64)) as u8;
        let bb = ((bl as u64 * 255) / (FX_ONE as u64)) as u8;
        let ab = ((au * 255) / (FX_ONE as u64)) as u8;
        Color { r: rb, g: gb, b: bb, a: ab }
    }
}

/// Clamp a percentage and rescale it to a fixed-point fraction.
fn pct_unit_exec(p: i64) -> (r: u64)
    ensures
        r as int == pct_unit(p as int),
        r <= FX_ONE as u64,
{
    let c: i64 = if p < 0 {
        0
    } else if p > 100 * FX_ONE {
        100 * FX_ONE
    } else {
        p
    };
    (c as u64) / 100
}

/// Compositing a fully opaque color paints exactly that color.
///
/// For every base color, blending a top color whose alpha is `255` onto it
/// yields the top color itself.
pub proof fn lemma_blend_opaque(bot: Color, top: Color)
    requires
        top.a == 255,
    ensures
        spec_blend(bot, top) == top,
{
    let ba = bot.a as int;
    assert(blend_alpha_num(255, ba) == 65025);
    lemma_channel_opaque(top.r as int, bot.r as int, ba);
    lemma_channel_opaque(top.g as int, bot.g as int, ba);
    lemma_channel_opaque(top.b as int, bot.b as int, ba);
    assert(65025int / 255 == 255);
}

/// With an opaque top layer the bottom channel drops out entirely.
proof fn lemma_channel_opaque(tc: int, bc: int, ba: int)
    requires
        0 <= tc <= 255,
    ensures
        blend_channel(tc, 255, bc, ba) == tc,
{
    assert(255 * tc * 255 + bc * ba * ((255 - 255) as int) == 65025 * tc) by (nonlinear_arith);
    assert(65025 * tc / 65025 == tc) by (nonlinear_arith)
        requires
            0 <= tc,
    ;
}

/// Compositing the transparent color leaves any base with visible alpha
/// unchanged.
pub proof fn lemma_blend_transparent(bot: Color)
    requires
        bot.a > 0,
    ensures
        spec_blend(bot, Color { r: 0, g: 0, b: 0, a: 0 }) == bot,
{
    let ba = bot.a as int;
    assert(blend_alpha_num(0, ba) == ba * 255);
    assert(ba * 255 >= 255) by (nonlinear_arith)
        requires
            ba >= 1,
    ;
    lemma_channel_under_clear(bot.r as int, ba);
    lemma_channel_under_clear(bot.g as int, ba);
    lemma_channel_under_clear(bot.b as int, ba);
    assert(ba * 255 / 255 == ba) by (nonlinear_arith)
        requires
            ba >= 0,
    ;
}

/// At the boundary the identity gives way: compositing the transparent
/// color onto a base with no alpha yields the all-zero color, whatever the
/// base's color channels held.
pub proof fn lemma_blend_transparent_on_clear(bot: Color)
    requires
        bot.a == 0,
    ensures
        spec_blend(bot, Color { r: 0, g: 0, b: 0, a: 0 }) == (Color { r: 0, g: 0, b: 0, a: 0 }),
{
    assert(blend_alpha_num(0, 0) == 0);
}

/// With a fully clear top layer the bottom channel passes through exactly.
proof fn lemma_channel_under_clear(bc: int, ba: int)
    requires
        0 <= bc <= 255,
        1 <= ba <= 255,
    ensures
        blend_channel(0, 0, bc, ba) == bc,
{
    assert(255 * 0 * 0 + bc * ba * (255 - 0) == bc * (ba * 255)) by (nonlinear_arith);
    assert(blend_alpha_num(0, ba) == ba * 255);
    assert(bc * (ba * 255) / (ba * 255) == bc) by (nonlinear_arith)
        requires
            0 <= bc,
            ba * 255 >= 255,
    ;
}

} // verus!
