use particle_trails::fixed::{fx_add_sat, fx_mul_sat, fx_sub_sat, isqrt_u128, mul_div_trunc};
use particle_trails::math::{cos_turn, lerp, sin_turn, Vec2};

const FX: i64 = 65536;
const LIMIT: i64 = 0x100_0000_0000;

#[test]
fn saturating_scalar_ops_are_exact_in_range() {
    assert_eq!(fx_add_sat(3 * FX, 4 * FX), 7 * FX);
    assert_eq!(fx_sub_sat(3 * FX, 4 * FX), -FX);
    assert_eq!(fx_mul_sat(3 * FX, -2 * FX), -6 * FX);
    // Truncation is toward zero on both signs.
    assert_eq!(fx_mul_sat(1, 1), 0);
    assert_eq!(fx_mul_sat(-1, 1), 0);
}

#[test]
fn saturating_scalar_ops_clamp_at_the_band() {
    assert_eq!(fx_add_sat(LIMIT, LIMIT), LIMIT);
    assert_eq!(fx_sub_sat(-LIMIT, LIMIT), -LIMIT);
    assert_eq!(fx_mul_sat(LIMIT, LIMIT), LIMIT);
    assert_eq!(fx_mul_sat(LIMIT, -LIMIT), -LIMIT);
}

#[test]
fn isqrt_is_the_rounded_down_root() {
    assert_eq!(isqrt_u128(0), 0);
    assert_eq!(isqrt_u128(1), 1);
    assert_eq!(isqrt_u128(3), 1);
    assert_eq!(isqrt_u128(4), 2);
    assert_eq!(isqrt_u128(99), 9);
    assert_eq!(isqrt_u128(100), 10);
    assert_eq!(isqrt_u128((1u128 << 80) - 1), (1 << 40) - 1);
}

#[test]
fn mul_div_trunc_rounds_toward_zero() {
    assert_eq!(mul_div_trunc(7, 3, 2), 10); // 21 / 2
    assert_eq!(mul_div_trunc(-7, 3, 2), -10);
}

#[test]
fn lerp_maps_ranges_exactly() {
    // Halfway through [0, 10] onto [0, 100].
    assert_eq!(lerp(5 * FX, 0, 10 * FX, 0, 100 * FX), 50 * FX);
    // Endpoints map to endpoints.
    assert_eq!(lerp(0, 0, 10 * FX, 7 * FX, 100 * FX), 7 * FX);
    assert_eq!(lerp(10 * FX, 0, 10 * FX, 7 * FX, 100 * FX), 100 * FX);
    // Descending target range.
    assert_eq!(lerp(5 * FX, 0, 10 * FX, 100 * FX, 0), 50 * FX);
}

#[test]
fn vector_ops_are_exact() {
    let a = Vec2::new(3 * FX, 4 * FX);
    let b = Vec2::new(-FX, 2 * FX);
    assert_eq!(a.dot(b), ((3 * FX) as i128) * ((-FX) as i128) + ((4 * FX) as i128) * ((2 * FX)
        as i128));
    assert_eq!(a.length_squared(), ((3 * FX) as i128) * ((3 * FX) as i128) + ((4 * FX) as i128)
        * ((4 * FX) as i128));
    assert_eq!(a.distance_squared(a), 0);
}

#[test]
fn clamp_length_scales_long_vectors() {
    // A 3-4-5 vector clamped to length one.
    let v = Vec2::new(3 * FX, 4 * FX);
    let r = v.clamp_length_max(FX);
    assert_eq!(r.x, 3 * FX / 5);
    assert_eq!(r.y, 4 * FX / 5);
    // A short vector passes through unchanged.
    let s = Vec2::new(100, -200);
    let kept = s.clamp_length_max(FX);
    assert_eq!((kept.x, kept.y), (100, -200));
    // The clamped length never exceeds the cap by more than one step.
    let n = (r.x as i128) * (r.x as i128) + (r.y as i128) * (r.y as i128);
    assert!(n <= ((FX + 1) as i128) * ((FX + 1) as i128));
}

#[test]
fn turn_trig_hits_the_axes() {
    assert_eq!(sin_turn(0), 0);
    assert_eq!(sin_turn(FX / 4), FX);
    assert_eq!(sin_turn(FX / 2), 0);
    assert_eq!(sin_turn(3 * FX / 4), -FX);
    assert_eq!(cos_turn(0), FX);
    assert_eq!(cos_turn(FX / 4), 0);
    assert_eq!(cos_turn(FX / 2), -FX);
    assert_eq!(cos_turn(3 * FX / 4), 0);
}

#[test]
fn turn_trig_stays_in_the_unit_band() {
    let mut t: i64 = 0;
    while t < FX {
        let s = sin_turn(t);
        let c = cos_turn(t);
        assert!(-FX <= s && s <= FX);
        assert!(-FX <= c && c <= FX);
        t += 1031;
    }
}
