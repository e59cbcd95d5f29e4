use particle_trails::color::Color;

#[test]
fn hex_decodes_packed_channels() {
    let c = Color::hex(0x11223344);
    assert_eq!(c.r, 0x11);
    assert_eq!(c.g, 0x22);
    assert_eq!(c.b, 0x33);
    assert_eq!(c.a, 0x44);
}

#[test]
fn hex_decodes_extremes() {
    let black = Color::hex(0x000000ff);
    assert_eq!((black.r, black.g, black.b, black.a), (0, 0, 0, 255));
    let white = Color::hex(0xffffff00);
    assert_eq!((white.r, white.g, white.b, white.a), (255, 255, 255, 0));
}

#[test]
fn transparent_is_all_zero() {
    let t = Color::transparent();
    assert_eq!((t.r, t.g, t.b, t.a), (0, 0, 0, 0));
}

#[test]
fn blend_opaque_top_wins() {
    let base = Color::hex(0x12345678);
    let top = Color { r: 200, g: 100, b: 50, a: 255 };
    let out = base.blend(top);
    assert_eq!((out.r, out.g, out.b, out.a), (200, 100, 50, 255));
}

#[test]
fn blend_transparent_leaves_base() {
    let base = Color { r: 10, g: 20, b: 30, a: 128 };
    let out = base.blend(Color::transparent());
    assert_eq!((out.r, out.g, out.b, out.a), (10, 20, 30, 128));
}

#[test]
fn blend_two_transparents_is_transparent() {
    let out = Color::transparent().blend(Color::transparent());
    assert_eq!((out.r, out.g, out.b, out.a), (0, 0, 0, 0));
}

#[test]
fn blend_mid_alpha_exact() {
    // Source-over on bytes: an = 255*ta + ba*(255-ta), channel =
    // (255*tc*ta + bc*ba*(255-ta)) / an, alpha = an / 255, truncated.
    let base = Color { r: 100, g: 150, b: 200, a: 128 };
    let top = Color { r: 50, g: 60, b: 70, a: 64 };
    let out = base.blend(top);
    // an = 255*64 + 128*191 = 40768
    assert_eq!(out.a, 159); // 40768 / 255
    assert_eq!(out.r, 79); // (816000 + 2444800) / 40768
    assert_eq!(out.g, 113); // (979200 + 3667200) / 40768
    assert_eq!(out.b, 147); // (1142400 + 4889600) / 40768
}

#[test]
fn fade_scales_alpha_only() {
    let c = Color { r: 1, g: 2, b: 3, a: 200 };
    let half = c.fade(32768);
    assert_eq!((half.r, half.g, half.b, half.a), (1, 2, 3, 100));
    let full = c.fade(65536);
    assert_eq!(full.a, 200);
    let none = c.fade(0);
    assert_eq!(none.a, 0);
}

#[test]
fn hsva_axes_hit_exact_corners() {
    // Zero saturation, full value: white regardless of hue.
    let white = Color::hsva(77 * 65536, 0, 100 * 65536, 100 * 65536);
    assert_eq!((white.r, white.g, white.b, white.a), (255, 255, 255, 255));
    // Zero value: black.
    let black = Color::hsva(0, 100 * 65536, 0, 100 * 65536);
    assert_eq!((black.r, black.g, black.b), (0, 0, 0));
    // Pure red at hue zero.
    let red = Color::hsva(0, 100 * 65536, 100 * 65536, 100 * 65536);
    assert_eq!((red.r, red.g, red.b, red.a), (255, 0, 0, 255));
    // Pure green a third of the circle later.
    let green = Color::hsva(120 * 65536, 100 * 65536, 100 * 65536, 100 * 65536);
    assert_eq!((green.r, green.g, green.b), (0, 255, 0));
    // Pure blue two thirds in.
    let blue = Color::hsva(240 * 65536, 100 * 65536, 100 * 65536, 100 * 65536);
    assert_eq!((blue.r, blue.g, blue.b), (0, 0, 255));
}

#[test]
fn hsva_wraps_hue_and_clamps_percentages() {
    let a = Color::hsva(360 * 65536, 100 * 65536, 100 * 65536, 100 * 65536);
    let b = Color::hsva(0, 100 * 65536, 100 * 65536, 100 * 65536);
    assert_eq!((a.r, a.g, a.b, a.a), (b.r, b.g, b.b, b.a));
    let c = Color::hsva(-120 * 65536, 100 * 65536, 100 * 65536, 100 * 65536);
    let d = Color::hsva(240 * 65536, 100 * 65536, 100 * 65536, 100 * 65536);
    assert_eq!((c.r, c.g, c.b), (d.r, d.g, d.b));
    let e = Color::hsva(0, 200 * 65536, 300 * 65536, -50 * 65536);
    let f = Color::hsva(0, 100 * 65536, 100 * 65536, 0);
    assert_eq!((e.r, e.g, e.b, e.a), (f.r, f.g, f.b, f.a));
}

#[test]
fn hsva_gamma_lifts_midtones() {
    // Half linear light encodes well above half under the sRGB curve.
    let grey = Color::hsva(0, 0, 50 * 65536, 100 * 65536);
    assert!(grey.r == grey.g && grey.g == grey.b);
    assert!(grey.r > 180 && grey.r < 192);
}

#[test]
fn fmt_hex_is_lowercase_rrggbbaa() {
    let c = Color { r: 0xab, g: 0x00, b: 0x1f, a: 0xff };
    assert_eq!(c.fmt_hex(), "ab001fff");
    assert_eq!(Color::transparent().fmt_hex(), "00000000");
}
