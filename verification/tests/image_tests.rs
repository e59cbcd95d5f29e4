use particle_trails::color::Color;
use particle_trails::image::Image;

fn c(v: u32) -> Color {
    Color::hex(v)
}

#[test]
fn new_fills_with_background() {
    let img = Image::new(4, 3, c(0x102030ff));
    assert_eq!(img.width(), 4);
    assert_eq!(img.height(), 3);
    let bytes = img.to_raster_bytes();
    assert_eq!(bytes.len(), 4 * 4 * 3);
    for px in bytes.chunks(4) {
        assert_eq!(px, &[0x10, 0x20, 0x30, 0xff]);
    }
}

#[test]
fn put_pixel_writes_row_major() {
    let mut img = Image::new(3, 2, Color::transparent());
    img.put_pixel(2, 1, c(0xaabbccdd));
    let bytes = img.to_raster_bytes();
    // Index (2, 1) is cell 5 in row-major order.
    assert_eq!(&bytes[5 * 4..6 * 4], &[0xaa, 0xbb, 0xcc, 0xdd]);
    assert_eq!(&bytes[0..4], &[0, 0, 0, 0]);
}

#[test]
fn blend_pixel_composites_over_base() {
    let mut img = Image::new(1, 1, c(0x000000ff));
    img.blend_pixel(0, 0, Color { r: 255, g: 255, b: 255, a: 255 });
    let bytes = img.to_raster_bytes();
    assert_eq!(&bytes[0..4], &[255, 255, 255, 255]);
}

#[test]
fn clear_restores_background() {
    let mut img = Image::new(2, 2, c(0x01020304));
    img.put_pixel(0, 0, c(0xffffffff));
    img.clear();
    let bytes = img.to_raster_bytes();
    for px in bytes.chunks(4) {
        assert_eq!(px, &[1, 2, 3, 4]);
    }
}

#[test]
fn resize_centers_old_content() {
    // A 1x1 image grown to 3x3 puts the old pixel in the middle.
    let mut img = Image::new(1, 1, c(0x11111111));
    img.put_pixel(0, 0, c(0xdeadbeef));
    img.resize(3, 3);
    let bytes = img.to_raster_bytes();
    for (i, px) in bytes.chunks(4).enumerate() {
        if i == 4 {
            assert_eq!(px, &[0xde, 0xad, 0xbe, 0xef]);
        } else {
            assert_eq!(px, &[0x11, 0x11, 0x11, 0x11]);
        }
    }
}

#[test]
fn resize_up_then_down_preserves_content() {
    let mut img = Image::new(3, 3, c(0x00000000));
    for y in 0..3usize {
        for x in 0..3usize {
            img.put_pixel(x, y, c((((y * 3 + x) as u32) << 8) | 0xff));
        }
    }
    let before = img.to_raster_bytes();
    img.resize(7, 6);
    img.resize(3, 3);
    let after = img.to_raster_bytes();
    assert_eq!(before, after);
}

#[test]
fn resize_same_size_is_no_op() {
    let mut img = Image::new(2, 3, c(0x22222222));
    img.put_pixel(1, 2, c(0x99999999));
    let before = img.to_raster_bytes();
    img.resize(2, 3);
    assert_eq!(before, img.to_raster_bytes());
}

#[test]
fn draw_particle_at_pixel_center_hits_one_pixel() {
    // Fixed-point (0.5, 0.5) is the exact center of pixel (0, 0).
    let mut img = Image::new(2, 2, c(0x000000ff));
    img.draw_particle(32768, 32768, Color { r: 250, g: 10, b: 20, a: 255 });
    let bytes = img.to_raster_bytes();
    assert_eq!(&bytes[0..4], &[250, 10, 20, 255]);
    assert_eq!(&bytes[4..8], &[0, 0, 0, 255]);
    assert_eq!(&bytes[8..12], &[0, 0, 0, 255]);
    assert_eq!(&bytes[12..16], &[0, 0, 0, 255]);
}

#[test]
fn draw_particle_between_pixels_splits_weight() {
    // (1.0, 0.5) sits on the vertical edge between pixels 0 and 1: each
    // side gets half the alpha.
    let mut img = Image::new(2, 1, c(0x000000ff));
    img.draw_particle(65536, 32768, Color { r: 255, g: 255, b: 255, a: 255 });
    let bytes = img.to_raster_bytes();
    assert_eq!(bytes[0], bytes[4]);
    assert!(bytes[0] > 80 && bytes[0] < 175);
}

#[test]
fn draw_particle_far_outside_changes_nothing() {
    let mut img = Image::new(2, 2, c(0x00000000));
    let before = img.to_raster_bytes();
    img.draw_particle(-10 * 65536, 32768, Color { r: 255, g: 255, b: 255, a: 255 });
    img.draw_particle(32768, 100 * 65536, Color { r: 255, g: 255, b: 255, a: 255 });
    assert_eq!(before, img.to_raster_bytes());
}
