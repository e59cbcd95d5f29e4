use particle_trails::color::Color;
use particle_trails::image::Image;
use particle_trails::seed::Seed;
use particle_trails::world::{DisplayParams, Params, SimParams, ValidationError, World};

const FX: i64 = 65536;

fn sim(count: usize) -> SimParams {
    SimParams { seed: Seed::from_hash(0x27e3771584a46455), particle_count: count, acc_limit: -1 }
}

fn display() -> DisplayParams {
    DisplayParams {
        particle_color_hue_mid: 120 * FX,
        particle_color_hue_spread: 240 * FX,
        particle_color_saturation_mid: 70 * FX,
        particle_color_saturation_spread: 20 * FX,
        particle_color_value: 100 * FX,
        particle_color_alpha: 6 * FX,
    }
}

fn count_occurrences(text: &str, pat: &str) -> usize {
    text.match_indices(pat).count()
}

#[test]
fn too_few_particles_is_rejected() {
    for n in [0usize, 1, 2] {
        match World::new(sim(n), display()) {
            Err(e) => assert_eq!(e, ValidationError::TooFewParticles),
            Ok(_) => panic!("count {} should be rejected", n),
        }
    }
}

#[test]
fn three_particles_are_accepted() {
    assert!(World::new(sim(3), display()).is_ok());
}

#[test]
fn construction_is_deterministic() {
    let a = World::new(sim(5), display()).unwrap();
    let b = World::new(sim(5), display()).unwrap();
    assert_eq!(a.generate_svg(Color::hex(0x000000ff)), b.generate_svg(Color::hex(0x000000ff)));
}

#[test]
fn updates_stay_deterministic() {
    let mut a = World::new(sim(7), display()).unwrap();
    let mut b = World::new(sim(7), display()).unwrap();
    for _ in 0..5 {
        a.update();
        b.update();
    }
    let bg = Color::hex(0x000000ff);
    assert_eq!(a.generate_svg(bg), b.generate_svg(bg));
    let mut img_a = Image::new(32, 32, bg);
    let mut img_b = Image::new(32, 32, bg);
    a.render(&mut img_a);
    b.render(&mut img_b);
    assert_eq!(img_a.to_raster_bytes(), img_b.to_raster_bytes());
}

#[test]
fn different_seeds_draw_differently() {
    let a = World::new(
        SimParams { seed: Seed::from_hash(1), particle_count: 4, acc_limit: 0 },
        display(),
    )
    .unwrap();
    let b = World::new(
        SimParams { seed: Seed::from_hash(2), particle_count: 4, acc_limit: 0 },
        display(),
    )
    .unwrap();
    let bg = Color::hex(0x000000ff);
    assert_ne!(a.generate_svg(bg), b.generate_svg(bg));
}

#[test]
fn fresh_world_svg_has_one_move_per_particle() {
    let w = World::new(sim(3), display()).unwrap();
    let svg = w.generate_svg(Color::hex(0x000000ff));
    assert_eq!(count_occurrences(&svg, "<path"), 3);
    assert_eq!(count_occurrences(&svg, " M "), 3);
    assert_eq!(count_occurrences(&svg, " L "), 0);
    for path in svg.split("<path").skip(1) {
        let d = path.split("d=\"").nth(1).unwrap();
        let d = d.split('"').next().unwrap();
        assert_eq!(count_occurrences(d, " M "), 1);
    }
    assert!(svg.starts_with("<?xml version=\"1.0\" encoding=\"UTF-8\"?>\n<svg"));
    assert!(svg.ends_with("</svg>\n"));
    assert_eq!(count_occurrences(&svg, "style=\"background: #000000ff;\""), 1);
}

#[test]
fn one_update_adds_one_line_per_particle() {
    let mut w = World::new(sim(3), display()).unwrap();
    w.update();
    let svg_once = w.generate_svg(Color::hex(0x000000ff));
    assert_eq!(count_occurrences(&svg_once, " M "), 3);
    assert_eq!(count_occurrences(&svg_once, " L "), 3);
    // The run is reproducible byte for byte.
    let mut again = World::new(sim(3), display()).unwrap();
    again.update();
    assert_eq!(svg_once, again.generate_svg(Color::hex(0x000000ff)));
    // Each particle moved by its clamped velocity: never more than one unit
    // plus a fixed-point step.
    for path in svg_once.split("d=\"").skip(1) {
        let d = path.split('"').next().unwrap();
        let nums: Vec<f64> = d
            .split_whitespace()
            .filter(|t| *t != "M" && *t != "L")
            .map(|t| t.parse().unwrap())
            .collect();
        assert_eq!(nums.len(), 4);
        let (dx, dy) = (nums[2] - nums[0], nums[3] - nums[1]);
        let step = (dx * dx + dy * dy).sqrt();
        assert!(step <= 1.0001, "step {} too large", step);
    }
}

#[test]
fn many_updates_stay_well_behaved() {
    let mut w = World::new(sim(3), display()).unwrap();
    for _ in 0..200 {
        w.update();
    }
    let svg = w.generate_svg(Color::hex(0xffffffff));
    assert_eq!(count_occurrences(&svg, "<path"), 3);
    assert_eq!(count_occurrences(&svg, " L "), 3 * 200);
}

#[test]
fn render_leaves_world_state_alone() {
    let w = World::new(sim(4), display()).unwrap();
    let bg = Color::hex(0x000000ff);
    let mut img1 = Image::new(24, 24, bg);
    let mut img2 = Image::new(24, 24, bg);
    w.render(&mut img1);
    let svg_before = w.generate_svg(bg);
    w.render(&mut img2);
    assert_eq!(img1.to_raster_bytes(), img2.to_raster_bytes());
    assert_eq!(svg_before, w.generate_svg(bg));
}

#[test]
fn render_paints_something() {
    let w = World::new(sim(16), display()).unwrap();
    let bg = Color::hex(0x000000ff);
    let mut img = Image::new(64, 64, bg);
    w.render(&mut img);
    let bytes = img.to_raster_bytes();
    let blank = Image::new(64, 64, bg).to_raster_bytes();
    assert_ne!(bytes, blank);
}

#[test]
fn file_name_lists_count_exponent_and_seed() {
    let p = Params { sim: sim(1000), display: display() };
    assert_eq!(p.file_name(), "1000-2_-1-0x27e3771584a46455.svg");
    let p2 = Params {
        sim: SimParams { seed: Seed::from_hash(0xff), particle_count: 3, acc_limit: 10 },
        display: display(),
    };
    assert_eq!(p2.file_name(), "3-2_10-0x00000000000000ff.svg");
}
