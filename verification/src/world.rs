//! The world: per-particle state, deterministic generation, the physics
//! tick, frame rendering, and history-based vector export.
//!
//! Every particle steers toward a point projected along the line between its
//! two fixed partner particles. All randomness flows from the seed hash
//! through four independent ChaCha20 streams, one per generated array, so a
//! world is a pure function of its parameters.

use vstd::prelude::*;
use crate::color::{spec_hsva, Color};
use crate::fixed::{
    div_trunc, fx_add_sat, fx_clamp, fx_in_range, fx_mul_sat, fx_mul_val, fx_scale_sat, FX_LIMIT,
    FX_ONE, FX_T_MAX,
};
use crate::math::{
    cos_turn, lemma_clamp_length_norm, lerp, norm_sq, sin_turn, spec_clamp_length, spec_cos_turn,
    spec_lerp, spec_sin_turn, vec2_wf, Vec2,
};
use crate::image::{max_int, min_int, spec_draw_particle, Image};
use crate::text::{
    push_dec, push_fx_dec, push_int_dec, spec_dec, spec_fx_dec, spec_hex_fixed, spec_int_dec,
};
use vstd::string::StringExecFns;
use crate::rng::{
    chacha_word, spec_other_index, spec_third_index, stream_fx_between, stream_u64, WordStream,
};
use crate::seed::Seed;
use crate::history::History;

verus! {

/// Largest accepted particle count, so that per-particle fixed-point
/// arithmetic stays inside the representable band.
pub const MAX_PARTICLE_COUNT: usize = 0x100_0000;

/// Bytes one recorded position takes: two eight-byte coordinates.
pub const POS_BYTES: usize = 16;

/// The history's byte budget: enough for a minute of 1000 particles at 60
/// frames a second.
pub const HISTORY_MEMORY_CAP: usize = 3600 * 1000 * 16;

/// Simulation parameters: what the motion depends on.
#[derive(Debug, Clone)]
pub struct SimParams {
    /// The seed all pseudo-random generation flows from.
    pub seed: Seed,
    /// How many particles the world holds; at least three.
    pub particle_count: usize,
    /// The acceleration cap, as a power-of-two exponent in `[-10, 10]`.
    pub acc_limit: i32,
}

/// Display parameters: the random color palette, in fixed point (hues in
/// degrees, the rest in percent).
#[derive(Debug, Clone, Copy, PartialEq, Eq, Structural)]
pub struct DisplayParams {
    pub particle_color_hue_mid: i64,
    pub particle_color_hue_spread: i64,
    pub particle_color_saturation_mid: i64,
    pub particle_color_saturation_spread: i64,
    pub particle_color_value: i64,
    pub particle_color_alpha: i64,
}

/// Both parameter sets together, as a world keeps them.
#[derive(Debug, Clone)]
pub struct Params {
    pub sim: SimParams,
    pub display: DisplayParams,
}

/// The versioned record a configuration store persists. The core supplies
/// only this payload shape; how it is encoded lives with the store.
#[derive(Debug, Clone)]
pub struct Config {
    pub version: u64,
    pub sim_params: SimParams,
    pub display_params: DisplayParams,
    pub frame_limit: usize,
}

/// The one recoverable failure: construction with bad parameters.
#[derive(Debug, Clone, Copy, PartialEq, Eq, Structural)]
pub enum ValidationError {
    /// Fewer than three particles were requested.
    TooFewParticles,
}

/// Simulation parameters in range: the seed resolved, the count within the
/// fixed-point band, the exponent within its documented range.
pub open spec fn wf_sim(p: SimParams) -> bool {
    &&& p.seed.wf()
    &&& p.particle_count <= MAX_PARTICLE_COUNT
    &&& -10 <= p.acc_limit <= 10
}

/// A palette half-band stays representable.
pub open spec fn wf_display_field(v: int) -> bool {
    -(FX_LIMIT as int) / 2 <= v <= (FX_LIMIT as int) / 2
}

/// Display parameters in range: fields representable, spreads nonnegative.
pub open spec fn wf_display(d: DisplayParams) -> bool {
    &&& wf_display_field(d.particle_color_hue_mid as int)
    &&& wf_display_field(d.particle_color_hue_spread as int)
    &&& wf_display_field(d.particle_color_saturation_mid as int)
    &&& wf_display_field(d.particle_color_saturation_spread as int)
    &&& wf_display_field(d.particle_color_value as int)
    &&& wf_display_field(d.particle_color_alpha as int)
    &&& d.particle_color_hue_spread >= 0
    &&& d.particle_color_saturation_spread >= 0
}

/// The sub-seed for one generated array: the four 64-bit draws made from the
/// stream seeded by the hash, in order positions, velocities, partners,
/// colors.
pub open spec fn sub_seed(h: u64, k: int) -> u64 {
    stream_u64(h, 2 * k)
}

/// The fraction of a full turn particle `i` of `n` sits at on the starting
/// ring.
pub open spec fn spec_ring_turn(n: int, i: int) -> int {
    spec_lerp(i * (FX_ONE as int), 0, n * (FX_ONE as int), 0, FX_ONE as int)
}

/// The starting radius of particle `i`: nine plus a uniform fraction below
/// one, from word `i` of the positions stream.
pub open spec fn spec_ring_radius(h: u64, i: int) -> int {
    9 * (FX_ONE as int) + chacha_word(sub_seed(h, 0), i) as int / (FX_ONE as int)
}

/// The starting position of particle `i` of `n`: an evenly spaced ring with
/// slight radial jitter.
pub open spec fn spec_init_position(h: u64, n: int, i: int) -> Vec2 {
    let t = spec_ring_turn(n, i);
    let radius = spec_ring_radius(h, i);
    Vec2 {
        x: fx_mul_val(radius, spec_cos_turn(t)) as i64,
        y: fx_mul_val(radius, spec_sin_turn(t)) as i64,
    }
}

/// The first partner of particle `i`: an index drawn from the partners
/// stream that differs from `i`.
pub open spec fn spec_partner_j(h: u64, n: int, i: int) -> u64 {
    spec_other_index(sub_seed(h, 2), 4 * i, n as u64, i as u64)
}

/// The second partner of particle `i`: an index drawn next that differs
/// from both `i` and the first partner.
pub open spec fn spec_partner_k(h: u64, n: int, i: int) -> u64 {
    spec_third_index(sub_seed(h, 2), 4 * i + 2, n as u64, i as u64, spec_partner_j(h, n, i))
}

/// The color of particle `i`: hue and saturation drawn uniformly from the
/// palette bands, fixed value and alpha.
pub open spec fn spec_init_color(h: u64, d: DisplayParams, i: int) -> Color {
    let s3 = sub_seed(h, 3);
    let half_hue = d.particle_color_hue_spread as int / 2;
    let half_sat = d.particle_color_saturation_spread as int / 2;
    let hue = stream_fx_between(
        s3,
        4 * i,
        (d.particle_color_hue_mid - half_hue) as i64,
        (d.particle_color_hue_mid + half_hue) as i64,
    );
    let sat = stream_fx_between(
        s3,
        4 * i + 2,
        (d.particle_color_saturation_mid - half_sat) as i64,
        (d.particle_color_saturation_mid + half_sat) as i64,
    );
    spec_hsva(
        hue as int,
        sat as int,
        d.particle_color_value as int,
        d.particle_color_alpha as int,
    )
}

/// How many snapshots of `n` particles the byte budget allows, and never
/// fewer than one.
pub open spec fn spec_hist_cap(n: int) -> int {
    let c = (HISTORY_MEMORY_CAP as int) / (n * POS_BYTES);
    if c < 1 {
        1
    } else {
        c
    }
}

/// Appending one more snapshot would overrun the byte budget exactly when
/// the ring is full.
proof fn lemma_cap_condition(hl: int, n: int)
    requires
        3 <= n <= MAX_PARTICLE_COUNT,
        1 <= hl <= spec_hist_cap(n),
    ensures
        ((hl + 1) * n * POS_BYTES > HISTORY_MEMORY_CAP) <==> (hl == spec_hist_cap(n)),
{
    let c = n * (POS_BYTES as int);
    let floor = (HISTORY_MEMORY_CAP as int) / c;
    assert(48 <= c <= MAX_PARTICLE_COUNT as int * 16) by (nonlinear_arith)
        requires
            3 <= n <= MAX_PARTICLE_COUNT as int,
            c == n * (POS_BYTES as int),
            POS_BYTES == 16,
    ;
    vstd::arithmetic::div_mod::lemma_fundamental_div_mod(HISTORY_MEMORY_CAP as int, c);
    assert(0 <= HISTORY_MEMORY_CAP as int % c < c) by (nonlinear_arith)
        requires
            c >= 48,
            HISTORY_MEMORY_CAP as int % c == HISTORY_MEMORY_CAP - c * ((HISTORY_MEMORY_CAP
                as int) / c),
            0 <= HISTORY_MEMORY_CAP as int % c,
    ;
    assert((hl + 1) * n * (POS_BYTES as int) == (hl + 1) * c) by (nonlinear_arith)
        requires
            c == n * (POS_BYTES as int),
    ;
    if floor < 1 {
        assert(spec_hist_cap(n) == 1);
        assert(c > HISTORY_MEMORY_CAP) by (nonlinear_arith)
            requires
                floor == (HISTORY_MEMORY_CAP as int) / c,
                floor < 1,
                c >= 48,
                HISTORY_MEMORY_CAP == c * floor + HISTORY_MEMORY_CAP as int % c,
                HISTORY_MEMORY_CAP as int % c < c,
        ;
        assert((hl + 1) * c >= 2 * c) by (nonlinear_arith)
            requires
                hl >= 1,
                c >= 48,
        ;
    } else {
        assert(spec_hist_cap(n) == floor);
        if hl + 1 <= floor {
            assert((hl + 1) * c <= floor * c) by (nonlinear_arith)
                requires
                    hl + 1 <= floor,
                    c >= 48,
            ;
            assert(floor * c <= HISTORY_MEMORY_CAP) by (nonlinear_arith)
                requires
                    HISTORY_MEMORY_CAP == c * floor + HISTORY_MEMORY_CAP as int % c,
                    HISTORY_MEMORY_CAP as int % c >= 0,
            ;
        } else {
            assert((hl + 1) * c >= (floor + 1) * c) by (nonlinear_arith)
                requires
                    hl + 1 >= floor + 1,
                    c >= 48,
            ;
            assert((floor + 1) * c > HISTORY_MEMORY_CAP) by (nonlinear_arith)
                requires
                    HISTORY_MEMORY_CAP == c * floor + HISTORY_MEMORY_CAP as int % c,
                    HISTORY_MEMORY_CAP as int % c < c,
            ;
        }
    }
}

/// A recorded length within the ring capacity respects the byte budget,
/// and one more snapshot stays far below the address space.
proof fn lemma_hist_len_within(hl: int, n: int)
    requires
        3 <= n <= MAX_PARTICLE_COUNT,
        1 <= hl <= spec_hist_cap(n),
    ensures
        hl == 1 || hl * n * POS_BYTES <= HISTORY_MEMORY_CAP,
        (hl + 1) * n <= 0x4000_0000,
        (hl + 1) * n * POS_BYTES <= 0x7000_0000,
{
    let c = n * (POS_BYTES as int);
    let floor = (HISTORY_MEMORY_CAP as int) / c;
    assert(48 <= c <= MAX_PARTICLE_COUNT as int * 16) by (nonlinear_arith)
        requires
            3 <= n <= MAX_PARTICLE_COUNT as int,
            c == n * (POS_BYTES as int),
            POS_BYTES == 16,
    ;
    vstd::arithmetic::div_mod::lemma_fundamental_div_mod(HISTORY_MEMORY_CAP as int, c);
    assert(hl * n * (POS_BYTES as int) == hl * c && (hl + 1) * n * (POS_BYTES as int) == hl * c
        + c) by (nonlinear_arith)
        requires
            c == n * (POS_BYTES as int),
    ;
    if floor < 1 {
        assert(hl == 1);
        assert(hl * c + c <= 0x7000_0000 && (hl + 1) * n <= 0x4000_0000) by (nonlinear_arith)
            requires
                hl == 1,
                c == n * (POS_BYTES as int),
                POS_BYTES == 16,
                3 <= n <= MAX_PARTICLE_COUNT as int,
                48 <= c <= MAX_PARTICLE_COUNT as int * 16,
                MAX_PARTICLE_COUNT == 0x100_0000,
        ;
    } else {
        assert(hl * c <= floor * c) by (nonlinear_arith)
            requires
                hl <= floor,
                c >= 48,
        ;
        assert(floor * c <= HISTORY_MEMORY_CAP) by (nonlinear_arith)
            requires
                HISTORY_MEMORY_CAP == c * floor + HISTORY_MEMORY_CAP as int % c,
                HISTORY_MEMORY_CAP as int % c >= 0,
        ;
        assert(hl * c + c <= 0x7000_0000 && (hl + 1) * n <= 0x4000_0000) by (nonlinear_arith)
            requires
                hl * c <= HISTORY_MEMORY_CAP,
                c == n * (POS_BYTES as int),
                POS_BYTES == 16,
                3 <= n <= MAX_PARTICLE_COUNT as int,
                48 <= c <= MAX_PARTICLE_COUNT as int * 16,
                MAX_PARTICLE_COUNT == 0x100_0000,
                HISTORY_MEMORY_CAP == 57600000,
        ;
    }
}

/// The world: parameters and the per-particle state they generate.
pub struct World {
    params: Params,
    positions: Vec<Vec2>,
    velocities: Vec<Vec2>,
    partners: Vec<(usize, usize)>,
    colors: Vec<Color>,
    history: History,
}

impl World {
    /// The parameters the world was built from.
    pub closed spec fn params(self) -> Params {
        self.params
    }

    /// Current positions.
    pub closed spec fn positions(self) -> Seq<Vec2> {
        self.positions@
    }

    /// Current velocities.
    pub closed spec fn velocities(self) -> Seq<Vec2> {
        self.velocities@
    }

    /// The two partners of each particle.
    pub closed spec fn partners(self) -> Seq<(usize, usize)> {
        self.partners@
    }

    /// The fixed per-particle colors.
    pub closed spec fn colors(self) -> Seq<Color> {
        self.colors@
    }

    /// The recorded position snapshots, oldest first.
    pub closed spec fn history(self) -> Seq<Seq<Vec2>> {
        self.history.snapshots()
    }

    /// The history ring is well formed and sized to the byte budget.
    pub closed spec fn history_ok(self) -> bool {
        self.history.wf() && self.history.cap() == spec_hist_cap(self.count())
    }

    /// How many particles the world holds.
    pub open spec fn count(self) -> int {
        self.params().sim.particle_count as int
    }

    /// The world's invariant: array lengths match the count, the partner
    /// rule holds, every coordinate is representable, velocities stay below
    /// one plus a step, the history ends at the current positions and its
    /// byte footprint respects the cap whenever one snapshot fits at all.
    pub open spec fn wf(self) -> bool {
        let n = self.count();
        &&& wf_sim(self.params().sim)
        &&& wf_display(self.params().display)
        &&& n >= 3
        &&& self.positions().len() == n
        &&& self.velocities().len() == n
        &&& self.partners().len() == n
        &&& self.colors().len() == n
        &&& forall|i: int| 0 <= i < n ==> vec2_wf(#[trigger] self.positions()[i])
        &&& forall|i: int| 0 <= i < n ==> vec2_wf(#[trigger] self.velocities()[i])
        &&& forall|i: int|
            0 <= i < n ==> norm_sq(#[trigger] self.velocities()[i]) <= (FX_ONE + 1) * (FX_ONE
                + 1)
        &&& forall|i: int|
            0 <= i < n ==> {
                let p = #[trigger] self.partners()[i];
                &&& (p.0 as int) < n
                &&& (p.1 as int) < n
                &&& p.0 as int != i
                &&& p.1 as int != i
                &&& p.0 != p.1
            }
        &&& self.history_ok()
        &&& self.history().len() >= 1
        &&& self.history().last() == self.positions()
        &&& forall|k: int|
            0 <= k < self.history().len() ==> (#[trigger] self.history()[k]).len() == n
        &&& forall|k: int, i: int|
            0 <= k < self.history().len() && 0 <= i < n ==> vec2_wf(
                #[trigger] self.history()[k][i],
            )
        &&& (self.history().len() == 1 || self.history().len() * n * POS_BYTES
            <= HISTORY_MEMORY_CAP)
    }

    /// Everything `World::new` promises about a world generated from the
    /// given parameters: each array is the pure function of the seed hash
    /// and the parameters that the generation spec functions describe.
    pub open spec fn generated_from(self, sim: SimParams, display: DisplayParams) -> bool {
        let h = sim.seed.hash();
        let n = sim.particle_count as int;
        &&& self.params().sim == sim
        &&& self.params().display == display
        &&& self.positions() == Seq::new(n as nat, |i: int| spec_init_position(h, n, i))
        &&& self.velocities() == Seq::new(n as nat, |i: int| Vec2 { x: 0, y: 0 })
        &&& forall|i: int|
            0 <= i < n ==> (#[trigger] self.partners()[i]).0 as int == spec_partner_j(h, n, i)
                && self.partners()[i].1 as int == spec_partner_k(h, n, i)
        &&& self.colors() == Seq::new(n as nat, |i: int| spec_init_color(h, display, i))
        &&& self.history() == seq![self.positions()]
    }

    /// Build a world. Fails exactly when fewer than three particles are
    /// requested; otherwise every per-particle array has exactly
    /// `particle_count` elements and is generated deterministically from
    /// the seed hash.
    pub fn new(sim_params: SimParams, display_params: DisplayParams) -> (r: Result<
        World,
        ValidationError,
    >)
        requires
            wf_sim(sim_params),
            wf_display(display_params),
        ensures
            r is Err <==> sim_params.particle_count < 3,
            r matches Err(e) ==> e == ValidationError::TooFewParticles,
            r matches Ok(w) ==> w.wf() && w.generated_from(sim_params, display_params),
    {
        let n = sim_params.particle_count;
        if n < 3 {
            return Err(ValidationError::TooFewParticles);
        }
        let h = sim_params.seed.as_hash();
        let ghost hg = h;
        let mut seeds = WordStream::start(h);
        let s_pos = seeds.next_u64();
        // The velocities' sub-seed is still drawn, so that the fan-out to
        // the other arrays never shifts; zero starting velocities need no
        // randomness from it.
        let _s_vel = seeds.next_u64();
        let s_prt = seeds.next_u64();
        let s_col = seeds.next_u64();

        let mut positions: Vec<Vec2> = Vec::new();
        let mut rng = WordStream::start(s_pos);
        let mut i: usize = 0;
        while i < n
            invariant
                i <= n,
                3 <= n <= MAX_PARTICLE_COUNT,
                rng.seed() == sub_seed(hg, 0),
                rng.idx() == i,
                s_pos == sub_seed(hg, 0),
                positions@.len() == i,
                forall|j: int|
                    0 <= j < i ==> positions@[j] == spec_init_position(hg, n as int, j)
                        && vec2_wf(#[trigger] positions@[j]),
            decreases n - i,
        {
            let u = rng.next_word();
            let radius: i64 = 9 * FX_ONE + (u / 65536) as i64;
            let t = lerp((i as i64) * FX_ONE, 0, (n as i64) * FX_ONE, 0, FX_ONE);
            proof {
                lemma_ring_turn_range(n as int, i as int);
            }
            let x = fx_mul_sat(radius, cos_turn(t));
            let y = fx_mul_sat(radius, sin_turn(t));
            positions.push(Vec2 { x, y });
            i = i + 1;
        }

        let mut velocities: Vec<Vec2> = Vec::new();
        let mut i: usize = 0;
        while i < n
            invariant
                i <= n,
                velocities@.len() == i,
                forall|j: int| 0 <= j < i ==> velocities@[j] == (Vec2 { x: 0, y: 0 }),
            decreases n - i,
        {
            velocities.push(Vec2 { x: 0, y: 0 });
            i = i + 1;
        }

        let mut partners: Vec<(usize, usize)> = Vec::new();
        let mut rng = WordStream::start(s_prt);
        let mut i: usize = 0;
        while i < n
            invariant
                i <= n,
                3 <= n <= MAX_PARTICLE_COUNT,
                rng.seed() == sub_seed(hg, 2),
                rng.idx() == 4 * i,
                partners@.len() == i,
                forall|j: int|
                    0 <= j < i ==> (#[trigger] partners@[j]).0 as int == spec_partner_j(hg,
                        n as int, j) && partners@[j].1 as int == spec_partner_k(hg, n as int, j),
                forall|j: int|
                    0 <= j < i ==> {
                        let p = #[trigger] partners@[j];
                        &&& (p.0 as int) < n
                        &&& (p.1 as int) < n
                        &&& p.0 as int != j
                        &&& p.1 as int != j
                        &&& p.0 != p.1
                    },
            decreases n - i,
        {
            let j = rng.other_index(n as u64, i as u64);
            let k = rng.third_index(n as u64, i as u64, j);
            partners.push((j as usize, k as usize));
            i = i + 1;
        }

        let mut colors: Vec<Color> = Vec::new();
        let mut rng = WordStream::start(s_col);
        let half_hue: i64 = ((display_params.particle_color_hue_spread as u64) / 2) as i64;
        let half_sat: i64 = ((display_params.particle_color_saturation_spread as u64) / 2) as i64;
        let hue_lo = display_params.particle_color_hue_mid - half_hue;
        let hue_hi = display_params.particle_color_hue_mid + half_hue;
        let sat_lo = display_params.particle_color_saturation_mid - half_sat;
        let sat_hi = display_params.particle_color_saturation_mid + half_sat;
        let mut i: usize = 0;
        while i < n
            invariant
                i <= n,
                3 <= n <= MAX_PARTICLE_COUNT,
                wf_display(display_params),
                rng.seed() == sub_seed(hg, 3),
                rng.idx() == 4 * i,
                half_hue as int == display_params.particle_color_hue_spread as int / 2,
                half_sat as int == display_params.particle_color_saturation_spread as int / 2,
                hue_lo as int == display_params.particle_color_hue_mid - half_hue,
                hue_hi as int == display_params.particle_color_hue_mid + half_hue,
                sat_lo as int == display_params.particle_color_saturation_mid - half_sat,
                sat_hi as int == display_params.particle_color_saturation_mid + half_sat,
                fx_in_range(hue_lo as int) && fx_in_range(hue_hi as int),
                fx_in_range(sat_lo as int) && fx_in_range(sat_hi as int),
                hue_lo <= hue_hi,
                sat_lo <= sat_hi,
                colors@.len() == i,
                forall|j: int|
                    0 <= j < i ==> colors@[j] == spec_init_color(hg, display_params, j),
            decreases n - i,
        {
            let hue = rng.fx_between(hue_lo, hue_hi);
            let sat = rng.fx_between(sat_lo, sat_hi);
            let col = Color::hsva(
                hue,
                sat,
                display_params.particle_color_value,
                display_params.particle_color_alpha,
            );
            colors.push(col);
            i = i + 1;
        }

        let first = copy_snapshot(&positions);
        let cap_raw = HISTORY_MEMORY_CAP / (n * POS_BYTES);
        let cap = if cap_raw < 1 {
            1
        } else {
            cap_raw
        };
        let history = History::new(cap, first);

        let w = World {
            params: Params { sim: sim_params, display: display_params },
            positions,
            velocities,
            partners,
            colors,
            history,
        };
        proof {
            assert(w.positions() =~= Seq::new(n as nat, |i: int| spec_init_position(hg,
                n as int, i)));
            assert(w.velocities() =~= Seq::new(n as nat, |i: int| Vec2 { x: 0, y: 0 }));
            assert(w.colors() =~= Seq::new(n as nat, |i: int| spec_init_color(hg,
                display_params, i)));
            assert(w.history() =~= seq![w.positions()]);
        }
        Ok(w)
    }
}

/// Two to the `k`-th power.
pub open spec fn pow2(k: nat) -> int
    decreases k,
{
    if k == 0 {
        1
    } else {
        2 * pow2((k - 1) as nat)
    }
}

/// The acceleration cap for exponent `e`: two to the `e`-th power, in fixed
/// point.
pub open spec fn acc_cap(e: int) -> int {
    pow2((e + 16) as nat)
}

/// Powers of two grow with the exponent.
proof fn lemma_pow2_mono(a: nat, b: nat)
    requires
        a <= b,
    ensures
        pow2(a) <= pow2(b),
        pow2(a) >= 1,
    decreases b,
{
    if a < b {
        lemma_pow2_mono(a, (b - 1) as nat);
    } else if a > 0 {
        lemma_pow2_mono((a - 1) as nat, (a - 1) as nat);
    }
}

/// The sixth and twenty-sixth powers of two, as literals.
proof fn lemma_pow2_values()
    ensures
        pow2(6) == 64,
        pow2(25) == 0x200_0000,
        pow2(26) == 0x400_0000,
{
    reveal_with_fuel(pow2, 27);
}

/// The acceleration cap, in execution.
fn acc_cap_exec(e: i32) -> (r: i64)
    requires
        -10 <= e <= 10,
    ensures
        r as int == acc_cap(e as int),
        64 <= r <= 0x400_0000,
{
    let k: u32 = (e + 16) as u32;
    let mut r: i64 = 1;
    let mut j: u32 = 0;
    while j < k
        invariant
            j <= k,
            6 <= k <= 26,
            r as int == pow2(j as nat),
        decreases k - j,
    {
        proof {
            lemma_pow2_mono(j as nat, 25);
            lemma_pow2_values();
        }
        r = r * 2;
        j = j + 1;
    }
    proof {
        lemma_pow2_mono(6, k as nat);
        lemma_pow2_mono(k as nat, 26);
        lemma_pow2_values();
    }
    r
}

/// Componentwise saturating vector sum.
pub open spec fn vec_add_val(a: Vec2, b: Vec2) -> Vec2 {
    Vec2 { x: fx_clamp(a.x + b.x) as i64, y: fx_clamp(a.y + b.y) as i64 }
}

/// Componentwise saturating vector difference.
pub open spec fn vec_sub_val(a: Vec2, b: Vec2) -> Vec2 {
    Vec2 { x: fx_clamp(a.x - b.x) as i64, y: fx_clamp(a.y - b.y) as i64 }
}

/// The steering parameter: the projection quotient `dot / dsq` in fixed
/// point, clamped below to one (the particle only ever targets at or beyond
/// its second partner) and above to the representable scale band; when the
/// partners coincide it is one.
pub open spec fn spec_steer_t(dot: int, dsq: int) -> int {
    if dsq == 0 || dot <= 0 {
        FX_ONE as int
    } else {
        let q = (dot * (FX_ONE as int)) / dsq;
        if q < FX_ONE as int {
            FX_ONE as int
        } else if q > FX_T_MAX as int {
            FX_T_MAX as int
        } else {
            q
        }
    }
}

/// The acceleration of particle `i` for one tick: the offset from its
/// position to the point projected along its partners' line, clamped to the
/// acceleration cap.
pub open spec fn spec_tick_acc(pos: Seq<Vec2>, prt: Seq<(usize, usize)>, e: int, i: int) -> Vec2 {
    let p = pos[i];
    let p1 = pos[prt[i].0 as int];
    let p2 = pos[prt[i].1 as int];
    let diff = vec_sub_val(p2, p1);
    let dsq = norm_sq(diff);
    let rel = vec_sub_val(p, p1);
    let dot = rel.x * diff.x + rel.y * diff.y;
    let t = spec_steer_t(dot, dsq);
    let target = Vec2 {
        x: fx_clamp(p1.x + fx_clamp(div_trunc(diff.x * t, FX_ONE as int))) as i64,
        y: fx_clamp(p1.y + fx_clamp(div_trunc(diff.y * t, FX_ONE as int))) as i64,
    };
    spec_clamp_length(vec_sub_val(target, p), acc_cap(e))
}

/// The velocity of particle `i` after one tick: the old velocity plus the
/// tick's acceleration, clamped to length one.
pub open spec fn spec_tick_velocity(
    pos: Seq<Vec2>,
    prt: Seq<(usize, usize)>,
    vel: Seq<Vec2>,
    e: int,
    i: int,
) -> Vec2 {
    spec_clamp_length(vec_add_val(vel[i], spec_tick_acc(pos, prt, e, i)), FX_ONE as int)
}

impl World {
    /// What one tick does: velocities take their per-particle tick value
    /// computed from pre-tick positions alone, positions then move by the
    /// new velocities, and the new positions are recorded in the history,
    /// evicting the oldest snapshot first when the byte cap would be
    /// exceeded.
    pub open spec fn steps_to(pre: World, post: World) -> bool {
        let n = pre.count();
        let e = pre.params().sim.acc_limit as int;
        &&& post.params() == pre.params()
        &&& post.partners() == pre.partners()
        &&& post.colors() == pre.colors()
        &&& post.velocities() == Seq::new(
            n as nat,
            |i: int|
                spec_tick_velocity(pre.positions(), pre.partners(), pre.velocities(), e, i),
        )
        &&& post.positions() == Seq::new(
            n as nat,
            |i: int|
                vec_add_val(
                    pre.positions()[i],
                    spec_tick_velocity(pre.positions(), pre.partners(), pre.velocities(), e, i),
                ),
        )
        &&& post.history() == if (pre.history().len() + 1) * n * POS_BYTES
            > HISTORY_MEMORY_CAP {
            pre.history().subrange(1, pre.history().len() as int).push(post.positions())
        } else {
            pre.history().push(post.positions())
        }
    }

    /// One synchronous simulation tick. Velocities and positions take the
    /// values `steps_to` describes, computed from pre-tick positions alone;
    /// no post-tick velocity exceeds one plus a fixed-point step, and no
    /// tick's acceleration exceeds the cap plus a step.
    pub fn update(&mut self)
        requires
            old(self).wf(),
        ensures
            final(self).wf(),
            World::steps_to(*old(self), *final(self)),
            forall|i: int|
                0 <= i < old(self).count() ==> norm_sq(#[trigger] final(self).velocities()[i])
                    <= (FX_ONE + 1) * (FX_ONE + 1),
            forall|i: int|
                0 <= i < old(self).count() ==> norm_sq(
                    #[trigger] spec_tick_acc(
                        old(self).positions(),
                        old(self).partners(),
                        old(self).params().sim.acc_limit as int,
                        i,
                    ),
                ) <= (acc_cap(old(self).params().sim.acc_limit as int) + 1) * (acc_cap(
                    old(self).params().sim.acc_limit as int,
                ) + 1),
    {
        let n = self.params.sim.particle_count;
        let e = self.params.sim.acc_limit;
        let cap = acc_cap_exec(e);
        let ghost opos = self.positions();
        let ghost oprt = self.partners();
        let ghost ovel = self.velocities();
        let ghost ohist = self.history();
        let ghost eg = e as int;

        let mut i: usize = 0;
        while i < n
            invariant
                i <= n,
                self.wf(),
                n == self.count(),
                eg == self.params().sim.acc_limit as int,
                cap as int == acc_cap(eg),
                0 <= cap <= FX_LIMIT,
                self.params() == old(self).params(),
                self.positions() == opos,
                self.partners() == oprt,
                self.colors() == old(self).colors(),
                self.history() == ohist,
                ovel.len() == n,
                self.velocities().len() == n,
                forall|j: int|
                    0 <= j < i ==> #[trigger] self.velocities()[j] == spec_tick_velocity(opos,
                        oprt, ovel, eg, j),
                forall|j: int|
                    0 <= j < i ==> norm_sq(#[trigger] self.velocities()[j]) <= (FX_ONE + 1) * (
                    FX_ONE + 1),
                forall|j: int|
                    0 <= j < i ==> norm_sq(#[trigger] spec_tick_acc(opos, oprt, eg, j)) <= (
                    acc_cap(eg) + 1) * (acc_cap(eg) + 1),
                forall|j: int| i <= j < n ==> #[trigger] self.velocities()[j] == ovel[j],
            decreases n - i,
        {
            let p = self.positions[i];
            let pr = self.partners[i];
            let p1 = self.positions[pr.0];
            let p2 = self.positions[pr.1];
            let diff = p2.sub_sat(p1);
            let dsq = diff.length_squared();
            let rel = p.sub_sat(p1);
            let dot = rel.dot(diff);
            let t: i64 = if dsq == 0 || dot <= 0 {
                FX_ONE
            } else {
                proof {
                    assert(dot as int <= 2 * (FX_LIMIT as int * FX_LIMIT)) by (nonlinear_arith)
                        requires
                            dot as int == rel.x * diff.x + rel.y * diff.y,
                            -FX_LIMIT <= rel.x <= FX_LIMIT,
                            -FX_LIMIT <= rel.y <= FX_LIMIT,
                            -FX_LIMIT <= diff.x <= FX_LIMIT,
                            -FX_LIMIT <= diff.y <= FX_LIMIT,
                    ;
                }
                let num: u128 = (dot as u128) * (FX_ONE as u128);
                let q = num / (dsq as u128);
                if q < FX_ONE as u128 {
                    FX_ONE
                } else if q > FX_T_MAX as u128 {
                    FX_T_MAX
                } else {
                    q as i64
                }
            };
            proof {
                assert(t as int == spec_steer_t(dot as int, dsq as int));
            }
            let tx = fx_scale_sat(diff.x, t);
            let ty = fx_scale_sat(diff.y, t);
            let target = Vec2 { x: fx_add_sat(p1.x, tx), y: fx_add_sat(p1.y, ty) };
            let raw = target.sub_sat(p);
            let acc = raw.clamp_length_max(cap);
            let v0 = self.velocities[i];
            let v1 = v0.add_sat(acc);
            let v2 = v1.clamp_length_max(FX_ONE);
            proof {
                lemma_clamp_length_norm(raw, cap as int);
                lemma_clamp_length_norm(v1, FX_ONE as int);
                assert(cap as int * cap as int <= (cap as int + 1) * (cap as int + 1))
                    by (nonlinear_arith)
                    requires
                        cap as int >= 0,
                ;
                assert(norm_sq(raw) >= 0 && norm_sq(v1) >= 0) by (nonlinear_arith)
                    requires
                        norm_sq(raw) == raw.x * raw.x + raw.y * raw.y,
                        norm_sq(v1) == v1.x * v1.x + v1.y * v1.y,
                ;
                assert(acc == spec_tick_acc(opos, oprt, eg, i as int));
                assert(v2 == spec_tick_velocity(opos, oprt, ovel, eg, i as int));
            }
            self.velocities[i] = v2;
            i = i + 1;
        }

        let ghost nvel = self.velocities();
        let mut i: usize = 0;
        while i < n
            invariant
                i <= n,
                n == self.count(),
                wf_sim(self.params().sim),
                wf_display(self.params().display),
                n >= 3,
                self.params() == old(self).params(),
                self.partners() == oprt,
                self.colors() == old(self).colors(),
                self.history() == ohist,
                self.history_ok(),
                self.velocities() == nvel,
                nvel.len() == n,
                opos.len() == n,
                self.positions().len() == n,
                forall|j: int| 0 <= j < n ==> vec2_wf(#[trigger] nvel[j]),
                forall|j: int|
                    0 <= j < n ==> norm_sq(#[trigger] nvel[j]) <= (FX_ONE + 1) * (FX_ONE + 1),
                forall|j: int|
                    0 <= j < n ==> {
                        let pp = #[trigger] oprt[j];
                        &&& (pp.0 as int) < n
                        &&& (pp.1 as int) < n
                        &&& pp.0 as int != j
                        &&& pp.1 as int != j
                        &&& pp.0 != pp.1
                    },
                self.colors().len() == n,
                ohist.len() >= 1,
                forall|k: int| 0 <= k < ohist.len() ==> (#[trigger] ohist[k]).len() == n,
                forall|k: int, j: int|
                    0 <= k < ohist.len() && 0 <= j < n ==> vec2_wf(#[trigger] ohist[k][j]),
                ohist.len() == 1 || ohist.len() * n * POS_BYTES <= HISTORY_MEMORY_CAP,
                forall|j: int|
                    0 <= j < i ==> #[trigger] self.positions()[j] == vec_add_val(opos[j],
                        nvel[j]),
                forall|j: int| 0 <= j < i ==> vec2_wf(#[trigger] self.positions()[j]),
                forall|j: int| i <= j < n ==> #[trigger] self.positions()[j] == opos[j],
                forall|j: int| i <= j < n ==> vec2_wf(#[trigger] self.positions()[j]),
            decreases n - i,
        {
            let p = self.positions[i];
            let v = self.velocities[i];
            self.positions[i] = p.add_sat(v);
            i = i + 1;
        }

        let snap = copy_snapshot(&self.positions);
        let hl = self.history.len();
        proof {
            self.history.lemma_len_le_cap();
            lemma_cap_condition(hl as int, n as int);
            lemma_hist_len_within(hl as int, n as int);
        }
        let over = (hl + 1) * n * POS_BYTES > HISTORY_MEMORY_CAP;
        self.history.push(snap);
        proof {
            let fpos = self.positions();
            assert(fpos =~= Seq::new(n as nat, |i: int| vec_add_val(opos[i],
                spec_tick_velocity(opos, oprt, ovel, eg, i))));
            assert(self.velocities() =~= Seq::new(n as nat, |i: int| spec_tick_velocity(opos,
                oprt, ovel, eg, i)));
            if over {
                assert(self.history() =~= ohist.subrange(1, ohist.len() as int).push(fpos));
            } else {
                assert(self.history() =~= ohist.push(fpos));
            }
            assert((self.history().len() == 1 || self.history().len() * (n as int)
                * (POS_BYTES as int) <= HISTORY_MEMORY_CAP)) by {
                self.history.lemma_len_le_cap();
                lemma_hist_len_within(self.history().len() as int, n as int);
            }
        }
    }
}

/// Two worlds generated from identical parameters hold bit-identical state.
pub proof fn lemma_new_deterministic(
    w1: World,
    w2: World,
    sim: SimParams,
    display: DisplayParams,
)
    requires
        w1.wf(),
        w2.wf(),
        w1.generated_from(sim, display),
        w2.generated_from(sim, display),
    ensures
        w1.positions() == w2.positions(),
        w1.velocities() == w2.velocities(),
        w1.partners() == w2.partners(),
        w1.colors() == w2.colors(),
        w1.history() == w2.history(),
{
    assert(w1.partners() =~= w2.partners());
}

/// One tick is a function of the pre-tick state: two worlds in identical
/// states step to identical states.
pub proof fn lemma_update_deterministic(p1: World, q1: World, p2: World, q2: World)
    requires
        World::steps_to(p1, q1),
        World::steps_to(p2, q2),
        p1.count() == p2.count(),
        p1.params().sim.acc_limit == p2.params().sim.acc_limit,
        p1.positions() == p2.positions(),
        p1.velocities() == p2.velocities(),
        p1.partners() == p2.partners(),
        p1.colors() == p2.colors(),
        p1.history() == p2.history(),
    ensures
        q1.positions() == q2.positions(),
        q1.velocities() == q2.velocities(),
        q1.partners() == q2.partners(),
        q1.colors() == q2.colors(),
        q1.history() == q2.history(),
{
    assert(q1.velocities() =~= q2.velocities());
    assert(q1.positions() =~= q2.positions());
}

/// The history's total byte footprint never exceeds the fixed cap, for any
/// world whose per-tick snapshot fits the cap at all.
pub proof fn lemma_history_within_cap(w: World)
    requires
        w.wf(),
        w.count() * POS_BYTES <= HISTORY_MEMORY_CAP,
    ensures
        w.history().len() * w.count() * POS_BYTES <= HISTORY_MEMORY_CAP,
{
    if w.history().len() == 1 {
        assert(w.history().len() * w.count() * POS_BYTES == w.count() * POS_BYTES)
            by (nonlinear_arith)
            requires
                w.history().len() == 1,
        ;
    }
}

/// The ring fraction of particle `i` of `n` is a valid turn.
proof fn lemma_ring_turn_range(n: int, i: int)
    requires
        3 <= n <= MAX_PARTICLE_COUNT,
        0 <= i < n,
    ensures
        0 <= spec_ring_turn(n, i) < FX_ONE,
{
    let s = FX_ONE as int;
    assert(0 <= i * s * s && i * s * s < n * s * s) by (nonlinear_arith)
        requires
            0 <= i < n,
            s >= 1,
    ;
    assert(div_trunc(i * s * s, n * s) == i * s * s / (n * s));
    assert(i * s * s / (n * s) < s && i * s * s / (n * s) >= 0) by (nonlinear_arith)
        requires
            0 <= i < n,
            s >= 1,
    ;
}

/// Copy a position array element by element.
fn copy_snapshot(v: &Vec<Vec2>) -> (r: Vec<Vec2>)
    ensures
        r@ == v@,
{
    let mut out: Vec<Vec2> = Vec::new();
    let mut i: usize = 0;
    while i < v.len()
        invariant
            i <= v@.len(),
            out@.len() == i,
            forall|j: int| 0 <= j < i ==> out@[j] == v@[j],
        decreases v@.len() - i,
    {
        out.push(v[i]);
        i = i + 1;
    }
    proof {
        assert(out@ =~= v@);
    }
    out
}

/// The image pixels after splatting the first `k` particles, in order: each
/// position is mapped into image space by adding half the image size to
/// each coordinate.
pub open spec fn spec_render(
    pos: Seq<Vec2>,
    colors: Seq<Color>,
    w: int,
    h: int,
    k: int,
    pix: Seq<Color>,
) -> Seq<Color>
    decreases k,
{
    if k <= 0 {
        pix
    } else {
        let prev = spec_render(pos, colors, w, h, k - 1, pix);
        let p = pos[k - 1];
        spec_draw_particle(
            prev,
            w,
            h,
            fx_clamp(p.x + 32768 * w),
            fx_clamp(p.y + 32768 * h),
            colors[k - 1],
        )
    }
}

impl World {
    /// Draw every particle into the image as an anti-aliased splat at its
    /// current position, mapped so that the world origin sits at the image
    /// center. Reads the world only; repeated calls without an intervening
    /// tick write the same splats again.
    pub fn render(&self, image: &mut Image)
        requires
            self.wf(),
            old(image).wf(),
            old(image).w() >= 1,
            old(image).h() >= 1,
        ensures
            final(image).wf(),
            final(image).w() == old(image).w(),
            final(image).h() == old(image).h(),
            final(image).bg() == old(image).bg(),
            final(image).pix() == spec_render(
                self.positions(),
                self.colors(),
                old(image).w(),
                old(image).h(),
                self.count(),
                old(image).pix(),
            ),
    {
        let n = self.params.sim.particle_count;
        let cx: i64 = (image.width() as i64) * 32768;
        let cy: i64 = (image.height() as i64) * 32768;
        let ghost opix = image.pix();
        let mut i: usize = 0;
        while i < n
            invariant
                i <= n,
                self.wf(),
                n == self.count(),
                image.wf(),
                image.w() == old(image).w(),
                image.h() == old(image).h(),
                image.bg() == old(image).bg(),
                1 <= image.w() <= 0xffff,
                1 <= image.h() <= 0xffff,
                cx as int == 32768 * image.w(),
                cy as int == 32768 * image.h(),
                image.pix() == spec_render(self.positions(), self.colors(), image.w(),
                    image.h(), i as int, opix),
            decreases n - i,
        {
            let p = self.positions[i];
            let x = fx_add_sat(p.x, cx);
            let y = fx_add_sat(p.y, cy);
            image.draw_particle(x, y, self.colors[i]);
            i = i + 1;
        }
    }
}

/// A bounding box extended by one point: componentwise minima and maxima.
pub open spec fn bbox_join(b: (int, int, int, int), v: Vec2) -> (int, int, int, int) {
    (
        min_int(b.0, v.x as int),
        min_int(b.1, v.y as int),
        max_int(b.2, v.x as int),
        max_int(b.3, v.y as int),
    )
}

/// A bounding box extended by the first `k` points of one snapshot.
pub open spec fn bbox_snap(b: (int, int, int, int), snap: Seq<Vec2>, k: int) -> (
    int,
    int,
    int,
    int,
)
    decreases k,
{
    if k <= 0 {
        b
    } else {
        bbox_join(bbox_snap(b, snap, k - 1), snap[k - 1])
    }
}

/// A bounding box extended by the first `k` snapshots of the history.
pub open spec fn bbox_hist(b: (int, int, int, int), hist: Seq<Seq<Vec2>>, k: int) -> (
    int,
    int,
    int,
    int,
)
    decreases k,
{
    if k <= 0 {
        b
    } else {
        bbox_snap(bbox_hist(b, hist, k - 1), hist[k - 1], hist[k - 1].len() as int)
    }
}

/// The axis-aligned bounding box over every recorded position of every
/// particle: least x, least y, greatest x, greatest y.
pub open spec fn spec_bbox(hist: Seq<Seq<Vec2>>) -> (int, int, int, int) {
    let p = hist[0][0];
    bbox_hist((p.x as int, p.y as int, p.x as int, p.y as int), hist, hist.len() as int)
}

/// A color's eight-digit hexadecimal form.
pub open spec fn spec_color_hex(c: Color) -> Seq<char> {
    spec_hex_fixed((c.r * 0x100_0000 + c.g * 0x1_0000 + c.b * 0x100 + c.a) as nat, 8)
}

/// The path data of particle `i` over the first `k` snapshots: a move
/// command to its first recorded position, then a line command per later
/// one.
pub open spec fn spec_path_data(hist: Seq<Seq<Vec2>>, i: int, k: int) -> Seq<char>
    decreases k,
{
    if k <= 0 {
        Seq::empty()
    } else {
        let p = hist[k - 1][i];
        let cmd: Seq<char> = if k == 1 {
            " M "@
        } else {
            " L "@
        };
        spec_path_data(hist, i, k - 1) + cmd + spec_fx_dec(p.x as int) + " "@ + spec_fx_dec(
            p.y as int,
        )
    }
}

/// One path element: particle `i`'s full recorded trajectory, stroked with
/// its own color, unfilled, with rounded joins.
pub open spec fn spec_path(hist: Seq<Seq<Vec2>>, colors: Seq<Color>, i: int) -> Seq<char> {
    "  <path"@ + " fill=\"none\""@ + " stroke=\"#"@ + spec_color_hex(colors[i]) + "\""@
        + " stroke-linejoin=\"round\""@ + " d=\""@ + spec_path_data(hist, i, hist.len() as int)
        + "\""@ + " />\n"@
}

/// The path elements of the first `k` particles, in order.
pub open spec fn spec_paths(hist: Seq<Seq<Vec2>>, colors: Seq<Color>, k: int) -> Seq<char>
    decreases k,
{
    if k <= 0 {
        Seq::empty()
    } else {
        spec_paths(hist, colors, k - 1) + spec_path(hist, colors, k - 1)
    }
}

/// The document header: the XML declaration and the svg element sized and
/// positioned by the bounding box, with the background styled.
pub open spec fn spec_svg_header(bb: (int, int, int, int), bg: Color) -> Seq<char> {
    let w = bb.2 - bb.0;
    let h = bb.3 - bb.1;
    "<?xml version=\"1.0\" encoding=\"UTF-8\"?>\n"@ + "<svg"@
        + " xmlns=\"http://www.w3.org/2000/svg\""@ + " width=\""@ + spec_fx_dec(w) + "\""@
        + " height=\""@ + spec_fx_dec(h) + "\""@ + " viewBox=\""@ + spec_fx_dec(bb.0) + " "@
        + spec_fx_dec(bb.1) + " "@ + spec_fx_dec(w) + " "@ + spec_fx_dec(h) + "\""@
        + " style=\"background: #"@ + spec_color_hex(bg) + ";\""@ + ">\n"@
}

/// The whole document: header, one path per particle, closing tag.
pub open spec fn spec_svg(hist: Seq<Seq<Vec2>>, colors: Seq<Color>, n: int, bg: Color) -> Seq<
    char,
> {
    spec_svg_header(spec_bbox(hist), bg) + spec_paths(hist, colors, n) + "</svg>\n"@
}

/// A bounding box whose corners are representable.
pub open spec fn bbox_wf(b: (int, int, int, int)) -> bool {
    fx_in_range(b.0) && fx_in_range(b.1) && fx_in_range(b.2) && fx_in_range(b.3)
}

impl World {
    /// Replay the recorded trajectories as an SVG drawing: one path per
    /// particle over the full history, the document sized to the bounding
    /// box of every recorded position, on the given background color.
    pub fn generate_svg(&self, background_color: Color) -> (r: String)
        requires
            self.wf(),
        ensures
            r@ == spec_svg(self.history(), self.colors(), self.count(), background_color),
    {
        let n = self.params.sim.particle_count;
        let hl = self.history.len();
        proof {
            assert(self.history()[0].len() == self.count());
            assert(vec2_wf(self.history()[0][0]));
        }
        let first_snap = self.history.get(0);
        let p00 = first_snap[0];
        let ghost b0 = (p00.x as int, p00.y as int, p00.x as int, p00.y as int);
        let mut minx = p00.x;
        let mut miny = p00.y;
        let mut maxx = p00.x;
        let mut maxy = p00.y;
        let mut k: usize = 0;
        while k < hl
            invariant
                k <= hl,
                self.wf(),
                n == self.count(),
                hl == self.history().len(),
                (minx as int, miny as int, maxx as int, maxy as int) == bbox_hist(b0,
                    self.history(), k as int),
                bbox_wf((minx as int, miny as int, maxx as int, maxy as int)),
            decreases hl - k,
        {
            let snap = self.history.get(k);
            let ghost bk = (minx as int, miny as int, maxx as int, maxy as int);
            let sl = snap.len();
            let mut j: usize = 0;
            while j < sl
                invariant
                    j <= sl,
                    self.wf(),
                    k < self.history().len(),
                    sl == self.history()[k as int].len(),
                    snap@ == self.history()[k as int],
                    (minx as int, miny as int, maxx as int, maxy as int) == bbox_snap(bk,
                        self.history()[k as int], j as int),
                    bbox_wf((minx as int, miny as int, maxx as int, maxy as int)),
                decreases sl - j,
            {
                let p = snap[j];
                if p.x < minx {
                    minx = p.x;
                }
                if p.y < miny {
                    miny = p.y;
                }
                if p.x > maxx {
                    maxx = p.x;
                }
                if p.y > maxy {
                    maxy = p.y;
                }
                j = j + 1;
            }
            k = k + 1;
        }
        proof {
            assert((minx as int, miny as int, maxx as int, maxy as int) == spec_bbox(
                self.history()));
        }
        let ghost bb = spec_bbox(self.history());
        let bw = maxx - minx;
        let bh = maxy - miny;
        let bg_hex = background_color.fmt_hex();

        let mut s = String::new();
        s.append("<?xml version=\"1.0\" encoding=\"UTF-8\"?>\n");
        s.append("<svg");
        s.append(" xmlns=\"http://www.w3.org/2000/svg\"");
        s.append(" width=\"");
        push_fx_dec(&mut s, bw);
        s.append("\"");
        s.append(" height=\"");
        push_fx_dec(&mut s, bh);
        s.append("\"");
        s.append(" viewBox=\"");
        push_fx_dec(&mut s, minx);
        s.append(" ");
        push_fx_dec(&mut s, miny);
        s.append(" ");
        push_fx_dec(&mut s, bw);
        s.append(" ");
        push_fx_dec(&mut s, bh);
        s.append("\"");
        s.append(" style=\"background: #");
        s.append(bg_hex.as_str());
        s.append(";\"");
        s.append(">\n");
        proof {
            assert(s@ =~= spec_svg_header(bb, background_color));
        }
        let ghost header = s@;

        let mut i: usize = 0;
        while i < n
            invariant
                i <= n,
                self.wf(),
                n == self.count(),
                hl == self.history().len(),
                header == spec_svg_header(spec_bbox(self.history()), background_color),
                s@ == header + spec_paths(self.history(), self.colors(), i as int),
            decreases n - i,
        {
            let ghost before_path = s@;
            s.append("  <path");
            s.append(" fill=\"none\"");
            s.append(" stroke=\"#");
            let hex = self.colors[i].fmt_hex();
            s.append(hex.as_str());
            s.append("\"");
            s.append(" stroke-linejoin=\"round\"");
            s.append(" d=\"");
            let ghost head = s@;
            let mut k: usize = 0;
            while k < hl
                invariant
                    k <= hl,
                    self.wf(),
                    i < self.count(),
                    hl == self.history().len(),
                    s@ == head + spec_path_data(self.history(), i as int, k as int),
                decreases hl - k,
            {
                if k == 0 {
                    s.append(" M ");
                } else {
                    s.append(" L ");
                }
                proof {
                    assert(self.history()[k as int].len() == self.count());
                    assert(vec2_wf(self.history()[k as int][i as int]));
                }
                let sv = self.history.get(k);
                let p = sv[i];
                push_fx_dec(&mut s, p.x);
                s.append(" ");
                push_fx_dec(&mut s, p.y);
                proof {
                    assert(s@ =~= head + spec_path_data(self.history(), i as int, k as int
                        + 1));
                }
                k = k + 1;
            }
            s.append("\"");
            s.append(" />\n");
            proof {
                assert(s@ =~= before_path + spec_path(self.history(), self.colors(), i as int));
                assert(s@ =~= header + spec_paths(self.history(), self.colors(), i as int + 1));
            }
            i = i + 1;
        }
        s.append("</svg>\n");
        proof {
            assert(s@ =~= spec_svg(self.history(), self.colors(), self.count(),
                background_color));
        }
        s
    }
}

/// The name an export of these parameters gets: the particle count, the
/// acceleration exponent, and the seed hash in canonical form.
pub open spec fn spec_file_name(p: Params) -> Seq<char> {
    spec_dec(p.sim.particle_count as nat) + "-2_"@ + spec_int_dec(p.sim.acc_limit as int) + "-"@
        + seq!['0', 'x'] + spec_hex_fixed(p.sim.seed.hash() as nat, 16) + ".svg"@
}

impl Params {
    /// The name an export of these parameters gets.
    pub fn file_name(&self) -> (r: String)
        ensures
            r@ == spec_file_name(*self),
    {
        let mut s = String::new();
        push_dec(&mut s, self.sim.particle_count as u64);
        s.append("-2_");
        push_int_dec(&mut s, self.sim.acc_limit as i64);
        s.append("-");
        let hex = self.sim.seed.fmt_hash().to_hex_string();
        s.append(hex.as_str());
        s.append(".svg");
        proof {
            assert(s@ =~= spec_file_name(*self));
        }
        s
    }
}

} // verus!
