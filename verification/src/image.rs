//! The accumulation image: a width x height grid of colors.
//!
//! The raster surface persists across simulation ticks; particles are
//! splatted into it with anti-aliased, alpha-blended writes, and it can be
//! resized while keeping its old content centered.

use vstd::prelude::*;
use crate::color::{spec_blend, spec_fade, Color};
use crate::fixed::{fx_in_range, FX_ONE};

verus! {

/// Largest accepted width or height, so that centering offsets and
/// fixed-point pixel coordinates stay inside the representable band.
pub const DIM_LIMIT: usize = 0xffff;

/// A raster image: row-major pixels over a fixed background color.
pub struct Image {
    width: usize,
    height: usize,
    background: Color,
    pixels: Vec<Color>,
}

impl Image {
    /// The width, in pixels.
    pub closed spec fn w(self) -> int {
        self.width as int
    }

    /// The height, in pixels.
    pub closed spec fn h(self) -> int {
        self.height as int
    }

    /// The background color.
    pub closed spec fn bg(self) -> Color {
        self.background
    }

    /// The pixels, row-major.
    pub closed spec fn pix(self) -> Seq<Color> {
        self.pixels@
    }

    /// The buffer length matches the dimensions and both stay modest.
    pub open spec fn wf(self) -> bool {
        &&& self.pix().len() == self.w() * self.h()
        &&& 0 <= self.w() <= DIM_LIMIT
        &&& 0 <= self.h() <= DIM_LIMIT
    }

    /// Allocate a `width` x `height` image filled with `background`.
    pub fn new(width: usize, height: usize, background: Color) -> (r: Image)
        requires
            width <= DIM_LIMIT,
            height <= DIM_LIMIT,
        ensures
            r.wf(),
            r.w() == width,
            r.h() == height,
            r.bg() == background,
            r.pix() == Seq::new((width * height) as nat, |i: int| background),
    {
        proof {
            assert(width * height <= DIM_LIMIT as int * DIM_LIMIT) by (nonlinear_arith)
                requires
                    0 <= width <= DIM_LIMIT,
                    0 <= height <= DIM_LIMIT,
            ;
        }
        let pixels = vec![background; width * height];
        proof {
            assert(pixels@ =~= Seq::new((width * height) as nat, |i: int| background));
        }
        Image { width, height, background, pixels }
    }

    /// The width, in pixels.
    pub fn width(&self) -> (r: usize)
        ensures
            r == self.w(),
    {
        self.width
    }

    /// The height, in pixels.
    pub fn height(&self) -> (r: usize)
        ensures
            r == self.h(),
    {
        self.height
    }

    /// Overwrite the pixel at `(x, y)`; the caller guarantees bounds.
    pub fn put_pixel(&mut self, x: usize, y: usize, color: Color)
        requires
            old(self).wf(),
            x < old(self).w(),
            y < old(self).h(),
        ensures
            final(self).wf(),
            final(self).w() == old(self).w(),
            final(self).h() == old(self).h(),
            final(self).bg() == old(self).bg(),
            final(self).pix() == old(self).pix().update(x + y * old(self).w(), color),
    {
        proof {
            lemma_row_major_index(x as int, y as int, self.w(), self.h());
        }
        let idx = x + y * self.width;
        self.pixels[idx] = color;
    }

    /// Source-over blend `color` onto the pixel at `(x, y)`.
    pub fn blend_pixel(&mut self, x: usize, y: usize, color: Color)
        requires
            old(self).wf(),
            x < old(self).w(),
            y < old(self).h(),
        ensures
            final(self).wf(),
            final(self).w() == old(self).w(),
            final(self).h() == old(self).h(),
            final(self).bg() == old(self).bg(),
            final(self).pix() == old(self).pix().update(
                x + y * old(self).w(),
                spec_blend(old(self).pix()[x + y * old(self).w()], color),
            ),
    {
        proof {
            lemma_row_major_index(x as int, y as int, self.w(), self.h());
        }
        let idx = x + y * self.width;
        let blended = self.pixels[idx].blend(color);
        self.pixels[idx] = blended;
    }

    /// Refill every pixel with the background color.
    pub fn clear(&mut self)
        requires
            old(self).wf(),
        ensures
            final(self).wf(),
            final(self).w() == old(self).w(),
            final(self).h() == old(self).h(),
            final(self).bg() == old(self).bg(),
            final(self).pix() == Seq::new(old(self).pix().len(), |i: int| old(self).bg()),
    {
        let n = self.pixels.len();
        let bg = self.background;
        self.pixels = vec![bg; n];
        proof {
            assert(self.pixels@ =~= Seq::new(old(self).pix().len(), |i: int| old(self).bg()));
        }
    }

    /// The backing bytes in row-major RGBA8 order.
    pub fn to_raster_bytes(&self) -> (r: Vec<u8>)
        ensures
            r@.len() == 4 * self.pix().len(),
            forall|i: int|
                0 <= i < self.pix().len() ==> {
                    &&& r@[4 * i] == self.pix()[i].r
                    &&& r@[4 * i + 1] == self.pix()[i].g
                    &&& r@[4 * i + 2] == self.pix()[i].b
                    &&& r@[4 * i + 3] == self.pix()[i].a
                },
    {
        let mut out: Vec<u8> = Vec::new();
        let n = self.pixels.len();
        let mut i: usize = 0;
        while i < n
            invariant
                i <= n,
                n == self.pix().len(),
                out@.len() == 4 * i,
                forall|j: int|
                    0 <= j < i ==> {
                        &&& out@[4 * j] == self.pix()[j].r
                        &&& out@[4 * j + 1] == self.pix()[j].g
                        &&& out@[4 * j + 2] == self.pix()[j].b
                        &&& out@[4 * j + 3] == self.pix()[j].a
                    },
            decreases n - i,
        {
            let c = self.pixels[i];
            out.push(c.r);
            out.push(c.g);
            out.push(c.b);
            out.push(c.a);
            i = i + 1;
        }
        out
    }
}

/// The smaller of two integers.
pub open spec fn min_int(a: int, b: int) -> int {
    if a < b {
        a
    } else {
        b
    }
}

/// The larger of two integers.
pub open spec fn max_int(a: int, b: int) -> int {
    if a < b {
        b
    } else {
        a
    }
}

/// The offset of the copied region inside the source buffer: half the excess
/// when the source is larger, zero otherwise.
pub open spec fn resize_src_off(d1: int, d2: int) -> int {
    if d1 > d2 {
        (d1 - d2) / 2
    } else {
        0
    }
}

/// The offset of the copied region inside the destination buffer: half the
/// excess when the destination is larger, zero otherwise.
pub open spec fn resize_dst_off(d1: int, d2: int) -> int {
    if d2 > d1 {
        (d2 - d1) / 2
    } else {
        0
    }
}

/// The pixels after resizing from `w1 x h1` to `w2 x h2`: the rectangular
/// overlap of the two buffers is copied so that the old content sits
/// centered in the new buffer, and everything else is background.
pub open spec fn spec_resize(pix: Seq<Color>, w1: int, h1: int, w2: int, h2: int, bg: Color) -> Seq<
    Color,
> {
    Seq::new(
        (w2 * h2) as nat,
        |i: int|
            {
                let x2 = i % w2;
                let y2 = i / w2;
                let dx = resize_dst_off(w1, w2);
                let dy = resize_dst_off(h1, h2);
                if dx <= x2 < dx + min_int(w1, w2) && dy <= y2 < dy + min_int(h1, h2) {
                    pix[(x2 - dx + resize_src_off(w1, w2)) + (y2 - dy + resize_src_off(h1, h2))
                        * w1]
                } else {
                    bg
                }
            },
    )
}

impl Image {
    /// Resize to `width` x `height`, keeping the old content centered; cells
    /// not covered by the old content take the background color.
    pub fn resize(&mut self, width: usize, height: usize)
        requires
            old(self).wf(),
            width <= DIM_LIMIT,
            height <= DIM_LIMIT,
        ensures
            final(self).wf(),
            final(self).w() == width,
            final(self).h() == height,
            final(self).bg() == old(self).bg(),
            final(self).pix() == spec_resize(
                old(self).pix(),
                old(self).w(),
                old(self).h(),
                width as int,
                height as int,
                old(self).bg(),
            ),
    {
        let w1 = self.width;
        let h1 = self.height;
        let ghost opix = self.pix();
        if width == w1 && height == h1 {
            proof {
                lemma_resize_same(opix, w1 as int, h1 as int, self.bg());
            }
            return ;
        }
        let sx: usize = if w1 > width {
            (w1 - width) / 2
        } else {
            0
        };
        let sy: usize = if h1 > height {
            (h1 - height) / 2
        } else {
            0
        };
        let dx: usize = if width > w1 {
            (width - w1) / 2
        } else {
            0
        };
        let dy: usize = if height > h1 {
            (height - h1) / 2
        } else {
            0
        };
        let cw: usize = if w1 < width {
            w1
        } else {
            width
        };
        let ch: usize = if h1 < height {
            h1
        } else {
            height
        };
        proof {
            assert(width * height <= DIM_LIMIT as int * DIM_LIMIT) by (nonlinear_arith)
                requires
                    0 <= width <= DIM_LIMIT,
                    0 <= height <= DIM_LIMIT,
            ;
        }
        let total: usize = width * height;
        let bg = self.background;
        let ghost target = spec_resize(opix, w1 as int, h1 as int, width as int, height as int,
            bg);
        let mut out: Vec<Color> = Vec::new();
        let mut i: usize = 0;
        while i < total
            invariant
                i <= total,
                total == width * height,
                width <= DIM_LIMIT,
                height <= DIM_LIMIT,
                w1 <= DIM_LIMIT,
                h1 <= DIM_LIMIT,
                self.wf(),
                self.w() == w1,
                self.h() == h1,
                self.pix() == opix,
                self.bg() == bg,
                sx as int == resize_src_off(w1 as int, width as int),
                sy as int == resize_src_off(h1 as int, height as int),
                dx as int == resize_dst_off(w1 as int, width as int),
                dy as int == resize_dst_off(h1 as int, height as int),
                cw as int == min_int(w1 as int, width as int),
                ch as int == min_int(h1 as int, height as int),
                target == spec_resize(opix, w1 as int, h1 as int, width as int, height as int,
                    bg),
                out@.len() == i,
                forall|j: int| 0 <= j < i ==> out@[j] == target[j],
            decreases total - i,
        {
            let x2 = i % width;
            let y2 = i / width;
            proof {
                assert(width > 0) by (nonlinear_arith)
                    requires
                        (i as int) < width * height,
                        0 <= i,
                        0 <= height,
                ;
                assert((y2 as int) < height as int) by (nonlinear_arith)
                    requires
                        (i as int) < width * height,
                        y2 as int == i as int / width as int,
                        width as int >= 1,
                ;
            }
            let c = if x2 >= dx && x2 < dx + cw && y2 >= dy && y2 < dy + ch {
                let x1 = x2 - dx + sx;
                let y1 = y2 - dy + sy;
                proof {
                    lemma_copy_source_in_range(w1 as int, width as int, x2 as int);
                    lemma_copy_source_in_range(h1 as int, height as int, y2 as int);
                    lemma_row_major_index(x1 as int, y1 as int, w1 as int, h1 as int);
                }
                self.pixels[x1 + y1 * w1]
            } else {
                bg
            };
            out.push(c);
            i = i + 1;
        }
        self.pixels = out;
        self.width = width;
        self.height = height;
        proof {
            assert(self.pix() =~= target);
        }
    }
}

/// Resizing to the same dimensions is the identity on the pixels.
proof fn lemma_resize_same(pix: Seq<Color>, w: int, h: int, bg: Color)
    requires
        pix.len() == w * h,
        0 <= w,
        0 <= h,
    ensures
        spec_resize(pix, w, h, w, h, bg) == pix,
{
    assert forall|i: int| 0 <= i < w * h implies spec_resize(pix, w, h, w, h, bg)[i] == pix[i] by {
        lemma_div_mod_decompose(i, w, h);
    }
    assert(spec_resize(pix, w, h, w, h, bg) =~= pix);
}

/// Splitting a row-major index into its column and row, and the bounds of
/// both.
proof fn lemma_div_mod_decompose(i: int, w: int, h: int)
    requires
        0 <= i < w * h,
        0 <= w,
        0 <= h,
    ensures
        i % w + (i / w) * w == i,
        0 <= i % w < w,
        0 <= i / w < h,
{
    assert(w > 0) by (nonlinear_arith)
        requires
            0 <= i < w * h,
            0 <= h,
    ;
    assert(i % w + (i / w) * w == i && 0 <= i % w < w && 0 <= i / w < h) by (nonlinear_arith)
        requires
            0 <= i < w * h,
            w > 0,
    ;
}

/// A column or row of the copied region maps inside the source dimension.
proof fn lemma_copy_source_in_range(d1: int, d2: int, x2: int)
    requires
        0 <= d1,
        0 <= d2,
        resize_dst_off(d1, d2) <= x2 < resize_dst_off(d1, d2) + min_int(d1, d2),
    ensures
        0 <= x2 - resize_dst_off(d1, d2) + resize_src_off(d1, d2) < d1,
{
}

/// Growing an image and then shrinking it back to its original size, with no
/// drawing in between, restores the original pixels exactly.
pub proof fn lemma_resize_round_trip(
    pix: Seq<Color>,
    w: int,
    h: int,
    wl: int,
    hl: int,
    bg: Color,
)
    requires
        pix.len() == w * h,
        0 <= w <= wl,
        0 <= h <= hl,
    ensures
        spec_resize(spec_resize(pix, w, h, wl, hl, bg), wl, hl, w, h, bg) == pix,
{
    let up = spec_resize(pix, w, h, wl, hl, bg);
    let down = spec_resize(up, wl, hl, w, h, bg);
    assert(wl * hl >= w * h) by (nonlinear_arith)
        requires
            0 <= w <= wl,
            0 <= h <= hl,
    ;
    assert forall|i: int| 0 <= i < w * h implies down[i] == pix[i] by {
        lemma_div_mod_decompose(i, w, h);
        let x = i % w;
        let y = i / w;
        let ox = resize_src_off(wl, w);
        let oy = resize_src_off(hl, h);
        assert(resize_dst_off(wl, w) == 0 && resize_dst_off(hl, h) == 0);
        assert(min_int(wl, w) == w && min_int(hl, h) == h);
        let xu = x + ox;
        let yu = y + oy;
        let j = xu + yu * wl;
        assert(0 <= xu < wl && 0 <= yu < hl);
        lemma_row_major_index_general(xu, yu, wl, hl);
        assert(j % wl == xu && j / wl == yu) by (nonlinear_arith)
            requires
                j == xu + yu * wl,
                0 <= xu < wl,
                0 <= yu,
        ;
        assert(down[i] == up[j]);
        assert(resize_dst_off(w, wl) == ox && resize_dst_off(h, hl) == oy);
        assert(min_int(w, wl) == w && min_int(h, hl) == h);
        assert(resize_src_off(w, wl) == 0 && resize_src_off(h, hl) == 0);
        assert(up[j] == pix[x + y * w]);
    }
    assert(down =~= pix);
}

/// A row-major index is inside the buffer, without the size cap.
proof fn lemma_row_major_index_general(x: int, y: int, w: int, h: int)
    requires
        0 <= x < w,
        0 <= y < h,
    ensures
        0 <= x + y * w < w * h,
{
    assert(0 <= x + y * w < w * h) by (nonlinear_arith)
        requires
            0 <= x < w,
            0 <= y < h,
    ;
}

/// Which one or two adjacent pixel indices a fixed-point coordinate covers
/// on one axis, with the fixed-point weight of each; weights of a pair sum
/// to one. The coordinate is first shifted by minus a half (pixel-center
/// convention); beyond either edge an index is dropped, and at the edges the
/// single remaining pixel takes the partial weight.
pub open spec fn axis_cover(c: int, dim: int) -> (Option<(int, int)>, Option<(int, int)>) {
    let s = c - FX_ONE as int / 2;
    if s <= -(FX_ONE as int) || s >= dim * FX_ONE {
        (None, None)
    } else if s < 0 {
        (None, Some((0int, FX_ONE as int + s)))
    } else if s >= (dim - 1) * FX_ONE {
        (Some((dim - 1, FX_ONE as int - s % (FX_ONE as int))), None)
    } else {
        (
            Some((s / FX_ONE as int, FX_ONE as int - s % (FX_ONE as int))),
            Some((s / FX_ONE as int + 1, s % (FX_ONE as int))),
        )
    }
}

/// A covered index is inside the axis and its weight is a valid fixed-point
/// fraction.
pub open spec fn cover_ok(o: Option<(int, int)>, dim: int) -> bool {
    match o {
        Option::None => true,
        Option::Some((i, wt)) => 0 <= i < dim && 0 <= wt <= FX_ONE,
    }
}

/// Both covers of an axis are valid when the axis has at least one pixel.
proof fn lemma_axis_cover_ok(c: int, dim: int)
    requires
        1 <= dim <= DIM_LIMIT,
        fx_in_range(c),
    ensures
        cover_ok(axis_cover(c, dim).0, dim),
        cover_ok(axis_cover(c, dim).1, dim),
{
    let s = c - FX_ONE as int / 2;
    if s <= -FX_ONE || s >= dim * FX_ONE {
    } else if s < 0 {
    } else if s >= (dim - 1) * FX_ONE {
    } else {
        assert((s / FX_ONE as int) < dim - 1) by (nonlinear_arith)
            requires
                0 <= s,
                s < (dim - 1) * FX_ONE,
                FX_ONE == 65536,
        ;
        assert((s / FX_ONE as int) >= 0) by (nonlinear_arith)
            requires
                s >= 0,
        ;
    }
}

/// The view of an executable axis cover.
pub open spec fn cover_view(o: Option<(usize, i64)>) -> Option<(int, int)> {
    match o {
        Option::None => Option::None,
        Option::Some((i, wt)) => Option::Some((i as int, wt as int)),
    }
}

/// Compute the cover of one axis.
fn axis_cover_exec(c: i64, dim: usize) -> (r: (Option<(usize, i64)>, Option<(usize, i64)>))
    requires
        1 <= dim <= DIM_LIMIT,
        fx_in_range(c as int),
    ensures
        cover_view(r.0) == axis_cover(c as int, dim as int).0,
        cover_view(r.1) == axis_cover(c as int, dim as int).1,
{
    proof {
        lemma_axis_cover_ok(c as int, dim as int);
    }
    let s: i64 = c - FX_ONE / 2;
    let edge: i64 = (dim as i64) * FX_ONE;
    if s <= -FX_ONE || s >= edge {
        (None, None)
    } else if s < 0 {
        (None, Some((0, FX_ONE + s)))
    } else if s >= edge - FX_ONE {
        let f = ((s as u64) % (FX_ONE as u64)) as i64;
        (Some((dim - 1, FX_ONE - f)), None)
    } else {
        let xi = ((s as u64) / (FX_ONE as u64)) as usize;
        let f = ((s as u64) % (FX_ONE as u64)) as i64;
        proof {
            assert((s as int) / (FX_ONE as int) < dim - 1) by (nonlinear_arith)
                requires
                    0 <= s as int,
                    (s as int) < (dim - 1) * (FX_ONE as int),
                    FX_ONE == 65536,
            ;
        }
        (Some((xi, FX_ONE - f)), Some((xi + 1, f)))
    }
}

/// The pixels after blending one weighted splat at the crossing of an
/// x-cover and a y-cover; if either axis contributes no pixel, nothing
/// changes.
pub open spec fn splat_at(
    pix: Seq<Color>,
    w: int,
    xc: Option<(int, int)>,
    yc: Option<(int, int)>,
    color: Color,
) -> Seq<Color> {
    match (xc, yc) {
        (Option::Some((xi, wx)), Option::Some((yi, wy))) => {
            let idx = xi + yi * w;
            pix.update(idx, spec_blend(pix[idx], spec_fade(color, wx * wy / FX_ONE as int)))
        },
        _ => pix,
    }
}

/// The pixels after an anti-aliased point splat at fixed-point coordinates
/// `(x, y)`: up to four adjacent pixels each receive the color with its
/// alpha scaled by the product of the axis weights.
pub open spec fn spec_draw_particle(
    pix: Seq<Color>,
    w: int,
    h: int,
    x: int,
    y: int,
    color: Color,
) -> Seq<Color> {
    let xc = axis_cover(x, w);
    let yc = axis_cover(y, h);
    splat_at(
        splat_at(splat_at(splat_at(pix, w, xc.0, yc.0, color), w, xc.0, yc.1, color), w, xc.1,
            yc.0, color),
        w,
        xc.1,
        yc.1,
        color,
    )
}

impl Image {
    /// Blend one weighted splat at the crossing of two axis covers.
    fn splat_exec(&mut self, xc: Option<(usize, i64)>, yc: Option<(usize, i64)>, color: Color)
        requires
            old(self).wf(),
            cover_ok(cover_view(xc), old(self).w()),
            cover_ok(cover_view(yc), old(self).h()),
        ensures
            final(self).wf(),
            final(self).w() == old(self).w(),
            final(self).h() == old(self).h(),
            final(self).bg() == old(self).bg(),
            final(self).pix() == splat_at(
                old(self).pix(),
                old(self).w(),
                cover_view(xc),
                cover_view(yc),
                color,
            ),
    {
        match (xc, yc) {
            (Some((xi, wx)), Some((yi, wy))) => {
                proof {
                    assert(0 <= wx as int * (wy as int) <= FX_ONE as int * FX_ONE)
                        by (nonlinear_arith)
                        requires
                            0 <= wx as int <= FX_ONE as int,
                            0 <= wy as int <= FX_ONE as int,
                    ;
                    assert(wx as int * (wy as int) / (FX_ONE as int) <= FX_ONE)
                        by (nonlinear_arith)
                        requires
                            0 <= wx as int * (wy as int) <= FX_ONE as int * FX_ONE,
                            FX_ONE == 65536,
                    ;
                }
                let wt: i64 = ((wx as u64 * wy as u64) / (FX_ONE as u64)) as i64;
                let faded = color.fade(wt);
                self.blend_pixel(xi, yi, faded);
            },
            _ => {},
        }
    }

    /// Anti-aliased point splat: blend `color` into the up to four pixels
    /// around the fixed-point position `(x, y)`, each weighted by its
    /// coverage.
    pub fn draw_particle(&mut self, x: i64, y: i64, color: Color)
        requires
            old(self).wf(),
            old(self).w() >= 1,
            old(self).h() >= 1,
            fx_in_range(x as int),
            fx_in_range(y as int),
        ensures
            final(self).wf(),
            final(self).w() == old(self).w(),
            final(self).h() == old(self).h(),
            final(self).bg() == old(self).bg(),
            final(self).pix() == spec_draw_particle(
                old(self).pix(),
                old(self).w(),
                old(self).h(),
                x as int,
                y as int,
                color,
            ),
    {
        proof {
            lemma_axis_cover_ok(x as int, self.w());
            lemma_axis_cover_ok(y as int, self.h());
        }
        let xc = axis_cover_exec(x, self.width);
        let yc = axis_cover_exec(y, self.height);
        self.splat_exec(xc.0, yc.0, color);
        self.splat_exec(xc.0, yc.1, color);
        self.splat_exec(xc.1, yc.0, color);
        self.splat_exec(xc.1, yc.1, color);
    }
}

/// A row-major index is inside the buffer.
proof fn lemma_row_major_index(x: int, y: int, w: int, h: int)
    requires
        0 <= x < w,
        0 <= y < h,
        w <= DIM_LIMIT,
        h <= DIM_LIMIT,
    ensures
        0 <= x + y * w < w * h,
        y * w <= DIM_LIMIT as int * DIM_LIMIT,
        w * h <= DIM_LIMIT as int * DIM_LIMIT,
{
    assert(x + y * w < w * h && 0 <= y * w && y * w <= DIM_LIMIT as int * DIM_LIMIT && w * h
        <= DIM_LIMIT as int * DIM_LIMIT) by (nonlinear_arith)
        requires
            0 <= x < w,
            0 <= y < h,
            w <= DIM_LIMIT as int,
            h <= DIM_LIMIT as int,
    ;
}

} // verus!
