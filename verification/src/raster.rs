//! The software rasterizer: an ordered queue of flat-colored quads and the
//! pass that paints them, in order, into a [`FrameBuffer`].
//!
//! World coordinates are fixed-point milli-pixels: 1000 units span one
//! pixel. A quad's screen footprint is the half-open integer rectangle
//! `[floor(max(x, 0) / 1000), floor(min(x + size, width * 1000) / 1000))`
//! on each axis; later quads overwrite earlier ones where footprints
//! overlap (painter's algorithm, no blending).

use vstd::prelude::*;
use vstd::arithmetic::div_mod::lemma_div_by_multiple;
use vstd::arithmetic::div_mod::lemma_div_is_ordered;
use vstd::arithmetic::div_mod::lemma_fundamental_div_mod;
use vstd::arithmetic::div_mod::lemma_fundamental_div_mod_converse_div;
use vstd::arithmetic::div_mod::lemma_fundamental_div_mod_converse_mod;
use vstd::arithmetic::div_mod::lemma_multiply_divide_lt;
use crate::color::Color;
use crate::color::Rgb;
use crate::color::color_to_rgb;
use crate::color::rgb_of_color;
use crate::framebuffer::FrameBuffer;

verus! {

/// A draw command: an axis-aligned square with top-left corner `(x, y)`
/// and edge length `size`, all in milli-pixel world units, filled with one
/// flat color.
#[derive(Debug, Clone, Copy, PartialEq, Eq, Structural)]
pub struct Quad {
    pub x: i64,
    pub y: i64,
    pub size: i64,
    pub color: Color,
}

/// The placeholder sprites the prototype can draw, each standing for one
/// flat color of the palette.
#[derive(Debug, Clone, Copy, PartialEq, Eq, Structural)]
pub enum PlaceholderTexture {
    Worker,
    Barracks,
    GoldMine,
    Forest,
}

impl PlaceholderTexture {
    /// The palette color of this placeholder, in per-mille channels.
    pub open spec fn spec_color(self) -> Color {
        match self {
            PlaceholderTexture::Worker => Color(200, 400, 1000),
            PlaceholderTexture::Barracks => Color(700, 200, 200),
            PlaceholderTexture::GoldMine => Color(1000, 850, 100),
            PlaceholderTexture::Forest => Color(100, 700, 100),
        }
    }

    /// Looks up the palette color of this placeholder.
    pub fn color(self) -> (c: Color)
        ensures
            c == self.spec_color(),
    {
        match self {
            PlaceholderTexture::Worker => Color(200, 400, 1000),
            PlaceholderTexture::Barracks => Color(700, 200, 200),
            PlaceholderTexture::GoldMine => Color(1000, 850, 100),
            PlaceholderTexture::Forest => Color(100, 700, 100),
        }
    }
}

/// The ordered queue of draw commands built for one frame; insertion order
/// is paint order.
#[derive(Debug, Clone)]
pub struct OpenGlRenderQueue {
    pub quads: Vec<Quad>,
}

impl Default for OpenGlRenderQueue {
    /// An empty queue.
    fn default() -> (q: Self)
        ensures
            q.quads@ == Seq::<Quad>::empty(),
    {
        let q = OpenGlRenderQueue { quads: Vec::new() };
        proof {
            assert(q.quads@ =~= Seq::<Quad>::empty());
        }
        q
    }
}

impl OpenGlRenderQueue {
    /// Appends one quad at `(x, y)` of edge length `size` (milli-pixel
    /// units), filled with the placeholder's palette color.
    pub fn queue_placeholder_quad(&mut self, texture: PlaceholderTexture, x: i64, y: i64, size: i64)
        ensures
            final(self).quads@ == old(self).quads@.push(
                (Quad { x, y, size, color: texture.spec_color() }),
            ),
    {
        let color = texture.color();
        self.quads.push(Quad { x, y, size, color });
    }
}

/// Builds the demo scene for one frame: a gold mine and a forest at fixed
/// positions, then the worker at `(worker_x, worker_y)` (milli-pixel
/// units), painted last. The driver animates the worker position.
pub fn build_demo_render_queue(worker_x: i64, worker_y: i64) -> (queue: OpenGlRenderQueue)
    ensures
        queue.quads@ == seq![
            (Quad {
                x: 3000,
                y: 3000,
                size: 3000,
                color: PlaceholderTexture::GoldMine.spec_color(),
            }),
            (Quad {
                x: 7000,
                y: 4000,
                size: 2000,
                color: PlaceholderTexture::Forest.spec_color(),
            }),
            (Quad {
                x: worker_x,
                y: worker_y,
                size: 1000,
                color: PlaceholderTexture::Worker.spec_color(),
            }),
        ],
{
    let mut render_queue = OpenGlRenderQueue::default();
    render_queue.queue_placeholder_quad(PlaceholderTexture::GoldMine, 3000, 3000, 3000);
    render_queue.queue_placeholder_quad(PlaceholderTexture::Forest, 7000, 4000, 2000);
    render_queue.queue_placeholder_quad(PlaceholderTexture::Worker, worker_x, worker_y, 1000);
    proof {
        assert(render_queue.quads@ =~= seq![
            (Quad {
                x: 3000,
                y: 3000,
                size: 3000,
                color: PlaceholderTexture::GoldMine.spec_color(),
            }),
            (Quad {
                x: 7000,
                y: 4000,
                size: 2000,
                color: PlaceholderTexture::Forest.spec_color(),
            }),
            (Quad {
                x: worker_x,
                y: worker_y,
                size: 1000,
                color: PlaceholderTexture::Worker.spec_color(),
            }),
        ]);
    }
    render_queue
}

/// First pixel column (or row) of a quad whose left (or top) edge lies at
/// milli-pixel coordinate `c`: clamp to the buffer's near edge, then floor.
pub open spec fn px_min(c: int) -> int {
    if c < 0 {
        0
    } else {
        c / 1000
    }
}

/// One past the last pixel column (or row) of a quad whose far edge lies
/// at `c + size`, on an axis `limit_px` pixels long: clamp to the buffer's
/// far edge, then floor (an empty clamp yields 0).
pub open spec fn px_max(c: int, size: int, limit_px: int) -> int {
    let t = if c + size < limit_px * 1000 {
        c + size
    } else {
        limit_px * 1000
    };
    if t <= 0 {
        0
    } else {
        t / 1000
    }
}

/// Whether the footprint of `q` on a `w x h` buffer covers pixel
/// `(px, py)`.
pub open spec fn covers(q: Quad, w: int, h: int, px: int, py: int) -> bool {
    &&& q.size > 0
    &&& px_min(q.x as int) <= px < px_max(q.x as int, q.size as int, w)
    &&& px_min(q.y as int) <= py < px_max(q.y as int, q.size as int, h)
}

/// The pixels of a `w x h` buffer after painting `q` over `pixels`: every
/// pixel the footprint covers takes the quad's quantized color, the rest
/// keep their value.
pub open spec fn paint(pixels: Seq<Rgb>, q: Quad, w: int, h: int) -> Seq<Rgb> {
    Seq::new(
        pixels.len(),
        |i: int|
            if covers(q, w, h, i % w, i / w) {
                rgb_of_color(q.color)
            } else {
                pixels[i]
            },
    )
}

/// The pixels of a `w x h` buffer after rasterizing `quads` in order onto
/// an all-black buffer.
pub open spec fn rasterized(quads: Seq<Quad>, w: int, h: int) -> Seq<Rgb>
    decreases quads.len(),
{
    if quads.len() == 0 {
        Seq::new((w * h) as nat, |i: int| Rgb(0, 0, 0))
    } else {
        paint(rasterized(quads.drop_last(), w, h), quads.last(), w, h)
    }
}

/// Helper: rasterizing yields exactly one pixel per cell of the buffer.
pub proof fn lemma_rasterized_len(quads: Seq<Quad>, w: int, h: int)
    requires
        0 <= w,
        0 <= h,
    ensures
        rasterized(quads, w, h).len() == w * h,
    decreases quads.len(),
{
    assert(0 <= w * h) by (nonlinear_arith)
        requires
            0 <= w,
            0 <= h,
    ;
    if quads.len() > 0 {
        lemma_rasterized_len(quads.drop_last(), w, h);
    }
}

/// Helper: a flat row-major index splits into its row `i / w` and column
/// `i % w`, and the split stays inside the `w x h` grid.
proof fn lemma_index_split(i: int, w: int, h: int)
    requires
        0 < w,
        0 <= i < w * h,
    ensures
        0 <= i % w < w,
        0 <= i / w < h,
        i == (i / w) * w + (i % w),
{
    lemma_fundamental_div_mod(i, w);
    lemma_multiply_divide_lt(i, w, h);
    assert((i / w) * w == w * (i / w)) by (nonlinear_arith);
}

/// Helper: the flat index of column `px` in row `py` splits back into
/// exactly that row and column.
proof fn lemma_index_join(px: int, py: int, w: int)
    requires
        0 < w,
        0 <= px < w,
        0 <= py,
    ensures
        (py * w + px) / w == py,
        (py * w + px) % w == px,
{
    lemma_fundamental_div_mod_converse_div(py * w + px, w, py, px);
    lemma_fundamental_div_mod_converse_mod(py * w + px, w, py, px);
}

/// Paints the footprint of `q` into `fb` with the quad's quantized color.
fn fill_quad(fb: &mut FrameBuffer, q: &Quad, width: usize, height: usize)
    requires
        old(fb).wf(),
        old(fb).spec_width() == width,
        old(fb).spec_height() == height,
        width * 1000 <= i64::MAX,
        height * 1000 <= i64::MAX,
    ensures
        final(fb).wf(),
        final(fb).spec_width() == width,
        final(fb).spec_height() == height,
        final(fb)@ == paint(old(fb)@, *q, width as int, height as int),
{
    let ghost w = width as int;
    let ghost h = height as int;
    if q.size <= 0 {
        proof {
            assert(fb@ =~= paint(fb@, *q, w, h));
        }
        return ;
    }
    let rgb = color_to_rgb(q.color);
    let w_milli: i64 = (width as i64) * 1000;
    let h_milli: i64 = (height as i64) * 1000;

    // Column range of the footprint.
    let tx: i64 = if q.x > i64::MAX - q.size {
        w_milli
    } else if q.x + q.size < w_milli {
        q.x + q.size
    } else {
        w_milli
    };
    let hi_x: u64 = if tx <= 0 {
        0
    } else {
        (tx as u64) / 1000
    };
    let lo_x_raw: u64 = if q.x < 0 {
        0
    } else {
        (q.x as u64) / 1000
    };
    let lo_x: u64 = if lo_x_raw > hi_x {
        hi_x
    } else {
        lo_x_raw
    };

    // Row range of the footprint.
    let ty: i64 = if q.y > i64::MAX - q.size {
        h_milli
    } else if q.y + q.size < h_milli {
        q.y + q.size
    } else {
        h_milli
    };
    let hi_y: u64 = if ty <= 0 {
        0
    } else {
        (ty as u64) / 1000
    };
    let lo_y_raw: u64 = if q.y < 0 {
        0
    } else {
        (q.y as u64) / 1000
    };
    let lo_y: u64 = if lo_y_raw > hi_y {
        hi_y
    } else {
        lo_y_raw
    };

    proof {
        lemma_div_by_multiple(w, 1000);
        lemma_div_by_multiple(h, 1000);
        if tx > 0 {
            lemma_div_is_ordered(tx as int, w * 1000, 1000);
        }
        if ty > 0 {
            lemma_div_is_ordered(ty as int, h * 1000, 1000);
        }
        assert(hi_x == px_max(q.x as int, q.size as int, w));
        assert(hi_y == px_max(q.y as int, q.size as int, h));
        assert(lo_x_raw == px_min(q.x as int));
        assert(lo_y_raw == px_min(q.y as int));
    }

    let hi_x_px: usize = hi_x as usize;
    let lo_x_px: usize = lo_x as usize;
    let hi_y_px: usize = hi_y as usize;
    let lo_y_px: usize = lo_y as usize;

    let mut py: usize = lo_y_px;
    while py < hi_y_px
        invariant
            fb.wf(),
            fb.spec_width() == width,
            fb.spec_height() == height,
            fb@.len() == old(fb)@.len(),
            w == width as int,
            h == height as int,
            lo_y_px <= py <= hi_y_px,
            lo_y_px as int == if px_min(q.y as int) > px_max(q.y as int, q.size as int, h) {
                px_max(q.y as int, q.size as int, h)
            } else {
                px_min(q.y as int)
            },
            lo_x_px as int == if px_min(q.x as int) > px_max(q.x as int, q.size as int, w) {
                px_max(q.x as int, q.size as int, w)
            } else {
                px_min(q.x as int)
            },
            hi_y_px == px_max(q.y as int, q.size as int, h),
            hi_x_px == px_max(q.x as int, q.size as int, w),
            hi_x_px <= width,
            hi_y_px <= height,
            q.size > 0,
            rgb == rgb_of_color(q.color),
            forall|i: int|
                0 <= i < fb@.len() ==> fb@[i] == (if covers(*q, w, h, i % w, i / w) && i / w
                    < py {
                    rgb_of_color(q.color)
                } else {
                    old(fb)@[i]
                }),
        decreases hi_y_px - py,
    {
        let mut px: usize = lo_x_px;
        while px < hi_x_px
            invariant
                fb.wf(),
                fb.spec_width() == width,
                fb.spec_height() == height,
                fb@.len() == old(fb)@.len(),
                w == width as int,
                h == height as int,
                lo_y_px <= py < hi_y_px,
                lo_x_px <= px <= hi_x_px,
                lo_x_px as int == if px_min(q.x as int) > px_max(q.x as int, q.size as int, w) {
                    px_max(q.x as int, q.size as int, w)
                } else {
                    px_min(q.x as int)
                },
                hi_y_px == px_max(q.y as int, q.size as int, h),
                hi_x_px == px_max(q.x as int, q.size as int, w),
                hi_x_px <= width,
                hi_y_px <= height,
                lo_y_px as int == if px_min(q.y as int) > px_max(q.y as int, q.size as int, h) {
                    px_max(q.y as int, q.size as int, h)
                } else {
                    px_min(q.y as int)
                },
                q.size > 0,
                rgb == rgb_of_color(q.color),
                forall|i: int|
                    0 <= i < fb@.len() ==> fb@[i] == (if covers(*q, w, h, i % w, i / w) && (i / w
                        < py || (i / w == py && i % w < px)) {
                        rgb_of_color(q.color)
                    } else {
                        old(fb)@[i]
                    }),
            decreases hi_x_px - px,
        {
            let ghost prev = fb@;
            fb.set_pixel(px, py, rgb);
            proof {
                lemma_index_join(px as int, py as int, w);
                assert(px_min(q.x as int) <= px as int) by {
                    if px_min(q.x as int) > px_max(q.x as int, q.size as int, w) {
                        assert(lo_x_px == hi_x_px);
                    }
                }
                assert(px_min(q.y as int) <= py as int) by {
                    if px_min(q.y as int) > px_max(q.y as int, q.size as int, h) {
                        assert(lo_y_px == hi_y_px);
                    }
                }
                assert(covers(*q, w, h, px as int, py as int));
                assert((py as int) * w + (px as int) < w * h) by (nonlinear_arith)
                    requires
                        0 <= (px as int) < w,
                        0 <= (py as int) < h,
                ;
                assert(fb@ == prev.update(py as int * w + px as int, rgb));
                assert forall|i: int| 0 <= i < fb@.len() implies fb@[i] == (if covers(
                    *q,
                    w,
                    h,
                    i % w,
                    i / w,
                ) && (i / w < py || (i / w == py && i % w < px + 1)) {
                    rgb_of_color(q.color)
                } else {
                    old(fb)@[i]
                }) by {
                    assert(fb@.len() == w * h);
                    lemma_index_split(i, w, h);
                    if i == py * w + px {
                        assert(fb@[i] == rgb_of_color(q.color));
                    } else {
                        assert(fb@[i] == prev[i]);
                        assert(!(i / w == py && i % w == px));
                    }
                }
            }
            px += 1;
        }
        py += 1;
    }
    proof {
        assert forall|i: int| 0 <= i < fb@.len() implies fb@[i] == paint(old(fb)@, *q, w, h)[i] by {
            assert(fb@.len() == w * h);
            if w > 0 {
                lemma_index_split(i, w, h);
            }
        }
        assert(fb@ =~= paint(old(fb)@, *q, w, h));
    }
}

/// Rasterizes the queue onto a fresh all-black `width x height` buffer:
/// each quad in queue order paints its clamped integer footprint with its
/// quantized color, later quads overwriting earlier ones.
pub fn render_queue_to_framebuffer(queue: &OpenGlRenderQueue, width: usize, height: usize) -> (fb:
    FrameBuffer)
    requires
        width * height <= usize::MAX,
        width * 1000 <= i64::MAX,
        height * 1000 <= i64::MAX,
    ensures
        fb.wf(),
        fb.spec_width() == width,
        fb.spec_height() == height,
        fb@ == rasterized(queue.quads@, width as int, height as int),
{
    let ghost w = width as int;
    let ghost h = height as int;
    let mut fb = FrameBuffer::new(width, height);
    proof {
        assert(fb@ =~= rasterized(queue.quads@.take(0), w, h));
    }
    let n = queue.quads.len();
    let mut k: usize = 0;
    while k < n
        invariant
            k <= n,
            n == queue.quads@.len(),
            fb.wf(),
            fb.spec_width() == width,
            fb.spec_height() == height,
            w == width as int,
            h == height as int,
            width * 1000 <= i64::MAX,
            height * 1000 <= i64::MAX,
            fb@ == rasterized(queue.quads@.take(k as int), w, h),
        decreases n - k,
    {
        let q = queue.quads[k];
        let ghost before = fb@;
        fill_quad(&mut fb, &q, width, height);
        proof {
            let step = queue.quads@.take(k as int + 1);
            assert(step.drop_last() =~= queue.quads@.take(k as int));
            assert(step.last() == queue.quads@[k as int]);
            assert(rasterized(step, w, h) == paint(
                rasterized(queue.quads@.take(k as int), w, h),
                queue.quads@[k as int],
                w,
                h,
            ));
            assert(fb@ == paint(before, q, w, h));
        }
        k += 1;
    }
    proof {
        assert(queue.quads@.take(n as int) =~= queue.quads@);
    }
    fb
}

/// Law: rasterizing an empty queue yields a buffer where every pixel holds
/// the initial black value.
pub proof fn lemma_empty_queue_black(w: int, h: int, i: int)
    requires
        0 <= i < w * h,
    ensures
        rasterized(Seq::<Quad>::empty(), w, h)[i] == Rgb(0, 0, 0),
{
}

/// Law: a pixel that no command's footprint covers keeps the initial black
/// value, whatever else the queue paints.
pub proof fn lemma_uncovered_pixel_black(quads: Seq<Quad>, w: int, h: int, px: int, py: int)
    requires
        0 < w,
        0 <= px < w,
        0 <= py < h,
        forall|k: int| 0 <= k < quads.len() ==> !covers(quads[k], w, h, px, py),
    ensures
        rasterized(quads, w, h)[py * w + px] == Rgb(0, 0, 0),
    decreases quads.len(),
{
    lemma_index_join(px, py, w);
    assert(py * w + px < w * h) by (nonlinear_arith)
        requires
            0 <= px < w,
            0 <= py < h,
    ;
    lemma_rasterized_len(quads, w, h);
    if quads.len() > 0 {
        assert(forall|k: int|
            0 <= k < quads.drop_last().len() ==> !covers(
                #[trigger] quads.drop_last()[k],
                w,
                h,
                px,
                py,
            ));
        lemma_uncovered_pixel_black(quads.drop_last(), w, h, px, py);
        lemma_rasterized_len(quads.drop_last(), w, h);
        assert(!covers(quads.last(), w, h, px, py));
    }
}

/// Law: a single command whose footprint covers no pixel of the buffer
/// leaves every pixel at the initial black value.
pub proof fn lemma_offscreen_command_leaves_buffer_blank(q: Quad, w: int, h: int, i: int)
    requires
        0 < w,
        0 <= i < w * h,
        forall|px: int, py: int|
            0 <= px < w && 0 <= py < h ==> !covers(q, w, h, px, py),
    ensures
        rasterized(seq![q], w, h)[i] == rasterized(Seq::<Quad>::empty(), w, h)[i],
{
    lemma_index_split(i, w, h);
    lemma_uncovered_pixel_black(seq![q], w, h, i % w, i / w);
}

/// Law: painter's algorithm, no blending. Wherever the footprint of the
/// queue's last command covers a pixel, the rasterized buffer holds that
/// command's quantized color, whatever earlier commands painted there.
pub proof fn lemma_later_command_wins(quads: Seq<Quad>, w: int, h: int, px: int, py: int)
    requires
        0 < w,
        quads.len() > 0,
        covers(quads.last(), w, h, px, py),
    ensures
        rasterized(quads, w, h)[py * w + px] == rgb_of_color(quads.last().color),
{
    let q = quads.last();
    lemma_px_bounds(q, w, h, px, py);
    lemma_index_join(px, py, w);
    assert(py * w + px < w * h) by (nonlinear_arith)
        requires
            0 <= px < w,
            0 <= py < h,
    ;
    lemma_rasterized_len(quads.drop_last(), w, h);
    assert(rasterized(quads, w, h) == paint(
        rasterized(quads.drop_last(), w, h),
        quads.last(),
        w,
        h,
    ));
}

/// Helper: a covered pixel lies inside the buffer.
proof fn lemma_px_bounds(q: Quad, w: int, h: int, px: int, py: int)
    requires
        0 < w,
        covers(q, w, h, px, py),
    ensures
        0 <= px < w,
        0 <= py < h,
{
    let tx = if q.x + q.size < w * 1000 {
        q.x + q.size
    } else {
        w * 1000
    };
    let ty = if q.y + q.size < h * 1000 {
        q.y + q.size
    } else {
        h * 1000
    };
    lemma_div_by_multiple(w, 1000);
    lemma_div_by_multiple(h, 1000);
    if tx > 0 {
        lemma_div_is_ordered(tx, w * 1000, 1000);
    }
    if ty > 0 {
        lemma_div_is_ordered(ty, h * 1000, 1000);
    }
}

} // verus!
