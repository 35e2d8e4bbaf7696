//! A fixed-size 2D pixel grid: single-pixel read and write, plus bulk
//! export as a textual PPM image or a packed 32-bit ARGB buffer.
//!
//! Writes outside the buffer are silently dropped (the rasterizer's
//! footprints may legitimately cross the edges); reads must stay inside.

use vstd::prelude::*;
use vstd::string::StringExecFns;
use crate::color::Rgb;
use crate::numfmt::dec_rep;
use crate::numfmt::u64_to_decimal;

verus! {

/// A `width x height` grid of pixels, row-major, origin top-left.
#[derive(Debug, Clone)]
pub struct FrameBuffer {
    width: usize,
    height: usize,
    pixels: Vec<Rgb>,
}

/// The packed 32-bit word of a pixel: `0xAARRGGBB` with the padding/alpha
/// byte fixed at 255.
pub open spec fn argb_of(p: Rgb) -> int {
    4278190080 + (p.0 as int) * 65536 + (p.1 as int) * 256 + (p.2 as int)
}

/// The characters of one pixel in the textual export: the three channel
/// values in decimal, each followed by one space.
pub open spec fn ppm_pixel(p: Rgb) -> Seq<char> {
    dec_rep(p.0 as int) + seq![' '] + dec_rep(p.1 as int) + seq![' '] + dec_rep(p.2 as int)
        + seq![' ']
}

/// The characters of the first `x` pixels of row `y`.
pub open spec fn ppm_row(pixels: Seq<Rgb>, w: int, y: int, x: int) -> Seq<char>
    decreases x,
{
    if x <= 0 {
        Seq::empty()
    } else {
        ppm_row(pixels, w, y, x - 1) + ppm_pixel(pixels[y * w + (x - 1)])
    }
}

/// The characters of the first `y` full rows, each closed by a newline.
pub open spec fn ppm_rows(pixels: Seq<Rgb>, w: int, y: int) -> Seq<char>
    decreases y,
{
    if y <= 0 {
        Seq::empty()
    } else {
        ppm_rows(pixels, w, y - 1) + ppm_row(pixels, w, y - 1, w) + seq!['\n']
    }
}

/// The complete textual (PPM) export: the header `P3\n<w> <h>\n255\n`
/// followed by every pixel in row-major order.
pub open spec fn ppm_of(pixels: Seq<Rgb>, w: int, h: int) -> Seq<char> {
    seq!['P', '3', '\n'] + dec_rep(w) + seq![' '] + dec_rep(h) + seq!['\n', '2', '5', '5', '\n']
        + ppm_rows(pixels, w, h)
}

impl View for FrameBuffer {
    type V = Seq<Rgb>;

    /// The pixels in row-major order.
    closed spec fn view(&self) -> Seq<Rgb> {
        self.pixels@
    }
}

impl FrameBuffer {
    /// The grid holds exactly one pixel per cell.
    pub open spec fn wf(&self) -> bool {
        self@.len() == self.spec_width() * self.spec_height()
    }

    pub closed spec fn spec_width(&self) -> int {
        self.width as int
    }

    pub closed spec fn spec_height(&self) -> int {
        self.height as int
    }

    /// Builds a buffer of the given resolution with every pixel black.
    pub fn new(width: usize, height: usize) -> (fb: Self)
        requires
            width * height <= usize::MAX,
        ensures
            fb.wf(),
            fb.spec_width() == width,
            fb.spec_height() == height,
            fb@.len() == width * height,
            forall|i: int| 0 <= i < fb@.len() ==> fb@[i] == Rgb(0, 0, 0),
    {
        let n: usize = width * height;
        let mut pixels: Vec<Rgb> = Vec::new();
        let mut i: usize = 0;
        while i < n
            invariant
                i <= n,
                pixels@.len() == i,
                forall|j: int| 0 <= j < i ==> pixels@[j] == Rgb(0, 0, 0),
            decreases n - i,
        {
            pixels.push(Rgb(0, 0, 0));
            i += 1;
        }
        Self { width, height, pixels }
    }

    /// Writes one pixel. A coordinate outside the buffer is silently
    /// dropped: footprints computed by the rasterizer may cross the edges,
    /// so this path must stay a no-op rather than an error.
    pub fn set_pixel(&mut self, x: usize, y: usize, color: Rgb)
        requires
            old(self).wf(),
        ensures
            final(self).wf(),
            final(self).spec_width() == old(self).spec_width(),
            final(self).spec_height() == old(self).spec_height(),
            x < old(self).spec_width() && y < old(self).spec_height() ==> final(self)@ == old(
                self,
            )@.update(y * old(self).spec_width() + x, color),
            !(x < old(self).spec_width() && y < old(self).spec_height()) ==> final(self)@ == old(
                self,
            )@,
    {
        if x >= self.width || y >= self.height {
            return ;
        }
        let n = self.pixels.len();
        proof {
            assert(y * self.spec_width() + x < self.spec_height() * self.spec_width())
                by (nonlinear_arith)
                requires
                    x < self.spec_width(),
                    y < self.spec_height(),
            ;
            assert(self.spec_height() * self.spec_width() == self.spec_width()
                * self.spec_height()) by (nonlinear_arith);
            assert(y * self.spec_width() + x < n);
        }
        let idx = y * self.width + x;
        self.pixels.set(idx, color);
    }

    /// Reads the pixel at `(x, y)`, which the caller must keep inside the
    /// buffer: an out-of-bounds read is a contract violation, never a wrap.
    pub fn get_pixel(&self, x: usize, y: usize) -> (p: Rgb)
        requires
            self.wf(),
            x < self.spec_width(),
            y < self.spec_height(),
        ensures
            p == self@[y * self.spec_width() + x],
    {
        let n = self.pixels.len();
        proof {
            assert(y * self.spec_width() + x < self.spec_height() * self.spec_width())
                by (nonlinear_arith)
                requires
                    x < self.spec_width(),
                    y < self.spec_height(),
            ;
            assert(self.spec_height() * self.spec_width() == self.spec_width()
                * self.spec_height()) by (nonlinear_arith);
            assert(y * self.spec_width() + x < n);
        }
        let idx = y * self.width + x;
        self.pixels[idx]
    }

    /// Exports every pixel as one packed little-endian 32-bit word per
    /// pixel, `0xAARRGGBB` with the alpha byte fixed at 255, row-major.
    /// The layout is stable: an external viewer decodes it independently.
    pub fn to_argb_u32_buffer(&self) -> (out: Vec<u32>)
        requires
            self.wf(),
        ensures
            out@.len() == self@.len(),
            forall|i: int| 0 <= i < out@.len() ==> out@[i] == argb_of(self@[i]),
    {
        let mut out: Vec<u32> = Vec::new();
        let n = self.pixels.len();
        let mut i: usize = 0;
        while i < n
            invariant
                i <= n,
                n == self@.len(),
                self.wf(),
                out@.len() == i,
                forall|j: int| 0 <= j < i ==> out@[j] == argb_of(self@[j]),
            decreases n - i,
        {
            let p = self.pixels[i];
            let word: u32 = 4278190080u32 + (p.0 as u32) * 65536 + (p.1 as u32) * 256 + (
            p.2 as u32);
            out.push(word);
            i += 1;
        }
        out
    }

    /// Exports the buffer in the textual PPM scheme: the header
    /// `P3\n<width> <height>\n255\n`, then each pixel's three decimal
    /// channel values separated by spaces, one line per row. Byte-for-byte
    /// reproducible for identical input.
    pub fn to_ppm(&self) -> (out: String)
        requires
            self.wf(),
        ensures
            out@ == ppm_of(self@, self.spec_width(), self.spec_height()),
    {
        let mut out = String::new();
        out.append("P3\n");
        let w_dec = u64_to_decimal(self.width as u64);
        out.append(w_dec.as_str());
        out.append(" ");
        let h_dec = u64_to_decimal(self.height as u64);
        out.append(h_dec.as_str());
        out.append("\n255\n");
        proof {
            reveal_strlit("P3\n");
            reveal_strlit(" ");
            reveal_strlit("\n255\n");
            assert("P3\n"@ =~= seq!['P', '3', '\n']);
            assert(" "@ =~= seq![' ']);
            assert("\n255\n"@ =~= seq!['\n', '2', '5', '5', '\n']);
        }
        let ghost header: Seq<char> = seq!['P', '3', '\n'] + dec_rep(self.spec_width()) + seq![' ']
            + dec_rep(self.spec_height()) + seq!['\n', '2', '5', '5', '\n'];
        assert(out@ =~= header);
        let mut y: usize = 0;
        while y < self.height
            invariant
                y <= self.height,
                self.wf(),
                out@ == header + ppm_rows(self@, self.spec_width(), y as int),
            decreases self.height - y,
        {
            let mut x: usize = 0;
            while x < self.width
                invariant
                    x <= self.width,
                    y < self.height,
                    self.wf(),
                    out@ == header + ppm_rows(self@, self.spec_width(), y as int) + ppm_row(
                        self@,
                        self.spec_width(),
                        y as int,
                        x as int,
                    ),
                decreases self.width - x,
            {
                let p = self.get_pixel(x, y);
                let r_dec = u64_to_decimal(p.0 as u64);
                out.append(r_dec.as_str());
                out.append(" ");
                let g_dec = u64_to_decimal(p.1 as u64);
                out.append(g_dec.as_str());
                out.append(" ");
                let b_dec = u64_to_decimal(p.2 as u64);
                out.append(b_dec.as_str());
                out.append(" ");
                proof {
                    reveal_strlit(" ");
                    assert(" "@ =~= seq![' ']);
                    assert(out@ =~= header + ppm_rows(self@, self.spec_width(), y as int) + ppm_row(
                        self@,
                        self.spec_width(),
                        y as int,
                        x as int + 1,
                    ));
                }
                x += 1;
            }
            out.append("\n");
            proof {
                reveal_strlit("\n");
                assert("\n"@ =~= seq!['\n']);
                assert(out@ =~= header + ppm_rows(self@, self.spec_width(), y as int + 1));
            }
            y += 1;
        }
        proof {
            assert(out@ =~= ppm_of(self@, self.spec_width(), self.spec_height()));
        }
        out
    }
}

} // verus!
