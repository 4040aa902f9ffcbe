//! The band renderer: maps every pixel of a band to a point of the plane,
//! evaluates the escape time there, and quantizes the count to one of 16
//! hexadecimal intensity symbols — `'0'` for the fastest escape, `'f'` for a
//! pixel that never escapes within the cap. (The convention that the cap maps
//! to `'f'`, never to `'0'`, is deliberate: the two extremes must stay
//! distinguishable.)

use crate::complex::Complex;
use crate::escape::{escape_time, evaluate, COORD_LIMIT};
use crate::job::{Mode, RenderJob};
use crate::partition::{band_of, lemma_band_line_in_range, separation, Band};
use vstd::arithmetic::div_mod::{
    lemma_div_is_ordered, lemma_div_nonincreasing, lemma_div_pos_is_pos,
    lemma_fundamental_div_mod, lemma_mod_division_less_than_divisor, lemma_multiply_divide_lt,
};
use vstd::arithmetic::mul::{lemma_mul_inequality, lemma_mul_nonnegative};
use vstd::prelude::*;

verus! {

/// The real width of one pixel cell of a band.
pub open spec fn rstep_of(band: Band) -> int {
    (band.bottom_right.re - band.top_left.re) / (band.pixel_width as int)
}

/// The imaginary height of one pixel cell of a band.
pub open spec fn istep_of(band: Band) -> int {
    (band.top_left.im - band.bottom_right.im) / (band.pixel_height as int)
}

/// Pixel column `x` samples the cell's center: half a step past `x` steps
/// from the band's left edge.
pub open spec fn pixel_re(band: Band, x: int) -> int {
    band.top_left.re + x * rstep_of(band) + rstep_of(band) / 2
}

/// Pixel row `y` samples the cell's center, descending from the band's top.
pub open spec fn pixel_im(band: Band, y: int) -> int {
    band.top_left.im - (y * istep_of(band) + istep_of(band) / 2)
}

/// The plane point sampled at pixel `(x, y)` of a band.
pub open spec fn pixel_point(band: Band, x: int, y: int) -> (int, int) {
    (pixel_re(band, x), pixel_im(band, y))
}

/// The start value and parameter the mode assigns at a sampled point `p`:
/// Mandelbrot iterates `p` under `p` itself, Julia iterates the fixed seed
/// under `p`.
pub open spec fn pixel_start(mode: Mode, seed: (int, int), p: (int, int)) -> ((int, int), (int, int)) {
    match mode {
        Mode::Mandelbrot => (p, p),
        Mode::Julia => (seed, p),
    }
}

/// An escape count `counter` in `[0, max_iter]` maps to symbol index
/// `counter * 16 / max_iter`, except that the cap itself maps to 15 exactly,
/// so a pixel that never escapes gets the slowest-escape symbol.
pub open spec fn quantize_spec(counter: int, max_iter: int) -> int {
    if counter >= max_iter {
        15
    } else {
        counter * 16 / max_iter
    }
}

/// The ASCII byte of symbol index `sym`: the hexadecimal digits `0..9a..f`
/// as a dense intensity scale.
pub open spec fn hex_byte(sym: int) -> int {
    if sym < 10 {
        48 + sym
    } else {
        87 + sym
    }
}

/// The symbol byte rendered at pixel `(x, y)` of a band: evaluate the escape
/// time at the sampled point under the job's mode, quantize, and take the
/// symbol's ASCII byte.
pub open spec fn pixel_symbol(job: RenderJob, band: Band, x: int, y: int) -> int {
    let zc = pixel_start(job.mode, job.seed@, pixel_point(band, x, y));
    hex_byte(
        quantize_spec(
            escape_time(zc.0, zc.1, job.bound * job.bound, job.max_iter as nat) as int,
            job.max_iter as int,
        ),
    )
}

/// One rendered scanline of a band.
pub open spec fn row_spec(job: RenderJob, band: Band, y: int) -> Seq<u8> {
    Seq::new(band.pixel_width as nat, |x: int| pixel_symbol(job, band, x, y) as u8)
}

/// What rendering a band needs of its inputs: job numbers in range, band
/// corners in range and ordered, and at least one pixel column.
pub open spec fn band_renderable(job: RenderJob, band: Band) -> bool {
    &&& job.coords_wf()
    &&& -COORD_LIMIT <= band.top_left.re <= COORD_LIMIT
    &&& -COORD_LIMIT <= band.top_left.im <= COORD_LIMIT
    &&& -COORD_LIMIT <= band.bottom_right.re <= COORD_LIMIT
    &&& -COORD_LIMIT <= band.bottom_right.im <= COORD_LIMIT
    &&& band.top_left.re <= band.bottom_right.re
    &&& band.bottom_right.im <= band.top_left.im
    &&& band.pixel_width >= 1
}

/// Every band the partitioner produces from a well-formed job can be
/// rendered.
pub proof fn lemma_band_renderable(job: RenderJob, i: int)
    requires
        job.wf(),
        0 <= i < job.threads,
    ensures
        band_renderable(job, band_of(job, i)),
{
    lemma_band_line_in_range(job, i);
    lemma_band_line_in_range(job, i + 1);
    assert((i + 1) * separation(job) == i * separation(job) + separation(job))
        by (nonlinear_arith);
}

/// Sampling at the center of cell `k` of `n` cells lands inside the spanned
/// interval: the offset `k * (span/n) + (span/n)/2` lies in `[0, span]`.
proof fn lemma_offset_in_span(span: int, n: int, k: int)
    requires
        0 <= span,
        1 <= n,
        0 <= k < n,
    ensures
        0 <= k * (span / n) + (span / n) / 2 <= span,
        span / n >= 0,
{
    let st = span / n;
    lemma_div_pos_is_pos(span, n);
    lemma_div_pos_is_pos(st, 2);
    lemma_div_nonincreasing(st, 2);
    lemma_mul_nonnegative(k, st);
    lemma_mul_inequality(k, n - 1, st);
    assert((n - 1) * st + st == n * st) by (nonlinear_arith);
    lemma_fundamental_div_mod(span, n);
    lemma_mod_division_less_than_divisor(span, n);
}

/// `quantize(counter, max_iter)`: the 16-level intensity index, exactly
/// `quantize_spec`; monotone in the count, 15 at the cap.
pub fn quantize(counter: usize, max_iter: usize) -> (sym: u8)
    requires
        1 <= max_iter <= usize::MAX / 16,
        counter <= max_iter,
    ensures
        sym == quantize_spec(counter as int, max_iter as int),
        sym <= 15,
{
    if counter >= max_iter {
        15
    } else {
        proof {
            lemma_fundamental_div_mod(usize::MAX as int, 16);
            lemma_div_pos_is_pos(counter * 16, max_iter as int);
            lemma_multiply_divide_lt(counter * 16, max_iter as int, 16);
        }
        ((counter * 16) / max_iter) as u8
    }
}

/// Law: quantization is monotonic — a higher escape count maps to an equal
/// or higher symbol index — and every index lies in `[0, 15]`.
pub proof fn lemma_quantize_monotonic(c1: int, c2: int, m: int)
    requires
        0 <= c1 <= c2 <= m,
        1 <= m,
    ensures
        quantize_spec(c1, m) <= quantize_spec(c2, m),
        0 <= quantize_spec(c1, m) <= 15,
        15 == quantize_spec(m, m),
{
    if c1 < m {
        lemma_div_pos_is_pos(c1 * 16, m);
        lemma_multiply_divide_lt(c1 * 16, m, 16);
    }
    if c2 < m {
        lemma_div_is_ordered(c1 * 16, c2 * 16, m);
    }
}

/// `hex_symbol(sym)`: the ASCII byte of a symbol index, exactly `hex_byte`.
pub fn hex_symbol(sym: u8) -> (b: u8)
    requires
        sym <= 15,
    ensures
        b == hex_byte(sym as int),
{
    if sym < 10 {
        48 + sym
    } else {
        87 + sym
    }
}

/// `render_row(job, band, y)`: scanline `y` of the band, one symbol byte per
/// pixel column, exactly `row_spec`.
pub fn render_row(job: &RenderJob, band: &Band, y: u32) -> (row: Vec<u8>)
    requires
        band_renderable(*job, *band),
        y < band.pixel_height,
    ensures
        row@ == row_spec(*job, *band, y as int),
{
    let re_span: i64 = band.bottom_right.re - band.top_left.re;
    let im_span: i64 = band.top_left.im - band.bottom_right.im;
    let rstep: i64 = re_span / (band.pixel_width as i64);
    let istep: i64 = im_span / (band.pixel_height as i64);
    proof {
        lemma_offset_in_span(im_span as int, band.pixel_height as int, y as int);
    }
    let im: i64 = band.top_left.im - ((y as i64) * istep + istep / 2);
    let mut row: Vec<u8> = Vec::new();
    let mut x: u32 = 0;
    while x < band.pixel_width
        invariant
            band_renderable(*job, *band),
            y < band.pixel_height,
            x <= band.pixel_width,
            re_span == band.bottom_right.re - band.top_left.re,
            0 <= re_span,
            rstep == rstep_of(*band),
            istep == istep_of(*band),
            im == pixel_im(*band, y as int),
            band.bottom_right.im <= im <= band.top_left.im,
            row@.len() == x,
            forall|i: int| 0 <= i < x ==> row@[i] == pixel_symbol(*job, *band, i, y as int) as u8,
        decreases band.pixel_width - x,
    {
        proof {
            lemma_offset_in_span(re_span as int, band.pixel_width as int, x as int);
        }
        let re: i64 = band.top_left.re + ((x as i64) * rstep + rstep / 2);
        let p = Complex { re, im };
        let (z0, c) = match job.mode {
            Mode::Mandelbrot => (p, p),
            Mode::Julia => (job.seed, p),
        };
        let count = evaluate(z0, c, job.bound, job.max_iter);
        let sym = quantize(count, job.max_iter);
        let byte = hex_symbol(sym);
        row.push(byte);
        x = x + 1;
    }
    proof {
        assert(row@ =~= row_spec(*job, *band, y as int));
    }
    row
}

/// `render_band(job, band)`: all of the band's scanlines, top to bottom, one
/// per pixel row.
pub fn render_band(job: &RenderJob, band: &Band) -> (rows: Vec<Vec<u8>>)
    requires
        band_renderable(*job, *band),
    ensures
        rows@.len() == band.pixel_height,
        forall|y: int| 0 <= y < band.pixel_height ==> #[trigger] rows@[y]@ == row_spec(
            *job,
            *band,
            y,
        ),
{
    let mut rows: Vec<Vec<u8>> = Vec::new();
    let mut y: u32 = 0;
    while y < band.pixel_height
        invariant
            band_renderable(*job, *band),
            y <= band.pixel_height,
            rows@.len() == y,
            forall|i: int| 0 <= i < y ==> #[trigger] rows@[i]@ == row_spec(*job, *band, i),
        decreases band.pixel_height - y,
    {
        let row = render_row(job, band, y);
        rows.push(row);
        y = y + 1;
    }
    rows
}

} // verus!
