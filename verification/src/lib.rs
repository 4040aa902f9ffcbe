//! Escape-time fractal rendering over a rectangular region of the complex
//! plane, split into horizontal bands, one band per worker, emitting one
//! text-based pixel-value file per band plus a header file.
//!
//! Coordinates are fixed-point: an `i64` component stands for the real number
//! `component / SCALE`. All coordinate arithmetic is exact integer
//! arithmetic, so every contract pins the computed bytes down exactly.
//! Reading configuration, creating directories, spawning workers and writing
//! the files is left to the surrounding program; everything the pixels'
//! values depend on lives here.

use vstd::arithmetic::div_mod::{lemma_div_nonincreasing, lemma_div_pos_is_pos};
use vstd::arithmetic::mul::lemma_mul_nonnegative;
use vstd::prelude::*;

pub mod complex;
pub mod escape;
pub mod job;
pub mod output;
pub mod partition;
pub mod render;

use crate::escape::{escape_time, lemma_escape_time_within_cap};
use crate::job::{FractalError, RenderJob};
use crate::output::{body_wf, encode_rows, lemma_body_concat, lemma_lines_bytes_wf, lines_bytes};
use crate::partition::{band_of, partition, Band};
use crate::render::{
    band_renderable, lemma_band_renderable, lemma_quantize_monotonic, pixel_point, pixel_start,
    render_band, row_spec,
};

verus! {

/// The rendered rows of band `i` (zero-based) of a job, top to bottom.
pub open spec fn band_rows(job: RenderJob, i: int) -> Seq<Seq<u8>> {
    Seq::new(band_of(job, i).pixel_height as nat, |y: int| row_spec(job, band_of(job, i), y))
}

/// The bytes of the band file with ordinal `i + 1` of a job.
pub open spec fn band_body(job: RenderJob, i: int) -> Seq<u8> {
    lines_bytes(band_rows(job, i))
}

/// The band files 1..=n of a job, concatenated in ascending ordinal order.
pub open spec fn concat_bodies(job: RenderJob, n: int) -> Seq<u8>
    decreases n,
{
    if n <= 0 {
        Seq::empty()
    } else {
        concat_bodies(job, n - 1) + band_body(job, n - 1)
    }
}

/// `render_band_file(job, band)`: one band's complete file bytes — every
/// scanline rendered and closed by a newline.
pub fn render_band_file(job: &RenderJob, band: &Band) -> (bytes: Vec<u8>)
    requires
        band_renderable(*job, *band),
    ensures
        bytes@ == lines_bytes(
            Seq::new(band.pixel_height as nat, |y: int| row_spec(*job, *band, y)),
        ),
{
    let rows = render_band(job, band);
    let bytes = encode_rows(&rows);
    proof {
        assert(rows.deep_view() =~~= Seq::new(
            band.pixel_height as nat,
            |y: int| row_spec(*job, *band, y),
        ));
    }
    bytes
}

/// `render_all(job)`: the bytes of every band file, in ascending ordinal
/// order, computed sequentially; or the `Configuration` error exactly when
/// the band count, width or height is zero. A dispatcher may instead hand
/// each band of `partition` to its own worker — the bands are independent.
pub fn render_all(job: &RenderJob) -> (r: Result<Vec<Vec<u8>>, FractalError>)
    requires
        job.coords_wf(),
    ensures
        match r {
            Ok(files) => {
                &&& job.wf()
                &&& files@.len() == job.threads
                &&& forall|i: int|
                    0 <= i < job.threads ==> (#[trigger] files@[i])@ == band_body(*job, i)
            },
            Err(e) => {
                &&& e == FractalError::Configuration
                &&& (job.threads == 0 || job.width == 0 || job.height == 0)
            },
        },
{
    let bands = match partition(job) {
        Ok(b) => b,
        Err(e) => {
            return Err(e);
        },
    };
    let mut files: Vec<Vec<u8>> = Vec::new();
    let mut i: usize = 0;
    while i < bands.len()
        invariant
            job.wf(),
            bands@.len() == job.threads,
            forall|k: int| 0 <= k < job.threads ==> bands@[k] == band_of(*job, k),
            i <= bands@.len(),
            files@.len() == i,
            forall|k: int| 0 <= k < i ==> (#[trigger] files@[k])@ == band_body(*job, k),
        decreases bands@.len() - i,
    {
        proof {
            lemma_band_renderable(*job, i as int);
        }
        let bytes = render_band_file(job, &bands[i]);
        proof {
            assert(Seq::new(
                bands@[i as int].pixel_height as nat,
                |y: int| row_spec(*job, bands@[i as int], y),
            ) =~= band_rows(*job, i as int));
        }
        files.push(bytes);
        i = i + 1;
    }
    Ok(files)
}

/// Every rendered row is `pixel_width` symbol bytes and holds no newline.
proof fn lemma_row_spec_wf(job: RenderJob, band: Band, y: int)
    requires
        job.coords_wf(),
    ensures
        row_spec(job, band, y).len() == band.pixel_width,
        forall|x: int| 0 <= x < band.pixel_width ==> #[trigger] row_spec(job, band, y)[x] != 10,
{
    assert forall|x: int|
        0 <= x < band.pixel_width implies #[trigger] row_spec(job, band, y)[x] != 10 by {
        let zc = pixel_start(job.mode, job.seed@, pixel_point(band, x, y));
        lemma_escape_time_within_cap(zc.0, zc.1, job.bound * job.bound, job.max_iter as nat);
        let et = escape_time(zc.0, zc.1, job.bound * job.bound, job.max_iter as nat) as int;
        lemma_quantize_monotonic(et, et, job.max_iter as int);
    }
}

/// Law (round trip): concatenating the band files `1..=n` in ascending order
/// yields exactly `n * (height / threads)` data lines, each of exactly
/// `width` symbol bytes. At `n == threads` that is the full image beneath the
/// header — `height` lines when `threads` divides `height`, short of the
/// remainder rows that the integer division drops otherwise.
pub proof fn lemma_round_trip(job: RenderJob, n: int)
    requires
        job.wf(),
        0 <= n <= job.threads,
    ensures
        body_wf(
            concat_bodies(job, n),
            (n * ((job.height as int) / (job.threads as int))) as nat,
            job.width as nat,
        ),
    decreases n,
{
    let bh = (job.height as int) / (job.threads as int);
    lemma_div_pos_is_pos(job.height as int, job.threads as int);
    lemma_div_nonincreasing(job.height as int, job.threads as int);
    if n == 0 {
        assert(body_wf(concat_bodies(job, 0), 0, job.width as nat));
    } else {
        lemma_round_trip(job, n - 1);
        let band = band_of(job, n - 1);
        let rows = band_rows(job, n - 1);
        assert forall|i: int| 0 <= i < rows.len() implies (#[trigger] rows[i]).len()
            == job.width by {
            lemma_row_spec_wf(job, band, i);
        }
        assert forall|i: int, j: int|
            0 <= i < rows.len() && 0 <= j < job.width implies #[trigger] rows[i][j] != 10 by {
            lemma_row_spec_wf(job, band, i);
        }
        lemma_lines_bytes_wf(rows, job.width as nat);
        assert(rows.len() == bh);
        lemma_mul_nonnegative(n - 1, bh);
        lemma_mul_nonnegative(n, bh);
        lemma_body_concat(
            concat_bodies(job, n - 1),
            band_body(job, n - 1),
            ((n - 1) * bh) as nat,
            bh as nat,
            job.width as nat,
        );
        assert(n * bh == (n - 1) * bh + bh) by (nonlinear_arith);
    }
}

} // verus!
