//! The region partitioner: divides the job's region into `threads` equal
//! horizontal bands, top to bottom, each with its share of the pixel rows and
//! a one-based ordinal used to name its output file (ordinal zero is the
//! header file).

use crate::complex::Complex;
use crate::job::{FractalError, RenderJob};
use vstd::arithmetic::div_mod::{
    lemma_div_pos_is_pos, lemma_fundamental_div_mod, lemma_mod_division_less_than_divisor,
};
use vstd::arithmetic::mul::{lemma_mul_inequality, lemma_mul_nonnegative};
use vstd::prelude::*;

verus! {

/// One horizontal slice of the region, owned by exactly one worker.
#[derive(Clone, Copy, PartialEq, Eq, Structural, Debug)]
pub struct Band {
    pub top_left: Complex,
    pub bottom_right: Complex,
    pub pixel_width: u32,
    pub pixel_height: u32,
    pub index: u32,
}

/// The imaginary height of one band: the region's imaginary span divided by
/// the band count, rounded down to a fixed-point step.
pub open spec fn separation(job: RenderJob) -> int {
    (job.top_left.im - job.bottom_right.im) / (job.threads as int)
}

/// Band `i` (zero-based, top to bottom): it shares the region's real bounds,
/// spans `separation` downward from `top_left.im - i * separation`, holds
/// `height / threads` pixel rows, and is named by ordinal `i + 1`.
pub open spec fn band_of(job: RenderJob, i: int) -> Band {
    Band {
        top_left: Complex {
            re: job.top_left.re,
            im: (job.top_left.im - i * separation(job)) as i64,
        },
        bottom_right: Complex {
            re: job.bottom_right.re,
            im: (job.top_left.im - (i + 1) * separation(job)) as i64,
        },
        pixel_width: job.width,
        pixel_height: ((job.height as int) / (job.threads as int)) as u32,
        index: (i + 1) as u32,
    }
}

/// For `0 <= i <= threads`, the line `top_left.im - i * separation` stays
/// between the region's imaginary corners, so every band corner fits `i64`.
pub proof fn lemma_band_line_in_range(job: RenderJob, i: int)
    requires
        job.coords_wf(),
        job.threads >= 1,
        0 <= i <= job.threads,
    ensures
        job.bottom_right.im <= job.top_left.im - i * separation(job) <= job.top_left.im,
        separation(job) >= 0,
{
    let span = job.top_left.im - job.bottom_right.im;
    let n = job.threads as int;
    let sep = separation(job);
    lemma_div_pos_is_pos(span, n);
    lemma_fundamental_div_mod(span, n);
    lemma_mod_division_less_than_divisor(span, n);
    lemma_mul_nonnegative(i, sep);
    lemma_mul_inequality(i, n, sep);
}

/// `partition(job)`: `threads` bands as `band_of` describes, or the
/// `Configuration` error exactly when the band count, width or height is
/// zero.
pub fn partition(job: &RenderJob) -> (r: Result<Vec<Band>, FractalError>)
    requires
        job.coords_wf(),
    ensures
        match r {
            Ok(bands) => {
                &&& job.wf()
                &&& bands@.len() == job.threads
                &&& forall|i: int| 0 <= i < job.threads ==> bands@[i] == band_of(*job, i)
            },
            Err(e) => {
                &&& e == FractalError::Configuration
                &&& (job.threads == 0 || job.width == 0 || job.height == 0)
            },
        },
{
    if job.threads == 0 || job.width == 0 || job.height == 0 {
        return Err(FractalError::Configuration);
    }
    let span: i64 = job.top_left.im - job.bottom_right.im;
    let sep: i64 = span / (job.threads as i64);
    let band_height: u32 = job.height / job.threads;
    let mut bands: Vec<Band> = Vec::new();
    let mut i: u32 = 0;
    proof {
        lemma_band_line_in_range(*job, 0);
    }
    while i < job.threads
        invariant
            job.coords_wf(),
            job.wf(),
            i <= job.threads,
            sep == separation(*job),
            band_height == (job.height as int) / (job.threads as int),
            bands@.len() == i,
            forall|j: int| 0 <= j < i ==> bands@[j] == band_of(*job, j),
        decreases job.threads - i,
    {
        proof {
            lemma_band_line_in_range(*job, i as int);
            lemma_band_line_in_range(*job, i as int + 1);
        }
        let top_im: i64 = job.top_left.im - (i as i64) * sep;
        let bot_im: i64 = job.top_left.im - ((i as i64) + 1) * sep;
        let band = Band {
            top_left: Complex { re: job.top_left.re, im: top_im },
            bottom_right: Complex { re: job.bottom_right.re, im: bot_im },
            pixel_width: job.width,
            pixel_height: band_height,
            index: i + 1,
        };
        bands.push(band);
        i = i + 1;
    }
    Ok(bands)
}

/// Law: the bands' imaginary spans are contiguous and non-overlapping, start
/// at the region's top, and jointly cover the region's imaginary span except
/// for the remainder that rounding the separation down leaves at the bottom —
/// less than one fixed-point step per band.
pub proof fn lemma_partition_contiguous(job: RenderJob)
    requires
        job.coords_wf(),
        job.threads >= 1,
    ensures
        band_of(job, 0).top_left.im == job.top_left.im,
        forall|i: int|
            0 <= i < job.threads ==> #[trigger] band_of(job, i).bottom_right.im <= band_of(
                job,
                i,
            ).top_left.im,
        forall|i: int|
            0 <= i < job.threads - 1 ==> #[trigger] band_of(job, i).bottom_right.im == band_of(
                job,
                i + 1,
            ).top_left.im,
        job.bottom_right.im <= band_of(job, job.threads - 1).bottom_right.im < job.bottom_right.im
            + job.threads,
{
    let n = job.threads as int;
    let sep = separation(job);
    let span = job.top_left.im - job.bottom_right.im;
    lemma_band_line_in_range(job, 0);
    assert forall|i: int| 0 <= i < n implies #[trigger] band_of(job, i).bottom_right.im <= band_of(
        job,
        i,
    ).top_left.im by {
        lemma_band_line_in_range(job, i);
        lemma_band_line_in_range(job, i + 1);
        assert((i + 1) * sep == i * sep + sep) by (nonlinear_arith);
    }
    assert forall|i: int| 0 <= i < n - 1 implies #[trigger] band_of(job, i).bottom_right.im
        == band_of(job, i + 1).top_left.im by {
        lemma_band_line_in_range(job, i + 1);
    }
    lemma_band_line_in_range(job, n - 1);
    lemma_band_line_in_range(job, n);
    lemma_fundamental_div_mod(span, n);
    lemma_mod_division_less_than_divisor(span, n);
    assert(n * sep == (n - 1) * sep + sep) by (nonlinear_arith);
}

} // verus!
