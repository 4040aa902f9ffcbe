//! Render jobs: the full, immutable parameter set of one computation, the
//! iteration mode, and the error kinds the pipeline can report.

use crate::complex::Complex;
use crate::escape::{BOUND_LIMIT, COORD_LIMIT};
use vstd::prelude::*;

verus! {

/// Which values seed the iteration at a pixel: `Mandelbrot` iterates from the
/// pixel's coordinate with the coordinate itself as parameter; `Julia`
/// iterates from the job's fixed seed with the pixel's coordinate as
/// parameter.
#[derive(Clone, Copy, PartialEq, Eq, Structural, Debug)]
pub enum Mode {
    Mandelbrot,
    Julia,
}

/// The error kinds of the pipeline: a rejected configuration, a failed write
/// of one band's output, and the dispatcher's aggregate signal that at least
/// one worker failed.
#[derive(Clone, Copy, PartialEq, Eq, Structural, Debug)]
pub enum FractalError {
    Configuration,
    Io,
    Render,
}

/// Everything one computation needs: iteration mode and seed, the region's
/// corners, escape bound, pixel size, iteration cap and band count.
#[derive(Clone, Copy, PartialEq, Eq, Structural, Debug)]
pub struct RenderJob {
    pub mode: Mode,
    pub seed: Complex,
    pub top_left: Complex,
    pub bottom_right: Complex,
    pub bound: i64,
    pub width: u32,
    pub height: u32,
    pub max_iter: usize,
    pub threads: u32,
}

impl RenderJob {
    /// The numeric part of validity: coordinates small enough that no orbit
    /// step overflows, a properly oriented region (positive width and height
    /// read top-to-bottom), an escape bound and an iteration cap in range.
    pub open spec fn coords_wf(self) -> bool {
        &&& -COORD_LIMIT <= self.seed.re <= COORD_LIMIT
        &&& -COORD_LIMIT <= self.seed.im <= COORD_LIMIT
        &&& -COORD_LIMIT <= self.top_left.re <= COORD_LIMIT
        &&& -COORD_LIMIT <= self.top_left.im <= COORD_LIMIT
        &&& -COORD_LIMIT <= self.bottom_right.re <= COORD_LIMIT
        &&& -COORD_LIMIT <= self.bottom_right.im <= COORD_LIMIT
        &&& self.top_left.re < self.bottom_right.re
        &&& self.bottom_right.im < self.top_left.im
        &&& 0 <= self.bound <= BOUND_LIMIT
        &&& 1 <= self.max_iter <= usize::MAX / 16
    }

    /// A job is well formed when its numbers are in range and none of the
    /// pixel dimensions or the band count is zero.
    pub open spec fn wf(self) -> bool {
        &&& self.coords_wf()
        &&& self.width >= 1
        &&& self.height >= 1
        &&& self.threads >= 1
    }

    /// Builds a job, rejecting every malformed configuration — in particular
    /// a zero band count, width or height — with `Configuration`.
    #[allow(clippy::too_many_arguments)]
    pub fn new(
        mode: Mode,
        seed: Complex,
        top_left: Complex,
        bottom_right: Complex,
        bound: i64,
        width: u32,
        height: u32,
        max_iter: usize,
        threads: u32,
    ) -> (r: Result<RenderJob, FractalError>)
        ensures
            match r {
                Ok(job) => job == (RenderJob {
                    mode,
                    seed,
                    top_left,
                    bottom_right,
                    bound,
                    width,
                    height,
                    max_iter,
                    threads,
                }) && job.wf(),
                Err(e) => e == FractalError::Configuration && !(RenderJob {
                    mode,
                    seed,
                    top_left,
                    bottom_right,
                    bound,
                    width,
                    height,
                    max_iter,
                    threads,
                }).wf(),
            },
    {
        let job = RenderJob { mode, seed, top_left, bottom_right, bound, width, height, max_iter, threads };
        let coord_ok = seed.re >= -COORD_LIMIT && seed.re <= COORD_LIMIT && seed.im >= -COORD_LIMIT
            && seed.im <= COORD_LIMIT && top_left.re >= -COORD_LIMIT && top_left.re <= COORD_LIMIT
            && top_left.im >= -COORD_LIMIT && top_left.im <= COORD_LIMIT && bottom_right.re
            >= -COORD_LIMIT && bottom_right.re <= COORD_LIMIT && bottom_right.im >= -COORD_LIMIT
            && bottom_right.im <= COORD_LIMIT;
        let shape_ok = top_left.re < bottom_right.re && bottom_right.im < top_left.im;
        let range_ok = bound >= 0 && bound <= BOUND_LIMIT && max_iter >= 1 && max_iter <= usize::MAX
            / 16;
        let size_ok = width >= 1 && height >= 1 && threads >= 1;
        if coord_ok && shape_ok && range_ok && size_ok {
            Ok(job)
        } else {
            Err(FractalError::Configuration)
        }
    }
}

/// The dispatcher's aggregation rule: the job succeeds exactly when every
/// worker did; any failure surfaces as the aggregate `Render` error, only
/// after every worker has been joined.
pub fn summarize_workers(results: &Vec<Result<(), FractalError>>) -> (r: Result<(), FractalError>)
    ensures
        r is Ok <==> (forall|i: int| 0 <= i < results@.len() ==> results@[i] is Ok),
        r is Err ==> r == Err::<(), FractalError>(FractalError::Render),
{
    let mut i: usize = 0;
    while i < results.len()
        invariant
            i <= results@.len(),
            forall|j: int| 0 <= j < i ==> results@[j] is Ok,
        decreases results@.len() - i,
    {
        if results[i].is_err() {
            return Err(FractalError::Render);
        }
        i = i + 1;
    }
    Ok(())
}

} // verus!
