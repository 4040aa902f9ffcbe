use fractal_bands::complex::{add, multiply, norm_squared, Complex, SCALE};
use fractal_bands::escape::evaluate;
use fractal_bands::job::{summarize_workers, FractalError, Mode, RenderJob};
use fractal_bands::output::{encode_rows, header_bytes, u32_to_decimal};
use fractal_bands::partition::partition;
use fractal_bands::render::{hex_symbol, quantize, render_band};
use fractal_bands::{render_all, render_band_file};

/// A plane value as a fixed-point component.
fn fx(v: f64) -> i64 {
    (v * SCALE as f64).round() as i64
}

fn c(re: f64, im: f64) -> Complex {
    Complex { re: fx(re), im: fx(im) }
}

fn job_16x16(mode: Mode, seed: Complex, threads: u32) -> RenderJob {
    RenderJob::new(mode, seed, c(-2.0, 2.0), c(2.0, -2.0), fx(2.0), 16, 16, 128, threads)
        .expect("well-formed job")
}

#[test]
fn complex_add_is_componentwise() {
    let r = add(c(1.0, -2.0), c(0.5, 3.0));
    assert_eq!(r, c(1.5, 1.0));
}

#[test]
fn complex_multiply_matches_formula() {
    // (1 + 2i) * (3 + 4i) = -5 + 10i, exactly representable.
    let r = multiply(c(1.0, 2.0), c(3.0, 4.0));
    assert_eq!(r, c(-5.0, 10.0));
}

#[test]
fn complex_norm_squared_matches_formula() {
    let a = c(3.0, -4.0);
    assert_eq!(norm_squared(a), (a.re as i128) * (a.re as i128) + (a.im as i128) * (a.im as i128));
}

#[test]
fn evaluate_stays_within_cap() {
    let bound = fx(2.0);
    for &(zr, zi, cr, ci) in &[
        (0.0, 0.0, 0.0, 0.0),
        (-2.0, 2.0, -2.0, 2.0),
        (0.3, 0.1, -0.7, 0.2),
        (1.0, 1.0, 1.0, 1.0),
        (3.0, 0.0, 0.0, 0.0),
    ] {
        let r = evaluate(c(zr, zi), c(cr, ci), bound, 128);
        assert!(r <= 128);
    }
}

#[test]
fn evaluate_immediate_escape_is_zero() {
    // |3| > 2, so the very first check escapes: count 0.
    assert_eq!(evaluate(c(3.0, 0.0), c(0.0, 0.0), fx(2.0), 128), 0);
    assert_eq!(evaluate(c(-2.0, 2.0), c(-2.0, 2.0), fx(2.0), 128), 0);
}

#[test]
fn evaluate_never_escapes_is_cap() {
    // Orbit of 0 under z*z + 0 stays at 0 forever.
    assert_eq!(evaluate(c(0.0, 0.0), c(0.0, 0.0), fx(2.0), 128), 128);
    // Orbit of -2 under z*z - 2 is -2, 2, 2, ... — never beyond the bound.
    assert_eq!(evaluate(c(-2.0, 0.0), c(-2.0, 0.0), fx(2.0), 128), 128);
}

#[test]
fn evaluate_counts_completed_steps() {
    // From 1+1i with c = 1+1i: one step reaches 1+3i, norm 10 > 4: count 1.
    assert_eq!(evaluate(c(1.0, 1.0), c(1.0, 1.0), fx(2.0), 128), 1);
}

#[test]
fn evaluate_modes_differ_at_a_point() {
    let p = c(3.0, 0.0);
    let zero = c(0.0, 0.0);
    // Mandelbrot-style start at the pixel escapes before any step.
    assert_eq!(evaluate(p, p, fx(2.0), 128), 0);
    // Julia-style start at seed 0 needs one step to reach the pixel's value.
    assert_eq!(evaluate(zero, p, fx(2.0), 128), 1);
}

#[test]
fn quantize_formula_and_extremes() {
    assert_eq!(quantize(0, 128), 0);
    assert_eq!(quantize(7, 128), 0);
    assert_eq!(quantize(8, 128), 1);
    assert_eq!(quantize(64, 128), 8);
    assert_eq!(quantize(127, 128), 15);
    // The cap maps to 15 exactly — "never escaped" is the slowest symbol.
    assert_eq!(quantize(128, 128), 15);
}

#[test]
fn quantize_is_monotonic() {
    let mut prev = 0u8;
    for counter in 0..=128usize {
        let sym = quantize(counter, 128);
        assert!(sym >= prev);
        assert!(sym <= 15);
        prev = sym;
    }
}

#[test]
fn hex_symbols_are_the_sixteen_digits() {
    let alphabet = b"0123456789abcdef";
    for i in 0..16u8 {
        assert_eq!(hex_symbol(i), alphabet[i as usize]);
    }
}

#[test]
fn decimal_formatting_is_exact() {
    assert_eq!(u32_to_decimal(0), b"0");
    assert_eq!(u32_to_decimal(7), b"7");
    assert_eq!(u32_to_decimal(16), b"16");
    assert_eq!(u32_to_decimal(1234567890), b"1234567890");
    assert_eq!(u32_to_decimal(u32::MAX), b"4294967295");
}

#[test]
fn header_is_two_fixed_lines() {
    assert_eq!(header_bytes(16, 16), b"16 16\n16 1\n");
    assert_eq!(header_bytes(640, 480), b"640 480\n16 1\n");
}

#[test]
fn partition_produces_contiguous_bands() {
    let job = job_16x16(Mode::Mandelbrot, c(0.0, 0.0), 4);
    let bands = partition(&job).expect("four bands");
    assert_eq!(bands.len(), 4);
    assert_eq!(bands[0].top_left.im, fx(2.0));
    for i in 0..4 {
        assert_eq!(bands[i].top_left.re, fx(-2.0));
        assert_eq!(bands[i].bottom_right.re, fx(2.0));
        assert_eq!(bands[i].pixel_width, 16);
        assert_eq!(bands[i].pixel_height, 4);
        assert_eq!(bands[i].index, (i + 1) as u32);
        assert!(bands[i].bottom_right.im < bands[i].top_left.im);
    }
    for i in 0..3 {
        assert_eq!(bands[i].bottom_right.im, bands[i + 1].top_left.im);
    }
    // The span divides evenly here, so the last band ends at the region's
    // bottom exactly.
    assert_eq!(bands[3].bottom_right.im, fx(-2.0));
}

#[test]
fn zero_threads_is_a_configuration_error() {
    let r = RenderJob::new(
        Mode::Mandelbrot,
        c(0.0, 0.0),
        c(-2.0, 2.0),
        c(2.0, -2.0),
        fx(2.0),
        16,
        16,
        128,
        0,
    );
    assert_eq!(r, Err(FractalError::Configuration));
}

#[test]
fn zero_width_is_a_configuration_error() {
    let r = RenderJob::new(
        Mode::Mandelbrot,
        c(0.0, 0.0),
        c(-2.0, 2.0),
        c(2.0, -2.0),
        fx(2.0),
        0,
        16,
        128,
        4,
    );
    assert_eq!(r, Err(FractalError::Configuration));
}

#[test]
fn zero_height_is_a_configuration_error() {
    let r = RenderJob::new(
        Mode::Mandelbrot,
        c(0.0, 0.0),
        c(-2.0, 2.0),
        c(2.0, -2.0),
        fx(2.0),
        16,
        0,
        128,
        4,
    );
    assert_eq!(r, Err(FractalError::Configuration));
}

#[test]
fn partition_rejects_zero_bands_without_dividing() {
    let mut job = job_16x16(Mode::Mandelbrot, c(0.0, 0.0), 4);
    job.threads = 0;
    assert_eq!(partition(&job), Err(FractalError::Configuration));
    let mut job2 = job_16x16(Mode::Mandelbrot, c(0.0, 0.0), 4);
    job2.width = 0;
    assert_eq!(partition(&job2), Err(FractalError::Configuration));
    let mut job3 = job_16x16(Mode::Mandelbrot, c(0.0, 0.0), 4);
    job3.height = 0;
    assert_eq!(partition(&job3), Err(FractalError::Configuration));
}

#[test]
fn misoriented_region_is_a_configuration_error() {
    let r = RenderJob::new(
        Mode::Mandelbrot,
        c(0.0, 0.0),
        c(2.0, -2.0),
        c(-2.0, 2.0),
        fx(2.0),
        16,
        16,
        128,
        4,
    );
    assert_eq!(r, Err(FractalError::Configuration));
}

#[test]
fn scenario_mandelbrot_16x16() {
    let job = job_16x16(Mode::Mandelbrot, c(0.0, 0.0), 4);
    assert_eq!(header_bytes(job.width, job.height), b"16 16\n16 1\n");
    let files = render_all(&job).expect("render succeeds");
    assert_eq!(files.len(), 4);
    for file in &files {
        // 4 lines of 16 symbols plus a newline each.
        assert_eq!(file.len(), 4 * 17);
        for l in 0..4 {
            assert_eq!(file[l * 17 + 16], b'\n');
            for j in 0..16 {
                assert!(file[l * 17 + j].is_ascii_hexdigit());
            }
        }
    }
    // Pixel (0, 0), the extreme top-left, is far outside the set: symbol '0'.
    assert_eq!(files[0][0], b'0');
}

#[test]
fn round_trip_concatenation_restores_the_image() {
    let job = job_16x16(Mode::Mandelbrot, c(0.0, 0.0), 4);
    let files = render_all(&job).expect("render succeeds");
    let mut all: Vec<u8> = Vec::new();
    for file in &files {
        all.extend_from_slice(file);
    }
    let lines: Vec<&[u8]> = all.split(|&b| b == b'\n').collect();
    // split leaves one empty tail after the final newline.
    assert_eq!(lines.len(), 17);
    assert_eq!(lines[16], b"");
    for l in 0..16 {
        assert_eq!(lines[l].len(), 16);
    }
}

#[test]
fn round_trip_drops_remainder_rows() {
    // height 10 over 4 bands: each band gets 2 rows, 8 lines in all.
    let job = RenderJob::new(
        Mode::Mandelbrot,
        c(0.0, 0.0),
        c(-2.0, 2.0),
        c(2.0, -2.0),
        fx(2.0),
        16,
        10,
        128,
        4,
    )
    .expect("well-formed job");
    let files = render_all(&job).expect("render succeeds");
    let total: usize = files.iter().map(|f| f.len()).sum();
    assert_eq!(total, 4 * 2 * 17);
}

#[test]
fn julia_zero_seed_never_escapes() {
    // A single centered pixel samples exactly 0+0i; with seed 0 the orbit
    // stays at 0, so the one symbol is 'f'.
    let job = RenderJob::new(
        Mode::Julia,
        c(0.0, 0.0),
        c(-1.0, 1.0),
        c(1.0, -1.0),
        fx(2.0),
        1,
        1,
        128,
        1,
    )
    .expect("well-formed job");
    let files = render_all(&job).expect("render succeeds");
    assert_eq!(files.len(), 1);
    assert_eq!(files[0], b"f\n");
}

#[test]
fn render_band_rows_match_render_all() {
    let job = job_16x16(Mode::Julia, c(-0.8, 0.156), 4);
    let bands = partition(&job).expect("four bands");
    let files = render_all(&job).expect("render succeeds");
    for (i, band) in bands.iter().enumerate() {
        let rows = render_band(&job, band);
        assert_eq!(rows.len(), 4);
        let bytes = encode_rows(&rows);
        assert_eq!(bytes, files[i]);
        assert_eq!(render_band_file(&job, band), files[i]);
    }
}

#[test]
fn summarize_workers_aggregates_failures() {
    let all_ok: Vec<Result<(), FractalError>> = vec![Ok(()), Ok(()), Ok(())];
    assert_eq!(summarize_workers(&all_ok), Ok(()));
    let one_bad: Vec<Result<(), FractalError>> = vec![Ok(()), Err(FractalError::Io), Ok(())];
    assert_eq!(summarize_workers(&one_bad), Err(FractalError::Render));
    let empty: Vec<Result<(), FractalError>> = vec![];
    assert_eq!(summarize_workers(&empty), Ok(()));
}
