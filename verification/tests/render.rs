//! The rendering pipeline end to end: the escape decision kernel driven
//! by the real double-precision orbit, band planning, and buffer
//! assembly.

use mandelbrot::bands::{plan_bands, rows_per_band};
use mandelbrot::escape::{escape_step, first_escape, EscapeStep};
use mandelbrot::raster::{intensity, render_banded, render_counts, Image};
use num::Complex;

/// The escape-time evaluation: the orbit arithmetic runs here in double
/// precision, every decision is the library's.
fn escape_time(c: Complex<f64>, limit: u32) -> Option<u32> {
    let mut z = Complex::<f64> { re: 0.0, im: 0.0 };
    let mut i: u32 = 0;
    loop {
        z = z * z + c;
        match escape_step(i, limit, z.norm_sqr() > 4.0) {
            EscapeStep::Escaped(n) => return Some(n),
            EscapeStep::Inside => return None,
            EscapeStep::Continue => i += 1,
        }
    }
}

/// The affine map from pixel coordinates to the complex plane.
fn pixel_to_point(
    bounds: (usize, usize),
    pixel: (usize, usize),
    upper_left: Complex<f64>,
    lower_right: Complex<f64>,
) -> Complex<f64> {
    let (width, height) = (
        lower_right.re - upper_left.re,
        upper_left.im - lower_right.im,
    );
    Complex {
        re: upper_left.re + pixel.0 as f64 * width / bounds.0 as f64,
        im: upper_left.im - pixel.1 as f64 * height / bounds.1 as f64,
    }
}

fn escape_counts(
    bounds: (usize, usize),
    upper_left: Complex<f64>,
    lower_right: Complex<f64>,
    limit: u32,
) -> Vec<Option<u32>> {
    let mut counts = Vec::with_capacity(bounds.0 * bounds.1);
    for row in 0..bounds.1 {
        for column in 0..bounds.0 {
            let point = pixel_to_point(bounds, (column, row), upper_left, lower_right);
            counts.push(escape_time(point, limit));
        }
    }
    counts
}

#[test]
fn test_escape_time() {
    {
        let c = Complex::<f64> { re: 2., im: 0.0 };
        let i = escape_time(c, 10);
        assert_eq!(i, Some(1));
    }
    {
        let c = Complex::<f64> {
            re: 0.00011,
            im: 0.0,
        };
        let i = escape_time(c, 10);
        assert_eq!(i, None);
    }
}

#[test]
fn test_escape_determinism() {
    let c = Complex::<f64> {
        re: -0.74,
        im: 0.11,
    };
    assert_eq!(escape_time(c, 255), escape_time(c, 255));
}

#[test]
fn test_pixel_to_point() {
    assert_eq!(
        pixel_to_point(
            (100, 200),
            (25, 175),
            Complex { re: -1.0, im: 1.0 },
            Complex { re: 1.0, im: -1.0 }
        ),
        Complex {
            re: -0.5,
            im: -0.75
        }
    );
}

#[test]
fn test_map_corner_is_upper_left() {
    let upper_left = Complex { re: -1.2, im: 0.35 };
    let lower_right = Complex { re: -1.0, im: 0.2 };
    let p = pixel_to_point((100, 75), (0, 0), upper_left, lower_right);
    assert_eq!(p, upper_left);
}

#[test]
fn test_first_escape() {
    assert_eq!(first_escape(&vec![]), None);
    assert_eq!(first_escape(&vec![false, false]), None);
    assert_eq!(first_escape(&vec![true]), Some(0));
    assert_eq!(first_escape(&vec![false, true, true]), Some(1));
}

#[test]
fn test_intensity() {
    assert_eq!(intensity(None), 0);
    assert_eq!(intensity(Some(0)), 255);
    assert_eq!(intensity(Some(1)), 254);
    assert_eq!(intensity(Some(254)), 1);
    assert_eq!(intensity(Some(255)), 0);
}

#[test]
fn test_rows_per_band() {
    assert_eq!(rows_per_band(75, 8), 10);
    assert_eq!(rows_per_band(100, 12), 9);
    assert_eq!(rows_per_band(10, 3), 4);
    assert_eq!(rows_per_band(10, 1), 10);
    assert_eq!(rows_per_band(3, 8), 1);
}

#[test]
fn test_band_coverage() {
    for &(height, workers) in &[(75usize, 8usize), (100, 12), (1, 1), (5, 8), (64, 64), (7, 2)] {
        let plan = plan_bands(height, workers);
        assert!(plan.len() <= workers);
        let bh = rows_per_band(height, workers);
        let mut seen = vec![0u32; height];
        for (k, band) in plan.iter().enumerate() {
            assert!(band.height >= 1);
            assert!(band.height <= bh);
            if k + 1 < plan.len() {
                assert_eq!(band.height, bh);
            }
            for row in band.top..band.top + band.height {
                seen[row] += 1;
            }
        }
        for row in 0..height {
            assert_eq!(seen[row], 1, "row {} of grid {}x{}", row, height, workers);
        }
    }
}

#[test]
fn test_band_invariance() {
    let bounds = (60usize, 45usize);
    let counts = escape_counts(
        bounds,
        Complex { re: -2.0, im: 1.2 },
        Complex { re: 0.8, im: -1.2 },
        255,
    );
    let whole = render_counts(&counts);
    let one = render_banded(&counts, bounds.0, bounds.1, 1);
    let eight = render_banded(&counts, bounds.0, bounds.1, 8);
    let twelve = render_banded(&counts, bounds.0, bounds.1, 12);
    assert_eq!(whole, one);
    assert_eq!(one, eight);
    assert_eq!(eight, twelve);
}

#[test]
fn test_end_to_end() {
    let bounds = (100usize, 75usize);
    let upper_left = Complex { re: -1.20, im: 0.35 };
    let lower_right = Complex { re: -1.0, im: 0.20 };
    let counts = escape_counts(bounds, upper_left, lower_right, 255);
    let pixels = render_banded(&counts, bounds.0, bounds.1, 8);
    assert_eq!(pixels.len(), 100 * 75);
    let counts_again = escape_counts(bounds, upper_left, lower_right, 255);
    let pixels_again = render_banded(&counts_again, bounds.0, bounds.1, 8);
    assert_eq!(pixels, pixels_again);
}

#[test]
fn test_image_grid() {
    let mut img: Image<u8> = Image::new(10, 10, 0);
    assert_eq!(img.width(), 10);
    assert_eq!(img.height(), 10);
    for col in 0..10 {
        img.set(0, col, (col + 1) as u8);
    }
    assert_eq!(img.get(0, 0), 1);
    assert_eq!(img.get(0, 9), 10);
    assert_eq!(img.get(1, 0), 0);
    assert_eq!(img.row(0), vec![1, 2, 3, 4, 5, 6, 7, 8, 9, 10]);
    assert_eq!(img.row(2), vec![0; 10]);
}
