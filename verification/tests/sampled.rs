use contaminate::draws::{draw_count, DEFAULT_SEED, SPREAD_DIVISOR};
use contaminate::engine::distort;
use contaminate::pixel::Pixel;
use contaminate::raster::Raster;
use contaminate::style::Style;
use image::Pixel as ImagePixel;
use image::{Rgba, RgbaImage};
use rand::rngs::SmallRng;
use rand::SeedableRng;
use rand_distr::{Distribution, Normal};

const BLACK: Pixel = Pixel { r: 0, g: 0, b: 0, a: 255 };
const WHITE: Pixel = Pixel { r: 255, g: 255, b: 255, a: 255 };
const STYLES: [Style; 4] = [Style::Darkest, Style::Lightest, Style::Always, Style::Mix];

/// The standard deviation of the draws for a raster of the given width.
fn spread(scale: f32, style: Style, width: u32) -> f32 {
    let factor = style.scale_factor();
    let scale = factor.numerator as f32 / factor.denominator as f32 * scale;
    scale * width as f32 / SPREAD_DIVISOR as f32
}

/// The draws of one run: normally distributed, rounded to the nearest
/// integer, from a generator seeded with `seed`.
fn sample_draws(seed: u64, scale: f32, bias: f32, style: Style, input: &Raster) -> Vec<i32> {
    let normal = Normal::new(bias, spread(scale, style, input.width())).unwrap();
    let mut rng = SmallRng::seed_from_u64(seed);
    let mut draws = Vec::new();
    for _ in 0..draw_count(input) {
        draws.push(normal.sample(&mut rng).round() as i32);
    }
    draws
}

/// A raster of arbitrary but fixed bytes.
fn speckled(width: u32, height: u32) -> Raster {
    let mut state: u32 = 12345;
    let mut bytes = Vec::new();
    for _ in 0..width * height * 4 {
        state = state.wrapping_mul(1664525).wrapping_add(1013904223);
        bytes.push((state >> 24) as u8);
    }
    Raster::from_raw(width, height, bytes).unwrap()
}

fn checkerboard() -> Raster {
    let mut raster = Raster::new(2, 2).unwrap();
    raster.put_pixel(0, 0, BLACK);
    raster.put_pixel(0, 1, WHITE);
    raster.put_pixel(1, 0, WHITE);
    raster.put_pixel(1, 1, BLACK);
    raster
}

/// The effect computed on an `image` buffer with the pixel operations of
/// `image` itself, drawing from the generator pixel by pixel.
fn contaminate_image(base: &RgbaImage, seed: u64, scale: f32, style: Style) -> RgbaImage {
    let mut rng = SmallRng::seed_from_u64(seed);
    let width = base.width() as i32;
    let height = base.height() as i32;
    let normal = Normal::new(0.0, spread(scale, style, base.width())).unwrap();
    let mut out = RgbaImage::new(base.width(), base.height());
    for x in 0..width {
        for y in 0..height {
            let delta_x = normal.sample(&mut rng).round() as i32;
            let delta_y = normal.sample(&mut rng).round() as i32;
            let x1 = if x + delta_x >= width {
                (x - delta_x).clamp(0, width - 1)
            } else {
                (x + delta_x).clamp(0, width - 1)
            };
            let y1 = if y + delta_y >= height {
                (y - delta_y).clamp(0, height - 1)
            } else {
                (y + delta_y).clamp(0, height - 1)
            };
            let old_pixel = *base.get_pixel(x as u32, y as u32);
            let new_pixel = *base.get_pixel(x1 as u32, y1 as u32);
            let mixed: Rgba<u8> =
                new_pixel.map2(&old_pixel, |a, b| (a as f32 * 0.5 + b as f32 * 0.5) as u8);
            let pixel = match style {
                Style::Darkest => {
                    if new_pixel.to_luma()[0] < old_pixel.to_luma()[0] {
                        new_pixel
                    } else {
                        old_pixel
                    }
                }
                Style::Lightest => {
                    if new_pixel.to_luma()[0] > old_pixel.to_luma()[0] {
                        new_pixel
                    } else {
                        old_pixel
                    }
                }
                Style::Always => new_pixel,
                Style::Mix => mixed,
            };
            out.put_pixel(x as u32, y as u32, pixel);
        }
    }
    out
}

#[test]
fn scale_zero_draws_nothing_but_zeros() {
    let input = speckled(7, 5);
    for style in STYLES {
        let draws = sample_draws(DEFAULT_SEED, 0.0, 0.0, style, &input);
        assert_eq!(draws, vec![0; 70]);
    }
}

#[test]
fn scale_zero_keeps_the_checkerboard() {
    let input = checkerboard();
    let draws = sample_draws(DEFAULT_SEED, 0.0, 0.0, Style::Always, &input);
    let output = distort(&input, &draws, Style::Always).unwrap();
    assert_eq!(output, input);
}

#[test]
fn scale_zero_keeps_any_raster() {
    let input = speckled(9, 6);
    for style in STYLES {
        let draws = sample_draws(DEFAULT_SEED, 0.0, 0.0, style, &input);
        let output = distort(&input, &draws, style).unwrap();
        assert_eq!(output.as_raw(), input.as_raw());
    }
}

#[test]
fn one_seed_gives_one_result() {
    let input = speckled(12, 10);
    for style in STYLES {
        let first_draws = sample_draws(DEFAULT_SEED, 900.0, 0.0, style, &input);
        let second_draws = sample_draws(DEFAULT_SEED, 900.0, 0.0, style, &input);
        assert_eq!(first_draws, second_draws);
        assert!(first_draws.iter().any(|draw| *draw != 0));
        let first = distort(&input, &first_draws, style).unwrap();
        let second = distort(&input, &second_draws, style).unwrap();
        assert_eq!(first.as_raw(), second.as_raw());
    }
}

#[test]
fn darkest_with_a_wide_spread_darkens_the_checkerboard() {
    let input = checkerboard();
    // a standard deviation of five pixels on an axis of two
    let draws = sample_draws(DEFAULT_SEED, 4000.0, 0.0, Style::Darkest, &input);
    assert!(draws.iter().any(|draw| draw.abs() >= 2));
    let output = distort(&input, &draws, Style::Darkest).unwrap();
    for x in 0..2 {
        for y in 0..2 {
            let pixel = output.get_pixel(x, y);
            assert!(pixel.luma() <= input.get_pixel(x, y).luma());
            assert!(pixel == BLACK || pixel == WHITE);
        }
    }
    assert_eq!(output.get_pixel(0, 0), BLACK);
    assert_eq!(output.get_pixel(1, 1), BLACK);
}

#[test]
fn darkest_never_brightens_a_speckled_raster() {
    let input = speckled(16, 11);
    let draws = sample_draws(DEFAULT_SEED, 1500.0, 0.0, Style::Darkest, &input);
    let output = distort(&input, &draws, Style::Darkest).unwrap();
    for x in 0..16 {
        for y in 0..11 {
            assert!(output.get_pixel(x, y).luma() <= input.get_pixel(x, y).luma());
        }
    }
    assert_ne!(output, input);
}

#[test]
fn lightest_never_darkens_a_speckled_raster() {
    let input = speckled(16, 11);
    let draws = sample_draws(DEFAULT_SEED, 1500.0, 0.0, Style::Lightest, &input);
    let output = distort(&input, &draws, Style::Lightest).unwrap();
    for x in 0..16 {
        for y in 0..11 {
            assert!(output.get_pixel(x, y).luma() >= input.get_pixel(x, y).luma());
        }
    }
    assert_ne!(output, input);
}

#[test]
fn a_biased_spread_still_fits_the_raster() {
    let input = speckled(6, 4);
    for bias in [-1000.0f32, -3.5, 2.0, 1.0e12] {
        let draws = sample_draws(7, 300.0, bias, Style::Always, &input);
        let output = distort(&input, &draws, Style::Always).unwrap();
        assert_eq!(output.width(), 6);
        assert_eq!(output.height(), 4);
    }
}

#[test]
fn luma_agrees_with_the_image_crate() {
    let raster = speckled(8, 8);
    for x in 0..8 {
        for y in 0..8 {
            let pixel = raster.get_pixel(x, y);
            let rgba = Rgba([pixel.r, pixel.g, pixel.b, pixel.a]);
            assert_eq!(pixel.luma(), rgba.to_luma()[0]);
        }
    }
}

#[test]
fn distort_agrees_with_the_effect_on_an_image_buffer() {
    for (width, height) in [(1u32, 1u32), (2, 2), (5, 3), (16, 9), (9, 16), (40, 1), (1, 40)] {
        let input = speckled(width, height);
        let base = RgbaImage::from_raw(width, height, input.as_raw().clone()).unwrap();
        for style in STYLES {
            for scale in [0.0f32, 50.0, 400.0, 3000.0, 50000.0] {
                let draws = sample_draws(DEFAULT_SEED, scale, 0.0, style, &input);
                let output = distort(&input, &draws, style).unwrap();
                let expected = contaminate_image(&base, DEFAULT_SEED, scale, style);
                assert_eq!(output.width(), expected.width());
                assert_eq!(output.height(), expected.height());
                assert_eq!(output.as_raw(), expected.as_raw());
            }
        }
    }
}
