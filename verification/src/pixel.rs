//! Pixels of four 8-bit channels, their brightness and their average.

use vstd::prelude::*;

verus! {

/// One pixel: red, green, blue and alpha, eight bits each.
#[derive(Clone, Copy, Debug, PartialEq, Eq, Structural)]
pub struct Pixel {
    pub r: u8,
    pub g: u8,
    pub b: u8,
    pub a: u8,
}

/// The brightness of a pixel: the weighted sum of its colour channels with
/// the sRGB luminance weights 0.2126, 0.7152 and 0.0722, rounded down.
/// Alpha takes no part in it.
pub open spec fn luma_of(pixel: Pixel) -> int {
    (2126 * pixel.r + 7152 * pixel.g + 722 * pixel.b) / 10000
}

/// The average of two channel values, rounded down.
pub open spec fn average_of(first: u8, second: u8) -> u8 {
    ((first + second) / 2) as u8
}

/// The pixel halfway between two pixels, channel by channel, alpha
/// included.
pub open spec fn blend_of(candidate: Pixel, original: Pixel) -> Pixel {
    Pixel {
        r: average_of(candidate.r, original.r),
        g: average_of(candidate.g, original.g),
        b: average_of(candidate.b, original.b),
        a: average_of(candidate.a, original.a),
    }
}

/// Brightness is a channel value: it never leaves `0..=255`, because the
/// three weights add up to the divisor.
pub proof fn lemma_luma_is_channel_value(pixel: Pixel)
    ensures
        0 <= luma_of(pixel) <= 255,
{
}

/// Trusted: `image::Pixel::to_luma` on an `image::Rgba<u8>`.
///
/// The `image` crate computes the luma of 8-bit channels in integers, as
/// `(2126 * r + 7152 * g + 722 * b) / 10000` with a truncating division,
/// and ignores alpha. The contract states that formula of the call; it is
/// not proved here. That the formula stays within a `u8` is proved, by
/// `lemma_luma_is_channel_value`.
#[verifier::external_body]
fn rgba_to_luma(pixel: Pixel) -> (luma: u8)
    ensures
        luma as int == luma_of(pixel),
{
    image::Pixel::to_luma(&image::Rgba([pixel.r, pixel.g, pixel.b, pixel.a])).0[0]
}

fn average(first: u8, second: u8) -> (mean: u8)
    ensures
        mean == average_of(first, second),
{
    let sum: u16 = first as u16 + second as u16;
    (sum / 2) as u8
}

impl Pixel {
    /// The brightness of this pixel.
    pub fn luma(self) -> (luma: u8)
        ensures
            luma as int == luma_of(self),
    {
        rgba_to_luma(self)
    }

    /// The pixel halfway between `candidate` and `original`.
    pub fn blend(candidate: Pixel, original: Pixel) -> (mixed: Pixel)
        ensures
            mixed == blend_of(candidate, original),
    {
        Pixel {
            r: average(candidate.r, original.r),
            g: average(candidate.g, original.g),
            b: average(candidate.b, original.b),
            a: average(candidate.a, original.a),
        }
    }
}

} // verus!
