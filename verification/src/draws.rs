//! The stream of draws that a run consumes, and how its pixels share it.
//!
//! The library draws nothing itself. Its caller generates the draws, from a
//! seeded generator and a normal distribution, rounds each to the nearest
//! integer and hands the stream over. What is fixed here is how many draws a
//! run takes, which of them belongs to which pixel, and the integer
//! constants from which the caller computes the distribution.

use vstd::prelude::*;
use crate::raster::{Raster, RasterView};

verus! {

/// The seed from which the draws of a run are generated, unless the caller
/// chooses another. With one seed, one raster and one set of parameters the
/// stream of draws is the same in every run.
pub const DEFAULT_SEED: u64 = 0;

/// The draws are normally distributed around the bias of the run, which is
/// zero unless the caller chooses another, with a standard deviation of
/// `scale * factor * width / SPREAD_DIVISOR` pixels, where `factor` is the
/// scale factor of the style and `width` the width of the raster.
pub const SPREAD_DIVISOR: u32 = 4000;

/// An offset from a pixel's own coordinate, in whole pixels along each
/// axis.
#[derive(Clone, Copy, Debug, PartialEq, Eq, Structural)]
pub struct Displacement {
    pub dx: i32,
    pub dy: i32,
}

/// The number of draws that a run over `raster` consumes: one for each axis
/// of each pixel.
pub open spec fn draws_needed(raster: RasterView) -> nat {
    2 * raster.width * raster.height
}

/// The place of `(x, y)` in the order in which a run visits the pixels:
/// column after column, and each column from the top down.
pub open spec fn visit_index(raster: RasterView, x: int, y: int) -> int {
    x * raster.height + y
}

/// The displacement that a run over `raster` applies at `(x, y)`: the pixels
/// take their draws in visiting order, two each, the horizontal draw first.
pub open spec fn displacement_at(
    draws: Seq<i32>,
    raster: RasterView,
    x: int,
    y: int,
) -> Displacement {
    let first = 2 * visit_index(raster, x, y);
    Displacement { dx: draws[first], dy: draws[first + 1] }
}

/// Every draw of the stream is zero.
pub open spec fn all_zero(draws: Seq<i32>) -> bool {
    forall|i: int| 0 <= i < draws.len() ==> draws[i] == 0
}

/// The two draws of a pixel of the raster lie inside a stream of the
/// needed length.
pub proof fn lemma_visit_index_in_bounds(raster: RasterView, x: int, y: int)
    requires
        raster.contains(x, y),
    ensures
        0 <= visit_index(raster, x, y),
        2 * visit_index(raster, x, y) + 2 <= draws_needed(raster),
{
    let w = raster.width as int;
    let h = raster.height as int;
    assert(0 <= x * h + y && 2 * (x * h + y) + 2 <= 2 * w * h) by (nonlinear_arith)
        requires
            0 <= x < w,
            0 <= y < h,
    ;
}

/// The visiting order goes through the columns from left to right and
/// through each column from the top down: a pixel that comes first in that
/// order takes earlier draws, and no two pixels share a draw.
pub proof fn lemma_visit_order(raster: RasterView, x1: int, y1: int, x2: int, y2: int)
    requires
        raster.contains(x1, y1),
        raster.contains(x2, y2),
        x1 < x2 || (x1 == x2 && y1 < y2),
    ensures
        2 * visit_index(raster, x1, y1) + 2 <= 2 * visit_index(raster, x2, y2),
{
    let h = raster.height as int;
    assert(x1 * h + y1 + 1 <= x2 * h + y2) by (nonlinear_arith)
        requires
            0 <= y1 < h,
            0 <= y2 < h,
            x1 < x2 || (x1 == x2 && y1 < y2),
    ;
}

/// The number of draws that a run over `input` consumes.
pub fn draw_count(input: &Raster) -> (count: usize)
    ensures
        count == draws_needed(input@),
{
    let bytes: usize = input.as_raw().len();
    assert(bytes == 2 * draws_needed(input@)) by (nonlinear_arith)
        requires
            bytes == input@.width * input@.height * 4,
            draws_needed(input@) == 2 * input@.width * input@.height,
    ;
    bytes / 2
}

} // verus!
