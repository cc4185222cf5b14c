//! The distortion engine: one pass over a raster that replaces every pixel
//! by what its style selects from the pixel and a displaced neighbour.

use vstd::prelude::*;
use crate::boundary::{lemma_resolve_in_bounds, lemma_resolve_zero, resolve, resolve_spec};
use crate::draws::{
    all_zero, displacement_at, draw_count, draws_needed, lemma_visit_index_in_bounds,
    Displacement,
};
use crate::pixel::{luma_of, Pixel};
use crate::raster::{lemma_pixels_determine_raster, lemma_with_pixel, Raster, RasterView};
use crate::style::{
    lemma_darkest_never_brighter, lemma_lightest_never_darker, lemma_mix_averages,
    lemma_select_same, select_spec, Style,
};

verus! {

/// Why a run was refused.
#[derive(Clone, Copy, Debug, PartialEq, Eq, Structural)]
pub enum DistortError {
    /// The draws do not fit the raster: a run takes exactly two draws for
    /// each pixel.
    InvalidParameter,
}

/// The coordinate whose pixel competes for the place `(x, y)` under the
/// displacement `shift`: each axis is resolved on its own.
pub open spec fn source_of(raster: RasterView, x: int, y: int, shift: Displacement) -> (int, int) {
    (
        resolve_spec(x, shift.dx as int, raster.width as int),
        resolve_spec(y, shift.dy as int, raster.height as int),
    )
}

/// The pixel that a run writes at `(x, y)`: what `style` selects from the
/// pixel of `raster` at `(x, y)` and the pixel of `raster` at the source
/// coordinate.
pub open spec fn displaced_pixel(
    raster: RasterView,
    x: int,
    y: int,
    shift: Displacement,
    style: Style,
) -> Pixel {
    let source = source_of(raster, x, y, shift);
    select_spec(style, raster.pixel_at(x, y), raster.pixel_at(source.0, source.1))
}

/// At `(x, y)`, `output` holds what a run over `input` with `draws` and
/// `style` writes there.
pub open spec fn pixel_is_distorted(
    output: RasterView,
    input: RasterView,
    draws: Seq<i32>,
    style: Style,
    x: int,
    y: int,
) -> bool {
    output.pixel_at(x, y) == displaced_pixel(
        input,
        x,
        y,
        displacement_at(draws, input, x, y),
        style,
    )
}

/// `output` is the result of a run over `input` with `draws` and `style`:
/// a well-formed raster of the same dimensions, each pixel of which is the
/// displaced pixel of `input` at its coordinate.
pub open spec fn is_distortion(
    output: RasterView,
    input: RasterView,
    draws: Seq<i32>,
    style: Style,
) -> bool {
    &&& output.wf()
    &&& output.width == input.width
    &&& output.height == input.height
    &&& forall|x: int, y: int|
        input.contains(x, y) ==> #[trigger] pixel_is_distorted(output, input, draws, style, x, y)
}

/// No pixel of `output` is brighter than the pixel of `input` at the same
/// place.
pub open spec fn nowhere_brighter(output: RasterView, input: RasterView) -> bool {
    forall|x: int, y: int|
        input.contains(x, y) ==> luma_of(#[trigger] output.pixel_at(x, y)) <= luma_of(
            input.pixel_at(x, y),
        )
}

/// No pixel of `output` is darker than the pixel of `input` at the same
/// place.
pub open spec fn nowhere_darker(output: RasterView, input: RasterView) -> bool {
    forall|x: int, y: int|
        input.contains(x, y) ==> luma_of(#[trigger] output.pixel_at(x, y)) >= luma_of(
            input.pixel_at(x, y),
        )
}

/// Every channel of every pixel of `output`, alpha included, is the sum of
/// that channel in the candidate and in the original pixel of `input`,
/// halved and rounded down.
pub open spec fn everywhere_averaged(
    output: RasterView,
    input: RasterView,
    draws: Seq<i32>,
) -> bool {
    forall|x: int, y: int|
        input.contains(x, y) ==> {
            let mixed = #[trigger] output.pixel_at(x, y);
            let original = input.pixel_at(x, y);
            let source = source_of(input, x, y, displacement_at(draws, input, x, y));
            let candidate = input.pixel_at(source.0, source.1);
            &&& mixed.r as int == (candidate.r as int + original.r as int) / 2
            &&& mixed.g as int == (candidate.g as int + original.g as int) / 2
            &&& mixed.b as int == (candidate.b as int + original.b as int) / 2
            &&& mixed.a as int == (candidate.a as int + original.a as int) / 2
        }
}

/// The coordinate that competes for a place of the raster is itself a
/// coordinate of the raster, however large the displacement.
pub proof fn lemma_source_in_raster(raster: RasterView, x: int, y: int, shift: Displacement)
    requires
        raster.contains(x, y),
    ensures
        raster.contains(source_of(raster, x, y, shift).0, source_of(raster, x, y, shift).1),
{
    lemma_resolve_in_bounds(x, shift.dx as int, raster.width as int);
    lemma_resolve_in_bounds(y, shift.dy as int, raster.height as int);
}

/// A run is a function of its arguments: two rasters that both are the
/// result of a run over the same input, with the same draws and the same
/// style, are equal byte for byte.
pub proof fn lemma_distortion_is_unique(
    input: RasterView,
    draws: Seq<i32>,
    style: Style,
    first: RasterView,
    second: RasterView,
)
    requires
        is_distortion(first, input, draws, style),
        is_distortion(second, input, draws, style),
    ensures
        first == second,
{
    assert forall|x: int, y: int| first.contains(x, y) implies #[trigger] first.pixel_at(x, y)
        == second.pixel_at(x, y) by {
        assert(pixel_is_distorted(first, input, draws, style, x, y));
        assert(pixel_is_distorted(second, input, draws, style, x, y));
    }
    lemma_pixels_determine_raster(first, second);
}

/// Where every draw is zero, no pixel moves: the result of the run is the
/// input, byte for byte, under `Always` and under every other style.
pub proof fn lemma_zero_draws_keep_raster(
    input: RasterView,
    draws: Seq<i32>,
    style: Style,
    output: RasterView,
)
    requires
        input.wf(),
        draws.len() == draws_needed(input),
        all_zero(draws),
        is_distortion(output, input, draws, style),
    ensures
        output == input,
{
    assert forall|x: int, y: int| output.contains(x, y) implies #[trigger] output.pixel_at(x, y)
        == input.pixel_at(x, y) by {
        assert(pixel_is_distorted(output, input, draws, style, x, y));
        lemma_visit_index_in_bounds(input, x, y);
        lemma_resolve_zero(x, input.width as int);
        lemma_resolve_zero(y, input.height as int);
        lemma_select_same(style, input.pixel_at(x, y));
    }
    lemma_pixels_determine_raster(output, input);
}

/// Under `Darkest` no pixel of the result is brighter than the pixel of
/// the input at the same place.
pub proof fn lemma_darkest_never_brightens(
    input: RasterView,
    draws: Seq<i32>,
    output: RasterView,
)
    requires
        is_distortion(output, input, draws, Style::Darkest),
    ensures
        nowhere_brighter(output, input),
{
    assert forall|x: int, y: int| input.contains(x, y) implies luma_of(
        #[trigger] output.pixel_at(x, y),
    ) <= luma_of(input.pixel_at(x, y)) by {
        assert(pixel_is_distorted(output, input, draws, Style::Darkest, x, y));
        let source = source_of(input, x, y, displacement_at(draws, input, x, y));
        lemma_darkest_never_brighter(input.pixel_at(x, y), input.pixel_at(source.0, source.1));
    }
}

/// Under `Lightest` no pixel of the result is darker than the pixel of the
/// input at the same place.
pub proof fn lemma_lightest_never_darkens(
    input: RasterView,
    draws: Seq<i32>,
    output: RasterView,
)
    requires
        is_distortion(output, input, draws, Style::Lightest),
    ensures
        nowhere_darker(output, input),
{
    assert forall|x: int, y: int| input.contains(x, y) implies luma_of(
        #[trigger] output.pixel_at(x, y),
    ) >= luma_of(input.pixel_at(x, y)) by {
        assert(pixel_is_distorted(output, input, draws, Style::Lightest, x, y));
        let source = source_of(input, x, y, displacement_at(draws, input, x, y));
        lemma_lightest_never_darker(input.pixel_at(x, y), input.pixel_at(source.0, source.1));
    }
}

/// Under `Mix` every channel of every pixel of the result is the truncated
/// average of that channel in the candidate and in the original pixel.
pub proof fn lemma_mix_averages_channels(input: RasterView, draws: Seq<i32>, output: RasterView)
    requires
        is_distortion(output, input, draws, Style::Mix),
    ensures
        everywhere_averaged(output, input, draws),
{
    assert forall|x: int, y: int| input.contains(x, y) implies ({
        let mixed = #[trigger] output.pixel_at(x, y);
        let original = input.pixel_at(x, y);
        let source = source_of(input, x, y, displacement_at(draws, input, x, y));
        let candidate = input.pixel_at(source.0, source.1);
        &&& mixed.r as int == (candidate.r as int + original.r as int) / 2
        &&& mixed.g as int == (candidate.g as int + original.g as int) / 2
        &&& mixed.b as int == (candidate.b as int + original.b as int) / 2
        &&& mixed.a as int == (candidate.a as int + original.a as int) / 2
    }) by {
        assert(pixel_is_distorted(output, input, draws, Style::Mix, x, y));
        let source = source_of(input, x, y, displacement_at(draws, input, x, y));
        lemma_mix_averages(input.pixel_at(x, y), input.pixel_at(source.0, source.1));
    }
}

/// The pixel that a run over `input` writes at `(x, y)` when the
/// displacement drawn for that place is `shift`.
///
/// The candidate is read from `input`, never from a raster under
/// construction.
pub fn displace_pixel(input: &Raster, x: u32, y: u32, shift: Displacement, style: Style) -> (pixel:
    Pixel)
    requires
        input@.contains(x as int, y as int),
    ensures
        pixel == displaced_pixel(input@, x as int, y as int, shift, style),
{
    let source_x: u32 = resolve(x, shift.dx, input.width());
    let source_y: u32 = resolve(y, shift.dy, input.height());
    let original = input.get_pixel(x, y);
    let candidate = input.get_pixel(source_x, source_y);
    style.select(original, candidate)
}

/// Distorts `input`: returns a new raster of the same dimensions in which
/// every pixel is what `style` selects from the pixel of `input` at that
/// place and the pixel of `input` at the place displaced by the pixel's two
/// draws.
///
/// The pixels are visited column after column, each column from the top
/// down, and each pixel takes the next two draws of the stream: first the
/// horizontal, then the vertical one. The run is refused, before anything
/// is written, unless `draws` holds exactly two draws for each pixel.
/// `input` is left as it is.
pub fn distort(input: &Raster, draws: &[i32], style: Style) -> (outcome: Result<
    Raster,
    DistortError,
>)
    ensures
        outcome is Ok <==> draws@.len() == draws_needed(input@),
        outcome matches Err(error) ==> error == DistortError::InvalidParameter,
        outcome matches Ok(output) ==> {
            &&& output@.width == input@.width
            &&& output@.height == input@.height
            &&& is_distortion(output@, input@, draws@, style)
            &&& all_zero(draws@) ==> output@ == input@
            &&& style == Style::Darkest ==> nowhere_brighter(output@, input@)
            &&& style == Style::Lightest ==> nowhere_darker(output@, input@)
            &&& style == Style::Mix ==> everywhere_averaged(output@, input@, draws@)
        },
{
    let width: u32 = input.width();
    let height: u32 = input.height();
    if draws.len() != draw_count(input) {
        return Err(DistortError::InvalidParameter);
    }
    let bytes: usize = input.as_raw().len();
    assert(width * height * 4 == bytes);
    let mut output: Raster = Raster::new(width, height).unwrap();
    let mut next: usize = 0;
    assert(2 * (0 * height) == 0);
    for x in 0..width
        invariant
            width == input@.width,
            height == input@.height,
            input@.wf(),
            draws@.len() == draws_needed(input@),
            draws@.len() <= usize::MAX,
            output@.wf(),
            output@.width == input@.width,
            output@.height == input@.height,
            next == 2 * (x * height),
            forall|cx: int, cy: int|
                input@.contains(cx, cy) && cx < x ==> #[trigger] pixel_is_distorted(
                    output@,
                    input@,
                    draws@,
                    style,
                    cx,
                    cy,
                ),
    {
        for y in 0..height
            invariant
                x < width,
                width == input@.width,
                height == input@.height,
                input@.wf(),
                draws@.len() == draws_needed(input@),
                draws@.len() <= usize::MAX,
                output@.wf(),
                output@.width == input@.width,
                output@.height == input@.height,
                next == 2 * (x * height + y),
                forall|cx: int, cy: int|
                    input@.contains(cx, cy) && (cx < x || (cx == x && cy < y))
                        ==> #[trigger] pixel_is_distorted(
                        output@,
                        input@,
                        draws@,
                        style,
                        cx,
                        cy,
                    ),
        {
            proof {
                lemma_visit_index_in_bounds(input@, x as int, y as int);
            }
            let shift = Displacement { dx: draws[next], dy: draws[next + 1] };
            let pixel = displace_pixel(input, x, y, shift, style);
            let ghost before = output@;
            output.put_pixel(x, y, pixel);
            next = next + 2;
            proof {
                lemma_with_pixel(before, x as int, y as int, pixel);
                assert(pixel_is_distorted(output@, input@, draws@, style, x as int, y as int));
                assert forall|cx: int, cy: int|
                    input@.contains(cx, cy) && (cx < x || (cx == x && cy < y + 1))
                    implies #[trigger] pixel_is_distorted(
                    output@,
                    input@,
                    draws@,
                    style,
                    cx,
                    cy,
                ) by {
                    if cx != x || cy != y {
                        assert(pixel_is_distorted(before, input@, draws@, style, cx, cy));
                        assert(output@.pixel_at(cx, cy) == before.pixel_at(cx, cy));
                    }
                }
                assert(2 * (x * height + (y + 1)) == 2 * (x * height + y) + 2);
            }
        }
        proof {
            assert(2 * ((x + 1) * height) == 2 * (x * height + height)) by (nonlinear_arith);
        }
    }
    proof {
        if all_zero(draws@) {
            lemma_zero_draws_keep_raster(input@, draws@, style, output@);
        }
        match style {
            Style::Darkest => lemma_darkest_never_brightens(input@, draws@, output@),
            Style::Lightest => lemma_lightest_never_darkens(input@, draws@, output@),
            Style::Mix => lemma_mix_averages_channels(input@, draws@, output@),
            Style::Always => {},
        }
    }
    Ok(output)
}

} // verus!
