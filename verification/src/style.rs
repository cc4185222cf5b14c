//! Selection styles: how a displaced pixel competes with the pixel it
//! would replace, and how far each style spreads its displacements.

use vstd::prelude::*;
use crate::pixel::{blend_of, luma_of, Pixel};

verus! {

/// The rule that chooses between a pixel and its displaced candidate.
#[derive(Clone, Copy, Debug, PartialEq, Eq, Structural)]
pub enum Style {
    /// Keep the candidate only where it is darker than the original.
    Darkest,
    /// Keep the candidate only where it is lighter than the original.
    Lightest,
    /// Always keep the candidate.
    Always,
    /// Keep the average of candidate and original.
    Mix,
}

/// A multiplier held as a fraction, so that it is exact until the caller
/// applies it to a scale.
#[derive(Clone, Copy, Debug, PartialEq, Eq, Structural)]
pub struct ScaleFactor {
    pub numerator: u32,
    pub denominator: u32,
}

/// The factor by which a style widens the spread of its displacements.
///
/// The styles that compare or average look further afield than `Always`,
/// because most nearby candidates lose the comparison: they spread two and
/// a half times as wide.
pub open spec fn scale_factor_of(style: Style) -> ScaleFactor {
    match style {
        Style::Always => ScaleFactor { numerator: 1, denominator: 1 },
        Style::Darkest => ScaleFactor { numerator: 5, denominator: 2 },
        Style::Lightest => ScaleFactor { numerator: 5, denominator: 2 },
        Style::Mix => ScaleFactor { numerator: 5, denominator: 2 },
    }
}

/// The pixel that `style` selects from an original pixel and its candidate.
///
/// `Darkest` and `Lightest` compare brightness strictly, so a tie keeps
/// the original. The pixel that wins is kept whole, alpha included.
pub open spec fn select_spec(style: Style, original: Pixel, candidate: Pixel) -> Pixel {
    match style {
        Style::Always => candidate,
        Style::Darkest => if luma_of(candidate) < luma_of(original) {
            candidate
        } else {
            original
        },
        Style::Lightest => if luma_of(candidate) > luma_of(original) {
            candidate
        } else {
            original
        },
        Style::Mix => blend_of(candidate, original),
    }
}

/// Under `Darkest` the selected pixel is never brighter than the original.
pub proof fn lemma_darkest_never_brighter(original: Pixel, candidate: Pixel)
    ensures
        luma_of(select_spec(Style::Darkest, original, candidate)) <= luma_of(original),
        luma_of(select_spec(Style::Darkest, original, candidate)) <= luma_of(candidate),
{
}

/// Under `Lightest` the selected pixel is never darker than the original.
pub proof fn lemma_lightest_never_darker(original: Pixel, candidate: Pixel)
    ensures
        luma_of(select_spec(Style::Lightest, original, candidate)) >= luma_of(original),
        luma_of(select_spec(Style::Lightest, original, candidate)) >= luma_of(candidate),
{
}

/// Under `Mix` every channel of the selected pixel, alpha included, is the
/// sum of the two channels halved and rounded down.
pub proof fn lemma_mix_averages(original: Pixel, candidate: Pixel)
    ensures
        ({
            let mixed = select_spec(Style::Mix, original, candidate);
            &&& mixed.r as int == (candidate.r as int + original.r as int) / 2
            &&& mixed.g as int == (candidate.g as int + original.g as int) / 2
            &&& mixed.b as int == (candidate.b as int + original.b as int) / 2
            &&& mixed.a as int == (candidate.a as int + original.a as int) / 2
        }),
{
}

/// Where candidate and original are the same pixel, every style selects it.
pub proof fn lemma_select_same(style: Style, pixel: Pixel)
    ensures
        select_spec(style, pixel, pixel) == pixel,
{
}

impl Style {
    /// The factor by which this style multiplies the scale of a run before
    /// the spread of the displacements is computed from it.
    pub fn scale_factor(self) -> (factor: ScaleFactor)
        ensures
            factor == scale_factor_of(self),
            factor.denominator > 0,
    {
        match self {
            Style::Always => ScaleFactor { numerator: 1, denominator: 1 },
            Style::Darkest => ScaleFactor { numerator: 5, denominator: 2 },
            Style::Lightest => ScaleFactor { numerator: 5, denominator: 2 },
            Style::Mix => ScaleFactor { numerator: 5, denominator: 2 },
        }
    }

    /// The pixel that this style selects from `original` and `candidate`.
    pub fn select(self, original: Pixel, candidate: Pixel) -> (selected: Pixel)
        ensures
            selected == select_spec(self, original, candidate),
    {
        match self {
            Style::Always => candidate,
            Style::Darkest => {
                if candidate.luma() < original.luma() {
                    candidate
                } else {
                    original
                }
            },
            Style::Lightest => {
                if candidate.luma() > original.luma() {
                    candidate
                } else {
                    original
                }
            },
            Style::Mix => Pixel::blend(candidate, original),
        }
    }
}

} // verus!
