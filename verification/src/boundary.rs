//! Boundary resolution: bringing a displaced coordinate back into range.

use vstd::prelude::*;

verus! {

/// `value` saturated into `[0, dimension - 1]`.
pub open spec fn saturate(value: int, dimension: int) -> int {
    if value < 0 {
        0
    } else if value >= dimension {
        dimension - 1
    } else {
        value
    }
}

/// The coordinate that `coord` displaced by `delta` resolves to along an
/// axis of length `dimension`.
///
/// A displacement that would leave the axis at its high edge is applied in
/// the opposite direction; one that leaves it at the low edge is not. In
/// both cases the result is then saturated into range.
pub open spec fn resolve_spec(coord: int, delta: int, dimension: int) -> int {
    if coord + delta >= dimension {
        saturate(coord - delta, dimension)
    } else {
        saturate(coord + delta, dimension)
    }
}

/// A resolved coordinate lies on the axis, whatever the coordinate and
/// however large the displacement.
pub proof fn lemma_resolve_in_bounds(coord: int, delta: int, dimension: int)
    requires
        dimension > 0,
    ensures
        0 <= resolve_spec(coord, delta, dimension) < dimension,
{
}

/// A coordinate on the axis that is not displaced resolves to itself.
pub proof fn lemma_resolve_zero(coord: int, dimension: int)
    requires
        0 <= coord < dimension,
    ensures
        resolve_spec(coord, 0, dimension) == coord,
{
}

/// Resolves `coord + delta` to a coordinate on an axis of length
/// `dimension`.
pub fn resolve(coord: u32, delta: i32, dimension: u32) -> (resolved: u32)
    requires
        dimension > 0,
    ensures
        resolved == resolve_spec(coord as int, delta as int, dimension as int),
        resolved < dimension,
{
    let c: i64 = coord as i64;
    let d: i64 = delta as i64;
    let n: i64 = dimension as i64;
    let target: i64 = if c + d >= n {
        c - d
    } else {
        c + d
    };
    if target < 0 {
        0
    } else if target >= n {
        dimension - 1
    } else {
        target as u32
    }
}

} // verus!
