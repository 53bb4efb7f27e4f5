//! Per-pixel intensity mapping and row-major buffer indexing.

use vstd::prelude::*;

verus! {

/// Iteration bound shared by every back end; the intensity mapping below
/// depends on it, so all back ends must use this exact value.
pub const ITERATION_LIMIT: u32 = 255;

/// Intensity written for one pixel: 0 where the point never escaped within
/// the iteration limit, otherwise 255 minus the escape count.
pub open spec fn shade_of(escape: Option<u32>) -> u8 {
    match escape {
        None => 0u8,
        Some(count) => (255 - count) as u8,
    }
}

/// Maps one escape-time outcome to the byte stored in the pixel buffer.
/// An escape count is always below the iteration limit, so the subtraction
/// cannot underflow and a point that escaped is never shaded 0.
pub fn shade(escape: Option<u32>) -> (b: u8)
    requires
        escape matches Some(count) ==> count < ITERATION_LIMIT,
    ensures
        b == shade_of(escape),
{
    match escape {
        None => 0,
        Some(count) => 255 - (count as u8),
    }
}

/// A pixel's position in the flat row-major buffer lies inside the buffer.
proof fn lemma_row_major_in_range(width: nat, height: nat, column: nat, row: nat)
    by (nonlinear_arith)
    requires
        column < width,
        row < height,
    ensures
        row * width + column < width * height,
{
}

/// Row-major position of the pixel in column `column` of row `row`: pixels
/// of one row are adjacent, and row 0 comes first.
pub fn pixel_index(bounds: (usize, usize), column: usize, row: usize) -> (i: usize)
    requires
        column < bounds.0,
        row < bounds.1,
        bounds.0 * bounds.1 <= usize::MAX,
    ensures
        i == row * bounds.0 + column,
        i < bounds.0 * bounds.1,
{
    proof {
        lemma_row_major_in_range(bounds.0 as nat, bounds.1 as nat, column as nat, row as nat);
    }
    row * bounds.0 + column
}

/// Whether a pixel buffer of length `len` fits image bounds exactly: one
/// byte per pixel. Every back end demands this of its buffer before it
/// renders.
pub fn buffer_len_matches(len: usize, bounds: (usize, usize)) -> (fits: bool)
    ensures
        fits == (len == bounds.0 * bounds.1),
{
    match bounds.0.checked_mul(bounds.1) {
        Some(product) => len == product,
        None => false,
    }
}

} // verus!
