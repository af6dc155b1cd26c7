//! Mapping an iteration count to a grayscale pixel.

use vstd::prelude::*;

verus! {

/// One RGB pixel with 8-bit channels. The color mapper always produces
/// equal channels, so a rendered image is grayscale carried in RGB.
#[derive(Clone, Copy, PartialEq, Eq, Structural, Debug)]
pub struct Pixel {
    pub r: u8,
    pub g: u8,
    pub b: u8,
}

/// The gray level for an iteration count `n` under the bound `max_iter`:
/// white past the bound, the raw count truncated to a byte exactly at the
/// bound, and otherwise the 0..=255 ramp `255 * n / max_iter` rounded to
/// the nearest integer (halves rounding up).
pub open spec fn gray_level(n: nat, max_iter: nat) -> nat
    recommends
        max_iter >= 1,
{
    if n > max_iter {
        255
    } else if n == max_iter {
        n % 256
    } else {
        (510 * n + max_iter) / (2 * max_iter)
    }
}

/// The pixel the color mapper owes for count `n` under bound `max_iter`.
pub open spec fn color_spec(n: nat, max_iter: nat) -> Pixel
    recommends
        max_iter >= 1,
{
    Pixel {
        r: gray_level(n, max_iter) as u8,
        g: gray_level(n, max_iter) as u8,
        b: gray_level(n, max_iter) as u8,
    }
}

/// The rounded ramp stays within a byte whenever `n` is under the bound.
proof fn lemma_ramp_fits(n: nat, max_iter: nat)
    requires
        1 <= max_iter,
        n < max_iter,
    ensures
        (510 * n + max_iter) / (2 * max_iter) <= 255,
{
    assert((510 * n + max_iter) / (2 * max_iter) <= 255) by (nonlinear_arith)
        requires
            1 <= max_iter,
            n < max_iter,
    ;
}

/// Every channel of the mapped pixel carries the same gray level.
pub proof fn lemma_color_is_grayscale(n: nat, max_iter: nat)
    ensures
        color_spec(n, max_iter).r == color_spec(n, max_iter).g,
        color_spec(n, max_iter).g == color_spec(n, max_iter).b,
{
}

/// Converts an iteration count into a grayscale pixel: white when the
/// count exceeds the bound, the count truncated to a byte when it equals
/// the bound, and the rounded 0..=255 ramp below it.
pub fn get_color(n_iter: u32, max_iter: u32) -> (p: Pixel)
    requires
        max_iter >= 1,
    ensures
        p == color_spec(n_iter as nat, max_iter as nat),
        p.r == p.g,
        p.g == p.b,
{
    if n_iter > max_iter {
        return Pixel { r: 255, g: 255, b: 255 };
    }

    if n_iter == max_iter {
        let index = (n_iter % 256) as u8;
        return Pixel { r: index, g: index, b: index };
    }

    proof {
        lemma_ramp_fits(n_iter as nat, max_iter as nat);
    }
    let num: u64 = 510 * (n_iter as u64) + (max_iter as u64);
    let index = (num / (2 * (max_iter as u64))) as u8;
    Pixel { r: index, g: index, b: index }
}

} // verus!
