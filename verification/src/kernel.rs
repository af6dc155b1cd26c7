//! The escape-time kernel: fixed-point evaluation of z <- z^2 + c.
//!
//! Coordinates are integers carrying 20 fractional bits, so one unit of
//! the complex plane is 1048576. A product of two coordinates carries 40
//! fractional bits and is rescaled after each multiplication, truncating
//! toward zero. All arithmetic is exact integer arithmetic; the spec
//! functions below are the single definition of what every evaluator of
//! this library computes. Fixed-point images of the constants that appear
//! throughout: 1.0 = 1048576, 2.0 = 2097152, 2.5 = 2621440, 3.5 = 3670016,
//! 4.0 = 4194304, 7.0 = 7340032.

use vstd::arithmetic::div_mod::lemma_div_is_ordered;
use vstd::arithmetic::div_mod::lemma_div_multiples_vanish;
use vstd::arithmetic::div_mod::lemma_div_of0;
use vstd::arithmetic::div_mod::lemma_div_pos_is_pos;
use vstd::arithmetic::div_mod::lemma_fundamental_div_mod;
use vstd::arithmetic::div_mod::lemma_fundamental_div_mod_converse;
use vstd::arithmetic::div_mod::lemma_mod_pos_bound;
use vstd::arithmetic::div_mod::lemma_multiply_divide_le;
use vstd::arithmetic::div_mod::lemma_multiply_divide_lt;
use vstd::prelude::*;

verus! {

/// A product of two fixed-point values rescaled back from 40 to 20
/// fractional bits, truncating toward zero.
pub open spec fn rescaled(a: int) -> int {
    if a >= 0 {
        a / 1048576
    } else {
        -((-a) / 1048576)
    }
}

/// Real part of the complex point for column `i` of a grid `width`
/// columns wide: `(i / width) * 3.5 - 2.5` in fixed point, the real axis
/// mapped onto [-2.5, 1.0).
pub open spec fn point_re(i: int, width: int) -> int
    recommends
        0 < width,
{
    (i * 7340032) / (2 * width) - 2621440
}

/// Imaginary part of the complex point for row `j` of a grid `height`
/// rows tall: `(j / height) * 2.0 - 1.0` in fixed point, the imaginary
/// axis mapped onto [-1.0, 1.0).
pub open spec fn point_im(j: int, height: int) -> int
    recommends
        0 < height,
{
    (j * 2097152) / height - 1048576
}

/// The iteration continues while |z|^2 <= 4, with both squares rescaled
/// to 20 fractional bits before the comparison.
pub open spec fn still_bounded(x: int, y: int) -> bool {
    rescaled(x * x) + rescaled(y * y) <= 4194304
}

/// Real part of one recurrence step: x^2 - y^2 + x0.
pub open spec fn step_re(x: int, y: int, x0: int) -> int {
    rescaled(x * x) - rescaled(y * y) + x0
}

/// Imaginary part of one recurrence step: 2xy + y0.
pub open spec fn step_im(x: int, y: int, y0: int) -> int {
    rescaled(2 * (x * y)) + y0
}

/// The step at which z first leaves the escape radius, starting from
/// z = (x, y) with `n` steps already taken, capped at `max_iter`.
pub open spec fn escape_count(x: int, y: int, x0: int, y0: int, n: nat, max_iter: nat) -> nat
    decreases max_iter - n,
{
    if n >= max_iter || !still_bounded(x, y) {
        n
    } else {
        escape_count(step_re(x, y, x0), step_im(x, y, y0), x0, y0, n + 1, max_iter)
    }
}

/// The iteration count owed for pixel (i, j) of a `width` x `height`
/// grid under the budget `max_iter`.
pub open spec fn escape_time_spec(i: int, j: int, width: int, height: int, max_iter: nat) -> nat
    recommends
        0 < width,
        0 < height,
{
    escape_count(0, 0, point_re(i, width), point_im(j, height), 0, max_iter)
}

/// An escape count never falls below the steps already taken and never
/// exceeds the iteration budget.
pub proof fn lemma_escape_count_bounds(x: int, y: int, x0: int, y0: int, n: nat, max_iter: nat)
    requires
        n <= max_iter,
    ensures
        n <= escape_count(x, y, x0, y0, n, max_iter) <= max_iter,
    decreases max_iter - n,
{
    if n < max_iter && still_bounded(x, y) {
        lemma_escape_count_bounds(step_re(x, y, x0), step_im(x, y, y0), x0, y0, n + 1, max_iter);
    }
}

/// Iteration counts always lie in [0, max_iter].
pub proof fn lemma_escape_time_in_range(i: int, j: int, width: int, height: int, max_iter: nat)
    ensures
        escape_time_spec(i, j, width, height, max_iter) <= max_iter,
{
    lemma_escape_count_bounds(0, 0, point_re(i, width), point_im(j, height), 0, max_iter);
}

/// The recurrence fixes the origin: stepping from z = 0 with c = 0 stays
/// at 0, so the point never escapes and the whole budget is spent.
pub proof fn lemma_center_never_escapes(n: nat, max_iter: nat)
    requires
        n <= max_iter,
    ensures
        escape_count(0, 0, 0, 0, n, max_iter) == max_iter,
    decreases max_iter - n,
{
    assert(rescaled(0) == 0);
    if n < max_iter {
        lemma_center_never_escapes(n + 1, max_iter);
    }
}

/// A pixel whose mapped point is the center of the main cardioid, c = 0,
/// reaches the full iteration budget.
pub proof fn lemma_center_pixel_reaches_budget(
    i: int,
    j: int,
    width: int,
    height: int,
    max_iter: nat,
)
    requires
        point_re(i, width) == 0,
        point_im(j, height) == 0,
    ensures
        escape_time_spec(i, j, width, height, max_iter) == max_iter,
{
    lemma_center_never_escapes(0, max_iter);
}

/// A starting constant already outside the escape radius is left after a
/// single step: the first step maps z = 0 to c itself.
pub proof fn lemma_far_point_escapes_fast(x0: int, y0: int, max_iter: nat)
    requires
        1 <= max_iter,
        !still_bounded(x0, y0),
    ensures
        escape_count(0, 0, x0, y0, 0, max_iter) == 1,
{
    assert(rescaled(0) == 0);
    assert(step_re(0, 0, x0) == x0);
    assert(step_im(0, 0, y0) == y0);
    assert(escape_count(x0, y0, x0, y0, 1, max_iter) == 1);
}

/// A pixel whose mapped point lies outside the escape radius escapes at
/// the very first step.
pub proof fn lemma_far_pixel_escapes_fast(
    i: int,
    j: int,
    width: int,
    height: int,
    max_iter: nat,
)
    requires
        1 <= max_iter,
        !still_bounded(point_re(i, width), point_im(j, height)),
    ensures
        escape_time_spec(i, j, width, height, max_iter) == 1,
{
    lemma_far_point_escapes_fast(point_re(i, width), point_im(j, height), max_iter);
}

/// The top-left corner pixel maps to c = -2.5 - 1.0i, far outside the
/// escape radius, so it escapes at the first step.
pub proof fn lemma_corner_escapes_fast(width: int, height: int, max_iter: nat)
    requires
        0 < width,
        0 < height,
        1 <= max_iter,
    ensures
        escape_time_spec(0, 0, width, height, max_iter) == 1,
{
    lemma_div_of0(2 * width);
    lemma_div_of0(height);
    assert(point_re(0, width) == -2621440);
    assert(point_im(0, height) == -1048576);
    assert(rescaled(2621440int * 2621440) == 6553600) by {
        lemma_fundamental_div_mod_converse(6871947673600, 1048576, 6553600, 0);
    }
    assert(rescaled(1048576int * 1048576) == 1048576) by {
        lemma_fundamental_div_mod_converse(1099511627776, 1048576, 1048576, 0);
    }
    assert(!still_bounded(-2621440, -1048576));
    lemma_far_pixel_escapes_fast(0, 0, width, height, max_iter);
}

/// A product of values bounded by `m` in magnitude is bounded by `m * m`.
proof fn lemma_product_bound(x: int, y: int, m: int)
    by (nonlinear_arith)
    requires
        -m <= x <= m,
        -m <= y <= m,
        0 <= m,
    ensures
        -(m * m) <= x * y <= m * m,
{
}

/// A square is never negative.
proof fn lemma_square_nonneg(x: int)
    by (nonlinear_arith)
    ensures
        x * x >= 0,
{
}

/// Rescaling keeps a value within `m` units when the input lies within
/// `m` units at 40 fractional bits.
proof fn lemma_rescaled_range(a: int, m: int)
    requires
        0 <= m,
        -(m * 1048576) <= a <= m * 1048576,
    ensures
        -m <= rescaled(a) <= m,
{
    assert((1048576 * m) / 1048576 == m) by {
        lemma_div_multiples_vanish(m, 1048576);
    }
    if a >= 0 {
        lemma_div_pos_is_pos(a, 1048576);
        lemma_div_is_ordered(a, m * 1048576, 1048576);
    } else {
        lemma_div_pos_is_pos(-a, 1048576);
        lemma_div_is_ordered(-a, m * 1048576, 1048576);
    }
}

/// A value whose rescaled square stays within the escape bound is itself
/// within 2.0 of zero.
proof fn lemma_square_within_radius(x: int)
    requires
        rescaled(x * x) <= 4194304,
    ensures
        -2097152 <= x <= 2097152,
{
    lemma_square_nonneg(x);
    let q = (x * x) / 1048576;
    let r = (x * x) % 1048576;
    lemma_fundamental_div_mod(x * x, 1048576);
    lemma_mod_pos_bound(x * x, 1048576);
    assert(x * x <= 1048576 * 4194304 + 1048575) by (nonlinear_arith)
        requires
            x * x == 1048576 * q + r,
            q <= 4194304,
            r <= 1048575,
    ;
    assert(-2097152 <= x <= 2097152) by (nonlinear_arith)
        requires
            x * x <= 1048576 * 4194304 + 1048575,
    ;
}

/// Maps a column index to the real part of its complex point: the exact
/// integer form of `(i / width) * 3.5 - 2.5` in fixed point.
pub fn map_re(i: u32, width: u32) -> (r: i64)
    requires
        0 < width,
        i < width,
    ensures
        r as int == point_re(i as int, width as int),
        -2621440 <= r < 1048576,
{
    let num: u64 = (i as u64) * 7340032;
    let den: u64 = 2 * (width as u64);
    let q: u64 = num / den;
    proof {
        lemma_div_pos_is_pos(num as int, den as int);
        lemma_multiply_divide_lt(num as int, den as int, 3670016);
    }
    (q as i64) - 2621440
}

/// Maps a row index to the imaginary part of its complex point: the
/// exact integer form of `(j / height) * 2.0 - 1.0` in fixed point.
pub fn map_im(j: u32, height: u32) -> (r: i64)
    requires
        0 < height,
        j < height,
    ensures
        r as int == point_im(j as int, height as int),
        -1048576 <= r < 1048576,
{
    let num: u64 = (j as u64) * 2097152;
    let q: u64 = num / (height as u64);
    proof {
        lemma_div_pos_is_pos(num as int, height as int);
        lemma_multiply_divide_lt(num as int, height as int, 2097152);
    }
    (q as i64) - 1048576
}

/// Rescales a product of two fixed-point values back to 20 fractional
/// bits, truncating toward zero.
fn rescale(a: i64) -> (r: i64)
    requires
        i64::MIN < a,
    ensures
        r as int == rescaled(a as int),
{
    if a >= 0 {
        let m: u64 = a as u64;
        proof {
            lemma_div_pos_is_pos(m as int, 1048576);
            lemma_multiply_divide_le(m as int, 1048576, m as int);
        }
        (m / 1048576) as i64
    } else {
        let m: u64 = (-a) as u64;
        proof {
            lemma_div_pos_is_pos(m as int, 1048576);
            lemma_multiply_divide_le(m as int, 1048576, m as int);
        }
        -((m / 1048576) as i64)
    }
}

/// Escape-time evaluation for pixel (i, j) of a `width` x `height` grid:
/// the number of recurrence steps z <- z^2 + c taken before |z|^2 leaves
/// the escape radius, capped at `max_iter`.
pub fn escape_time(i: u32, j: u32, width: u32, height: u32, max_iter: u32) -> (n: u32)
    requires
        0 < width,
        0 < height,
        i < width,
        j < height,
    ensures
        n as nat == escape_time_spec(i as int, j as int, width as int, height as int,
            max_iter as nat),
        n <= max_iter,
{
    let x0 = map_re(i, width);
    let y0 = map_im(j, height);
    let mut x: i64 = 0;
    let mut y: i64 = 0;
    let mut n: u32 = 0;
    let ghost total = escape_count(0, 0, x0 as int, y0 as int, 0, max_iter as nat);
    loop
        invariant
            n <= max_iter,
            // 11.0 in fixed point bounds both coordinates: a single step
            // taken from a point that passed the radius check lands within
            // 10.5 of zero on each axis
            -11534336 <= x <= 11534336,
            -11534336 <= y <= 11534336,
            -2621440 <= x0 < 1048576,
            -1048576 <= y0 < 1048576,
            escape_count(x as int, y as int, x0 as int, y0 as int, n as nat, max_iter as nat)
                == total,
        ensures
            n <= max_iter,
            n as nat == total,
        decreases max_iter - n,
    {
        if n == max_iter {
            break;
        }
        proof {
            lemma_square_nonneg(x as int);
            lemma_square_nonneg(y as int);
            lemma_product_bound(x as int, x as int, 11534336);
            lemma_product_bound(y as int, y as int, 11534336);
            lemma_rescaled_range(x as int * x as int, 126877696);
            lemma_rescaled_range(y as int * y as int, 126877696);
            lemma_div_pos_is_pos(x as int * x as int, 1048576);
            lemma_div_pos_is_pos(y as int * y as int, 1048576);
        }
        let xx = rescale(x * x);
        let yy = rescale(y * y);
        if xx + yy > 4194304 {
            assert(!still_bounded(x as int, y as int));
            break;
        }
        proof {
            lemma_square_within_radius(x as int);
            lemma_square_within_radius(y as int);
            lemma_product_bound(x as int, y as int, 2097152);
            lemma_rescaled_range(2 * (x as int * y as int), 8388608);
        }
        let t = rescale(2 * (x * y));
        let xt = xx - yy + x0;
        proof {
            assert(still_bounded(x as int, y as int));
            assert(step_re(x as int, y as int, x0 as int) == xt as int);
            assert(step_im(x as int, y as int, y0 as int) == t + y0);
            assert(escape_count(x as int, y as int, x0 as int, y0 as int, n as nat,
                max_iter as nat) == escape_count(xt as int, t + y0, x0 as int, y0 as int,
                n as nat + 1, max_iter as nat));
        }
        y = t + y0;
        x = xt;
        n = n + 1;
    }
    n
}

} // verus!
