//! Escape-time evaluation for the Mandelbrot set over fixed-point coordinates.
//!
//! Coordinates on the complex plane are carried as signed 64-bit integers in
//! units of `1 / SCALE` (a binary fixed-point format with 32 fractional
//! bits).  Every arithmetic step is defined exactly over the integers, so the
//! whole pipeline — mapping pixels to points, iterating `z * z + c`, and
//! shading — is deterministic and fully specified.

use vstd::prelude::*;
use vstd::arithmetic::div_mod::{
    lemma_fundamental_div_mod, lemma_fundamental_div_mod_converse_div,
};

verus! {

/// Number of fixed-point units per 1.0 on the complex plane (2^32).
pub const SCALE: i64 = 4294967296;

/// The same scale factor, for 128-bit intermediate arithmetic.
pub const SCALE_WIDE: i128 = 4294967296;

/// Largest coordinate magnitude the renderer accepts: 2^20 units of 1.0,
/// i.e. 2^52 fixed-point steps.  Viewports of interest are tiny compared
/// to this; the bound keeps every intermediate product inside `i128`.
pub const COORD_LIMIT: i64 = 4503599627370496;

/// `|z|^2 > 4.0` threshold expressed in squared fixed-point units: 4 * 2^64.
pub const ESCAPE_THRESHOLD: i128 = 73786976294838206464;

/// A point on the complex plane in fixed-point coordinates.
#[derive(Clone, Copy, Debug, PartialEq, Eq, Structural)]
pub struct Complex {
    pub re: i64,
    pub im: i64,
}

/// A coordinate the renderer accepts: at most `COORD_LIMIT` in magnitude.
pub open spec fn coord_ok(x: int) -> bool {
    -(COORD_LIMIT as int) <= x <= COORD_LIMIT as int
}

/// Both components lie within the accepted coordinate range.
pub open spec fn complex_ok(c: Complex) -> bool {
    coord_ok(c.re as int) && coord_ok(c.im as int)
}

/// A well-formed viewport: both corners in range, the upper-left corner
/// strictly left of and strictly above the lower-right corner.
pub open spec fn viewport_ok(ul: Complex, lr: Complex) -> bool {
    complex_ok(ul) && complex_ok(lr) && (ul.re as int) < (lr.re as int) && (lr.im as int) < (
    ul.im as int)
}

/// Squared magnitude of the point `(zr, zi)`, in squared fixed-point units.
pub open spec fn norm_sqr(zr: int, zi: int) -> int {
    zr * zr + zi * zi
}

/// Real part of `z * z + c` in fixed-point arithmetic (divisions round
/// toward negative infinity, as Euclidean division by a positive divisor).
pub open spec fn step_re(zr: int, zi: int, cr: int) -> int {
    (zr * zr) / (SCALE as int) - (zi * zi) / (SCALE as int) + cr
}

/// Imaginary part of `z * z + c` in fixed-point arithmetic.
pub open spec fn step_im(zr: int, zi: int, ci: int) -> int {
    (2 * zr * zi) / (SCALE as int) + ci
}

/// The orbit of `c` under `z -> z * z + c`, starting from zero:
/// the value of `z` before iteration `n` runs.
pub open spec fn orbit(c: Complex, n: nat) -> (int, int)
    decreases n,
{
    if n == 0 {
        (0int, 0int)
    } else {
        let z = orbit(c, (n - 1) as nat);
        (step_re(z.0, z.1, c.re as int), step_im(z.0, z.1, c.im as int))
    }
}

/// Whether the orbit of `c` has left the circle of radius 2 when checked
/// at the start of iteration `n`.
pub open spec fn escaped_at(c: Complex, n: nat) -> bool {
    norm_sqr(orbit(c, n).0, orbit(c, n).1) > ESCAPE_THRESHOLD as int
}

/// The first iteration in `[i, limit)` at which the orbit of `c` is seen
/// outside the circle, if any.
pub open spec fn first_escape_from(c: Complex, i: nat, limit: nat) -> Option<nat>
    decreases limit - i,
{
    if i >= limit {
        None
    } else if escaped_at(c, i) {
        Some(i)
    } else {
        first_escape_from(c, i + 1, limit)
    }
}

/// The result the escape evaluator must produce for `c` under `limit`.
pub open spec fn escape_spec(c: Complex, limit: nat) -> Option<nat> {
    first_escape_from(c, 0, limit)
}

/// Division by a positive divisor that rounds toward negative infinity,
/// agreeing with spec-mode `/` (Euclidean division) on every input.
fn floor_div_wide(a: i128, b: i128) -> (q: i128)
    requires
        0 < b <= i128::MAX / 4,
        -(i128::MAX / 4) <= a <= i128::MAX / 4,
    ensures
        q == a as int / b as int,
{
    if a >= 0 {
        let q = a / b;
        proof {
            lemma_fundamental_div_mod(a as int, b as int);
        }
        q
    } else {
        let q = -((-a + (b - 1)) / b);
        proof {
            let ai = a as int;
            let bi = b as int;
            let qe = ai / bi;
            let re = ai % bi;
            lemma_fundamental_div_mod(ai, bi);
            // -a + b - 1 == (-qe) * b + (b - 1 - re), with the remainder in range
            assert(-ai + bi - 1 == (-qe) * bi + (bi - 1 - re)) by (nonlinear_arith)
                requires
                    ai == bi * qe + re,
            ;
            lemma_fundamental_div_mod_converse_div(-ai + bi - 1, bi, -qe, bi - 1 - re);
        }
        q
    }
}

/// Reports whether `c` is outside the Mandelbrot set, trying at most
/// `limit` iterations of `z -> z * z + c` from `z = 0`.
///
/// Returns `Some(i)` when the orbit is first seen outside the circle of
/// radius 2 at iteration `i < limit`, and `None` when `limit` iterations
/// gave no such proof (so `c` is likely a member).  Two facts worth
/// stating on their own: a point already outside radius 2 is always
/// reported escaped within any limit of at least 2, and the origin is
/// never reported escaped.
pub fn escape_time(c: Complex, limit: usize) -> (r: Option<usize>)
    requires
        complex_ok(c),
    ensures
        match r {
            Some(i) => i < limit && escape_spec(c, limit as nat) == Some(i as nat),
            None => escape_spec(c, limit as nat) is None,
        },
        norm_sqr(c.re as int, c.im as int) > ESCAPE_THRESHOLD as int && limit >= 2 ==> r is Some,
        c.re == 0 && c.im == 0 ==> r is None,
{
    let mut zr: i64 = 0;
    let mut zi: i64 = 0;
    let mut i: usize = 0;
    while i < limit
        invariant
            i <= limit,
            complex_ok(c),
            (zr as int, zi as int) == orbit(c, i as nat),
            -(COORD_LIMIT as int) - 4 * (SCALE as int) <= zr as int
                <= COORD_LIMIT as int + 4 * (SCALE as int),
            -(COORD_LIMIT as int) - 4 * (SCALE as int) <= zi as int
                <= COORD_LIMIT as int + 4 * (SCALE as int),
            first_escape_from(c, i as nat, limit as nat) == escape_spec(c, limit as nat),
        decreases limit - i,
    {
        proof {
            let b = COORD_LIMIT as int + 4 * (SCALE as int);
            assert(0 <= (zr as int) * (zr as int) <= b * b && 0 <= (zi as int) * (zi as int)
                <= b * b && -(b * b + b * b) <= 2 * (zr as int) * (zi as int) <= b * b + b * b)
                by (nonlinear_arith)
                requires
                    -b <= zr as int <= b,
                    -b <= zi as int <= b,
            ;
            assert(b * b + b * b < i128::MAX) by (nonlinear_arith)
                requires
                    b == 4503616807239680,
            ;
        }
        let zr_sq: i128 = (zr as i128) * (zr as i128);
        let zi_sq: i128 = (zi as i128) * (zi as i128);
        if zr_sq + zi_sq > ESCAPE_THRESHOLD {
            proof {
                assert(escaped_at(c, i as nat));
                if c.re == 0 && c.im == 0 {
                    lemma_origin_orbit_is_zero(c, i as nat);
                }
            }
            return Some(i);
        }
        proof {
            assert((zr as int) * (zr as int) <= 4 * (SCALE as int) * (SCALE as int));
            assert((zi as int) * (zi as int) <= 4 * (SCALE as int) * (SCALE as int));
            assert(-(4 * (SCALE as int) * (SCALE as int)) <= 2 * (zr as int) * (zi as int)
                <= 4 * (SCALE as int) * (SCALE as int)) by (nonlinear_arith)
                requires
                    (zr as int) * (zr as int) + (zi as int) * (zi as int)
                        <= 4 * (SCALE as int) * (SCALE as int),
            ;
        }
        let sq_re: i128 = zr_sq / SCALE_WIDE;
        let sq_im: i128 = zi_sq / SCALE_WIDE;
        let cross: i128 = 2 * (zr as i128) * (zi as i128);
        let cross_scaled: i128 = floor_div_wide(cross, SCALE_WIDE);
        proof {
            vstd::arithmetic::div_mod::lemma_div_is_ordered(
                zr_sq as int,
                4 * (SCALE as int) * (SCALE as int),
                SCALE as int,
            );
            vstd::arithmetic::div_mod::lemma_div_is_ordered(
                zi_sq as int,
                4 * (SCALE as int) * (SCALE as int),
                SCALE as int,
            );
            vstd::arithmetic::div_mod::lemma_div_is_ordered(
                cross as int,
                4 * (SCALE as int) * (SCALE as int),
                SCALE as int,
            );
            vstd::arithmetic::div_mod::lemma_div_is_ordered(
                -(4 * (SCALE as int) * (SCALE as int)),
                cross as int,
                SCALE as int,
            );
            assert(4 * (SCALE as int) * (SCALE as int) / (SCALE as int) == 4 * (SCALE as int))
                by {
                vstd::arithmetic::div_mod::lemma_div_multiples_vanish(
                    4 * (SCALE as int),
                    SCALE as int,
                );
                assert(4 * (SCALE as int) * (SCALE as int) == (SCALE as int) * (4 * (SCALE
                    as int))) by (nonlinear_arith);
            }
            assert(-(4 * (SCALE as int) * (SCALE as int)) / (SCALE as int) == -(4 * (SCALE
                as int))) by {
                vstd::arithmetic::div_mod::lemma_div_multiples_vanish(
                    -(4 * (SCALE as int)),
                    SCALE as int,
                );
                assert(-(4 * (SCALE as int) * (SCALE as int)) == (SCALE as int) * (-(4 * (SCALE
                    as int)))) by (nonlinear_arith);
            }
        }
        let new_re: i128 = sq_re - sq_im + (c.re as i128);
        let new_im: i128 = cross_scaled + (c.im as i128);
        proof {
            let b = COORD_LIMIT as int + 4 * (SCALE as int);
            assert(-b <= new_re as int <= b);
            assert(-b <= new_im as int <= b);
        }
        zr = new_re as i64;
        zi = new_im as i64;
        i = i + 1;
        proof {
            assert((zr as int, zi as int) == orbit(c, i as nat));
            assert(!escaped_at(c, (i - 1) as nat));
            assert(first_escape_from(c, (i - 1) as nat, limit as nat) == first_escape_from(
                c,
                i as nat,
                limit as nat,
            ));
        }
    }
    proof {
        if norm_sqr(c.re as int, c.im as int) > ESCAPE_THRESHOLD as int && limit >= 2 {
            assert(orbit(c, 1) == (step_re(0, 0, c.re as int), step_im(0, 0, c.im as int)));
            assert(step_re(0, 0, c.re as int) == c.re as int);
            assert(step_im(0, 0, c.im as int) == c.im as int);
            assert(escaped_at(c, 1));
            if !escaped_at(c, 0) {
                assert(first_escape_from(c, 1, limit as nat) == Some(1nat));
            }
            assert(escape_spec(c, limit as nat) is Some);
            assert(first_escape_from(c, limit as nat, limit as nat) is None);
            assert(false);
        }
    }
    None
}

/// The orbit of the origin never leaves zero.
proof fn lemma_origin_orbit_is_zero(c: Complex, n: nat)
    requires
        c.re == 0,
        c.im == 0,
    ensures
        orbit(c, n) == (0int, 0int),
        !escaped_at(c, n),
    decreases n,
{
    if n > 0 {
        lemma_origin_orbit_is_zero(c, (n - 1) as nat);
    }
}

} // verus!
