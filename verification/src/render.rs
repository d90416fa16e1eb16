//! Rasterizing the Mandelbrot set: mapping pixels to plane points, shading
//! a buffer row by row, and a banded decomposition whose output is
//! byte-for-byte the sequential image.

use vstd::prelude::*;
use vstd::arithmetic::div_mod::{
    lemma_div_by_multiple, lemma_div_is_ordered, lemma_fundamental_div_mod_converse_div,
    lemma_fundamental_div_mod_converse_mod,
};
use crate::mandel::{complex_ok, escape_spec, viewport_ok, Complex};
use crate::mandel::escape_time;

verus! {

/// The plane point shown by pixel `(x, y)` of a raster of size `b`,
/// linearly interpolated between the viewport corners.  The divisions
/// round toward negative infinity; the interpolation is exact whenever
/// the pixel offsets divide the spans evenly.
pub open spec fn point_at(b: (usize, usize), ul: Complex, lr: Complex, x: int, y: int) -> Complex {
    Complex {
        re: (ul.re + (x * (lr.re - ul.re)) / (b.0 as int)) as i64,
        im: (ul.im - (y * (ul.im - lr.im)) / (b.1 as int)) as i64,
    }
}

/// Grayscale value of a plane point under the fixed iteration limit of
/// 255: black for a likely member, brighter the faster the point escapes.
pub open spec fn shade_of(c: Complex) -> u8 {
    match escape_spec(c, 255) {
        None => 0u8,
        Some(n) => (255 - n) as u8,
    }
}

/// The full image of the viewport `(ul, lr)` at raster size `b`, row-major.
pub open spec fn image_spec(b: (usize, usize), ul: Complex, lr: Complex) -> Seq<u8> {
    Seq::new(
        (b.0 * b.1) as nat,
        |k: int| shade_of(point_at(b, ul, lr, k % (b.0 as int), k / (b.0 as int))),
    )
}

/// Maps pixel `(pixel.0, pixel.1)` of a `bounds.0` by `bounds.1` raster to
/// the plane point it depicts.  Pixel row grows downward while the
/// imaginary axis grows upward, hence the subtraction on the imaginary
/// part.  The result always lies inside the viewport rectangle.
pub fn pixel_to_point(
    bounds: (usize, usize),
    pixel: (usize, usize),
    upper_left: Complex,
    lower_right: Complex,
) -> (r: Complex)
    requires
        bounds.0 >= 1,
        bounds.1 >= 1,
        pixel.0 <= bounds.0,
        pixel.1 <= bounds.1,
        viewport_ok(upper_left, lower_right),
    ensures
        r == point_at(bounds, upper_left, lower_right, pixel.0 as int, pixel.1 as int),
        complex_ok(r),
        upper_left.re <= r.re <= lower_right.re,
        lower_right.im <= r.im <= upper_left.im,
{
    let w_span: i64 = lower_right.re - upper_left.re;
    let h_span: i64 = upper_left.im - lower_right.im;
    proof {
        assert(0 <= (pixel.0 as int) * (w_span as int) <= (bounds.0 as int) * (w_span as int)
            && 0 <= (pixel.1 as int) * (h_span as int) <= (bounds.1 as int) * (h_span as int)
            && (bounds.0 as int) * (w_span as int) < 170141183460469231731687303715884105727
            && (bounds.1 as int) * (h_span as int) < 170141183460469231731687303715884105727)
            by (nonlinear_arith)
            requires
                0 <= pixel.0 as int <= bounds.0 as int,
                0 <= pixel.1 as int <= bounds.1 as int,
                0 <= bounds.0 as int <= 18446744073709551615,
                0 <= bounds.1 as int <= 18446744073709551615,
                0 < w_span as int <= 9007199254740992,
                0 < h_span as int <= 9007199254740992,
        ;
    }
    let re_num: i128 = (pixel.0 as i128) * (w_span as i128);
    let im_num: i128 = (pixel.1 as i128) * (h_span as i128);
    let re_off: i128 = re_num / (bounds.0 as i128);
    let im_off: i128 = im_num / (bounds.1 as i128);
    proof {
        lemma_div_is_ordered(re_num as int, (bounds.0 as int) * (w_span as int), bounds.0 as int);
        lemma_div_by_multiple(w_span as int, bounds.0 as int);
        assert((bounds.0 as int) * (w_span as int) == (w_span as int) * (bounds.0 as int))
            by (nonlinear_arith);
        lemma_div_is_ordered(im_num as int, (bounds.1 as int) * (h_span as int), bounds.1 as int);
        lemma_div_by_multiple(h_span as int, bounds.1 as int);
        assert((bounds.1 as int) * (h_span as int) == (h_span as int) * (bounds.1 as int))
            by (nonlinear_arith);
        vstd::arithmetic::div_mod::lemma_div_pos_is_pos(re_num as int, bounds.0 as int);
        vstd::arithmetic::div_mod::lemma_div_pos_is_pos(im_num as int, bounds.1 as int);
    }
    let re: i64 = upper_left.re + (re_off as i64);
    let im: i64 = upper_left.im - (im_off as i64);
    Complex { re, im }
}

/// Shades one pixel: evaluates the escape time of its plane point under
/// the fixed limit of 255 and turns it into a grayscale byte.
fn shade_pixel(
    bounds: (usize, usize),
    pixel: (usize, usize),
    upper_left: Complex,
    lower_right: Complex,
) -> (v: u8)
    requires
        bounds.0 >= 1,
        bounds.1 >= 1,
        pixel.0 <= bounds.0,
        pixel.1 <= bounds.1,
        viewport_ok(upper_left, lower_right),
    ensures
        v == shade_of(point_at(bounds, upper_left, lower_right, pixel.0 as int, pixel.1 as int)),
{
    let point = pixel_to_point(bounds, pixel, upper_left, lower_right);
    match escape_time(point, 255) {
        None => 0,
        Some(count) => 255 - (count as u8),
    }
}

/// Renders rows `[start_row, start_row + row_count)` of the image in
/// place, leaving every byte outside those rows untouched.
pub fn render_rows(
    pixels: &mut Vec<u8>,
    bounds: (usize, usize),
    upper_left: Complex,
    lower_right: Complex,
    start_row: usize,
    row_count: usize,
)
    requires
        old(pixels).len() == bounds.0 * bounds.1,
        viewport_ok(upper_left, lower_right),
        start_row + row_count <= bounds.1,
    ensures
        final(pixels).len() == old(pixels).len(),
        forall|k: int|
            0 <= k < final(pixels)@.len() ==> final(pixels)@[k] == (
            if start_row * bounds.0 <= k < (start_row + row_count) * bounds.0 {
                image_spec(bounds, upper_left, lower_right)[k]
            } else {
                old(pixels)@[k]
            }),
{
    let width = bounds.0;
    let mut row = start_row;
    proof {
        assert((start_row + row_count) * (bounds.0 as int) <= (bounds.1 as int) * (bounds.0
            as int) && (start_row as int) * (bounds.0 as int) <= (start_row + row_count) * (
        bounds.0 as int)) by (nonlinear_arith)
            requires
                0 <= start_row as int,
                0 <= row_count as int,
                start_row + row_count <= bounds.1 as int,
                0 <= bounds.0 as int,
        ;
    }
    while row < start_row + row_count
        invariant
            start_row <= row <= start_row + row_count <= bounds.1,
            width == bounds.0,
            pixels.len() == bounds.0 * bounds.1,
            viewport_ok(upper_left, lower_right),
            forall|k: int|
                0 <= k < pixels@.len() ==> pixels@[k] == (
                if start_row * bounds.0 <= k < row * bounds.0 {
                    image_spec(bounds, upper_left, lower_right)[k]
                } else {
                    old(pixels)@[k]
                }),
            (start_row + row_count) * (bounds.0 as int) <= (bounds.1 as int) * (bounds.0 as int),
        decreases bounds.1 - row,
    {
        proof {
            assert((start_row as int) * (bounds.0 as int) <= (row as int) * (bounds.0 as int)
                && ((row + 1) as int) * (bounds.0 as int) <= (start_row + row_count) * (bounds.0
                as int) && (row as int) * (bounds.0 as int) + (bounds.0 as int) == ((row + 1)
                as int) * (bounds.0 as int)) by (nonlinear_arith)
                requires
                    start_row as int <= row as int,
                    row + 1 <= start_row + row_count,
                    0 <= bounds.0 as int,
            ;
        }
        let mut col: usize = 0;
        while col < width
            invariant
                start_row <= row < start_row + row_count <= bounds.1,
                0 <= col <= width,
                width == bounds.0,
                pixels.len() == bounds.0 * bounds.1,
                viewport_ok(upper_left, lower_right),
                (start_row as int) * (bounds.0 as int) <= (row as int) * (bounds.0 as int),
                (row as int) * (bounds.0 as int) + (bounds.0 as int) <= (bounds.1 as int) * (
                bounds.0 as int),
                (row as int) * (bounds.0 as int) + (bounds.0 as int) == ((row + 1) as int) * (
                bounds.0 as int),
                ((row + 1) as int) * (bounds.0 as int) <= (start_row + row_count) * (bounds.0
                as int),
                forall|k: int|
                    0 <= k < pixels@.len() ==> pixels@[k] == (
                    if start_row * bounds.0 <= k < row * bounds.0 + col {
                        image_spec(bounds, upper_left, lower_right)[k]
                    } else {
                        old(pixels)@[k]
                    }),
            decreases width - col,
        {
            let v = shade_pixel(bounds, (col, row), upper_left, lower_right);
            let idx = row * width + col;
            proof {
                assert((row as int) * (width as int) == (row as int) * (bounds.0 as int));
                assert((bounds.1 as int) * (bounds.0 as int) == (bounds.0 as int) * (bounds.1
                    as int)) by (nonlinear_arith);
                lemma_fundamental_div_mod_converse_div(
                    idx as int,
                    bounds.0 as int,
                    row as int,
                    col as int,
                );
                lemma_fundamental_div_mod_converse_mod(
                    idx as int,
                    bounds.0 as int,
                    row as int,
                    col as int,
                );
            }
            pixels.set(idx, v);
            col = col + 1;
        }
        row = row + 1;
    }
}

/// Fills the whole buffer with the image of the viewport: one grayscale
/// byte per pixel, row-major.  The caller must hand a buffer of exactly
/// `bounds.0 * bounds.1` bytes.
pub fn render(
    pixels: &mut Vec<u8>,
    bounds: (usize, usize),
    upper_left: Complex,
    lower_right: Complex,
)
    requires
        old(pixels).len() == bounds.0 * bounds.1,
        viewport_ok(upper_left, lower_right),
    ensures
        final(pixels)@ == image_spec(bounds, upper_left, lower_right),
{
    render_rows(pixels, bounds, upper_left, lower_right, 0, bounds.1);
    proof {
        assert((bounds.1 as int) * (bounds.0 as int) == (bounds.0 as int) * (bounds.1 as int))
            by (nonlinear_arith);
        assert(pixels@ =~= image_spec(bounds, upper_left, lower_right));
    }
}

/// Why a render request was rejected.
#[derive(Clone, Copy, Debug, PartialEq, Eq, Structural)]
pub enum RenderError {
    /// The buffer length does not equal `width * height`.
    BufferSizeMismatch,
}

/// Renders the viewport after checking that the buffer has exactly
/// `bounds.0 * bounds.1` bytes; a buffer of any other length is rejected
/// before a single byte is touched.
pub fn render_checked(
    pixels: &mut Vec<u8>,
    bounds: (usize, usize),
    upper_left: Complex,
    lower_right: Complex,
) -> (r: Result<(), RenderError>)
    requires
        viewport_ok(upper_left, lower_right),
    ensures
        r is Ok <==> old(pixels).len() == bounds.0 * bounds.1,
        r is Ok ==> final(pixels)@ == image_spec(bounds, upper_left, lower_right),
        r is Err ==> final(pixels)@ == old(pixels)@ && r == Err::<(), RenderError>(
            RenderError::BufferSizeMismatch,
        ),
{
    let expected = bounds.0.checked_mul(bounds.1);
    match expected {
        Some(n) => {
            if n == pixels.len() {
                render(pixels, bounds, upper_left, lower_right);
                Ok(())
            } else {
                Err(RenderError::BufferSizeMismatch)
            }
        },
        None => Err(RenderError::BufferSizeMismatch),
    }
}

/// Renders the viewport by splitting the raster into `band_count`
/// horizontal bands of `ceil(height / band_count)` rows each and
/// rendering the bands one after another against the full viewport.
/// Bands past the end of the raster are empty and contribute nothing,
/// so any `band_count >= 1` — larger than the height included — yields
/// exactly the sequential image.
pub fn render_banded(
    pixels: &mut Vec<u8>,
    bounds: (usize, usize),
    upper_left: Complex,
    lower_right: Complex,
    band_count: usize,
)
    requires
        old(pixels).len() == bounds.0 * bounds.1,
        viewport_ok(upper_left, lower_right),
        band_count >= 1,
    ensures
        final(pixels)@ == image_spec(bounds, upper_left, lower_right),
{
    let height = bounds.1;
    if height == 0 {
        proof {
            assert((bounds.0 as int) * 0 == 0) by (nonlinear_arith);
            assert(pixels@ =~= image_spec(bounds, upper_left, lower_right));
        }
        return ;
    }
    let rows_per_band = (height - 1) / band_count + 1;
    proof {
        vstd::arithmetic::div_mod::lemma_div_pos_is_pos((height - 1) as int, band_count as int);
    }
    let mut top: usize = 0;
    while top < height
        invariant
            top <= height,
            height == bounds.1,
            rows_per_band >= 1,
            band_count >= 1,
            pixels.len() == bounds.0 * bounds.1,
            viewport_ok(upper_left, lower_right),
            forall|k: int|
                0 <= k < (top as int) * (bounds.0 as int) ==> pixels@[k] == image_spec(
                    bounds,
                    upper_left,
                    lower_right,
                )[k],
        decreases height - top,
    {
        let count = if height - top < rows_per_band {
            height - top
        } else {
            rows_per_band
        };
        let ghost prefix = pixels@;
        render_rows(pixels, bounds, upper_left, lower_right, top, count);
        proof {
            assert((top as int) * (bounds.0 as int) + (count as int) * (bounds.0 as int) == ((
            top + count) as int) * (bounds.0 as int) && 0 <= (top as int) * (bounds.0 as int)
                && ((top + count) as int) * (bounds.0 as int) <= (bounds.0 as int) * (bounds.1
                as int)) by (nonlinear_arith)
                requires
                    0 <= top as int,
                    0 <= count as int,
                    top + count <= bounds.1 as int,
                    0 <= bounds.0 as int,
            ;
        }
        top = top + count;
    }
    proof {
        assert((bounds.1 as int) * (bounds.0 as int) == (bounds.0 as int) * (bounds.1 as int))
            by (nonlinear_arith);
        assert(pixels@ =~= image_spec(bounds, upper_left, lower_right));
    }
}

/// Renders one horizontal band into a fresh buffer of its own: row
/// `start_row + r` of the image lands at rows `r` of the band.  Bands
/// rendered this way and written back with `write_band` reassemble the
/// sequential image exactly.
pub fn render_band(
    bounds: (usize, usize),
    upper_left: Complex,
    lower_right: Complex,
    start_row: usize,
    row_count: usize,
) -> (band: Vec<u8>)
    requires
        bounds.0 * bounds.1 <= usize::MAX,
        start_row + row_count <= bounds.1,
        viewport_ok(upper_left, lower_right),
    ensures
        band.len() == row_count * bounds.0,
        forall|j: int|
            0 <= j < band@.len() ==> band@[j] == image_spec(bounds, upper_left, lower_right)[(
            start_row as int) * (bounds.0 as int) + j],
{
    proof {
        assert((row_count as int) * (bounds.0 as int) <= (bounds.1 as int) * (bounds.0 as int)
            && (bounds.1 as int) * (bounds.0 as int) == (bounds.0 as int) * (bounds.1 as int))
            by (nonlinear_arith)
            requires
                0 <= row_count as int,
                row_count as int <= bounds.1 as int,
                0 <= bounds.0 as int,
        ;
    }
    let width = bounds.0;
    let mut band: Vec<u8> = vec![0u8; row_count * width];
    let mut r: usize = 0;
    while r < row_count
        invariant
            r <= row_count,
            width == bounds.0,
            start_row + row_count <= bounds.1,
            band.len() == row_count * bounds.0,
            viewport_ok(upper_left, lower_right),
            forall|j: int|
                0 <= j < (r as int) * (bounds.0 as int) ==> band@[j] == image_spec(
                    bounds,
                    upper_left,
                    lower_right,
                )[(start_row as int) * (bounds.0 as int) + j],
        decreases row_count - r,
    {
        proof {
            assert((r as int) * (bounds.0 as int) + (bounds.0 as int) == ((r + 1) as int) * (
            bounds.0 as int) && ((r + 1) as int) * (bounds.0 as int) <= (row_count as int) * (
            bounds.0 as int) && 0 <= (r as int) * (bounds.0 as int)) by (nonlinear_arith)
                requires
                    0 <= r as int,
                    r + 1 <= row_count as int,
                    0 <= bounds.0 as int,
            ;
        }
        let mut col: usize = 0;
        while col < width
            invariant
                col <= width,
                r < row_count,
                width == bounds.0,
                start_row + row_count <= bounds.1,
                band.len() == row_count * bounds.0,
                viewport_ok(upper_left, lower_right),
                (r as int) * (bounds.0 as int) + (bounds.0 as int) <= (row_count as int) * (
                bounds.0 as int),
                0 <= (r as int) * (bounds.0 as int),
                forall|j: int|
                    0 <= j < (r as int) * (bounds.0 as int) + col ==> band@[j] == image_spec(
                        bounds,
                        upper_left,
                        lower_right,
                    )[(start_row as int) * (bounds.0 as int) + j],
            decreases width - col,
        {
            let abs_row = start_row + r;
            let v = shade_pixel(bounds, (col, abs_row), upper_left, lower_right);
            let idx = r * width + col;
            proof {
                let b0 = bounds.0 as int;
                let full = (start_row as int) * b0 + (idx as int);
                assert(full == (abs_row as int) * b0 + (col as int) && (abs_row as int) * b0 + b0
                    <= (bounds.1 as int) * b0 && (bounds.1 as int) * b0 == b0 * (bounds.1 as int)
                    && 0 <= full) by (nonlinear_arith)
                    requires
                        b0 == bounds.0 as int,
                        full == (start_row as int) * b0 + (idx as int),
                        idx as int == (r as int) * b0 + (col as int),
                        abs_row as int == start_row as int + r as int,
                        abs_row + 1 <= bounds.1 as int,
                        0 <= (col as int) < b0,
                        0 <= (start_row as int),
                        0 <= (r as int),
                ;
                lemma_fundamental_div_mod_converse_div(full, b0, abs_row as int, col as int);
                lemma_fundamental_div_mod_converse_mod(full, b0, abs_row as int, col as int);
            }
            band.set(idx, v);
            col = col + 1;
        }
        r = r + 1;
    }
    band
}

/// Copies a rendered band back into the full buffer at its place:
/// the band covers bytes `[start_row * width, start_row * width + band.len())`
/// and every byte outside that range keeps its old value.
pub fn write_band(
    pixels: &mut Vec<u8>,
    band: &Vec<u8>,
    bounds: (usize, usize),
    start_row: usize,
)
    requires
        start_row * bounds.0 + band.len() <= old(pixels).len(),
    ensures
        final(pixels).len() == old(pixels).len(),
        forall|k: int|
            0 <= k < final(pixels)@.len() ==> final(pixels)@[k] == (
            if (start_row as int) * (bounds.0 as int) <= k < (start_row as int) * (bounds.0
                as int) + band.len() {
                band@[k - (start_row as int) * (bounds.0 as int)]
            } else {
                old(pixels)@[k]
            }),
{
    let base = start_row * bounds.0;
    let mut j: usize = 0;
    while j < band.len()
        invariant
            j <= band.len(),
            base == start_row * bounds.0,
            base + band.len() <= pixels.len(),
            pixels.len() == old(pixels).len(),
            forall|k: int|
                0 <= k < pixels@.len() ==> pixels@[k] == (
                if base as int <= k < base as int + j as int {
                    band@[k - base as int]
                } else {
                    old(pixels)@[k]
                }),
        decreases band.len() - j,
    {
        pixels.set(base + j, band[j]);
        j = j + 1;
    }
}

/// The banded decomposition is observably transparent: a buffer produced
/// sequentially and one produced band by band both equal the image of
/// the viewport, hence each other, whatever the band count was.
pub proof fn lemma_banded_render_is_transparent(
    bounds: (usize, usize),
    upper_left: Complex,
    lower_right: Complex,
    sequential: Seq<u8>,
    banded: Seq<u8>,
)
    requires
        sequential == image_spec(bounds, upper_left, lower_right),
        banded == image_spec(bounds, upper_left, lower_right),
    ensures
        sequential == banded,
{
}

} // verus!
