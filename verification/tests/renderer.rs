use workbook::mandel::{escape_time, Complex, SCALE};
use workbook::parse::parse_complex;
use workbook::render::{
    pixel_to_point, render, render_band, render_banded, render_checked, write_band, RenderError,
};

#[test]
fn origin_never_escapes() {
    let origin = Complex { re: 0, im: 0 };
    assert_eq!(escape_time(origin, 0), None);
    assert_eq!(escape_time(origin, 1), None);
    assert_eq!(escape_time(origin, 255), None);
    assert_eq!(escape_time(origin, 10000), None);
}

#[test]
fn far_points_escape_quickly() {
    // |c| > 2, so the threshold check at iteration 1 already fires.
    let c = Complex { re: 3 * SCALE, im: 0 };
    assert_eq!(escape_time(c, 255), Some(1));

    let c = Complex {
        re: -3 * SCALE,
        im: 2 * SCALE,
    };
    assert_eq!(escape_time(c, 2), Some(1));

    // |c| == 2 exactly is not beyond the threshold; this point leaves
    // the circle one step later.
    let c = Complex { re: 2 * SCALE, im: 0 };
    assert_eq!(escape_time(c, 255), Some(2));

    // A point of the set itself never leaves.
    let c = Complex { re: -SCALE, im: 0 };
    assert_eq!(escape_time(c, 255), None);
}

#[test]
fn single_pixel_shade_formula() {
    // The lone pixel maps to the upper-left corner, which escapes at
    // iteration 1, so the shade is 255 - 1.
    let upper_left = Complex { re: 3 * SCALE, im: SCALE };
    let lower_right = Complex { re: 4 * SCALE, im: 0 };
    let mut pixels = vec![0u8; 1];
    render(&mut pixels, (1, 1), upper_left, lower_right);
    assert_eq!(pixels, vec![254u8]);
}

#[test]
fn banded_rendering_matches_sequential() {
    let bounds = (16usize, 9usize);
    let upper_left = parse_complex("-1.5,1").unwrap();
    let lower_right = parse_complex("0.5,-1").unwrap();

    let mut sequential = vec![0u8; bounds.0 * bounds.1];
    render(&mut sequential, bounds, upper_left, lower_right);

    for band_count in 1..=bounds.1 {
        let mut banded = vec![0u8; bounds.0 * bounds.1];
        render_banded(&mut banded, bounds, upper_left, lower_right, band_count);
        assert_eq!(sequential, banded);
    }
}

#[test]
fn band_count_beyond_height_is_harmless() {
    let bounds = (8usize, 3usize);
    let upper_left = parse_complex("-2,1").unwrap();
    let lower_right = parse_complex("1,-1").unwrap();

    let mut sequential = vec![0u8; bounds.0 * bounds.1];
    render(&mut sequential, bounds, upper_left, lower_right);

    let mut banded = vec![0u8; bounds.0 * bounds.1];
    render_banded(&mut banded, bounds, upper_left, lower_right, 25);
    assert_eq!(sequential, banded);
}

#[test]
fn bands_reassemble_the_image() {
    let bounds = (10usize, 7usize);
    let upper_left = parse_complex("-1.2,0.35").unwrap();
    let lower_right = parse_complex("-1,0.2").unwrap();

    let mut sequential = vec![0u8; bounds.0 * bounds.1];
    render(&mut sequential, bounds, upper_left, lower_right);

    let mut assembled = vec![0u8; bounds.0 * bounds.1];
    let rows_per_band = 3usize;
    let mut top = 0usize;
    while top < bounds.1 {
        let count = rows_per_band.min(bounds.1 - top);
        let band = render_band(bounds, upper_left, lower_right, top, count);
        assert_eq!(band.len(), count * bounds.0);
        write_band(&mut assembled, &band, bounds, top);
        top += count;
    }
    assert_eq!(sequential, assembled);
}

#[test]
fn render_checked_rejects_wrong_buffer() {
    let upper_left = Complex { re: -SCALE, im: SCALE };
    let lower_right = Complex { re: SCALE, im: -SCALE };

    let mut too_short = vec![0u8; 5];
    assert_eq!(
        render_checked(&mut too_short, (3, 2), upper_left, lower_right),
        Err(RenderError::BufferSizeMismatch)
    );
    // Nothing was touched.
    assert_eq!(too_short, vec![0u8; 5]);

    let mut right_size = vec![0u8; 6];
    assert_eq!(
        render_checked(&mut right_size, (3, 2), upper_left, lower_right),
        Ok(())
    );
}

#[test]
fn mapping_interpolates_between_corners() {
    let upper_left = Complex {
        re: -2 * SCALE,
        im: SCALE,
    };
    let lower_right = Complex { re: 2 * SCALE, im: -SCALE };

    // The corners themselves.
    assert_eq!(
        pixel_to_point((4, 2), (0, 0), upper_left, lower_right),
        upper_left
    );
    assert_eq!(
        pixel_to_point((4, 2), (4, 2), upper_left, lower_right),
        lower_right
    );

    // The midpoint.
    assert_eq!(
        pixel_to_point((4, 2), (2, 1), upper_left, lower_right),
        Complex { re: 0, im: 0 }
    );
}
