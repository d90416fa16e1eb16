use workbook::euclid::gcd;
use workbook::mandel::Complex;
use workbook::parse::{parse_complex, parse_fixed_pair, parse_pair};
use workbook::render::{pixel_to_point, render};

#[test]
fn test_gcd() {
    assert_eq!(gcd(14, 15), 1);
    assert_eq!(gcd(2 * 3 * 5 * 11 * 17, 3 * 7 * 11 * 13 * 19), 3 * 11);
}

#[test]
fn test_parse_pair() {
    assert_eq!(parse_pair("", ','), None);
    assert_eq!(parse_pair("10,", ','), None);
    assert_eq!(parse_pair(",10", ','), None);
    assert_eq!(parse_pair("10,20", ','), Some((10, 20)));
    assert_eq!(parse_pair("10,20xy", ','), None);
    assert_eq!(parse_fixed_pair("0.5x", 'x'), None);
    assert_eq!(parse_fixed_pair("0.5x1.5", 'x'), Some((2147483648, 6442450944)));
}

#[test]
fn test_parse_complex() {
    assert_eq!(
        parse_complex("1.25,-0.0625"),
        Some(Complex {
            re: 5368709120,
            im: -268435456
        })
    );
    assert_eq!(parse_complex(",-0.0625"), None);
}

#[test]
fn test_pixel_to_point() {
    assert_eq!(
        pixel_to_point(
            (100, 200),
            (25, 175),
            Complex {
                re: -4294967296,
                im: 4294967296
            },
            Complex {
                re: 4294967296,
                im: -4294967296
            }
        ),
        Complex {
            re: -2147483648,
            im: -3221225472
        }
    );
}

#[test]
fn test_render() {
    let bounds = parse_pair("100x100", 'x').expect("error parsing image dimensions");

    let upper_left = parse_complex("-1.20,0.35").expect("error parsing upper left corner point");

    let lower_right = parse_complex("-1,0.20").expect("error parsing lower right corner point");

    let bounds = (bounds.0 as usize, bounds.1 as usize);
    let mut pixels = vec![0; bounds.0 * bounds.1];

    render(&mut pixels, bounds, upper_left, lower_right);
}
