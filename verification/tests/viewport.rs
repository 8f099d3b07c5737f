use mandelbrot::complex::PlanePoint;
use mandelbrot::error::ConfigError;
use mandelbrot::fixed::{Fixed, SCALE};
use mandelbrot::viewport::{map_pixel, PlaneRegion, ViewportDimensions, MAX_DIMENSION};

fn region(x_min: i32, x_max: i32, y_min: i32, y_max: i32) -> PlaneRegion {
    PlaneRegion::new(
        Fixed::from_int(x_min),
        Fixed::from_int(x_max),
        Fixed::from_int(y_min),
        Fixed::from_int(y_max),
    )
    .unwrap()
}

#[test]
fn fixed_from_int_scales_by_two_to_the_32() {
    assert_eq!(SCALE, 1i64 << 32);
    assert_eq!(Fixed::from_int(1).raw, 4294967296);
    assert_eq!(Fixed::from_int(-2).raw, -8589934592);
    assert_eq!(Fixed::from_int(0).raw, 0);
    assert_eq!(Fixed::from_int(i32::MAX).raw, 2147483647i64 * 4294967296);
    assert_eq!(Fixed::from_int(i32::MIN).raw, -2147483648i64 * 4294967296);
    assert_eq!(Fixed::from_raw(-7).raw, -7);
}

#[test]
fn dimensions_reject_zero_and_negative_sides() {
    assert_eq!(ViewportDimensions::new(0, 600), Err(ConfigError::NonPositiveDimension));
    assert_eq!(ViewportDimensions::new(800, 0), Err(ConfigError::NonPositiveDimension));
    assert_eq!(ViewportDimensions::new(-1, 600), Err(ConfigError::NonPositiveDimension));
    assert_eq!(ViewportDimensions::new(800, i64::MIN), Err(ConfigError::NonPositiveDimension));
    assert_eq!(ViewportDimensions::new(0, 1 << 40), Err(ConfigError::NonPositiveDimension));
}

#[test]
fn dimensions_reject_sides_beyond_the_coordinate_range() {
    assert_eq!(MAX_DIMENSION, 2147483647);
    assert_eq!(ViewportDimensions::new(2147483648, 1), Err(ConfigError::DimensionTooLarge));
    assert_eq!(ViewportDimensions::new(1, i64::MAX), Err(ConfigError::DimensionTooLarge));
    assert_eq!(
        ViewportDimensions::new(2147483647, 2147483647),
        Ok(ViewportDimensions { width: 2147483647, height: 2147483647 })
    );
}

#[test]
fn dimensions_accept_positive_sides() {
    assert_eq!(ViewportDimensions::new(800, 600), Ok(ViewportDimensions { width: 800, height: 600 }));
    assert_eq!(ViewportDimensions::new(1, 1), Ok(ViewportDimensions { width: 1, height: 1 }));
}

#[test]
fn region_rejects_empty_and_inverted_extents() {
    let f = Fixed::from_int;
    assert_eq!(PlaneRegion::new(f(1), f(1), f(-1), f(1)), Err(ConfigError::DegenerateRegion));
    assert_eq!(PlaneRegion::new(f(1), f(-2), f(-1), f(1)), Err(ConfigError::DegenerateRegion));
    assert_eq!(PlaneRegion::new(f(-2), f(1), f(1), f(1)), Err(ConfigError::DegenerateRegion));
    assert_eq!(PlaneRegion::new(f(-2), f(1), f(1), f(-1)), Err(ConfigError::DegenerateRegion));
    assert_eq!(
        PlaneRegion::new(f(-2), f(1), f(-1), f(1)),
        Ok(PlaneRegion { x_min: f(-2), x_max: f(1), y_min: f(-1), y_max: f(1) })
    );
    let thin = PlaneRegion::new(Fixed::from_raw(0), Fixed::from_raw(1), f(0), f(1));
    assert!(thin.is_ok());
}

#[test]
fn first_pixel_maps_to_the_lower_corner() {
    let dims = ViewportDimensions::new(800, 600).unwrap();
    let r = region(-2, 1, -1, 1);
    let c = map_pixel(0, 0, &dims, &r);
    assert_eq!(c, PlanePoint::new(Fixed::from_int(-2), Fixed::from_int(-1)));
}

#[test]
fn last_pixel_lies_one_step_below_the_upper_corner() {
    let dims = ViewportDimensions::new(800, 600).unwrap();
    let r = region(-2, 1, -1, 1);
    let c = map_pixel(799, 599, &dims, &r);
    assert_eq!(c.re.raw, 4278861168);
    assert_eq!(c.im.raw, 4280650738);
    let step_x = (3 * SCALE) / 800 + 1;
    let step_y = (2 * SCALE) / 600 + 1;
    assert!(r.x_max.raw - c.re.raw <= step_x);
    assert!(r.y_max.raw - c.im.raw <= step_y);
}

#[test]
fn interior_pixels_follow_the_formula() {
    let dims = ViewportDimensions::new(4, 2).unwrap();
    let r = region(-2, 1, -1, 1);
    assert_eq!(map_pixel(1, 0, &dims, &r).re.raw, -5368709120);
    assert_eq!(map_pixel(2, 1, &dims, &r).re.raw, -2147483648);
    assert_eq!(map_pixel(2, 1, &dims, &r).im.raw, 0);
    assert_eq!(map_pixel(3, 1, &dims, &r).re.raw, 1073741824);
    let thirds = ViewportDimensions::new(3, 1).unwrap();
    assert_eq!(map_pixel(1, 0, &thirds, &r).re.raw, -4294967296);
    assert_eq!(map_pixel(2, 0, &thirds, &r).re.raw, 0);
}

#[test]
fn quotient_is_rounded_down() {
    let dims = ViewportDimensions::new(3, 3).unwrap();
    let r = PlaneRegion::new(
        Fixed::from_raw(-5),
        Fixed::from_raw(5),
        Fixed::from_raw(0),
        Fixed::from_raw(2),
    )
    .unwrap();
    assert_eq!(map_pixel(1, 1, &dims, &r).re.raw, -2);
    assert_eq!(map_pixel(2, 2, &dims, &r).re.raw, 1);
    assert_eq!(map_pixel(1, 1, &dims, &r).im.raw, 0);
    assert_eq!(map_pixel(2, 2, &dims, &r).im.raw, 1);
}

#[test]
fn every_pixel_maps_into_the_region() {
    let dims = ViewportDimensions::new(37, 23).unwrap();
    let r = PlaneRegion::new(
        Fixed::from_raw(-8589934593),
        Fixed::from_raw(4294967311),
        Fixed::from_raw(-4294967297),
        Fixed::from_raw(4294967291),
    )
    .unwrap();
    let mut previous_re = i64::MIN;
    for x in 0..37 {
        let mut previous_im = i64::MIN;
        for y in 0..23 {
            let c = map_pixel(x, y, &dims, &r);
            assert!(r.x_min.raw <= c.re.raw && c.re.raw < r.x_max.raw);
            assert!(r.y_min.raw <= c.im.raw && c.im.raw < r.y_max.raw);
            assert!(previous_im <= c.im.raw);
            previous_im = c.im.raw;
            if y == 0 {
                assert!(previous_re <= c.re.raw);
                previous_re = c.re.raw;
            }
        }
    }
}

#[test]
fn widest_region_and_grid_map_without_overflow() {
    let dims = ViewportDimensions::new(2147483647, 2147483647).unwrap();
    let r = PlaneRegion::new(
        Fixed::from_raw(i64::MIN),
        Fixed::from_raw(i64::MAX),
        Fixed::from_raw(i64::MIN),
        Fixed::from_raw(i64::MAX),
    )
    .unwrap();
    let first = map_pixel(0, 0, &dims, &r);
    assert_eq!(first.re.raw, i64::MIN);
    let last = map_pixel(2147483646, 2147483646, &dims, &r);
    assert!(last.re.raw < i64::MAX);
    assert_eq!(last.re.raw, last.im.raw);
    assert_eq!(last.re.raw, 9223372028264841210);
}

#[test]
fn aspect_region_keeps_pixels_square() {
    let dims = ViewportDimensions::new(800, 600).unwrap();
    let r = PlaneRegion::with_aspect(Fixed::from_int(-2), Fixed::from_int(2), &dims).unwrap();
    // 4 * 600 / 800 = 3, centered: -1.5 .. 1.5
    assert_eq!(r.x_min, Fixed::from_int(-2));
    assert_eq!(r.x_max, Fixed::from_int(2));
    assert_eq!(r.y_min.raw, -3 * SCALE / 2);
    assert_eq!(r.y_max.raw, 3 * SCALE / 2);
}

#[test]
fn aspect_region_puts_the_odd_unit_above_the_axis() {
    let dims = ViewportDimensions::new(2, 1).unwrap();
    let r = PlaneRegion::with_aspect(Fixed::from_raw(0), Fixed::from_raw(7), &dims).unwrap();
    // 7 * 1 / 2 = 3 units: -1 .. 2
    assert_eq!(r.y_min.raw, -1);
    assert_eq!(r.y_max.raw, 2);
}

#[test]
fn aspect_region_rejects_what_it_cannot_express() {
    let wide = ViewportDimensions::new(800, 600).unwrap();
    assert_eq!(
        PlaneRegion::with_aspect(Fixed::from_int(1), Fixed::from_int(1), &wide),
        Err(ConfigError::DegenerateRegion)
    );
    assert_eq!(
        PlaneRegion::with_aspect(Fixed::from_int(2), Fixed::from_int(1), &wide),
        Err(ConfigError::DegenerateRegion)
    );
    // a span of one unit over 800 columns leaves no height at all
    assert_eq!(
        PlaneRegion::with_aspect(Fixed::from_raw(0), Fixed::from_raw(1), &wide),
        Err(ConfigError::DegenerateRegion)
    );
    let tall = ViewportDimensions::new(1, 3).unwrap();
    assert_eq!(
        PlaneRegion::with_aspect(Fixed::from_raw(i64::MIN), Fixed::from_raw(i64::MAX), &tall),
        Err(ConfigError::RegionTooLarge)
    );
    let square = ViewportDimensions::new(5, 5).unwrap();
    assert_eq!(
        PlaneRegion::with_aspect(Fixed::from_raw(0), Fixed::from_raw(i64::MAX), &square),
        Ok(PlaneRegion {
            x_min: Fixed::from_raw(0),
            x_max: Fixed::from_raw(i64::MAX),
            y_min: Fixed::from_raw(-(i64::MAX / 2)),
            y_max: Fixed::from_raw(i64::MAX / 2 + 1),
        })
    );
}
