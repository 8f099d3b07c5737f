use mandelbrot::complex::{OrbitPoint, PlanePoint};
use mandelbrot::escape::{advance, escapes, evaluate, EscapeResult};
use mandelbrot::fixed::{Fixed, SCALE};

fn point(re: i64, im: i64) -> PlanePoint {
    PlanePoint::new(Fixed::from_raw(re), Fixed::from_raw(im))
}

fn escaped(iterations: u32, re: i128, im: i128) -> EscapeResult {
    EscapeResult::Escaped { iterations, point: OrbitPoint { re, im } }
}

#[test]
fn origin_is_bounded_for_every_budget() {
    for budget in [1u32, 2, 10, 1000, 5000] {
        for radius in [0, 2, 20, 50] {
            let r = evaluate(point(0, 0), budget, Fixed::from_int(radius));
            assert_eq!(r, EscapeResult::Bounded);
        }
    }
}

#[test]
fn minus_one_is_bounded_for_every_budget() {
    for budget in [1u32, 2, 3, 10, 1000, 5000] {
        for radius in [1, 2, 20, 50] {
            let r = evaluate(point(-SCALE, 0), budget, Fixed::from_int(radius));
            assert_eq!(r, EscapeResult::Bounded);
        }
    }
}

#[test]
fn minus_one_escapes_a_radius_below_one() {
    let r = evaluate(point(-SCALE, 0), 10, Fixed::from_raw(SCALE / 2));
    assert_eq!(r, escaped(1, -4294967296, 0));
}

#[test]
fn far_point_escapes_at_once_whatever_the_budget() {
    for budget in [1u32, 5, 10, 1000, 100000] {
        let r = evaluate(point(5 * SCALE, 5 * SCALE), budget, Fixed::from_int(2));
        assert_eq!(r, escaped(1, 21474836480, 21474836480));
        match r {
            EscapeResult::Escaped { iterations, .. } => assert!(iterations <= 5),
            EscapeResult::Bounded => panic!("a far point was reported as bounded"),
        }
    }
}

#[test]
fn far_point_with_no_budget_is_bounded() {
    let r = evaluate(point(5 * SCALE, 5 * SCALE), 0, Fixed::from_int(2));
    assert_eq!(r, EscapeResult::Bounded);
}

#[test]
fn evaluation_is_repeatable() {
    let c = point(-3 * SCALE / 4, SCALE / 10);
    let first = evaluate(c, 1000, Fixed::from_int(20));
    let second = evaluate(c, 1000, Fixed::from_int(20));
    assert_eq!(first, second);
    assert_eq!(first, escaped(35, 142603494988, 226246575294));
}

#[test]
fn one_escapes_after_three_steps() {
    // 0, 1, 2, 5: the value 2 does not exceed the radius 2, the value 5 does.
    let r = evaluate(point(SCALE, 0), 100, Fixed::from_int(2));
    assert_eq!(r, escaped(3, 5 * 4294967296, 0));
}

#[test]
fn one_half_escapes_after_five_steps() {
    let r = evaluate(point(SCALE / 2, 0), 100, Fixed::from_int(2));
    assert_eq!(r, escaped(5, 13543473152, 0));
}

#[test]
fn budget_cuts_an_escape_short() {
    assert_eq!(evaluate(point(SCALE / 2, 0), 4, Fixed::from_int(2)), EscapeResult::Bounded);
    assert_eq!(
        evaluate(point(SCALE / 2, 0), 5, Fixed::from_int(2)),
        escaped(5, 13543473152, 0)
    );
}

#[test]
fn square_is_rounded_toward_zero() {
    // c = (1 + 2^-32) i: the square of c has the real part -(1 + 2^-31 + 2^-64),
    // which loses its last bit toward zero.
    let r = evaluate(point(0, SCALE + 1), 100, Fixed::from_raw(SCALE + SCALE / 4));
    assert_eq!(r, escaped(2, -4294967298, 4294967297));
}

#[test]
fn negative_radius_is_exceeded_at_once() {
    let r = evaluate(point(0, 0), 10, Fixed::from_raw(-1));
    assert_eq!(r, escaped(0, 0, 0));
    let r = evaluate(point(SCALE, SCALE), 0, Fixed::from_int(-3));
    assert_eq!(r, escaped(0, 0, 0));
}

#[test]
fn edge_of_the_set_stays_bounded() {
    assert_eq!(evaluate(point(-2 * SCALE, 0), 1000, Fixed::from_int(2)), EscapeResult::Bounded);
    assert_eq!(evaluate(point(SCALE / 4, 0), 1000, Fixed::from_int(2)), EscapeResult::Bounded);
    assert_eq!(
        evaluate(point(3 * SCALE / 8, SCALE / 4), 1000, Fixed::from_int(2)),
        EscapeResult::Bounded
    );
}

#[test]
fn extreme_points_do_not_overflow() {
    let r = evaluate(point(i64::MAX, i64::MIN), 10, Fixed::from_raw(i64::MAX));
    assert_eq!(r, escaped(1, i64::MAX as i128, i64::MIN as i128));
    let r = evaluate(point(i64::MAX, 0), 10, Fixed::from_raw(i64::MAX));
    let big = i64::MAX as i128;
    assert_eq!(r, escaped(2, big * big / (SCALE as i128) + big, 0));
    let r = evaluate(point(i64::MIN, i64::MIN), 3, Fixed::from_raw(0));
    assert_eq!(r, escaped(1, i64::MIN as i128, i64::MIN as i128));
}

#[test]
fn escape_test_compares_the_squares() {
    let two = Fixed::from_int(2);
    assert!(!escapes(OrbitPoint { re: 2 * 4294967296, im: 0 }, two));
    assert!(escapes(OrbitPoint { re: 2 * 4294967296, im: 1 }, two));
    assert!(escapes(OrbitPoint { re: 0, im: -2 * 4294967296 - 1 }, two));
    assert!(!escapes(OrbitPoint { re: 0, im: -2 * 4294967296 }, two));
    // 3^2 + 4^2 = 5^2
    let five = Fixed::from_int(5);
    assert!(!escapes(OrbitPoint { re: 3 * 4294967296, im: -4 * 4294967296 }, five));
    assert!(escapes(OrbitPoint { re: 3 * 4294967296 + 1, im: -4 * 4294967296 }, five));
    assert!(escapes(OrbitPoint { re: i128::MAX, im: i128::MIN }, Fixed::from_raw(i64::MAX)));
    assert!(escapes(OrbitPoint { re: 0, im: 0 }, Fixed::from_raw(-1)));
    assert!(!escapes(OrbitPoint { re: 0, im: 0 }, Fixed::from_raw(0)));
}

#[test]
fn advance_squares_and_adds() {
    // (1 + 2i)^2 + (3 - i) = (-3 + 4i) + (3 - i) = 3i
    let one = 4294967296i128;
    let z = OrbitPoint { re: one, im: 2 * one };
    let next = advance(z, point(3 * SCALE, -SCALE));
    assert_eq!(next, OrbitPoint { re: 0, im: 3 * one });
    // (-1/2)^2 + 0 = 1/4
    let next = advance(OrbitPoint { re: -one / 2, im: 0 }, point(0, 0));
    assert_eq!(next, OrbitPoint { re: one / 4, im: 0 });
    // the imaginary part of a square is rounded toward zero too
    let next = advance(OrbitPoint { re: 1, im: -1 }, point(0, 0));
    assert_eq!(next, OrbitPoint { re: 0, im: 0 });
    let next = advance(OrbitPoint { re: 65536, im: -65537 }, point(0, 0));
    assert_eq!(next, OrbitPoint { re: 0, im: -2 });
}
