use mandelbrot::color::Color;
use mandelbrot::gradient::{colorize_continuous, gradient_color, Smooth, SMOOTH_ONE};

fn rgb(red: u8, green: u8, blue: u8) -> Color {
    Color { red, green, blue }
}

fn at(raw: u32) -> Color {
    gradient_color(Smooth::from_raw(raw))
}

/// The formulas in floating point, rounded half up.
fn reference(raw: u32) -> Color {
    let v = raw as f64 / 65536.0;
    let channel = |x: f64| (255.0 * x + 0.5).floor().clamp(0.0, 255.0) as u8;
    if v < 1.0 {
        rgb(channel(v.powi(4)), channel(v.powf(2.5)), channel(v))
    } else {
        let w = (2.0 - v).max(0.0);
        rgb(channel(w), channel(w.powf(1.5)), channel(w.powi(3)))
    }
}

#[test]
fn smooth_unit_is_two_to_the_16() {
    assert_eq!(SMOOTH_ONE, 65536);
    assert_eq!(Smooth::from_raw(12).raw, 12);
}

#[test]
fn gradient_starts_black() {
    assert_eq!(at(0), rgb(0, 0, 0));
    assert_eq!(at(1), rgb(0, 0, 0));
}

#[test]
fn blue_rounds_half_up() {
    // 255 * 128 / 65536 = 0.498..., 255 * 129 / 65536 = 0.5019...
    assert_eq!(at(128), rgb(0, 0, 0));
    assert_eq!(at(129), rgb(0, 0, 1));
    // 255 / 2 = 127.5
    assert_eq!(at(32768).blue, 128);
}

#[test]
fn first_branch_values() {
    assert_eq!(at(16384), rgb(1, 8, 64));
    assert_eq!(at(32768), rgb(16, 45, 128));
    assert_eq!(at(40000), rgb(35, 74, 156));
    assert_eq!(at(49152), rgb(81, 124, 191));
    assert_eq!(at(60000), rgb(179, 205, 233));
    assert_eq!(at(65535), rgb(255, 255, 255));
}

#[test]
fn second_branch_values() {
    assert_eq!(at(65536), rgb(255, 255, 255));
    assert_eq!(at(65537), rgb(255, 255, 255));
    assert_eq!(at(70000), rgb(238, 229, 206));
    assert_eq!(at(81920), rgb(191, 166, 108));
    assert_eq!(at(98304), rgb(128, 90, 32));
    assert_eq!(at(100000), rgb(121, 83, 27));
    assert_eq!(at(114688), rgb(64, 32, 4));
    assert_eq!(at(120000), rgb(43, 18, 1));
}

#[test]
fn gradient_ends_black_and_stays_black() {
    assert_eq!(at(131071), rgb(0, 0, 0));
    assert_eq!(at(131072), rgb(0, 0, 0));
    assert_eq!(at(131073), rgb(0, 0, 0));
    assert_eq!(at(200000), rgb(0, 0, 0));
    assert_eq!(at(u32::MAX), rgb(0, 0, 0));
}

#[test]
fn gradient_agrees_with_the_formulas() {
    let mut raw: u32 = 0;
    while raw <= 131072 {
        assert_eq!(at(raw), reference(raw));
        raw += 7;
    }
}

#[test]
fn first_branch_rises_and_second_branch_falls() {
    let mut previous = at(0);
    for raw in (0..65536u32).step_by(64) {
        let color = at(raw);
        assert!(previous.red <= color.red);
        assert!(previous.green <= color.green);
        assert!(previous.blue <= color.blue);
        previous = color;
    }
    let mut previous = at(65536);
    for raw in (65536..=131072u32).step_by(64) {
        let color = at(raw);
        assert!(previous.red >= color.red);
        assert!(previous.green >= color.green);
        assert!(previous.blue >= color.blue);
        previous = color;
    }
}

#[test]
fn bounded_points_have_no_gradient() {
    assert_eq!(colorize_continuous(None), rgb(0, 0, 0));
    assert_eq!(colorize_continuous(Some(Smooth::from_raw(65536))), rgb(255, 255, 255));
    assert_eq!(colorize_continuous(Some(Smooth::from_raw(98304))), rgb(128, 90, 32));
}
