use mandelbrot::color::{colorize_discrete, discrete_color, Color, SATURATION_COUNT};
use mandelbrot::complex::OrbitPoint;
use mandelbrot::escape::EscapeResult;

fn rgb(red: u8, green: u8, blue: u8) -> Color {
    Color { red, green, blue }
}

#[test]
fn rgb_keeps_its_channels() {
    assert_eq!(Color::rgb(1, 2, 3), Color { red: 1, green: 2, blue: 3 });
}

#[test]
fn single_count_bands() {
    assert_eq!(discrete_color(0), rgb(0, 0, 0));
    assert_eq!(discrete_color(1), rgb(0, 0, 50));
    assert_eq!(discrete_color(2), rgb(0, 0, 100));
    assert_eq!(discrete_color(3), rgb(0, 0, 150));
    assert_eq!(discrete_color(4), rgb(0, 0, 200));
    assert_eq!(discrete_color(5), rgb(0, 0, 220));
}

#[test]
fn range_bands_at_both_ends() {
    let bands: [(u32, u32, Color); 7] = [
        (6, 7, rgb(0, 0, 255)),
        (8, 9, rgb(20, 20, 255)),
        (10, 20, rgb(40, 40, 255)),
        (21, 30, rgb(70, 70, 255)),
        (31, 50, rgb(100, 100, 255)),
        (51, 100, rgb(150, 150, 255)),
        (101, 999, rgb(200, 200, 255)),
    ];
    for (first, last, color) in bands {
        assert_eq!(discrete_color(first), color);
        assert_eq!(discrete_color(last), color);
        assert_eq!(discrete_color((first + last) / 2), color);
    }
}

#[test]
fn counts_above_the_last_band_are_white() {
    assert_eq!(SATURATION_COUNT, 1000);
    assert_eq!(discrete_color(999), rgb(200, 200, 255));
    assert_eq!(discrete_color(1000), rgb(255, 255, 255));
    assert_eq!(discrete_color(1001), rgb(255, 255, 255));
    assert_eq!(discrete_color(u32::MAX), rgb(255, 255, 255));
}

#[test]
fn palette_never_darkens() {
    let mut previous = discrete_color(0);
    for count in 1..=1200u32 {
        let color = discrete_color(count);
        assert!(previous.red <= color.red);
        assert!(previous.green <= color.green);
        assert!(previous.blue <= color.blue);
        previous = color;
    }
}

#[test]
fn palette_has_fourteen_colors_without_gaps() {
    let mut changes = 0;
    for count in 0..1200u32 {
        if discrete_color(count) != discrete_color(count + 1) {
            changes += 1;
        }
    }
    assert_eq!(changes, 13);
}

#[test]
fn bounded_points_are_black() {
    assert_eq!(colorize_discrete(&EscapeResult::Bounded), rgb(0, 0, 0));
}

#[test]
fn escaped_points_take_the_color_of_their_count() {
    let at = |iterations: u32| EscapeResult::Escaped {
        iterations,
        point: OrbitPoint { re: 12, im: -7 },
    };
    assert_eq!(colorize_discrete(&at(0)), rgb(0, 0, 0));
    assert_eq!(colorize_discrete(&at(1)), rgb(0, 0, 50));
    assert_eq!(colorize_discrete(&at(35)), rgb(100, 100, 255));
    assert_eq!(colorize_discrete(&at(1000)), rgb(255, 255, 255));
}
