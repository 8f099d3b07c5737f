//! The continuous palette: a two-branch polynomial gradient over a smoothed
//! escape value, each channel rounded to the nearest integer.

use crate::color::Color;
use vstd::prelude::*;

verus! {

/// The number of raw units of a `Smooth` that make up 1.0.
pub const SMOOTH_ONE: u32 = 65536;

/// A smoothed escape value: a count of units of 2^-16, never negative.
#[derive(Clone, Copy, PartialEq, Eq, Structural, Debug)]
pub struct Smooth {
    pub raw: u32,
}

impl View for Smooth {
    type V = int;

    open spec fn view(&self) -> int {
        self.raw as int
    }
}

impl Smooth {
    /// The value that holds exactly `raw` units.
    pub fn from_raw(raw: u32) -> (v: Smooth)
        ensures
            v@ == raw,
    {
        Smooth { raw }
    }
}

/// `n` is the integer nearest to `num / den`, a tie going upward.
pub open spec fn is_nearest_to_ratio(n: int, num: int, den: int) -> bool {
    (2 * n - 1) * den <= 2 * num < (2 * n + 1) * den
}

/// `n` is the integer nearest to the square root of `num / den`, a tie going
/// upward: `n - 1/2 <= sqrt(num / den) < n + 1/2`, stated on the squares.
pub open spec fn is_nearest_to_root(n: int, num: int, den: int) -> bool {
    &&& n >= 0
    &&& n > 0 ==> ((2 * n - 1) * (2 * n - 1)) * den <= 4 * num
    &&& 4 * num < ((2 * n + 1) * (2 * n + 1)) * den
}

/// The integer nearest to `num / den`.
pub open spec fn round_ratio(num: int, den: int) -> int {
    (2 * num + den) / (2 * den)
}

/// The integer nearest to the square root of `num / den`.
pub open spec fn round_root(num: int, den: int) -> int {
    choose|n: int| is_nearest_to_root(n, num, den)
}

/// `round_ratio` is the nearest integer.
pub proof fn lemma_round_ratio_is_nearest(num: int, den: int)
    requires
        den > 0,
    ensures
        is_nearest_to_ratio(round_ratio(num, den), num, den),
{
    let n = round_ratio(num, den);
    vstd::arithmetic::div_mod::lemma_fundamental_div_mod(2 * num + den, 2 * den);
    let rem = (2 * num + den) % (2 * den);
    assert((2 * den) * n == 2 * (n * den)) by (nonlinear_arith);
    assert((2 * n - 1) * den == 2 * (n * den) - den) by (nonlinear_arith);
    assert((2 * n + 1) * den == 2 * (n * den) + den) by (nonlinear_arith);
}

/// At most one integer is nearest to a root.
pub proof fn lemma_nearest_to_root_is_unique(a: int, b: int, num: int, den: int)
    requires
        den > 0,
        is_nearest_to_root(a, num, den),
        is_nearest_to_root(b, num, den),
    ensures
        a == b,
{
    if a < b {
        lemma_odd_squares_ordered(a, b, den);
    } else if b < a {
        lemma_odd_squares_ordered(b, a, den);
    }
}

proof fn lemma_odd_squares_ordered(a: int, b: int, den: int)
    requires
        0 <= a < b,
        den > 0,
    ensures
        ((2 * a + 1) * (2 * a + 1)) * den <= ((2 * b - 1) * (2 * b - 1)) * den,
{
    let x = 2 * a + 1;
    let y = 2 * b - 1;
    assert(x * x <= y * y) by (nonlinear_arith)
        requires
            0 < x <= y,
    ;
    assert((x * x) * den <= (y * y) * den) by (nonlinear_arith)
        requires
            x * x <= y * y,
            den > 0,
    ;
}

/// Whatever is nearest to a root is `round_root`.
pub proof fn lemma_round_root_is_nearest(n: int, num: int, den: int)
    requires
        den > 0,
        is_nearest_to_root(n, num, den),
    ensures
        round_root(num, den) == n,
{
    lemma_nearest_to_root_is_unique(n, round_root(num, den), num, den);
}

/// The nearest integer to a ratio of at most 255 and at least 0 is a channel
/// value.
pub proof fn lemma_round_ratio_range(num: int, den: int)
    requires
        den > 0,
        0 <= num <= 255 * den,
    ensures
        0 <= round_ratio(num, den) <= 255,
{
    let n = round_ratio(num, den);
    lemma_round_ratio_is_nearest(num, den);
    assert(n >= 0) by (nonlinear_arith)
        requires
            2 * num < (2 * n + 1) * den,
            den > 0,
            num >= 0,
    ;
    assert(n <= 255) by (nonlinear_arith)
        requires
            (2 * n - 1) * den <= 2 * num,
            num <= 255 * den,
            den > 0,
    ;
}

/// The nearest integer to a root of at most 255 is a channel value.
pub proof fn lemma_nearest_to_root_range(n: int, num: int, den: int)
    requires
        den > 0,
        0 <= num <= 65025 * den,
        is_nearest_to_root(n, num, den),
    ensures
        0 <= n <= 255,
{
    if n >= 256 {
        let odd = 2 * n - 1;
        assert(odd * odd >= 261121) by (nonlinear_arith)
            requires
                odd >= 511,
        ;
        assert((odd * odd) * den >= 261121 * den) by (nonlinear_arith)
            requires
                odd * odd >= 261121,
                den > 0,
        ;
    }
}

/// Rounds `num / den` to the nearest channel value.
fn nearest_ratio(num: u128, den: u128) -> (n: u8)
    requires
        0 < den <= 0x1_0000_0000_0000_0000_0000,
        num <= 255 * den,
    ensures
        n == round_ratio(num as int, den as int),
{
    proof {
        lemma_round_ratio_range(num as int, den as int);
    }
    let n: u128 = (2 * num + den) / (2 * den);
    n as u8
}

/// Rounds the square root of `num / den` to the nearest channel value, by
/// bisection on the squares.
fn nearest_root(num: u128, den: u128) -> (n: u8)
    requires
        0 < den <= 0x1_0000_0000_0000_0000_0000,
        num <= 65025 * den,
    ensures
        n == round_root(num as int, den as int),
        is_nearest_to_root(n as int, num as int, den as int),
{
    let target: u128 = 4 * num;
    let mut lo: u128 = 0;
    let mut hi: u128 = 256;
    assert((511 * 511) * den > 4 * num) by (nonlinear_arith)
        requires
            num <= 65025 * den,
            den > 0,
    ;
    while hi - lo > 1
        invariant
            0 <= lo < hi <= 256,
            0 < den <= 0x1_0000_0000_0000_0000_0000,
            target == 4 * num,
            num <= 65025 * den,
            lo > 0 ==> ((2 * lo - 1) * (2 * lo - 1)) * den <= target,
            target < ((2 * hi - 1) * (2 * hi - 1)) * den,
        decreases hi - lo,
    {
        let mid: u128 = lo + (hi - lo) / 2;
        let odd: u128 = 2 * mid - 1;
        assert(odd * odd <= 261121) by (nonlinear_arith)
            requires
                0 <= odd <= 511,
        ;
        let square: u128 = odd * odd;
        assert(square * den <= 261121 * 0x1_0000_0000_0000_0000_0000) by (nonlinear_arith)
            requires
                0 <= square <= 261121,
                0 < den <= 0x1_0000_0000_0000_0000_0000,
        ;
        if square * den <= target {
            lo = mid;
        } else {
            hi = mid;
        }
    }
    proof {
        assert(2 * hi - 1 == 2 * lo + 1);
        assert(is_nearest_to_root(lo as int, num as int, den as int));
        lemma_round_root_is_nearest(lo as int, num as int, den as int);
    }
    lo as u8
}

/// The value that the second branch works on: `max(0, 2 - v)`.
pub open spec fn mirrored(v: int) -> int {
    if v <= 2 * SMOOTH_ONE {
        2 * SMOOTH_ONE - v
    } else {
        0
    }
}

/// The red channel: `255 v^4` below 1.0, `255 v'` from 1.0 on, where
/// `v' = max(0, 2 - v)`.
pub open spec fn gradient_red(v: int) -> int {
    if v < SMOOTH_ONE {
        round_ratio(255 * (v * v * v * v), 0x1_0000_0000_0000_0000)
    } else {
        round_ratio(255 * mirrored(v), 0x1_0000)
    }
}

/// The green channel: `255 v^2.5` below 1.0, `255 v'^1.5` from 1.0 on. The
/// half powers are roots: `sqrt(255^2 v^5)` and `sqrt(255^2 v'^3)`.
pub open spec fn gradient_green(v: int) -> int {
    if v < SMOOTH_ONE {
        round_root(65025 * (v * v * v * v * v), 0x1_0000_0000_0000_0000_0000)
    } else {
        round_root(65025 * (mirrored(v) * mirrored(v) * mirrored(v)), 0x1_0000_0000_0000)
    }
}

/// The blue channel: `255 v` below 1.0, `255 v'^3` from 1.0 on.
pub open spec fn gradient_blue(v: int) -> int {
    if v < SMOOTH_ONE {
        round_ratio(255 * v, 0x1_0000)
    } else {
        round_ratio(255 * (mirrored(v) * mirrored(v) * mirrored(v)), 0x1_0000_0000_0000)
    }
}

proof fn lemma_powers_bounded(k: int)
    requires
        0 <= k <= 65536,
    ensures
        0 <= k * k <= 0x1_0000_0000,
        0 <= k * k * k <= 0x1_0000_0000_0000,
        0 <= k * k * k * k <= 0x1_0000_0000_0000_0000,
        0 <= k * k * k * k * k <= 0x1_0000_0000_0000_0000_0000,
{
    let k2 = k * k;
    assert(0 <= k2 <= 0x1_0000_0000) by (nonlinear_arith)
        requires
            k2 == k * k,
            0 <= k <= 65536,
    ;
    let k3 = k2 * k;
    assert(0 <= k3 <= 0x1_0000_0000_0000) by (nonlinear_arith)
        requires
            k3 == k2 * k,
            0 <= k2 <= 0x1_0000_0000,
            0 <= k <= 65536,
    ;
    let k4 = k3 * k;
    assert(0 <= k4 <= 0x1_0000_0000_0000_0000) by (nonlinear_arith)
        requires
            k4 == k3 * k,
            0 <= k3 <= 0x1_0000_0000_0000,
            0 <= k <= 65536,
    ;
    let k5 = k4 * k;
    assert(0 <= k5 <= 0x1_0000_0000_0000_0000_0000) by (nonlinear_arith)
        requires
            k5 == k4 * k,
            0 <= k4 <= 0x1_0000_0000_0000_0000,
            0 <= k <= 65536,
    ;
}

/// Every channel of the gradient is a channel value as it is computed: the
/// clamp to `[0, 255]` never has to cut anything off, whatever the value.
pub proof fn lemma_gradient_in_range(v: int)
    requires
        0 <= v,
    ensures
        0 <= gradient_red(v) <= 255,
        0 <= gradient_green(v) <= 255,
        0 <= gradient_blue(v) <= 255,
{
    let k = if v < SMOOTH_ONE {
        v
    } else {
        mirrored(v)
    };
    lemma_powers_bounded(k);
    if v < SMOOTH_ONE {
        lemma_round_ratio_range(255 * (v * v * v * v), 0x1_0000_0000_0000_0000);
        lemma_round_ratio_range(255 * v, 0x1_0000);
        lemma_root_exists(65025 * (v * v * v * v * v), 0x1_0000_0000_0000_0000_0000);
        lemma_nearest_to_root_range(
            gradient_green(v),
            65025 * (v * v * v * v * v),
            0x1_0000_0000_0000_0000_0000,
        );
    } else {
        lemma_round_ratio_range(255 * k, 0x1_0000);
        lemma_round_ratio_range(255 * (k * k * k), 0x1_0000_0000_0000);
        lemma_root_exists(65025 * (k * k * k), 0x1_0000_0000_0000);
        lemma_nearest_to_root_range(gradient_green(v), 65025 * (k * k * k), 0x1_0000_0000_0000);
    }
}

/// Some integer is nearest to the root of every ratio that is not negative.
pub proof fn lemma_root_exists(num: int, den: int)
    requires
        den > 0,
        num >= 0,
    ensures
        is_nearest_to_root(round_root(num, den), num, den),
{
    lemma_root_search(0, num, den);
}

proof fn lemma_root_search(from: int, num: int, den: int)
    requires
        den > 0,
        num >= 0,
        from >= 0,
        from > 0 ==> ((2 * from - 1) * (2 * from - 1)) * den <= 4 * num,
    ensures
        exists|n: int| is_nearest_to_root(n, num, den),
    decreases 4 * num + 1 - from,
{
    let odd = 2 * from + 1;
    if 4 * num < (odd * odd) * den {
        assert(is_nearest_to_root(from, num, den));
    } else {
        assert((odd * odd) * den >= odd) by (nonlinear_arith)
            requires
                odd >= 1,
                den >= 1,
        ;
        assert(2 * (from + 1) - 1 == odd);
        lemma_root_search(from + 1, num, den);
    }
}

/// The gradient color of the value `v`.
pub open spec fn gradient(v: int) -> Color {
    Color {
        red: gradient_red(v) as u8,
        green: gradient_green(v) as u8,
        blue: gradient_blue(v) as u8,
    }
}

/// The gradient color of an evaluation: black for a bounded point, which has
/// no smoothed value, and the gradient of its smoothed value for an escaped
/// one.
pub open spec fn continuous(smooth: Option<Smooth>) -> Color {
    match smooth {
        None => Color::black(),
        Some(v) => gradient(v@),
    }
}

/// The color of a smoothed escape value.
pub fn gradient_color(v: Smooth) -> (color: Color)
    ensures
        color == gradient(v@),
        color.red == gradient_red(v@),
        color.green == gradient_green(v@),
        color.blue == gradient_blue(v@),
{
    let unit: u128 = 0x1_0000;
    let raw: u128 = v.raw as u128;
    if raw < unit {
        proof {
            lemma_powers_bounded(raw as int);
        }
        let k4: u128 = raw * raw * raw * raw;
        let k5: u128 = k4 * raw;
        Color {
            red: nearest_ratio(255 * k4, 0x1_0000_0000_0000_0000),
            green: nearest_root(65025 * k5, 0x1_0000_0000_0000_0000_0000),
            blue: nearest_ratio(255 * raw, unit),
        }
    } else {
        let w: u128 = if raw <= 2 * unit {
            2 * unit - raw
        } else {
            0
        };
        proof {
            lemma_powers_bounded(w as int);
        }
        let w3: u128 = w * w * w;
        Color {
            red: nearest_ratio(255 * w, unit),
            green: nearest_root(65025 * w3, 0x1_0000_0000_0000),
            blue: nearest_ratio(255 * w3, 0x1_0000_0000_0000),
        }
    }
}

/// Colors an evaluation with the gradient: `None` stands for a bounded point,
/// `Some` holds the smoothed value of an escaped one.
pub fn colorize_continuous(smooth: Option<Smooth>) -> (color: Color)
    ensures
        color == continuous(smooth),
{
    match smooth {
        None => Color::rgb(0, 0, 0),
        Some(v) => gradient_color(v),
    }
}

/// The gradient runs from black at 0 to white at 1.0 and back to black at 2.0,
/// where it stays.
pub proof fn lemma_gradient_ends(v: int)
    ensures
        gradient(0) == Color::black(),
        gradient(SMOOTH_ONE as int) == Color::white(),
        v >= 2 * SMOOTH_ONE ==> gradient(v) == Color::black(),
{
    assert(is_nearest_to_root(0, 0, 0x1_0000_0000_0000_0000_0000)) by (nonlinear_arith);
    lemma_round_root_is_nearest(0, 0, 0x1_0000_0000_0000_0000_0000);
    assert(is_nearest_to_root(0, 0, 0x1_0000_0000_0000)) by (nonlinear_arith);
    lemma_round_root_is_nearest(0, 0, 0x1_0000_0000_0000);
    let one = SMOOTH_ONE as int;
    assert(mirrored(one) == one);
    assert(one * one * one == 0x1_0000_0000_0000) by (nonlinear_arith)
        requires
            one == 65536,
    ;
    let full: int = 65025 * 0x1_0000_0000_0000int;
    assert(is_nearest_to_root(255, full, 0x1_0000_0000_0000)) by (nonlinear_arith)
        requires
            full == 65025 * 0x1_0000_0000_0000int,
    ;
    lemma_round_root_is_nearest(255, full, 0x1_0000_0000_0000);
    if v >= 2 * SMOOTH_ONE {
        assert(mirrored(v) == 0);
    }
}

} // verus!
