//! Colors, and the banded palette that turns an iteration count into one.

use crate::escape::{EscapeOutcome, EscapeResult};
use vstd::prelude::*;

verus! {

/// Three 8-bit channel intensities.
#[derive(Clone, Copy, PartialEq, Eq, Structural, Debug)]
pub struct Color {
    pub red: u8,
    pub green: u8,
    pub blue: u8,
}

impl Color {
    pub open spec fn black() -> Color {
        Color { red: 0, green: 0, blue: 0 }
    }

    pub open spec fn white() -> Color {
        Color { red: 255, green: 255, blue: 255 }
    }

    /// The sum of the three channels.
    pub open spec fn brightness(self) -> int {
        self.red + self.green + self.blue
    }

    /// No channel of `self` is stronger than the same channel of `other`.
    pub open spec fn no_brighter_than(self, other: Color) -> bool {
        &&& self.red <= other.red
        &&& self.green <= other.green
        &&& self.blue <= other.blue
    }

    pub fn rgb(red: u8, green: u8, blue: u8) -> (color: Color)
        ensures
            color == (Color { red, green, blue }),
    {
        Color { red, green, blue }
    }
}

/// The first iteration count of the white band: counts from here on are
/// saturated.
pub const SATURATION_COUNT: u32 = 1000;

/// The banded palette. Each count belongs to one band of consecutive counts;
/// the bands grow bluer, then lighter, and end in white.
pub open spec fn band_color(count: nat) -> Color {
    if count == 0 {
        Color { red: 0, green: 0, blue: 0 }
    } else if count == 1 {
        Color { red: 0, green: 0, blue: 50 }
    } else if count == 2 {
        Color { red: 0, green: 0, blue: 100 }
    } else if count == 3 {
        Color { red: 0, green: 0, blue: 150 }
    } else if count == 4 {
        Color { red: 0, green: 0, blue: 200 }
    } else if count == 5 {
        Color { red: 0, green: 0, blue: 220 }
    } else if count <= 7 {
        Color { red: 0, green: 0, blue: 255 }
    } else if count <= 9 {
        Color { red: 20, green: 20, blue: 255 }
    } else if count <= 20 {
        Color { red: 40, green: 40, blue: 255 }
    } else if count <= 30 {
        Color { red: 70, green: 70, blue: 255 }
    } else if count <= 50 {
        Color { red: 100, green: 100, blue: 255 }
    } else if count <= 100 {
        Color { red: 150, green: 150, blue: 255 }
    } else if count <= 999 {
        Color { red: 200, green: 200, blue: 255 }
    } else {
        Color { red: 255, green: 255, blue: 255 }
    }
}

/// The palette is ordered: a larger count never has a weaker channel, so it is
/// never darker.
pub proof fn lemma_band_color_is_monotonic(lower: nat, higher: nat)
    requires
        lower <= higher,
    ensures
        band_color(lower).no_brighter_than(band_color(higher)),
        band_color(lower).brightness() <= band_color(higher).brightness(),
{
}

/// Below the first full-blue band every further iteration is strictly bluer;
/// from that band on, blue stays at its maximum.
pub proof fn lemma_band_color_blue_ramp(count: nat)
    ensures
        count < 6 ==> band_color(count).blue < band_color(count + 1).blue,
        count >= 6 ==> band_color(count).blue == 255,
{
}

/// The palette saturates to white exactly from `SATURATION_COUNT` on, and only
/// the count 0 is black.
pub proof fn lemma_band_color_ends(count: nat)
    ensures
        band_color(count) == Color::white() <==> count >= SATURATION_COUNT,
        band_color(count) == Color::black() <==> count == 0,
{
}

/// The color of the band that `count` falls in.
pub fn discrete_color(count: u32) -> (color: Color)
    ensures
        color == band_color(count as nat),
{
    match count {
        0 => Color::rgb(0, 0, 0),
        1 => Color::rgb(0, 0, 50),
        2 => Color::rgb(0, 0, 100),
        3 => Color::rgb(0, 0, 150),
        4 => Color::rgb(0, 0, 200),
        5 => Color::rgb(0, 0, 220),
        6..=7 => Color::rgb(0, 0, 255),
        8..=9 => Color::rgb(20, 20, 255),
        10..=20 => Color::rgb(40, 40, 255),
        21..=30 => Color::rgb(70, 70, 255),
        31..=50 => Color::rgb(100, 100, 255),
        51..=100 => Color::rgb(150, 150, 255),
        101..=999 => Color::rgb(200, 200, 255),
        _ => Color::rgb(255, 255, 255),
    }
}

/// The banded color of an evaluation: black for a bounded point, the band of
/// its iteration count for an escaped one.
pub open spec fn banded(outcome: EscapeOutcome) -> Color {
    match outcome {
        EscapeOutcome::Bounded => Color::black(),
        EscapeOutcome::Escaped { iterations, .. } => band_color(iterations),
    }
}

/// Colors the result of an evaluation with the banded palette.
pub fn colorize_discrete(result: &EscapeResult) -> (color: Color)
    ensures
        color == banded(result@),
{
    match result {
        EscapeResult::Bounded => Color::rgb(0, 0, 0),
        EscapeResult::Escaped { iterations, .. } => discrete_color(*iterations),
    }
}

} // verus!
