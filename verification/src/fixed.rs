//! Fixed-point reals: a signed count of units of 2^-32.

use vstd::prelude::*;

verus! {

/// The number of raw units that make up 1.0.
pub const SCALE: i64 = 4294967296;

/// A real number held as a whole number of units of `1 / SCALE`.
///
/// Its view is that whole number: the value stood for is `self@ / SCALE`.
#[derive(Clone, Copy, PartialEq, Eq, Structural, Debug)]
pub struct Fixed {
    pub raw: i64,
}

impl View for Fixed {
    type V = int;

    open spec fn view(&self) -> int {
        self.raw as int
    }
}

/// Division that rounds toward zero, as machine integers divide.
pub open spec fn trunc_div(a: int, d: int) -> int
    recommends
        d > 0,
{
    if a >= 0 {
        a / d
    } else {
        -((-a) / d)
    }
}

/// Rounding toward zero keeps the sign of the dividend and never moves the
/// quotient past it.
pub proof fn lemma_trunc_div_bounds(a: int, d: int)
    requires
        d > 0,
    ensures
        a >= 0 ==> 0 <= trunc_div(a, d) <= a,
        a <= 0 ==> a <= trunc_div(a, d) <= 0,
{
    if a >= 0 {
        vstd::arithmetic::div_mod::lemma_div_pos_is_pos(a, d);
        vstd::arithmetic::div_mod::lemma_div_nonincreasing(a, d);
    } else {
        vstd::arithmetic::div_mod::lemma_div_pos_is_pos(-a, d);
        vstd::arithmetic::div_mod::lemma_div_nonincreasing(-a, d);
    }
}

impl Fixed {
    /// The number that holds exactly `raw` units.
    pub fn from_raw(raw: i64) -> (f: Fixed)
        ensures
            f@ == raw,
    {
        Fixed { raw }
    }

    /// The whole number `n`.
    pub fn from_int(n: i32) -> (f: Fixed)
        ensures
            f@ == n * SCALE,
    {
        let wide: i64 = n as i64;
        assert(-2147483648 * 4294967296 <= wide * SCALE <= 2147483647 * 4294967296)
            by (nonlinear_arith)
            requires
                -2147483648 <= wide <= 2147483647,
                SCALE == 4294967296,
        ;
        Fixed { raw: wide * SCALE }
    }
}

} // verus!
