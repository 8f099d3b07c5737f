//! Complex numbers over fixed-point components, and the arithmetic on them
//! that `num`'s `Complex` carries out.

use crate::fixed::{trunc_div, Fixed};
use num::complex::Complex;
use vstd::prelude::*;

verus! {

/// A complex number whose two components are unbounded counts of raw units.
/// This is the model that every contract on complex values speaks of.
pub struct ComplexInt {
    pub re: int,
    pub im: int,
}

impl ComplexInt {
    pub open spec fn zero() -> ComplexInt {
        ComplexInt { re: 0, im: 0 }
    }

    /// `re^2 + im^2`: the square of the modulus, in units of `1 / SCALE^2`.
    pub open spec fn norm_sqr(self) -> int {
        self.re * self.re + self.im * self.im
    }

    /// The complex product, component by component, before any rescaling.
    pub open spec fn times(self, other: ComplexInt) -> ComplexInt {
        ComplexInt {
            re: self.re * other.re - self.im * other.im,
            im: self.re * other.im + self.im * other.re,
        }
    }

    pub open spec fn plus(self, other: ComplexInt) -> ComplexInt {
        ComplexInt { re: self.re + other.re, im: self.im + other.im }
    }

    /// Both components divided by `d`, each rounded toward zero.
    pub open spec fn unscaled(self, d: int) -> ComplexInt {
        ComplexInt { re: trunc_div(self.re, d), im: trunc_div(self.im, d) }
    }

    /// Both components lie within `[-bound, bound]`.
    pub open spec fn within(self, bound: int) -> bool {
        &&& -bound <= self.re <= bound
        &&& -bound <= self.im <= bound
    }
}

/// A point of the complex plane: the parameter `c` of one pixel.
#[derive(Clone, Copy, PartialEq, Eq, Structural, Debug)]
pub struct PlanePoint {
    pub re: Fixed,
    pub im: Fixed,
}

impl View for PlanePoint {
    type V = ComplexInt;

    open spec fn view(&self) -> ComplexInt {
        ComplexInt { re: self.re@, im: self.im@ }
    }
}

/// A value of the iterated sequence. Its components are raw units, as those of
/// a `PlanePoint`, but wide enough for the step that leaves the escape radius.
#[derive(Clone, Copy, PartialEq, Eq, Structural, Debug)]
pub struct OrbitPoint {
    pub re: i128,
    pub im: i128,
}

impl View for OrbitPoint {
    type V = ComplexInt;

    open spec fn view(&self) -> ComplexInt {
        ComplexInt { re: self.re as int, im: self.im as int }
    }
}

/// The largest component magnitude whose products and their sums stay within
/// `i128`.
pub const WORD_MAX: i128 = 9223372036854775807;

impl PlanePoint {
    pub fn new(re: Fixed, im: Fixed) -> (p: PlanePoint)
        ensures
            p.re == re,
            p.im == im,
    {
        PlanePoint { re, im }
    }

    /// The same point as the start of a wide computation.
    pub fn widen(&self) -> (z: OrbitPoint)
        ensures
            z@ == self@,
    {
        OrbitPoint { re: self.re.raw as i128, im: self.im.raw as i128 }
    }
}

impl OrbitPoint {
    pub fn zero() -> (z: OrbitPoint)
        ensures
            z@ == ComplexInt::zero(),
    {
        OrbitPoint { re: 0, im: 0 }
    }
}

/// The `Mul` of two `num::complex::Complex<i128>`: the product
/// `(a.re*b.re - a.im*b.im) + (a.re*b.im + a.im*b.re) i`. Each of the four
/// products and their sum or difference is computed in `i128`; the bound
/// required keeps all of them in range.
#[verifier::external_body]
pub(crate) fn complex_product(a: OrbitPoint, b: OrbitPoint) -> (p: OrbitPoint)
    requires
        a@.within(WORD_MAX as int),
        b@.within(WORD_MAX as int),
    ensures
        p@ == a@.times(b@),
{
    let p = Complex { re: a.re, im: a.im } * Complex { re: b.re, im: b.im };
    OrbitPoint { re: p.re, im: p.im }
}

/// The `Add` of two `num::complex::Complex<i128>`: the sum, component by
/// component, for sums that `i128` holds.
#[verifier::external_body]
pub(crate) fn complex_sum(a: OrbitPoint, b: OrbitPoint) -> (s: OrbitPoint)
    requires
        i128::MIN <= a.re + b.re <= i128::MAX,
        i128::MIN <= a.im + b.im <= i128::MAX,
    ensures
        s@ == a@.plus(b@),
{
    let s = Complex { re: a.re, im: a.im } + Complex { re: b.re, im: b.im };
    OrbitPoint { re: s.re, im: s.im }
}

/// `num::complex::Complex::<i128>::unscale`: each component divided by the
/// positive scalar `d` with the machine's `/`, which rounds toward zero.
#[verifier::external_body]
pub(crate) fn complex_unscale(a: OrbitPoint, d: i128) -> (q: OrbitPoint)
    requires
        d > 0,
    ensures
        q@ == a@.unscaled(d as int),
{
    let q = Complex { re: a.re, im: a.im }.unscale(d);
    OrbitPoint { re: q.re, im: q.im }
}

/// `num::complex::Complex::<i128>::norm_sqr`: `re*re + im*im`, computed in
/// `i128`; the bound required keeps both squares and their sum in range.
#[verifier::external_body]
pub(crate) fn complex_norm_sqr(a: OrbitPoint) -> (n: i128)
    requires
        a@.within(WORD_MAX as int),
    ensures
        n == a@.norm_sqr(),
{
    Complex { re: a.re, im: a.im }.norm_sqr()
}

} // verus!
