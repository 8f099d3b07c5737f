//! The escape-time evaluator: how many steps of `z <- z^2 + c` it takes, from
//! zero, to leave the disk of the escape radius.

use crate::complex::{
    complex_norm_sqr, complex_product, complex_sum, complex_unscale, ComplexInt, OrbitPoint,
    PlanePoint, WORD_MAX,
};
use crate::fixed::{lemma_trunc_div_bounds, trunc_div, Fixed, SCALE};
use vstd::prelude::*;

verus! {

/// One step of the recurrence: `z^2 + c`, the square brought back to raw units
/// by a division that rounds toward zero.
pub open spec fn orbit_step(z: ComplexInt, c: ComplexInt) -> ComplexInt {
    z.times(z).unscaled(SCALE as int).plus(c)
}

/// The `n`-th value of the sequence that starts at zero.
pub open spec fn orbit(c: ComplexInt, n: nat) -> ComplexInt
    decreases n,
{
    if n == 0 {
        ComplexInt::zero()
    } else {
        orbit_step(orbit(c, (n - 1) as nat), c)
    }
}

/// `|z| > radius`, decided on the squares. A negative radius is exceeded by
/// every `z`.
pub open spec fn escaped(z: ComplexInt, radius: int) -> bool {
    radius < 0 || z.norm_sqr() > radius * radius
}

/// The least index in `[from, budget]` at which the sequence has escaped, if
/// there is one.
pub open spec fn first_escape(c: ComplexInt, radius: int, from: nat, budget: nat) -> Option<nat>
    decreases budget + 1 - from,
{
    if from > budget {
        None
    } else if escaped(orbit(c, from), radius) {
        Some(from)
    } else {
        first_escape(c, radius, from + 1, budget)
    }
}

/// What an evaluation finds, over the integers.
pub enum EscapeOutcome {
    /// No value of index `0..=budget` left the disk.
    Bounded,
    /// The value of index `iterations` is the first that left it.
    Escaped { iterations: nat, point: ComplexInt },
}

/// The outcome of evaluating `c` with the given budget and radius.
pub open spec fn escape_outcome(c: ComplexInt, budget: nat, radius: int) -> EscapeOutcome {
    match first_escape(c, radius, 0, budget) {
        Some(i) => EscapeOutcome::Escaped { iterations: i, point: orbit(c, i) },
        None => EscapeOutcome::Bounded,
    }
}

/// The result of one evaluation.
#[derive(Clone, Copy, PartialEq, Eq, Structural, Debug)]
pub enum EscapeResult {
    /// The point did not escape within the budget.
    Bounded,
    /// The point escaped: `iterations` steps had been taken when the sequence
    /// first lay outside the radius, at `point`.
    Escaped { iterations: u32, point: OrbitPoint },
}

impl View for EscapeResult {
    type V = EscapeOutcome;

    open spec fn view(&self) -> EscapeOutcome {
        match *self {
            EscapeResult::Bounded => EscapeOutcome::Bounded,
            EscapeResult::Escaped { iterations, point } => EscapeOutcome::Escaped {
                iterations: iterations as nat,
                point: point@,
            },
        }
    }
}

proof fn lemma_square_exceeds(x: int, r: int)
    by (nonlinear_arith)
    requires
        0 <= r,
        x > r || x < -r,
    ensures
        x * x > r * r,
{
}

proof fn lemma_square_within(x: int, r: int)
    by (nonlinear_arith)
    requires
        0 <= r,
        -r <= x <= r,
    ensures
        0 <= x * x <= r * r,
{
}

proof fn lemma_product_within(x: int, y: int, r: int)
    by (nonlinear_arith)
    requires
        0 <= r,
        -r <= x <= r,
        -r <= y <= r,
    ensures
        -(r * r) <= x * y <= r * r,
{
}

/// Whether `z` lies outside the disk of the given radius.
pub fn escapes(z: OrbitPoint, radius: Fixed) -> (out: bool)
    ensures
        out == escaped(z@, radius@),
        !out ==> z@.within(radius@),
{
    let r: i128 = radius.raw as i128;
    if r < 0 {
        return true;
    }
    if z.re > r || z.re < -r {
        proof {
            lemma_square_exceeds(z.re as int, r as int);
            assert(z.im * z.im >= 0) by (nonlinear_arith);
        }
        return true;
    }
    if z.im > r || z.im < -r {
        proof {
            lemma_square_exceeds(z.im as int, r as int);
            assert(z.re * z.re >= 0) by (nonlinear_arith);
        }
        return true;
    }
    proof {
        lemma_square_within(r as int, WORD_MAX as int);
    }
    let limit: i128 = r * r;
    let n: i128 = complex_norm_sqr(z);
    n > limit
}

/// The value that follows `z` in the sequence of `c`.
pub fn advance(z: OrbitPoint, c: PlanePoint) -> (next: OrbitPoint)
    requires
        z@.within(WORD_MAX as int),
    ensures
        next@ == orbit_step(z@, c@),
{
    let square: OrbitPoint = complex_product(z, z);
    proof {
        let w = WORD_MAX as int;
        lemma_square_within(z.re as int, w);
        lemma_square_within(z.im as int, w);
        lemma_product_within(z.re as int, z.im as int, w);
        lemma_product_within(z.im as int, z.re as int, w);
        lemma_trunc_div_bounds(square.re as int, SCALE as int);
        lemma_trunc_div_bounds(square.im as int, SCALE as int);
    }
    let scaled: OrbitPoint = complex_unscale(square, SCALE as i128);
    complex_sum(scaled, c.widen())
}

/// Evaluates the point `c`: iterates from zero, testing before each of the
/// `budget + 1` steps whether the sequence has left the disk of
/// `escape_radius`.
pub fn evaluate(c: PlanePoint, budget: u32, escape_radius: Fixed) -> (result: EscapeResult)
    ensures
        result@ == escape_outcome(c@, budget as nat, escape_radius@),
{
    let mut z: OrbitPoint = OrbitPoint::zero();
    let mut i: u32 = 0;
    loop
        invariant
            i <= budget,
            z@ == orbit(c@, i as nat),
            first_escape(c@, escape_radius@, 0, budget as nat) == first_escape(
                c@,
                escape_radius@,
                i as nat,
                budget as nat,
            ),
        decreases budget - i,
    {
        if escapes(z, escape_radius) {
            return EscapeResult::Escaped { iterations: i, point: z };
        }
        if i == budget {
            assert(first_escape(c@, escape_radius@, (i + 1) as nat, budget as nat) is None);
            return EscapeResult::Bounded;
        }
        z = advance(z, c);
        i = i + 1;
    }
}

/// Evaluation is a function of its inputs: two results that both answer the
/// same point, budget and radius are the same result.
pub proof fn lemma_evaluation_is_deterministic(
    first: EscapeResult,
    second: EscapeResult,
    c: ComplexInt,
    budget: nat,
    radius: int,
)
    requires
        first@ == escape_outcome(c, budget, radius),
        second@ == escape_outcome(c, budget, radius),
    ensures
        first == second,
{
}

/// `first_escape` finds the least escaping index of its range, and finds none
/// exactly when no index of the range escapes.
pub proof fn lemma_first_escape_is_least(c: ComplexInt, radius: int, from: nat, budget: nat)
    ensures
        match first_escape(c, radius, from, budget) {
            Some(i) => {
                &&& from <= i <= budget
                &&& escaped(orbit(c, i), radius)
                &&& forall|j: nat| from <= j < i ==> !escaped(#[trigger] orbit(c, j), radius)
            },
            None => forall|j: nat|
                from <= j <= budget ==> !escaped(#[trigger] orbit(c, j), radius),
        },
    decreases budget + 1 - from,
{
    if from <= budget && !escaped(orbit(c, from), radius) {
        lemma_first_escape_is_least(c, radius, from + 1, budget);
    }
}

/// An evaluation reports `Escaped` with the least index at which the sequence
/// lies outside the radius and the value it has there, and `Bounded` exactly
/// when none of the indices `0..=budget` does.
pub proof fn lemma_escape_outcome_cases(c: ComplexInt, budget: nat, radius: int)
    ensures
        match escape_outcome(c, budget, radius) {
            EscapeOutcome::Escaped { iterations, point } => {
                &&& iterations <= budget
                &&& point == orbit(c, iterations)
                &&& escaped(point, radius)
                &&& forall|j: nat| j < iterations ==> !escaped(#[trigger] orbit(c, j), radius)
            },
            EscapeOutcome::Bounded => forall|j: nat|
                j <= budget ==> !escaped(#[trigger] orbit(c, j), radius),
        },
{
    lemma_first_escape_is_least(c, radius, 0, budget);
}

/// A sequence that stays inside the radius up to the budget is reported as
/// `Bounded`.
pub proof fn lemma_bounded_when_orbit_stays(c: ComplexInt, budget: nat, radius: int)
    requires
        forall|j: nat| j <= budget ==> !escaped(#[trigger] orbit(c, j), radius),
    ensures
        escape_outcome(c, budget, radius) == EscapeOutcome::Bounded,
{
    lemma_first_escape_is_least(c, radius, 0, budget);
}

/// The sequence of `c = 0` is constantly zero.
pub proof fn lemma_orbit_of_origin(n: nat)
    ensures
        orbit(ComplexInt::zero(), n) == ComplexInt::zero(),
    decreases n,
{
    if n > 0 {
        lemma_orbit_of_origin((n - 1) as nat);
    }
}

/// The origin is `Bounded` for every budget, whatever the radius, as long as
/// the radius is not negative.
pub proof fn lemma_origin_is_bounded(budget: nat, radius: int)
    requires
        radius >= 0,
    ensures
        escape_outcome(ComplexInt::zero(), budget, radius) == EscapeOutcome::Bounded,
{
    assert forall|j: nat| j <= budget implies !escaped(
        #[trigger] orbit(ComplexInt::zero(), j),
        radius,
    ) by {
        lemma_orbit_of_origin(j);
        assert(radius * radius >= 0) by (nonlinear_arith);
    }
    lemma_bounded_when_orbit_stays(ComplexInt::zero(), budget, radius);
}

proof fn lemma_square_of_product_norm(z: ComplexInt)
    ensures
        z.times(z).norm_sqr() == z.norm_sqr() * z.norm_sqr(),
{
    let a = z.re;
    let b = z.im;
    assert((a * a - b * b) * (a * a - b * b) + (a * b + b * a) * (a * b + b * a) == (a * a + b
        * b) * (a * a + b * b)) by (nonlinear_arith);
}

proof fn lemma_trunc_div_shrinks_square(x: int, d: int)
    requires
        d > 0,
    ensures
        (trunc_div(x, d) * d) * (trunc_div(x, d) * d) <= x * x,
{
    let t = trunc_div(x, d);
    if x >= 0 {
        vstd::arithmetic::div_mod::lemma_fundamental_div_mod(x, d);
        vstd::arithmetic::div_mod::lemma_div_pos_is_pos(x, d);
        assert(0 <= t * d <= x) by (nonlinear_arith)
            requires
                x == d * t + (x % d),
                0 <= x % d,
                t >= 0,
                d > 0,
        ;
        assert((t * d) * (t * d) <= x * x) by (nonlinear_arith)
            requires
                0 <= t * d <= x,
        ;
    } else {
        let m = (-x) / d;
        vstd::arithmetic::div_mod::lemma_fundamental_div_mod(-x, d);
        vstd::arithmetic::div_mod::lemma_div_pos_is_pos(-x, d);
        assert(x <= t * d <= 0) by (nonlinear_arith)
            requires
                -x == d * m + ((-x) % d),
                0 <= (-x) % d,
                m >= 0,
                t == -m,
                d > 0,
        ;
        assert((t * d) * (t * d) <= x * x) by (nonlinear_arith)
            requires
                x <= t * d <= 0,
        ;
    }
}

proof fn lemma_dot_product_bound(a: int, b: int, c: int, d: int, m: int)
    requires
        0 <= m,
        a * a + b * b <= m,
        c * c + d * d <= m,
    ensures
        a * c + b * d <= m,
{
    let dot = a * c + b * d;
    let cross = a * d - b * c;
    let na = a * a + b * b;
    let nc = c * c + d * d;
    // Lagrange's identity, monomial by monomial.
    assert((a * a) * (c * c) == (a * c) * (a * c)) by (nonlinear_arith);
    assert((a * a) * (d * d) == (a * d) * (a * d)) by (nonlinear_arith);
    assert((b * b) * (c * c) == (b * c) * (b * c)) by (nonlinear_arith);
    assert((b * b) * (d * d) == (b * d) * (b * d)) by (nonlinear_arith);
    assert((a * c) * (b * d) == (a * d) * (b * c)) by (nonlinear_arith);
    assert(na * nc == (a * a) * (c * c) + (a * a) * (d * d) + (b * b) * (c * c) + (b * b) * (d
        * d)) by (nonlinear_arith)
        requires
            na == a * a + b * b,
            nc == c * c + d * d,
    ;
    assert(dot * dot == (a * c) * (a * c) + 2 * ((a * c) * (b * d)) + (b * d) * (b * d))
        by (nonlinear_arith)
        requires
            dot == a * c + b * d,
    ;
    assert(cross * cross == (a * d) * (a * d) - 2 * ((a * d) * (b * c)) + (b * c) * (b * c))
        by (nonlinear_arith)
        requires
            cross == a * d - b * c,
    ;
    assert(na * nc - dot * dot == cross * cross);
    assert(cross * cross >= 0) by (nonlinear_arith);
    assert(0 <= na && 0 <= nc) by (nonlinear_arith)
        requires
            na == a * a + b * b,
            nc == c * c + d * d,
    ;
    assert(na * nc <= m * m) by (nonlinear_arith)
        requires
            0 <= na <= m,
            0 <= nc <= m,
    ;
    assert(dot <= m) by (nonlinear_arith)
        requires
            dot * dot <= m * m,
            0 <= m,
    ;
}

/// A step from inside the disk of radius 1/2, with a parameter inside the
/// disk of radius 1/4, ends inside the disk of radius 1/2: the square has a
/// modulus of at most 1/4, and rounding toward zero only shortens it.
proof fn lemma_step_stays_in_half_disk(z: ComplexInt, c: ComplexInt)
    requires
        z.norm_sqr() <= 4611686018427387904,
        c.norm_sqr() <= 1152921504606846976,
    ensures
        orbit_step(z, c).norm_sqr() <= 4611686018427387904,
{
    let s = SCALE as int;
    let quarter_sqr: int = 1152921504606846976;
    let half_sqr: int = 4611686018427387904;
    let w = z.times(z);
    let u = w.unscaled(s);
    lemma_square_of_product_norm(z);
    assert(z.norm_sqr() >= 0) by (nonlinear_arith)
        requires
            z.norm_sqr() == z.re * z.re + z.im * z.im,
    ;
    assert(w.norm_sqr() <= half_sqr * half_sqr) by (nonlinear_arith)
        requires
            w.norm_sqr() == z.norm_sqr() * z.norm_sqr(),
            0 <= z.norm_sqr() <= half_sqr,
    ;
    lemma_trunc_div_shrinks_square(w.re, s);
    lemma_trunc_div_shrinks_square(w.im, s);
    assert(u.norm_sqr() * (s * s) == (u.re * s) * (u.re * s) + (u.im * s) * (u.im * s))
        by (nonlinear_arith)
        requires
            u.norm_sqr() == u.re * u.re + u.im * u.im,
    ;
    assert(half_sqr * half_sqr == quarter_sqr * (s * s)) by (nonlinear_arith)
        requires
            half_sqr == 4611686018427387904,
            quarter_sqr == 1152921504606846976,
            s == 4294967296,
    ;
    assert(u.norm_sqr() <= quarter_sqr) by (nonlinear_arith)
        requires
            u.norm_sqr() * (s * s) <= quarter_sqr * (s * s),
            s > 0,
    ;
    lemma_dot_product_bound(u.re, u.im, c.re, c.im, quarter_sqr);
    let next = u.plus(c);
    assert(next.norm_sqr() == u.norm_sqr() + c.norm_sqr() + 2 * (u.re * c.re + u.im * c.im))
        by (nonlinear_arith)
        requires
            next.re == u.re + c.re,
            next.im == u.im + c.im,
            next.norm_sqr() == next.re * next.re + next.im * next.im,
            u.norm_sqr() == u.re * u.re + u.im * u.im,
            c.norm_sqr() == c.re * c.re + c.im * c.im,
    ;
}

/// The squares of 1/4 and of 1/2, in raw units.
proof fn lemma_disk_constants()
    ensures
        (SCALE / 4) * (SCALE / 4) == 1152921504606846976,
        (SCALE / 2) * (SCALE / 2) == 4611686018427387904,
{
    let q: int = SCALE / 4;
    let h: int = SCALE / 2;
    assert(q * q == 1152921504606846976) by (nonlinear_arith)
        requires
            q == 1073741824,
    ;
    assert(h * h == 4611686018427387904) by (nonlinear_arith)
        requires
            h == 2147483648,
    ;
}

/// The sequence of a parameter of modulus at most 1/4 never leaves the disk of
/// radius 1/2.
pub proof fn lemma_orbit_of_small_parameter(c: ComplexInt, n: nat)
    requires
        !escaped(c, SCALE / 4),
    ensures
        !escaped(orbit(c, n), SCALE / 2),
    decreases n,
{
    lemma_disk_constants();
    if n > 0 {
        let before = orbit(c, (n - 1) as nat);
        lemma_orbit_of_small_parameter(c, (n - 1) as nat);
        lemma_step_stays_in_half_disk(before, c);
        assert(orbit(c, n) == orbit_step(before, c));
    } else {
        assert(orbit(c, 0) == ComplexInt::zero());
    }
}

/// Every point within 1/4 of the origin, all of them inside the set, is
/// `Bounded` for every budget and every radius of at least 1/2.
pub proof fn lemma_quarter_disk_is_bounded(c: ComplexInt, budget: nat, radius: int)
    requires
        !escaped(c, SCALE / 4),
        radius >= SCALE / 2,
    ensures
        escape_outcome(c, budget, radius) == EscapeOutcome::Bounded,
{
    lemma_disk_constants();
    assert forall|j: nat| j <= budget implies !escaped(#[trigger] orbit(c, j), radius) by {
        lemma_orbit_of_small_parameter(c, j);
        assert(radius * radius >= 4611686018427387904) by (nonlinear_arith)
            requires
                radius >= 2147483648,
        ;
    }
    lemma_bounded_when_orbit_stays(c, budget, radius);
}

/// The point `-1 + 0i`.
pub open spec fn minus_one() -> ComplexInt {
    ComplexInt { re: -(SCALE as int), im: 0 }
}

/// The sequence of `c = -1` alternates between `0` and `-1`.
pub proof fn lemma_orbit_of_minus_one(n: nat)
    ensures
        orbit(minus_one(), n) == if n % 2 == 0 {
            ComplexInt::zero()
        } else {
            minus_one()
        },
    decreases n,
{
    if n > 0 {
        lemma_orbit_of_minus_one((n - 1) as nat);
        let z = orbit(minus_one(), (n - 1) as nat);
        if n % 2 == 0 {
            assert(z == minus_one());
            assert(z.times(z) == ComplexInt { re: 18446744073709551616, im: 0 });
            assert(orbit_step(z, minus_one()) == ComplexInt::zero());
        } else {
            assert(z == ComplexInt::zero());
            assert(orbit_step(z, minus_one()) == minus_one());
        }
    }
}

/// The point `-1` is `Bounded` for every budget and every radius of at least
/// 1.0.
pub proof fn lemma_minus_one_is_bounded(budget: nat, radius: int)
    requires
        radius >= SCALE,
    ensures
        escape_outcome(minus_one(), budget, radius) == EscapeOutcome::Bounded,
{
    assert forall|j: nat| j <= budget implies !escaped(
        #[trigger] orbit(minus_one(), j),
        radius,
    ) by {
        lemma_orbit_of_minus_one(j);
        assert(radius * radius >= 18446744073709551616) by (nonlinear_arith)
            requires
                radius >= 4294967296,
        ;
    }
    lemma_bounded_when_orbit_stays(minus_one(), budget, radius);
}

/// The step from zero leads to the parameter itself.
pub proof fn lemma_step_from_zero(c: ComplexInt)
    ensures
        orbit_step(ComplexInt::zero(), c) == c,
{
    let zero = ComplexInt::zero();
    assert(zero.times(zero) == zero) by (nonlinear_arith)
        requires
            zero == (ComplexInt { re: 0, im: 0 }),
    ;
    assert(trunc_div(0, SCALE as int) == 0);
}

/// A point that itself lies outside the radius escapes after one step,
/// whatever the budget of one or more: the sequence starts `0, c`.
pub proof fn lemma_outside_point_escapes_at_once(c: ComplexInt, budget: nat, radius: int)
    requires
        budget >= 1,
        radius >= 0,
        escaped(c, radius),
    ensures
        escape_outcome(c, budget, radius) == (EscapeOutcome::Escaped { iterations: 1, point: c }),
{
    assert(radius * radius >= 0) by (nonlinear_arith);
    lemma_step_from_zero(c);
    assert(orbit(c, 0) == ComplexInt::zero());
    assert(orbit(c, 1) == orbit_step(orbit(c, 0), c));
    assert(first_escape(c, radius, 1, budget) == Some(1nat));
}

} // verus!
