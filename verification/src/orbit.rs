//! Orbital period from Kepler's third law, T = 2 pi sqrt(a^3 / mu), carried
//! out in exact integer arithmetic on a millisecond scale.

use vstd::prelude::*;
use crate::arith::{is_sqrt_floor, sqrt_floor, lemma_sqrt_floor_is_ordered, isqrt_u128};
use crate::MAX_SEMI_MAJOR_AXIS_M;
use vstd::arithmetic::div_mod::lemma_div_is_ordered;

verus! {

/// Numerator of a rational approximation of pi squared; the denominator is
/// `PI_SQUARED_DEN`.
pub const PI_SQUARED_NUM: u128 = 986_960_440_108;

/// Denominator of the rational approximation of pi squared.
pub const PI_SQUARED_DEN: u128 = 100_000_000_000;

/// `PI_SQUARED_DEN / 1_000_000`: dividing by this instead of by
/// `PI_SQUARED_DEN` folds the seconds-to-milliseconds factor of one million
/// into the radicand of the period formula.
pub const PI_SQUARED_DEN_PER_SQUARE_MILLI: u128 = 100_000;

/// An input a calculator rejects: the formulas are undefined on it.
#[derive(Clone, Copy, PartialEq, Eq, Structural, Debug)]
pub enum DomainError {
    NonPositiveSemiMajorAxis,
    NonPositiveGravitationParameter,
}

/// The square of the orbital period in milliseconds, by Kepler's third law:
/// T^2 = 4 pi^2 a^3 / mu, with pi^2 as the crate's rational approximation
/// and the square-millisecond scale folded into the denominator.
pub open spec fn period_millis_squared(a: int, mu: int) -> int {
    (4 * (PI_SQUARED_NUM as int) * a * a * a) / ((PI_SQUARED_DEN_PER_SQUARE_MILLI as int) * mu)
}

/// The orbital period in milliseconds of a circular orbit with semi-major
/// axis `a` metres around a body of gravitational parameter `mu` m^3/s^2.
pub open spec fn period_millis(a: int, mu: int) -> int {
    sqrt_floor(period_millis_squared(a, mu))
}

/// Kepler's third law for a circular orbit.  The result is the period in
/// whole milliseconds; a zero semi-major axis or gravitational parameter is
/// rejected as a domain error.
pub fn calculate_orbit_period_millis(semi_major_axis_m: u64, gravitation_parameter_m3_s2: u64)
    -> (r: Result<u64, DomainError>)
    requires
        semi_major_axis_m <= MAX_SEMI_MAJOR_AXIS_M,
    ensures
        semi_major_axis_m == 0
            ==> r == Result::<u64, DomainError>::Err(DomainError::NonPositiveSemiMajorAxis),
        semi_major_axis_m > 0 && gravitation_parameter_m3_s2 == 0
            ==> r == Result::<u64, DomainError>::Err(DomainError::NonPositiveGravitationParameter),
        semi_major_axis_m > 0 && gravitation_parameter_m3_s2 > 0 ==> {
            &&& r is Ok
            &&& r->Ok_0 == period_millis(semi_major_axis_m as int, gravitation_parameter_m3_s2 as int)
        },
{
    if semi_major_axis_m == 0 {
        return Err(DomainError::NonPositiveSemiMajorAxis);
    }
    if gravitation_parameter_m3_s2 == 0 {
        return Err(DomainError::NonPositiveGravitationParameter);
    }
    let a: u128 = semi_major_axis_m as u128;
    let four_pi_squared_num: u128 = 4 * PI_SQUARED_NUM;
    let p1: u128 = four_pi_squared_num * a;
    proof {
        assert(p1 <= 394_784_176_043_200_000_000);
        assert(p1 * (a as int) <= 39_478_417_604_320_000_000_000_000_000) by (nonlinear_arith)
            requires p1 <= 394_784_176_043_200_000_000, a <= 100_000_000;
    }
    let p2: u128 = p1 * a;
    proof {
        assert(p2 * (a as int) <= 3_947_841_760_432_000_000_000_000_000_000_000_000)
            by (nonlinear_arith)
            requires p2 <= 39_478_417_604_320_000_000_000_000_000, a <= 100_000_000;
    }
    let numerator: u128 = p2 * a;
    let denominator: u128 = PI_SQUARED_DEN_PER_SQUARE_MILLI * (gravitation_parameter_m3_s2 as u128);
    let radicand: u128 = numerator / denominator;
    let root: u128 = isqrt_u128(radicand);
    proof {
        assert(radicand as int <= numerator as int) by (nonlinear_arith)
            requires
                numerator as int >= 0,
                denominator as int >= 1,
                radicand as int == numerator as int / denominator as int;
        assert(root as int <= 2_000_000_000_000_000_000) by (nonlinear_arith)
            requires
                is_sqrt_floor(radicand as int, root as int),
                radicand as int <= 3_947_841_760_432_000_000_000_000_000_000_000_000;
    }
    Ok(root as u64)
}

/// Kepler's third law is monotone: of two circular orbits around the same
/// body, the one with the longer semi-major axis has the period at least as
/// long.
pub proof fn lemma_orbit_period_monotonic(a1: int, a2: int, mu: int)
    requires
        0 <= a1 <= a2,
        1 <= mu,
    ensures
        period_millis(a1, mu) <= period_millis(a2, mu),
{
    let n1: int = 4 * (PI_SQUARED_NUM as int) * a1 * a1 * a1;
    let n2: int = 4 * (PI_SQUARED_NUM as int) * a2 * a2 * a2;
    let d: int = (PI_SQUARED_DEN_PER_SQUARE_MILLI as int) * mu;
    assert(0 <= 4 * (PI_SQUARED_NUM as int) * a1 * a1 * a1
        && 4 * (PI_SQUARED_NUM as int) * a1 * a1 * a1
            <= 4 * (PI_SQUARED_NUM as int) * a2 * a2 * a2) by (nonlinear_arith)
        requires 0 <= a1 <= a2;
    assert(d >= 1);
    lemma_div_is_ordered(n1, n2, d);
    assert(n1 / d >= 0) by (nonlinear_arith)
        requires n1 >= 0, d >= 1;
    lemma_sqrt_floor_is_ordered(n1 / d, n2 / d);
}

} // verus!
