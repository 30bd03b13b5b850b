//! The shadow-cone geometry: the beta angle of the orbital plane against the
//! Sun vector, the limiting angle beta-angle-star, and the eclipse fraction
//! of the orbit.
//!
//! Angles are carried by their sines, scaled by `SINE_SCALE`.  That is enough
//! for the whole model: whether the orbit ever enters shadow is the
//! comparison `|sin beta| >= sin beta-star`, where `sin beta-star` is the
//! exact rational R / (R + h); and the cosine that the eclipse chord formula
//! divides by is `sqrt(1 - sin^2 beta)`.  The caller that wants beta itself
//! in degrees, or the eclipse chord angle from its cosine, applies the
//! inverse trigonometric functions outside the library.

use vstd::prelude::*;
use vstd::math::abs;
use vstd::arithmetic::div_mod::lemma_div_is_ordered_by_denominator;
use vstd::arithmetic::mul::lemma_mul_inequality;
use crate::arith::{sqrt_floor, lemma_sqrt_floor_exists, lemma_sqrt_floor_is_ordered,
    lemma_sqrt_floor_pos, isqrt_u128};
use crate::{EARTH_RADIUS_M, SINE_SCALE, MAX_ALTITUDE_M};

verus! {

/// The scaled sine of the beta angle before truncation and clamping: the
/// classical combination of the Sun's right ascension (gamma) and
/// declination (epsilon) with the satellite's inclination and the right
/// ascension of its ascending node, each angle given by its scaled sine and
/// cosine.  The middle term multiplies four trigonometric factors and the
/// outer two only three, so the outer products carry one more factor of
/// `SINE_SCALE` to put all three terms on the fourth power of the scale.
pub open spec fn beta_sine_terms(
    sin_gamma: int, cos_gamma: int,
    sin_epsilon: int, cos_epsilon: int,
    sin_incl: int, cos_incl: int,
    sin_raan: int, cos_raan: int,
) -> int {
    cos_gamma * sin_raan * sin_incl * (SINE_SCALE as int)
        - sin_gamma * cos_epsilon * cos_raan * sin_incl
        + sin_gamma * sin_epsilon * cos_incl * (SINE_SCALE as int)
}

/// Scale a value on the fourth power of `SINE_SCALE` back down to a plain
/// scaled sine, truncating toward zero.
pub open spec fn scale_down_truncated(t: int) -> int {
    if t >= 0 {
        t / ((SINE_SCALE as int) * (SINE_SCALE as int) * (SINE_SCALE as int))
    } else {
        -((-t) / ((SINE_SCALE as int) * (SINE_SCALE as int) * (SINE_SCALE as int)))
    }
}

/// Clamp a scaled sine into the scaled interval [-1, 1]: the geometric value
/// is bounded, so anything outside is arithmetic drift.
pub open spec fn clamp_to_unit(v: int) -> int {
    if v > SINE_SCALE as int {
        SINE_SCALE as int
    } else if v < -(SINE_SCALE as int) {
        -(SINE_SCALE as int)
    } else {
        v
    }
}

/// The scaled sine of the beta angle, the angle between the orbital plane
/// and the Earth-Sun line.  Each input angle is given by its sine and cosine
/// scaled by `SINE_SCALE`; the result is the scaled sine of beta, clamped
/// into the scaled [-1, 1] so that it is a well-formed sine for every input.
pub fn calculate_beta_sine(
    sin_gamma: i64, cos_gamma: i64,
    sin_epsilon: i64, cos_epsilon: i64,
    sin_incl: i64, cos_incl: i64,
    sin_raan: i64, cos_raan: i64,
) -> (r: i64)
    requires
        -SINE_SCALE <= sin_gamma <= SINE_SCALE,
        -SINE_SCALE <= cos_gamma <= SINE_SCALE,
        -SINE_SCALE <= sin_epsilon <= SINE_SCALE,
        -SINE_SCALE <= cos_epsilon <= SINE_SCALE,
        -SINE_SCALE <= sin_incl <= SINE_SCALE,
        -SINE_SCALE <= cos_incl <= SINE_SCALE,
        -SINE_SCALE <= sin_raan <= SINE_SCALE,
        -SINE_SCALE <= cos_raan <= SINE_SCALE,
    ensures
        r == clamp_to_unit(scale_down_truncated(beta_sine_terms(
            sin_gamma as int, cos_gamma as int, sin_epsilon as int, cos_epsilon as int,
            sin_incl as int, cos_incl as int, sin_raan as int, cos_raan as int))),
        -SINE_SCALE <= r <= SINE_SCALE,
{
    let sg: i128 = sin_gamma as i128;
    let cg: i128 = cos_gamma as i128;
    let se: i128 = sin_epsilon as i128;
    let ce: i128 = cos_epsilon as i128;
    let si: i128 = sin_incl as i128;
    let ci: i128 = cos_incl as i128;
    let so: i128 = sin_raan as i128;
    let co: i128 = cos_raan as i128;
    proof {
        assert(-1_000_000_000_000_000_000 <= cg * so <= 1_000_000_000_000_000_000)
            by (nonlinear_arith)
            requires -1_000_000_000 <= cg <= 1_000_000_000, -1_000_000_000 <= so <= 1_000_000_000;
        assert(-1_000_000_000_000_000_000 <= sg * ce <= 1_000_000_000_000_000_000)
            by (nonlinear_arith)
            requires -1_000_000_000 <= sg <= 1_000_000_000, -1_000_000_000 <= ce <= 1_000_000_000;
        assert(-1_000_000_000_000_000_000 <= sg * se <= 1_000_000_000_000_000_000)
            by (nonlinear_arith)
            requires -1_000_000_000 <= sg <= 1_000_000_000, -1_000_000_000 <= se <= 1_000_000_000;
    }
    let t1: i128 = cg * so;
    let t2: i128 = sg * ce;
    let t3: i128 = sg * se;
    proof {
        assert(-1_000_000_000_000_000_000_000_000_000 <= t1 * si
            <= 1_000_000_000_000_000_000_000_000_000) by (nonlinear_arith)
            requires
                -1_000_000_000_000_000_000 <= t1 <= 1_000_000_000_000_000_000,
                -1_000_000_000 <= si <= 1_000_000_000;
        assert(-1_000_000_000_000_000_000_000_000_000 <= t2 * co
            <= 1_000_000_000_000_000_000_000_000_000) by (nonlinear_arith)
            requires
                -1_000_000_000_000_000_000 <= t2 <= 1_000_000_000_000_000_000,
                -1_000_000_000 <= co <= 1_000_000_000;
        assert(-1_000_000_000_000_000_000_000_000_000 <= t3 * ci
            <= 1_000_000_000_000_000_000_000_000_000) by (nonlinear_arith)
            requires
                -1_000_000_000_000_000_000 <= t3 <= 1_000_000_000_000_000_000,
                -1_000_000_000 <= ci <= 1_000_000_000;
    }
    let term_a3: i128 = t1 * si;
    let term_b0: i128 = t2 * co;
    let term_c3: i128 = t3 * ci;
    proof {
        assert(-1_000_000_000_000_000_000_000_000_000_000_000_000 <= term_a3 * 1_000_000_000
            <= 1_000_000_000_000_000_000_000_000_000_000_000_000) by (nonlinear_arith)
            requires
                -1_000_000_000_000_000_000_000_000_000 <= term_a3
                    <= 1_000_000_000_000_000_000_000_000_000;
        assert(-1_000_000_000_000_000_000_000_000_000_000_000_000 <= term_b0 * si
            <= 1_000_000_000_000_000_000_000_000_000_000_000_000) by (nonlinear_arith)
            requires
                -1_000_000_000_000_000_000_000_000_000 <= term_b0
                    <= 1_000_000_000_000_000_000_000_000_000,
                -1_000_000_000 <= si <= 1_000_000_000;
        assert(-1_000_000_000_000_000_000_000_000_000_000_000_000 <= term_c3 * 1_000_000_000
            <= 1_000_000_000_000_000_000_000_000_000_000_000_000) by (nonlinear_arith)
            requires
                -1_000_000_000_000_000_000_000_000_000 <= term_c3
                    <= 1_000_000_000_000_000_000_000_000_000;
    }
    let term_a: i128 = term_a3 * 1_000_000_000;
    let term_b: i128 = term_b0 * si;
    let term_c: i128 = term_c3 * 1_000_000_000;
    let total: i128 = term_a - term_b + term_c;
    let negative = total < 0;
    let magnitude: u128 = if negative { (-total) as u128 } else { total as u128 };
    let quotient: u128 = magnitude / 1_000_000_000_000_000_000_000_000_000;
    let clamped: i64 = if quotient >= 1_000_000_000 { 1_000_000_000 } else { quotient as i64 };
    if negative { -clamped } else { clamped }
}

/// The exact sine of beta-angle-star: `sin_numerator / sin_denominator`,
/// which is R / (R + h) for altitude h over Earth radius R.
pub struct BetaAngleStarSine {
    pub sin_numerator: u64,
    pub sin_denominator: u64,
}

/// The limiting angle beta-angle-star of the shadow cone, represented by its
/// exact sine, the rational R / (R + h): for |beta| at or above this angle
/// the orbit never enters the shadow.  At altitude zero the result is the
/// degenerate right angle: its sine is exactly one.
pub fn calculate_beta_angle_star(altitude_m: u64) -> (r: BetaAngleStarSine)
    requires
        altitude_m <= MAX_ALTITUDE_M,
    ensures
        r.sin_numerator == EARTH_RADIUS_M,
        r.sin_denominator == EARTH_RADIUS_M + altitude_m,
        r.sin_numerator <= r.sin_denominator,
        altitude_m == 0 ==> r.sin_numerator == r.sin_denominator,
{
    BetaAngleStarSine {
        sin_numerator: EARTH_RADIUS_M,
        sin_denominator: EARTH_RADIUS_M + altitude_m,
    }
}

/// The orbit never enters the shadow: |sin beta| is at least the sine of
/// beta-angle-star, compared exactly by cross-multiplication:
/// |sin beta| / SINE_SCALE >= R / (R + h).
pub open spec fn always_sunlit(altitude_m: int, sin_beta_scaled: int) -> bool {
    abs(sin_beta_scaled) * (EARTH_RADIUS_M + altitude_m)
        >= (EARTH_RADIUS_M as int) * (SINE_SCALE as int)
}

/// The half-length of the shadow chord, sqrt(h^2 + 2 R h), in metres,
/// rounded down.
pub open spec fn shadow_chord_m(altitude_m: int) -> int {
    sqrt_floor(altitude_m * altitude_m + 2 * (EARTH_RADIUS_M as int) * altitude_m)
}

/// The scaled cosine of beta recovered from its scaled sine:
/// sqrt(SINE_SCALE^2 - s^2), rounded down.
pub open spec fn cos_beta_scaled(sin_beta_scaled: int) -> int {
    sqrt_floor((SINE_SCALE as int) * (SINE_SCALE as int) - sin_beta_scaled * sin_beta_scaled)
}

/// The scaled cosine of the eclipse chord angle,
/// sqrt(h^2 + 2 R h) / ((R + h) cos beta), clamped to the scaled one so that
/// it is a well-formed cosine even at the shadow boundary, where rounding
/// could push the ratio past one.
pub open spec fn eclipse_cos_angle_scaled(altitude_m: int, sin_beta_scaled: int) -> int {
    let u: int = shadow_chord_m(altitude_m) * (SINE_SCALE as int) * (SINE_SCALE as int)
        / ((EARTH_RADIUS_M + altitude_m) * cos_beta_scaled(sin_beta_scaled));
    if u > SINE_SCALE as int {
        SINE_SCALE as int
    } else {
        u
    }
}

/// The eclipse fraction of one orbit, as the shadow geometry determines it.
#[derive(Clone, Copy, PartialEq, Eq, Structural, Debug)]
pub enum EclipseFraction {
    /// The orbital plane is tilted past the shadow cone: the eclipse
    /// fraction is zero exactly.
    AlwaysSunlit,
    /// The orbit crosses the shadow; the eclipse fraction is the angle whose
    /// cosine this is (scaled by `SINE_SCALE`), in radians, applied by the
    /// caller directly as the multiplier against the orbital period.
    Shadowed { cos_angle_scaled: u64 },
}

/// The eclipse fraction of the orbit at the given altitude, for an orbital
/// plane whose beta angle has the given scaled sine.  The result is
/// `AlwaysSunlit` — fraction zero — exactly when |beta| is at least
/// beta-angle-star; otherwise it is the shadow chord geometry's cosine, from
/// which the caller takes the arccosine.
pub fn calculate_eclipse_fraction(altitude_m: u64, sin_beta_scaled: i64) -> (r: EclipseFraction)
    requires
        altitude_m <= MAX_ALTITUDE_M,
        -SINE_SCALE <= sin_beta_scaled <= SINE_SCALE,
    ensures
        r == EclipseFraction::AlwaysSunlit
            <==> always_sunlit(altitude_m as int, sin_beta_scaled as int),
        !always_sunlit(altitude_m as int, sin_beta_scaled as int)
            ==> (r matches EclipseFraction::Shadowed { cos_angle_scaled }
                && cos_angle_scaled
                    == eclipse_cos_angle_scaled(altitude_m as int, sin_beta_scaled as int)),
{
    let sin_abs: u64 = if sin_beta_scaled < 0 {
        (-sin_beta_scaled) as u64
    } else {
        sin_beta_scaled as u64
    };
    let orbit_radius_m: u64 = EARTH_RADIUS_M + altitude_m;
    proof {
        assert((sin_abs as int) * (orbit_radius_m as int) <= 100_000_000_000_000_000)
            by (nonlinear_arith)
            requires sin_abs <= 1_000_000_000, orbit_radius_m <= 100_000_000;
    }
    let tilt: u128 = (sin_abs as u128) * (orbit_radius_m as u128);
    let limit: u128 = (EARTH_RADIUS_M as u128) * 1_000_000_000;
    if tilt >= limit {
        return EclipseFraction::AlwaysSunlit;
    }
    proof {
        assert(sin_abs < 1_000_000_000) by (nonlinear_arith)
            requires
                (sin_abs as int) * (orbit_radius_m as int)
                    < (EARTH_RADIUS_M as int) * 1_000_000_000,
                orbit_radius_m >= EARTH_RADIUS_M,
                EARTH_RADIUS_M as int == 6_378_145,
                sin_abs >= 0;
    }
    let h: u128 = altitude_m as u128;
    proof {
        assert(h * h <= 10_000_000_000_000_000) by (nonlinear_arith)
            requires h <= 100_000_000;
    }
    let two_earth_radii_times_h: u128 = 12_756_290 * h;
    proof {
        assert(two_earth_radii_times_h == 2 * (EARTH_RADIUS_M as int) * (h as int));
    }
    let chord: u128 = isqrt_u128(h * h + two_earth_radii_times_h);
    let s: u128 = sin_abs as u128;
    proof {
        assert(s * s <= 999_999_998_000_000_001) by (nonlinear_arith)
            requires s <= 999_999_999;
    }
    proof {
        assert((s as int) * (s as int)
            == (sin_beta_scaled as int) * (sin_beta_scaled as int)) by (nonlinear_arith)
            requires
                s as int == sin_beta_scaled as int || s as int == -(sin_beta_scaled as int);
    }
    let cos_beta: u128 = isqrt_u128(1_000_000_000_000_000_000 - s * s);
    proof {
        lemma_sqrt_floor_pos(
            1_000_000_000_000_000_000 - (s as int) * (s as int), cos_beta as int);
        assert(cos_beta as int * cos_beta as int <= 1_000_000_000_000_000_000);
        assert(cos_beta <= 1_000_000_000) by (nonlinear_arith)
            requires cos_beta as int * cos_beta as int <= 1_000_000_000_000_000_000;
        assert((orbit_radius_m as int) * (cos_beta as int) <= 100_000_000_000_000_000)
            by (nonlinear_arith)
            requires orbit_radius_m <= 100_000_000, cos_beta <= 1_000_000_000;
        assert((orbit_radius_m as int) * (cos_beta as int) >= 1) by (nonlinear_arith)
            requires orbit_radius_m >= 1, cos_beta >= 1;
        assert(chord as int * chord as int <= 11_275_629_000_000_000);
        assert(chord <= 200_000_000) by (nonlinear_arith)
            requires chord as int * chord as int <= 11_275_629_000_000_000;
    }
    let denominator: u128 = (orbit_radius_m as u128) * cos_beta;
    let numerator: u128 = chord * 1_000_000_000 * 1_000_000_000;
    let u: u128 = numerator / denominator;
    let cos_angle: u64 = if u >= 1_000_000_000 { 1_000_000_000 } else { u as u64 };
    EclipseFraction::Shadowed { cos_angle_scaled: cos_angle }
}

/// The eclipse fraction is zero exactly when |beta| is at least
/// beta-angle-star: both angles lie in the first quadrant, so the comparison
/// of the angles is the comparison of their sines, |sin beta| / SINE_SCALE
/// against the exact rational sin beta-star, cross-multiplied.
pub proof fn lemma_fraction_zero_iff_beta_at_least_star(
    altitude_m: int, sin_beta_scaled: int, star: BetaAngleStarSine)
    requires
        star.sin_numerator == EARTH_RADIUS_M,
        star.sin_denominator == (EARTH_RADIUS_M as int) + altitude_m,
    ensures
        always_sunlit(altitude_m, sin_beta_scaled)
            <==> abs(sin_beta_scaled) * star.sin_denominator
                >= star.sin_numerator * (SINE_SCALE as int),
{
}

/// The shadow geometry reads the beta angle only through |sin beta|: the
/// eclipse fraction at a beta angle and at its negation are the same.
pub proof fn lemma_eclipse_fraction_symmetric(altitude_m: int, sin_beta_scaled: int)
    ensures
        always_sunlit(altitude_m, sin_beta_scaled) == always_sunlit(altitude_m, -sin_beta_scaled),
        eclipse_cos_angle_scaled(altitude_m, sin_beta_scaled)
            == eclipse_cos_angle_scaled(altitude_m, -sin_beta_scaled),
{
    assert(abs(sin_beta_scaled) == abs(-sin_beta_scaled));
    assert(sin_beta_scaled * sin_beta_scaled == (-sin_beta_scaled) * (-sin_beta_scaled))
        by (nonlinear_arith);
}

/// The eclipse fraction is monotone in the tilt: as |sin beta| grows from
/// zero toward the sine of beta-angle-star, the cosine of the eclipse chord
/// angle grows, so the eclipse fraction — the arccosine of that value —
/// shrinks or stays; from beta-angle-star on it is zero exactly.
pub proof fn lemma_eclipse_fraction_monotonic(altitude_m: int, s1: int, s2: int)
    requires
        0 <= altitude_m <= MAX_ALTITUDE_M,
        0 <= s1 <= s2 <= SINE_SCALE,
        !always_sunlit(altitude_m, s2),
    ensures
        !always_sunlit(altitude_m, s1),
        eclipse_cos_angle_scaled(altitude_m, s1) <= eclipse_cos_angle_scaled(altitude_m, s2),
{
    let radius: int = (EARTH_RADIUS_M as int) + altitude_m;
    let scale: int = SINE_SCALE as int;
    lemma_mul_inequality(s1, s2, radius);
    assert(!always_sunlit(altitude_m, s1));
    assert(s2 < scale) by (nonlinear_arith)
        requires
            s2 * radius < (EARTH_RADIUS_M as int) * scale,
            radius >= EARTH_RADIUS_M as int,
            EARTH_RADIUS_M as int >= 1,
            scale >= 1,
            s2 >= 0;
    assert(s1 * s1 <= s2 * s2) by (nonlinear_arith)
        requires 0 <= s1 <= s2;
    assert(s2 * s2 <= (scale - 1) * (scale - 1)) by (nonlinear_arith)
        requires 0 <= s2 <= scale - 1;
    let x1: int = scale * scale - s1 * s1;
    let x2: int = scale * scale - s2 * s2;
    assert(x2 >= 1);
    lemma_sqrt_floor_is_ordered(x2, x1);
    lemma_sqrt_floor_exists(x1);
    lemma_sqrt_floor_exists(x2);
    let c1: int = cos_beta_scaled(s1);
    let c2: int = cos_beta_scaled(s2);
    lemma_sqrt_floor_pos(x2, c2);
    assert(c2 <= c1);
    let d1: int = radius * c1;
    let d2: int = radius * c2;
    assert(1 <= d2 && d2 <= d1) by (nonlinear_arith)
        requires radius >= 1, 1 <= c2 <= c1, d1 == radius * c1, d2 == radius * c2;
    let chord: int = shadow_chord_m(altitude_m);
    assert(altitude_m * altitude_m + 2 * (EARTH_RADIUS_M as int) * altitude_m >= 0)
        by (nonlinear_arith)
        requires altitude_m >= 0;
    lemma_sqrt_floor_exists(altitude_m * altitude_m + 2 * (EARTH_RADIUS_M as int) * altitude_m);
    assert(chord >= 0);
    assert(chord * scale * scale >= 0) by (nonlinear_arith)
        requires chord >= 0, scale >= 0;
    lemma_div_is_ordered_by_denominator(chord * scale * scale, d2, d1);
}

/// The eclipse fraction is maximal at beta equal to zero: the orbit is in
/// shadow there for every altitude, and the cosine of the eclipse chord
/// angle at zero is at most its value at any other beta, so the fraction —
/// its arccosine — is at least as large.
pub proof fn lemma_eclipse_fraction_maximal_at_zero(altitude_m: int, sin_beta_scaled: int)
    requires
        0 <= altitude_m <= MAX_ALTITUDE_M,
        -SINE_SCALE <= sin_beta_scaled <= SINE_SCALE,
    ensures
        !always_sunlit(altitude_m, 0),
        !always_sunlit(altitude_m, sin_beta_scaled)
            ==> eclipse_cos_angle_scaled(altitude_m, 0)
                <= eclipse_cos_angle_scaled(altitude_m, sin_beta_scaled),
{
    assert(abs(0) * (EARTH_RADIUS_M + altitude_m) == 0) by (nonlinear_arith);
    if !always_sunlit(altitude_m, sin_beta_scaled) {
        lemma_eclipse_fraction_symmetric(altitude_m, sin_beta_scaled);
        let s: int = abs(sin_beta_scaled) as int;
        lemma_eclipse_fraction_monotonic(altitude_m, 0, s);
    }
}

} // verus!
