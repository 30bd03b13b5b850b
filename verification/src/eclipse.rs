//! The composition point: from altitude and the scaled sine of the beta
//! angle to the orbital period and the eclipse fraction, and from those to
//! the eclipse time per orbit.
//!
//! The orbit is circular, so the semi-major axis is Earth radius plus
//! altitude.  The fraction's arccosine — the one inverse trigonometric step,
//! floating-point work outside this library — stands between the two halves:
//! the caller turns the `Shadowed` cosine into an angle in nanoradians and
//! hands it to `calculate_eclipse_time_millis`.  Following the shadow
//! model's own composition, that angle in radians is applied directly as the
//! multiplier against the period, not divided by two pi.

use vstd::prelude::*;
use vstd::pervasive::unreached;
use vstd::arithmetic::div_mod::lemma_div_is_ordered;
use crate::orbit::{calculate_orbit_period_millis, period_millis};
use crate::shadow::{calculate_eclipse_fraction, always_sunlit, eclipse_cos_angle_scaled,
    EclipseFraction};
use crate::{EARTH_RADIUS_M, EARTH_GRAVITATION_PARAM_M3_S2, MAX_ALTITUDE_M, SINE_SCALE,
    RADIAN_SCALE};

verus! {

/// The two halves of the eclipse-time estimate for one orbit.
pub struct EclipseGeometry {
    /// The orbital period in milliseconds.
    pub period_millis: u64,
    /// The eclipse fraction of the orbit.
    pub fraction: EclipseFraction,
}

/// The whole shadow computation for a circular orbit at the given altitude
/// around Earth: the orbital period by Kepler's third law with the
/// semi-major axis R + h, and the eclipse fraction of the orbit.
pub fn calculate_eclipse_geometry(altitude_m: u64, sin_beta_scaled: i64) -> (r: EclipseGeometry)
    requires
        altitude_m <= MAX_ALTITUDE_M,
        -SINE_SCALE <= sin_beta_scaled <= SINE_SCALE,
    ensures
        r.period_millis == period_millis(
            EARTH_RADIUS_M + altitude_m, EARTH_GRAVITATION_PARAM_M3_S2 as int),
        r.fraction == EclipseFraction::AlwaysSunlit
            <==> always_sunlit(altitude_m as int, sin_beta_scaled as int),
        !always_sunlit(altitude_m as int, sin_beta_scaled as int)
            ==> (r.fraction matches EclipseFraction::Shadowed { cos_angle_scaled }
                && cos_angle_scaled
                    == eclipse_cos_angle_scaled(altitude_m as int, sin_beta_scaled as int)),
{
    let semi_major_axis_m: u64 = EARTH_RADIUS_M + altitude_m;
    let period_ms: u64 = match calculate_orbit_period_millis(
        semi_major_axis_m, EARTH_GRAVITATION_PARAM_M3_S2) {
        Ok(p) => p,
        Err(_) => unreached(),
    };
    let fraction = calculate_eclipse_fraction(altitude_m, sin_beta_scaled);
    EclipseGeometry { period_millis: period_ms, fraction }
}

/// The eclipse time per orbit in milliseconds: the period multiplied by the
/// eclipse fraction angle, the angle given in nanoradians.  The bounds admit
/// any angle up to more than pi radians and any period up to well over a
/// year, and keep the product exact in the integers.
pub fn calculate_eclipse_time_millis(period_millis: u64, fraction_angle_nanorad: u64)
    -> (r: u64)
    requires
        period_millis <= 1_000_000_000_000,
        fraction_angle_nanorad <= 4_000_000_000,
    ensures
        r == (period_millis as int) * (fraction_angle_nanorad as int) / (RADIAN_SCALE as int),
{
    proof {
        assert((period_millis as int) * (fraction_angle_nanorad as int)
            <= 4_000_000_000_000_000_000_000) by (nonlinear_arith)
            requires period_millis <= 1_000_000_000_000, fraction_angle_nanorad <= 4_000_000_000;
    }
    let product: u128 = (period_millis as u128) * (fraction_angle_nanorad as u128);
    proof {
        lemma_div_is_ordered(
            product as int, 4_000_000_000_000_000_000_000, 1_000_000_000);
    }
    let quotient: u128 = product / 1_000_000_000;
    quotient as u64
}

} // verus!
