use leo_eclipse::eclipse::{calculate_eclipse_geometry, calculate_eclipse_time_millis};
use leo_eclipse::orbit::{calculate_orbit_period_millis, DomainError};
use leo_eclipse::sexagesimal::{dms_to_degrees, hms_to_degrees, SexagesimalDegrees};
use leo_eclipse::shadow::{calculate_beta_angle_star, calculate_beta_sine,
    calculate_eclipse_fraction, EclipseFraction};
use leo_eclipse::{EARTH_GRAVITATION_PARAM_M3_S2, EARTH_RADIUS_M};

const SCALE: f64 = 1_000_000_000.0;

fn as_f64(v: &SexagesimalDegrees) -> f64 {
    let magnitude = v.numerator as f64 / v.denominator as f64;
    if v.negative {
        -magnitude
    } else {
        magnitude
    }
}

fn scaled(x: f64) -> i64 {
    let v = (x * SCALE).round();
    v.clamp(-SCALE, SCALE) as i64
}

#[test]
fn period_of_unit_orbit_is_exact() {
    // T = 2 pi sqrt(1 / 1) s = 6.283... s; in exact milliseconds the library
    // computes isqrt(4 * 986960440108 / 100000) = isqrt(39478417) = 6283.
    assert_eq!(calculate_orbit_period_millis(1, 1), Ok(6283));
}

#[test]
fn period_rejects_zero_semi_major_axis() {
    assert_eq!(
        calculate_orbit_period_millis(0, 1),
        Err(DomainError::NonPositiveSemiMajorAxis)
    );
}

#[test]
fn period_rejects_zero_gravitation_parameter() {
    assert_eq!(
        calculate_orbit_period_millis(7_000_000, 0),
        Err(DomainError::NonPositiveGravitationParameter)
    );
}

#[test]
fn period_grows_with_semi_major_axis() {
    let lower = calculate_orbit_period_millis(7_000_000, EARTH_GRAVITATION_PARAM_M3_S2).unwrap();
    let upper = calculate_orbit_period_millis(7_100_000, EARTH_GRAVITATION_PARAM_M3_S2).unwrap();
    assert!(lower < upper);
}

#[test]
fn period_of_600_km_orbit_is_about_5801_seconds() {
    let a = EARTH_RADIUS_M + 600_000;
    let period = calculate_orbit_period_millis(a, EARTH_GRAVITATION_PARAM_M3_S2).unwrap();
    let expected =
        2.0 * std::f64::consts::PI * ((a as f64).powi(3) / EARTH_GRAVITATION_PARAM_M3_S2 as f64)
            .sqrt();
    assert!((period as f64 / 1000.0 - expected).abs() < 0.01);
    assert!((period as f64 / 1000.0 - 5801.0).abs() < 5.0);
}

#[test]
fn beta_angle_star_at_zero_altitude_is_right_angle() {
    let star = calculate_beta_angle_star(0);
    // The sine is exactly one: the degenerate 90-degree limiting angle.
    assert_eq!(star.sin_numerator, star.sin_denominator);
    assert_eq!(star.sin_numerator, EARTH_RADIUS_M);
}

#[test]
fn beta_angle_star_at_600_km() {
    let star = calculate_beta_angle_star(600_000);
    assert_eq!(star.sin_numerator, EARTH_RADIUS_M);
    assert_eq!(star.sin_denominator, EARTH_RADIUS_M + 600_000);
    let angle = (star.sin_numerator as f64 / star.sin_denominator as f64).asin().to_degrees();
    assert!((angle - 66.07).abs() < 0.05);
}

#[test]
fn beta_sine_of_aligned_plane_is_one() {
    // cos gamma = 1, sin raan = 1, sin incl = 1, everything else 0:
    // the first term is exactly 1.
    let s = calculate_beta_sine(0, 1_000_000_000, 0, 0, 1_000_000_000, 0, 1_000_000_000, 0);
    assert_eq!(s, 1_000_000_000);
}

#[test]
fn beta_sine_exact_fixed_point_product() {
    // 0.5 * 0.5 * 0.5 = 0.125 through the first term alone.
    let s = calculate_beta_sine(0, 500_000_000, 0, 0, 500_000_000, 0, 500_000_000, 0);
    assert_eq!(s, 125_000_000);
}

#[test]
fn beta_sine_negative_through_declination_term() {
    // sin gamma = 1, sin epsilon = -1, cos incl = 1: the third term is -1.
    let s = calculate_beta_sine(1_000_000_000, 0, -1_000_000_000, 0, 0, 1_000_000_000, 0, 0);
    assert_eq!(s, -1_000_000_000);
}

#[test]
fn steep_beta_gives_no_eclipse() {
    // sin beta = 0.95 is above sin beta-star = R / (R + h) = 0.914 at 600 km.
    let fraction = calculate_eclipse_fraction(600_000, 950_000_000);
    assert_eq!(fraction, EclipseFraction::AlwaysSunlit);
    let fraction = calculate_eclipse_fraction(600_000, -950_000_000);
    assert_eq!(fraction, EclipseFraction::AlwaysSunlit);
}

#[test]
fn eclipse_fraction_is_zero_exactly_from_beta_star_on() {
    // Just above and just below the limiting sine R / (R + h) at 600 km,
    // which is 914_015_917.xx on the fixed-point scale.
    assert_eq!(
        calculate_eclipse_fraction(600_000, 914_100_000),
        EclipseFraction::AlwaysSunlit
    );
    assert!(matches!(
        calculate_eclipse_fraction(600_000, 913_900_000),
        EclipseFraction::Shadowed { .. }
    ));
}

#[test]
fn shallow_beta_gives_expected_chord_cosine() {
    let sin_beta = 0.121_04_f64;
    let fraction = calculate_eclipse_fraction(600_000, scaled(sin_beta));
    let h = 600_000.0_f64;
    let r = EARTH_RADIUS_M as f64;
    let expected = (h * h + 2.0 * r * h).sqrt() / ((r + h) * sin_beta.asin().cos());
    match fraction {
        EclipseFraction::Shadowed { cos_angle_scaled } => {
            assert!((cos_angle_scaled as f64 / SCALE - expected).abs() < 1e-6);
        }
        EclipseFraction::AlwaysSunlit => panic!("expected a shadowed orbit"),
    }
}

#[test]
fn eclipse_fraction_maximal_at_zero_beta() {
    // The chord-angle cosine grows with |sin beta|, so the fraction — its
    // arccosine — is largest at beta = 0.
    let at_zero = match calculate_eclipse_fraction(600_000, 0) {
        EclipseFraction::Shadowed { cos_angle_scaled } => cos_angle_scaled,
        EclipseFraction::AlwaysSunlit => panic!("beta = 0 is always shadowed"),
    };
    let tilted = match calculate_eclipse_fraction(600_000, 500_000_000) {
        EclipseFraction::Shadowed { cos_angle_scaled } => cos_angle_scaled,
        EclipseFraction::AlwaysSunlit => panic!("expected a shadowed orbit"),
    };
    let steeper = match calculate_eclipse_fraction(600_000, 800_000_000) {
        EclipseFraction::Shadowed { cos_angle_scaled } => cos_angle_scaled,
        EclipseFraction::AlwaysSunlit => panic!("expected a shadowed orbit"),
    };
    assert!(at_zero <= tilted && tilted <= steeper);
    let angle_zero = (at_zero as f64 / SCALE).acos();
    let angle_tilted = (tilted as f64 / SCALE).acos();
    let angle_steeper = (steeper as f64 / SCALE).acos();
    assert!(angle_zero >= angle_tilted && angle_tilted >= angle_steeper);
    assert!(angle_steeper > 0.0);
}

#[test]
fn eclipse_time_is_exact_fixed_point_product() {
    assert_eq!(calculate_eclipse_time_millis(1000, 500_000_000), 500);
    assert_eq!(calculate_eclipse_time_millis(0, 4_000_000_000), 0);
    assert_eq!(calculate_eclipse_time_millis(5_801_000, 1_000_000_000), 5_801_000);
}

#[test]
fn full_scenario_600_km_orbit() {
    let right_ascension_sun = as_f64(&hms_to_degrees("23.0h11.0m31.47s".as_bytes()).unwrap());
    let declination_sun = as_f64(&dms_to_degrees("-05.0d12.0m00.8s".as_bytes()).unwrap());
    assert!((right_ascension_sun - 347.881_125).abs() < 1e-9);
    assert!((declination_sun + 5.200_222_2).abs() < 1e-6);

    let gamma = right_ascension_sun.to_radians();
    let epsilon = declination_sun.to_radians();
    let incl = 30.0_f64.to_radians();
    let raan = 0.0_f64.to_radians();
    let sin_beta = calculate_beta_sine(
        scaled(gamma.sin()), scaled(gamma.cos()),
        scaled(epsilon.sin()), scaled(epsilon.cos()),
        scaled(incl.sin()), scaled(incl.cos()),
        scaled(raan.sin()), scaled(raan.cos()),
    );
    // Sanity: |beta| is well below 90 degrees.
    assert!(sin_beta.abs() < 1_000_000_000);
    let beta_degrees = (sin_beta as f64 / SCALE).asin().to_degrees();
    assert!((beta_degrees - 6.95).abs() < 0.1);

    let geometry = calculate_eclipse_geometry(600_000, sin_beta);
    assert!((geometry.period_millis as f64 / 1000.0 - 5801.0).abs() < 5.0);

    let cos_angle = match geometry.fraction {
        EclipseFraction::Shadowed { cos_angle_scaled } => cos_angle_scaled,
        EclipseFraction::AlwaysSunlit => panic!("the scenario orbit crosses the shadow"),
    };
    let fraction_angle = (cos_angle as f64 / SCALE).acos();
    assert!(fraction_angle > 0.0);

    let eclipse_millis =
        calculate_eclipse_time_millis(geometry.period_millis, (fraction_angle * SCALE) as u64);
    assert!(eclipse_millis > 0);

    // The shadow model applies the chord angle in radians directly as the
    // period multiplier; the orbit-arc fraction of a chord of that half-angle
    // would be angle / pi, and that corrected eclipse time is positive and
    // below the period.
    let corrected_millis = geometry.period_millis as f64 * fraction_angle / std::f64::consts::PI;
    assert!(corrected_millis > 0.0);
    assert!(corrected_millis < geometry.period_millis as f64);
    assert!(
        (eclipse_millis as f64 - corrected_millis * std::f64::consts::PI).abs()
            < 0.01 * geometry.period_millis as f64
    );
}
