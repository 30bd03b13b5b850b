use leo_eclipse::sexagesimal::{dms_to_degrees, hms_to_degrees, SexagesimalDegrees};

fn as_f64(v: &SexagesimalDegrees) -> f64 {
    let magnitude = v.numerator as f64 / v.denominator as f64;
    if v.negative {
        -magnitude
    } else {
        magnitude
    }
}

#[test]
fn zero_hms_parses_to_zero() {
    let v = hms_to_degrees("00h00m00s".as_bytes()).unwrap();
    assert!(!v.negative);
    assert_eq!(v.numerator, 0);
    assert_eq!(v.denominator, 3600);
    assert_eq!(as_f64(&v), 0.0);
}

#[test]
fn negative_dms_has_correct_magnitude() {
    let v = dms_to_degrees("-05d12m00.8s".as_bytes()).unwrap();
    assert!(v.negative);
    // 5 d 12 m 0.8 s over the common denominator 3600 * 10.
    assert_eq!(v.numerator, 5 * 3600 * 10 + 12 * 60 * 10 + 8);
    assert_eq!(v.denominator, 36_000);
    let degrees = as_f64(&v);
    assert!(degrees < 0.0);
    assert!((degrees + 5.200_222_222_222_222).abs() < 1e-12);
}

#[test]
fn decimal_hms_parses_exactly() {
    let v = hms_to_degrees("23.0h11.0m31.47s".as_bytes()).unwrap();
    assert!(!v.negative);
    // 15 * (23.0 * 3600 * 10^3 + 11.0 * 60 * 10^3 + 31.47 * 10^2) over 3600 * 10^4,
    // with each field's digits taken as a mantissa over its fraction digits.
    assert_eq!(v.numerator, 15 * (230 * 3600 * 1000 + 110 * 60 * 1000 + 3147 * 100));
    assert_eq!(v.denominator, 36_000_000);
    let degrees = as_f64(&v);
    assert!((degrees - 347.881_125).abs() < 1e-9);
}

#[test]
fn explicit_plus_sign_is_accepted() {
    let v = hms_to_degrees("+10h30m00s".as_bytes()).unwrap();
    assert!(!v.negative);
    assert_eq!(v.numerator, 15 * (10 * 3600 + 30 * 60));
    assert_eq!(v.denominator, 3600);
    assert_eq!(as_f64(&v), 157.5);
}

#[test]
fn missing_unit_suffix_is_rejected() {
    assert!(hms_to_degrees("23h11m31.47".as_bytes()).is_err());
}

#[test]
fn missing_minute_marker_is_rejected() {
    assert!(hms_to_degrees("23h1131.47s".as_bytes()).is_err());
}

#[test]
fn empty_string_is_rejected() {
    assert!(hms_to_degrees("".as_bytes()).is_err());
    assert!(dms_to_degrees("".as_bytes()).is_err());
}

#[test]
fn garbage_is_rejected() {
    assert!(hms_to_degrees("abc".as_bytes()).is_err());
    assert!(dms_to_degrees("12x34m56s".as_bytes()).is_err());
}

#[test]
fn double_decimal_point_is_rejected() {
    assert!(hms_to_degrees("1.2.3h4m5s".as_bytes()).is_err());
}

#[test]
fn empty_field_is_rejected() {
    assert!(hms_to_degrees("h4m5s".as_bytes()).is_err());
    assert!(hms_to_degrees("1hm5s".as_bytes()).is_err());
    assert!(hms_to_degrees("1h4ms".as_bytes()).is_err());
}

#[test]
fn overlong_field_is_rejected() {
    assert!(hms_to_degrees("1234567h0m0s".as_bytes()).is_err());
    assert!(hms_to_degrees("1h0m0.123456789s".as_bytes()).is_err());
}

#[test]
fn hms_and_dms_differ_by_factor_fifteen() {
    let h = hms_to_degrees("02h30m00s".as_bytes()).unwrap();
    let d = dms_to_degrees("02d30m00s".as_bytes()).unwrap();
    assert_eq!(h.numerator, 15 * d.numerator);
    assert_eq!(h.denominator, d.denominator);
}
