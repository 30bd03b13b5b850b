//! The library's sexagesimal parser against the radio-astronomy parser it
//! mirrors: on well-formed strings the two agree to floating-point
//! precision, and both reject a malformed string.

use leo_eclipse::sexagesimal::{dms_to_degrees, hms_to_degrees, SexagesimalDegrees};
use marlu::sexagesimal::{sexagesimal_dms_string_to_degrees, sexagesimal_hms_string_to_degrees};

fn as_f64(v: &SexagesimalDegrees) -> f64 {
    let magnitude = v.numerator as f64 / v.denominator as f64;
    if v.negative {
        -magnitude
    } else {
        magnitude
    }
}

#[test]
fn hms_agrees_with_reference_parser() {
    for s in ["23.0h11.0m31.47s", "00h00m00s", "-11h49m01.062s", "+02h30m00s"] {
        let ours = as_f64(&hms_to_degrees(s.as_bytes()).unwrap());
        let reference = sexagesimal_hms_string_to_degrees(s).unwrap();
        assert!((ours - reference).abs() < 1e-9, "mismatch on {s}");
    }
}

#[test]
fn dms_agrees_with_reference_parser() {
    for s in ["-05.0d12.0m00.8s", "00d00m00s", "-11d49m01.062s", "89d59m59.9s"] {
        let ours = as_f64(&dms_to_degrees(s.as_bytes()).unwrap());
        let reference = sexagesimal_dms_string_to_degrees(s).unwrap();
        assert!((ours - reference).abs() < 1e-9, "mismatch on {s}");
    }
}

#[test]
fn both_reject_a_missing_marker() {
    assert!(hms_to_degrees("2311m31.47s".as_bytes()).is_err());
    assert!(sexagesimal_hms_string_to_degrees("2311m31.47s").is_err());
}
