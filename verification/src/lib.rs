//! Eclipse-fraction estimation for a satellite on a circular low-Earth orbit.
//!
//! The core formulas — the beta-angle of the orbital plane against the Sun,
//! the limiting beta-angle-star of the shadow cone, the eclipse fraction of
//! the orbit, and the orbital period by Kepler's third law — are carried out
//! in exact fixed-point integer arithmetic.  Angles enter and leave the
//! library through their sines and cosines, scaled by `SINE_SCALE`: every
//! comparison the shadow model makes (is the plane tilted past the shadow
//! cone?  what is the cosine of the eclipse chord angle?) is an algebraic
//! function of those sines, so no trigonometric evaluation happens here.
//! Evaluating a sine or an arccosine itself is floating-point work that a
//! caller performs outside the library.

use vstd::prelude::*;

pub mod arith;
pub mod eclipse;
pub mod orbit;
pub mod sexagesimal;
pub mod shadow;

verus! {

/// Mean equatorial Earth radius in metres.
pub const EARTH_RADIUS_M: u64 = 6_378_145;

/// Gravitational parameter of Earth (GM) in cubic metres per second squared.
pub const EARTH_GRAVITATION_PARAM_M3_S2: u64 = 398_601_200_000_000;

/// Fixed-point scale for sines and cosines: a sine s is carried as the
/// integer closest to s * SINE_SCALE.
pub const SINE_SCALE: i64 = 1_000_000_000;

/// Fixed-point scale for plane angles: an angle is carried in nanoradians.
pub const RADIAN_SCALE: u64 = 1_000_000_000;

/// Largest semi-major axis the period calculator accepts, in metres; the
/// bound keeps every intermediate product of Kepler's formula inside `u128`.
pub const MAX_SEMI_MAJOR_AXIS_M: u64 = 100_000_000;

/// Largest altitude the shadow model accepts, in metres: exactly
/// `MAX_SEMI_MAJOR_AXIS_M - EARTH_RADIUS_M`.
pub const MAX_ALTITUDE_M: u64 = 93_621_855;

} // verus!
