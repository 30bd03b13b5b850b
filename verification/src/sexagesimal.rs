//! Parsing of sexagesimal angle notation: "HhMmSs" for hours-minutes-seconds
//! and "DdMmSs" for degrees-minutes-seconds, each field a decimal number and
//! the whole value optionally signed, as in "-05d12m00.8s" or
//! "23.0h11.0m31.47s".
//!
//! The parser returns the angle in degrees as an exact rational number, so
//! that no precision is lost: hours-minutes-seconds is
//! 15 * (H + M/60 + S/3600) degrees and degrees-minutes-seconds is
//! D + M/60 + S/3600 degrees.  A string that does not match the pattern is
//! rejected, never read as zero.

use vstd::prelude::*;
use vstd::arithmetic::mul::lemma_mul_inequality;

verus! {

/// Most digits a field may have before the decimal point.
pub const MAX_INTEGER_DIGITS: usize = 6;

/// Most digits a field may have after the decimal point.
pub const MAX_FRACTION_DIGITS: usize = 8;

/// A malformed sexagesimal string: it does not match the
/// sign-number-unit-number-'m'-number-'s' pattern, or a field of it is
/// longer than the digit bounds admit.
#[derive(Clone, Copy, PartialEq, Eq, Structural, Debug)]
pub enum SexagesimalError {
    Malformed,
}

/// An angle in degrees as the exact rational
/// `(if negative { -1 } else { 1 }) * numerator / denominator`.
#[derive(Clone, Copy, PartialEq, Eq, Structural, Debug)]
pub struct SexagesimalDegrees {
    pub negative: bool,
    pub numerator: u128,
    pub denominator: u128,
}

/// Ten to the power `e`.
pub open spec fn pow10(e: nat) -> int
    decreases e,
{
    if e == 0 {
        1
    } else {
        10 * pow10((e - 1) as nat)
    }
}

pub proof fn lemma_pow10_monotone(e1: nat, e2: nat)
    requires
        e1 <= e2,
    ensures
        1 <= pow10(e1) <= pow10(e2),
    decreases e2,
{
    if e1 == e2 {
        if e2 > 0 {
            lemma_pow10_monotone((e1 - 1) as nat, (e2 - 1) as nat);
        }
    } else {
        lemma_pow10_monotone(e1, (e2 - 1) as nat);
    }
}

pub proof fn lemma_pow10_adds(e1: nat, e2: nat)
    ensures
        pow10(e1) * pow10(e2) == pow10((e1 + e2) as nat),
    decreases e1,
{
    if e1 == 0 {
        assert(pow10(0) * pow10(e2) == pow10(e2)) by (nonlinear_arith)
            requires pow10(0) == 1;
    } else {
        lemma_pow10_adds((e1 - 1) as nat, e2);
        assert(pow10(e1) * pow10(e2) == 10 * (pow10((e1 - 1) as nat) * pow10(e2)))
            by (nonlinear_arith)
            requires pow10(e1) == 10 * pow10((e1 - 1) as nat);
    }
}

/// `b` is an ASCII decimal digit.
pub open spec fn is_ascii_digit(b: u8) -> bool {
    48 <= b && b <= 57
}

/// Every byte of `s` is an ASCII decimal digit.
pub open spec fn all_digits(s: Seq<u8>) -> bool {
    forall|k: int| 0 <= k < s.len() ==> is_ascii_digit(#[trigger] s[k])
}

/// The number that a run of ASCII digits denotes.
pub open spec fn digits_value(s: Seq<u8>) -> int
    decreases s.len(),
{
    if s.len() == 0 {
        0
    } else {
        digits_value(s.drop_last()) * 10 + (s.last() - 48)
    }
}

pub proof fn lemma_digits_value_bound(s: Seq<u8>)
    requires
        all_digits(s),
    ensures
        0 <= digits_value(s) < pow10(s.len() as nat),
    decreases s.len(),
{
    if s.len() > 0 {
        assert(all_digits(s.drop_last()));
        lemma_digits_value_bound(s.drop_last());
    }
}

/// A field is all digits with a single decimal point at position `d`,
/// non-empty on both sides, within the digit bounds.
pub open spec fn decimal_split_at(s: Seq<u8>, d: int) -> bool {
    &&& 1 <= d <= MAX_INTEGER_DIGITS as int
    &&& d + 2 <= s.len()
    &&& s.len() - d - 1 <= MAX_FRACTION_DIGITS as int
    &&& s[d] == 46
    &&& all_digits(s.subrange(0, d))
    &&& all_digits(s.subrange(d + 1, s.len() as int))
}

/// A field is a plain run of digits within the digit bound.
pub open spec fn plain_digit_run(s: Seq<u8>) -> bool {
    1 <= s.len() <= MAX_INTEGER_DIGITS as int && all_digits(s)
}

/// A well-formed decimal number field.
pub open spec fn valid_number(s: Seq<u8>) -> bool {
    plain_digit_run(s) || (exists|d: int| decimal_split_at(s, d))
}

/// The position of the decimal point of a field that has one.
pub open spec fn number_dot(s: Seq<u8>) -> int {
    choose|d: int| decimal_split_at(s, d)
}

/// The digits of a field with the decimal point removed, as a number.
pub open spec fn number_mantissa(s: Seq<u8>) -> int {
    if plain_digit_run(s) {
        digits_value(s)
    } else {
        let d = number_dot(s);
        digits_value(s.subrange(0, d)) * pow10((s.len() - d - 1) as nat)
            + digits_value(s.subrange(d + 1, s.len() as int))
    }
}

/// How many digits of the field follow the decimal point.
pub open spec fn number_fraction_digits(s: Seq<u8>) -> nat {
    if plain_digit_run(s) {
        0
    } else {
        (s.len() - number_dot(s) - 1) as nat
    }
}

pub proof fn lemma_decimal_split_unique(s: Seq<u8>, d1: int, d2: int)
    requires
        decimal_split_at(s, d1),
        decimal_split_at(s, d2),
    ensures
        d1 == d2,
{
    if d1 < d2 {
        assert(s.subrange(d1 + 1, s.len() as int)[d2 - d1 - 1] == s[d2]);
    }
    if d2 < d1 {
        assert(s.subrange(d2 + 1, s.len() as int)[d1 - d2 - 1] == s[d1]);
    }
}

/// Every byte of a well-formed number field is a digit or the decimal point.
pub proof fn lemma_valid_number_chars(s: Seq<u8>)
    requires
        valid_number(s),
    ensures
        forall|k: int| 0 <= k < s.len() ==> (is_ascii_digit(#[trigger] s[k]) || s[k] == 46),
{
    if plain_digit_run(s) {
    } else {
        let d = choose|d: int| decimal_split_at(s, d);
        assert forall|k: int| 0 <= k < s.len() implies (is_ascii_digit(#[trigger] s[k]) || s[k] == 46) by {
            if k < d {
                assert(s.subrange(0, d)[k] == s[k]);
            } else if k > d {
                assert(s.subrange(d + 1, s.len() as int)[k - d - 1] == s[k]);
            }
        }
    }
}

/// A well-formed number field has at least one byte.
pub proof fn lemma_valid_number_nonempty(s: Seq<u8>)
    requires
        valid_number(s),
    ensures
        s.len() >= 1,
{
    if !plain_digit_run(s) {
        let d = choose|d: int| decimal_split_at(s, d);
    }
}

/// How many leading bytes are a sign: one if the string starts with '+' or
/// '-', else zero.
pub open spec fn sign_length(s: Seq<u8>) -> int {
    if s.len() > 0 && (s[0] == 43 || s[0] == 45) {
        1
    } else {
        0
    }
}

/// The whole string matches the sexagesimal pattern with the first unit
/// marker (the byte 'h' or 'd') at `i` and the minute marker 'm' at `j`:
/// an optional sign, then three well-formed number fields separated by the
/// markers, the last closed by a final 's'.
pub open spec fn sexagesimal_split_at(s: Seq<u8>, unit: u8, i: int, j: int) -> bool {
    &&& sign_length(s) <= i
    &&& i < j
    &&& j < s.len() - 1
    &&& s[i] == unit
    &&& s[j] == 109
    &&& s[s.len() - 1] == 115
    &&& valid_number(s.subrange(sign_length(s), i))
    &&& valid_number(s.subrange(i + 1, j))
    &&& valid_number(s.subrange(j + 1, s.len() - 1))
}

/// The string is a well-formed sexagesimal angle for the given unit marker.
pub open spec fn valid_sexagesimal(s: Seq<u8>, unit: u8) -> bool {
    exists|i: int, j: int| sexagesimal_split_at(s, unit, i, j)
}

pub proof fn lemma_sexagesimal_split_unique(s: Seq<u8>, unit: u8, i1: int, j1: int, i2: int, j2: int)
    requires
        unit == 104 || unit == 100,
        sexagesimal_split_at(s, unit, i1, j1),
        sexagesimal_split_at(s, unit, i2, j2),
    ensures
        i1 == i2,
        j1 == j2,
{
    let b = sign_length(s);
    if i1 < i2 {
        lemma_valid_number_chars(s.subrange(b, i2));
        assert(s.subrange(b, i2)[i1 - b] == s[i1]);
    }
    if i2 < i1 {
        lemma_valid_number_chars(s.subrange(b, i1));
        assert(s.subrange(b, i1)[i2 - b] == s[i2]);
    }
    if j1 < j2 {
        lemma_valid_number_chars(s.subrange(i2 + 1, j2));
        assert(s.subrange(i2 + 1, j2)[j1 - i2 - 1] == s[j1]);
    }
    if j2 < j1 {
        lemma_valid_number_chars(s.subrange(i1 + 1, j1));
        assert(s.subrange(i1 + 1, j1)[j2 - i1 - 1] == s[j2]);
    }
}

/// 15 for hours-minutes-seconds, 1 for degrees-minutes-seconds.
pub open spec fn unit_factor(unit: u8) -> int {
    if unit == 104 {
        15
    } else {
        1
    }
}

/// The string starts with an explicit minus sign.
pub open spec fn sexagesimal_negative(s: Seq<u8>) -> bool {
    s.len() > 0 && s[0] == 45
}

/// The numerator of the parsed angle in degrees: with W, M, S the three
/// field mantissas and w, m, s their fraction-digit counts, this is
/// unit_factor * (W * 3600 * 10^(m+s) + M * 60 * 10^(w+s) + S * 10^(w+m)),
/// the exact value of the angle times the denominator.
pub open spec fn sexagesimal_numerator(s: Seq<u8>, unit: u8) -> int {
    let b = sign_length(s);
    let (i, j): (int, int) = choose|i: int, j: int| sexagesimal_split_at(s, unit, i, j);
    let whole = s.subrange(b, i);
    let minutes = s.subrange(i + 1, j);
    let seconds = s.subrange(j + 1, s.len() - 1);
    unit_factor(unit) * (
        number_mantissa(whole) * 3600
            * pow10(number_fraction_digits(minutes) + number_fraction_digits(seconds))
        + number_mantissa(minutes) * 60
            * pow10(number_fraction_digits(whole) + number_fraction_digits(seconds))
        + number_mantissa(seconds)
            * pow10(number_fraction_digits(whole) + number_fraction_digits(minutes)))
}

/// The denominator of the parsed angle in degrees:
/// 3600 * 10^(w+m+s) for fraction-digit counts w, m, s.
pub open spec fn sexagesimal_denominator(s: Seq<u8>, unit: u8) -> int {
    let b = sign_length(s);
    let (i, j): (int, int) = choose|i: int, j: int| sexagesimal_split_at(s, unit, i, j);
    let whole = s.subrange(b, i);
    let minutes = s.subrange(i + 1, j);
    let seconds = s.subrange(j + 1, s.len() - 1);
    3600 * pow10(number_fraction_digits(whole) + number_fraction_digits(minutes)
        + number_fraction_digits(seconds))
}

/// The first occurrence of `target` in `s[from..to]`, if any.
fn find_in(s: &[u8], from: usize, to: usize, target: u8) -> (r: Option<usize>)
    requires
        from <= to <= s@.len(),
    ensures
        match r {
            Option::Some(i) => from <= i < to && s@[i as int] == target
                && (forall|k: int| from <= k < i ==> s@[k] != target),
            Option::None => forall|k: int| from <= k < to ==> s@[k] != target,
        },
{
    let mut i: usize = from;
    while i < to
        invariant
            from <= i <= to <= s@.len(),
            forall|k: int| from <= k < i ==> s@[k] != target,
        decreases to - i,
    {
        if s[i] == target {
            return Some(i);
        }
        i = i + 1;
    }
    None
}

/// Whether `s[from..to]` is all ASCII digits.
fn check_digits(s: &[u8], from: usize, to: usize) -> (r: bool)
    requires
        from <= to <= s@.len(),
    ensures
        r == all_digits(s@.subrange(from as int, to as int)),
{
    let mut i: usize = from;
    while i < to
        invariant
            from <= i <= to <= s@.len(),
            forall|k: int| from <= k < i ==> is_ascii_digit(#[trigger] s@[k]),
        decreases to - i,
    {
        if s[i] < 48 || s[i] > 57 {
            proof {
                assert(s@.subrange(from as int, to as int)[i - from] == s@[i as int]);
            }
            return false;
        }
        i = i + 1;
    }
    proof {
        assert forall|k: int| 0 <= k < to - from
            implies is_ascii_digit(#[trigger] s@.subrange(from as int, to as int)[k]) by {
            assert(s@.subrange(from as int, to as int)[k] == s@[from + k]);
        }
    }
    true
}

/// The number denoted by the digit run `s[from..to]`.
fn digits_to_value(s: &[u8], from: usize, to: usize) -> (r: u64)
    requires
        from <= to <= s@.len(),
        to - from <= 14,
        all_digits(s@.subrange(from as int, to as int)),
    ensures
        r == digits_value(s@.subrange(from as int, to as int)),
        r < pow10((to - from) as nat),
{
    proof {
        lemma_digits_value_bound(s@.subrange(from as int, to as int));
    }
    let mut i: usize = from;
    let mut acc: u64 = 0;
    while i < to
        invariant
            from <= i <= to <= s@.len(),
            to - from <= 14,
            all_digits(s@.subrange(from as int, to as int)),
            acc == digits_value(s@.subrange(from as int, i as int)),
            acc < pow10((i - from) as nat),
        decreases to - i,
    {
        proof {
            lemma_pow10_monotone((i - from) as nat, 13);
            reveal_with_fuel(pow10, 15);
            assert(s@.subrange(from as int, to as int)[i - from] == s@[i as int]);
            assert(s@.subrange(from as int, (i + 1) as int).drop_last()
                =~= s@.subrange(from as int, i as int));
            assert(s@.subrange(from as int, (i + 1) as int).last() == s@[i as int]);
        }
        acc = acc * 10 + ((s[i] - 48) as u64);
        i = i + 1;
    }
    acc
}

/// Ten to the power `e`, for small `e`.
fn pow10_u128(e: usize) -> (r: u128)
    requires
        e <= 24,
    ensures
        r == pow10(e as nat),
{
    let mut i: usize = 0;
    let mut r: u128 = 1;
    while i < e
        invariant
            i <= e <= 24,
            r == pow10(i as nat),
        decreases e - i,
    {
        proof {
            lemma_pow10_monotone(i as nat, 23);
            reveal_with_fuel(pow10, 25);
        }
        r = r * 10;
        i = i + 1;
    }
    r
}

/// Parse the number field `s[from..to]`: its mantissa — the digits with the
/// decimal point removed — and its count of fraction digits.
fn parse_number(s: &[u8], from: usize, to: usize) -> (r: Option<(u64, usize)>)
    requires
        from <= to <= s@.len(),
    ensures
        match r {
            Option::Some(p) => {
                &&& valid_number(s@.subrange(from as int, to as int))
                &&& p.0 == number_mantissa(s@.subrange(from as int, to as int))
                &&& p.1 == number_fraction_digits(s@.subrange(from as int, to as int))
                &&& p.1 <= MAX_FRACTION_DIGITS
                &&& p.0 < pow10(14)
            },
            Option::None => !valid_number(s@.subrange(from as int, to as int)),
        },
{
    let ghost field = s@.subrange(from as int, to as int);
    match find_in(s, from, to, 46) {
        None => {
            proof {
                assert forall|d: int| !decimal_split_at(field, d) by {
                    if 0 <= d < field.len() {
                        assert(field[d] == s@[from + d]);
                    }
                }
            }
            if to - from < 1 || to - from > MAX_INTEGER_DIGITS {
                return None;
            }
            if !check_digits(s, from, to) {
                return None;
            }
            let value: u64 = digits_to_value(s, from, to);
            proof {
                assert(plain_digit_run(field));
                lemma_pow10_monotone((to - from) as nat, 14);
            }
            Some((value, 0))
        },
        Some(dot) => {
            proof {
                assert(field[dot - from] == s@[dot as int]);
                assert(!plain_digit_run(field));
                assert forall|d: int| decimal_split_at(field, d) implies d == dot - from by {
                    if d < dot - from {
                        assert(field[d] == s@[from + d]);
                    }
                    if d > dot - from {
                        assert(field.subrange(0, d)[dot - from] == field[dot - from]);
                    }
                }
            }
            let int_len: usize = dot - from;
            let frac_len: usize = to - dot - 1;
            if int_len < 1 || int_len > MAX_INTEGER_DIGITS
                || frac_len < 1 || frac_len > MAX_FRACTION_DIGITS {
                return None;
            }
            if !check_digits(s, from, dot) {
                proof {
                    assert(s@.subrange(from as int, dot as int)
                        =~= field.subrange(0, dot - from));
                }
                return None;
            }
            if !check_digits(s, dot + 1, to) {
                proof {
                    assert(s@.subrange(dot + 1, to as int)
                        =~= field.subrange(dot - from + 1, field.len() as int));
                }
                return None;
            }
            proof {
                assert(s@.subrange(from as int, dot as int)
                    =~= field.subrange(0, dot - from));
                assert(s@.subrange(dot + 1, to as int)
                    =~= field.subrange(dot - from + 1, field.len() as int));
                assert(decimal_split_at(field, dot - from));
                lemma_decimal_split_unique(field, number_dot(field), dot - from);
            }
            let int_value: u64 = digits_to_value(s, from, dot);
            let frac_value: u64 = digits_to_value(s, dot + 1, to);
            let scale: u128 = pow10_u128(frac_len);
            proof {
                lemma_pow10_monotone(int_len as nat, 6);
                lemma_pow10_monotone(frac_len as nat, 8);
                reveal_with_fuel(pow10, 15);
                assert((int_value as int) * (scale as int) <= 999_999 * 100_000_000)
                    by (nonlinear_arith)
                    requires 0 <= int_value <= 999_999, 0 <= scale <= 100_000_000;
            }
            let mantissa: u64 = int_value * (scale as u64) + frac_value;
            proof {
                lemma_mul_inequality(int_value as int, pow10(int_len as nat) - 1, scale as int);
                lemma_pow10_adds(int_len as nat, frac_len as nat);
                lemma_pow10_monotone((int_len + frac_len) as nat, 14);
                assert((pow10(int_len as nat) - 1) * pow10(frac_len as nat)
                    == pow10(int_len as nat) * pow10(frac_len as nat) - pow10(frac_len as nat))
                    by (nonlinear_arith);
            }
            Some((mantissa, frac_len))
        },
    }
}

/// Parse a sexagesimal angle with the given unit marker into exact degrees.
#[verifier::rlimit(100)]
fn parse_sexagesimal(s: &[u8], unit: u8) -> (r: Result<SexagesimalDegrees, SexagesimalError>)
    requires
        unit == 104 || unit == 100,
    ensures
        r is Ok <==> valid_sexagesimal(s@, unit),
        r matches Ok(v) ==> {
            &&& v.negative == sexagesimal_negative(s@)
            &&& v.numerator == sexagesimal_numerator(s@, unit)
            &&& v.denominator == sexagesimal_denominator(s@, unit)
        },
{
    let n: usize = s.len();
    let sign: usize = if n > 0 && (s[0] == 43 || s[0] == 45) { 1 } else { 0 };
    proof {
        assert(sign == sign_length(s@));
    }
    let i: usize = match find_in(s, sign, n, unit) {
        Some(i) => i,
        None => {
            proof {
                if valid_sexagesimal(s@, unit) {
                    let (i2, j2): (int, int) =
                        choose|i2: int, j2: int| sexagesimal_split_at(s@, unit, i2, j2);
                    assert(s@[i2] == unit);
                    assert(false);
                }
            }
            return Err(SexagesimalError::Malformed);
        },
    };
    let j: usize = match find_in(s, i + 1, n, 109) {
        Some(j) => j,
        None => {
            proof {
                if valid_sexagesimal(s@, unit) {
                    let (i2, j2): (int, int) =
                        choose|i2: int, j2: int| sexagesimal_split_at(s@, unit, i2, j2);
                    if i2 > i {
                        lemma_valid_number_chars(s@.subrange(sign as int, i2));
                        assert(s@.subrange(sign as int, i2)[i - sign] == s@[i as int]);
                    }
                    assert(i2 == i);
                    assert(s@[j2] == 109);
                    assert(false);
                }
            }
            return Err(SexagesimalError::Malformed);
        },
    };
    proof {
        if valid_sexagesimal(s@, unit) {
            let (i2, j2): (int, int) =
                choose|i2: int, j2: int| sexagesimal_split_at(s@, unit, i2, j2);
            if i2 > i {
                lemma_valid_number_chars(s@.subrange(sign as int, i2));
                assert(s@.subrange(sign as int, i2)[i - sign] == s@[i as int]);
            }
            assert(i2 == i);
            if j2 > j {
                lemma_valid_number_chars(s@.subrange(i + 1, j2));
                assert(s@.subrange(i + 1, j2)[j - i - 1] == s@[j as int]);
            }
            assert(j2 == j);
        }
    }
    if n - j < 3 {
        proof {
            if valid_sexagesimal(s@, unit) {
                let (i2, j2): (int, int) =
                    choose|i2: int, j2: int| sexagesimal_split_at(s@, unit, i2, j2);
                lemma_valid_number_nonempty(s@.subrange(j2 + 1, s@.len() - 1));
                assert(false);
            }
        }
        return Err(SexagesimalError::Malformed);
    }
    if s[n - 1] != 115 {
        proof {
            if valid_sexagesimal(s@, unit) {
                let (i2, j2): (int, int) =
                    choose|i2: int, j2: int| sexagesimal_split_at(s@, unit, i2, j2);
                assert(s@[s@.len() - 1] == 115);
                assert(false);
            }
        }
        return Err(SexagesimalError::Malformed);
    }
    let whole = match parse_number(s, sign, i) {
        Some(p) => p,
        None => {
            proof {
                if valid_sexagesimal(s@, unit) {
                    let (i2, j2): (int, int) =
                        choose|i2: int, j2: int| sexagesimal_split_at(s@, unit, i2, j2);
                    assert(valid_number(s@.subrange(sign as int, i as int)));
                    assert(false);
                }
            }
            return Err(SexagesimalError::Malformed);
        },
    };
    let minutes = match parse_number(s, i + 1, j) {
        Some(p) => p,
        None => {
            proof {
                if valid_sexagesimal(s@, unit) {
                    let (i2, j2): (int, int) =
                        choose|i2: int, j2: int| sexagesimal_split_at(s@, unit, i2, j2);
                    assert(valid_number(s@.subrange(i + 1, j as int)));
                    assert(false);
                }
            }
            return Err(SexagesimalError::Malformed);
        },
    };
    let seconds = match parse_number(s, j + 1, n - 1) {
        Some(p) => p,
        None => {
            proof {
                if valid_sexagesimal(s@, unit) {
                    let (i2, j2): (int, int) =
                        choose|i2: int, j2: int| sexagesimal_split_at(s@, unit, i2, j2);
                    assert(valid_number(s@.subrange(j + 1, s@.len() - 1)));
                    assert(false);
                }
            }
            return Err(SexagesimalError::Malformed);
        },
    };
    proof {
        assert(sexagesimal_split_at(s@, unit, i as int, j as int));
        let (i2, j2): (int, int) =
            choose|i2: int, j2: int| sexagesimal_split_at(s@, unit, i2, j2);
        lemma_sexagesimal_split_unique(s@, unit, i2, j2, i as int, j as int);
    }
    let factor: u128 = if unit == 104 { 15 } else { 1 };
    let scale_ms: u128 = pow10_u128(minutes.1 + seconds.1);
    let scale_ws: u128 = pow10_u128(whole.1 + seconds.1);
    let scale_wm: u128 = pow10_u128(whole.1 + minutes.1);
    let scale_all: u128 = pow10_u128(whole.1 + minutes.1 + seconds.1);
    proof {
        lemma_pow10_monotone((minutes.1 + seconds.1) as nat, 16);
        lemma_pow10_monotone((whole.1 + seconds.1) as nat, 16);
        lemma_pow10_monotone((whole.1 + minutes.1) as nat, 16);
        lemma_pow10_monotone((whole.1 + minutes.1 + seconds.1) as nat, 24);
        reveal_with_fuel(pow10, 26);
        assert((whole.0 as int) * 3600 * (scale_ms as int)
            <= 100_000_000_000_000 * 3600 * 10_000_000_000_000_000) by (nonlinear_arith)
            requires
                0 <= whole.0 <= 100_000_000_000_000,
                0 <= scale_ms <= 10_000_000_000_000_000;
        assert((minutes.0 as int) * 60 * (scale_ws as int)
            <= 100_000_000_000_000 * 60 * 10_000_000_000_000_000) by (nonlinear_arith)
            requires
                0 <= minutes.0 <= 100_000_000_000_000,
                0 <= scale_ws <= 10_000_000_000_000_000;
        assert((seconds.0 as int) * (scale_wm as int)
            <= 100_000_000_000_000 * 10_000_000_000_000_000) by (nonlinear_arith)
            requires
                0 <= seconds.0 <= 100_000_000_000_000,
                0 <= scale_wm <= 10_000_000_000_000_000;
    }
    let term_whole: u128 = (whole.0 as u128) * 3600 * scale_ms;
    let term_minutes: u128 = (minutes.0 as u128) * 60 * scale_ws;
    let term_seconds: u128 = (seconds.0 as u128) * scale_wm;
    let sum: u128 = term_whole + term_minutes + term_seconds;
    proof {
        assert(15 * (sum as int) <= 15 * 3_700_000_000_000_000_000_000_000_000_000_000)
            by (nonlinear_arith)
            requires 0 <= sum <= 3_700_000_000_000_000_000_000_000_000_000_000;
    }
    let numerator: u128 = factor * sum;
    let denominator: u128 = 3600 * scale_all;
    Ok(SexagesimalDegrees {
        negative: n > 0 && s[0] == 45,
        numerator,
        denominator,
    })
}

/// Parse an "HhMmSs" hours-minutes-seconds string, as in "23.0h11.0m31.47s",
/// into exact degrees: 15 * (H + M/60 + S/3600).
pub fn hms_to_degrees(s: &[u8]) -> (r: Result<SexagesimalDegrees, SexagesimalError>)
    ensures
        r is Ok <==> valid_sexagesimal(s@, 104),
        r matches Ok(v) ==> {
            &&& v.negative == sexagesimal_negative(s@)
            &&& v.numerator == sexagesimal_numerator(s@, 104)
            &&& v.denominator == sexagesimal_denominator(s@, 104)
        },
{
    parse_sexagesimal(s, 104)
}

/// Parse a "DdMmSs" degrees-minutes-seconds string, as in "-05d12m00.8s",
/// into exact degrees: D + M/60 + S/3600, negated under a leading minus.
pub fn dms_to_degrees(s: &[u8]) -> (r: Result<SexagesimalDegrees, SexagesimalError>)
    ensures
        r is Ok <==> valid_sexagesimal(s@, 100),
        r matches Ok(v) ==> {
            &&& v.negative == sexagesimal_negative(s@)
            &&& v.numerator == sexagesimal_numerator(s@, 100)
            &&& v.denominator == sexagesimal_denominator(s@, 100)
        },
{
    parse_sexagesimal(s, 100)
}

} // verus!
