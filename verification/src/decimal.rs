//! The decimal arithmetic of `rust_decimal`, reached through plain values.
//!
//! A decimal number is handed over as its two parts: a signed mantissa of at
//! most 96 bits and a scale, the number of fractional digits, so that the
//! number is `mantissa / 10^scale`. The functions below rebuild the
//! `Decimal` from its parts, make one call and take the result apart again.
//! Their contracts are not proved: they say what the crate's source shows.

use rust_decimal::Decimal;
use std::str::FromStr;
use vstd::prelude::*;

verus! {

/// The largest magnitude of a decimal mantissa, `2^96 - 1`.
pub const MAX_MANTISSA: i128 = 79_228_162_514_264_337_593_543_950_335;

/// The largest scale of a decimal.
pub const MAX_SCALE: u32 = 28;

/// Whether `(mantissa, scale)` are the parts of a decimal.
pub open spec fn valid_parts(mantissa: int, scale: int) -> bool {
    &&& -MAX_MANTISSA <= mantissa <= MAX_MANTISSA
    &&& 0 <= scale <= MAX_SCALE
}

/// `10^n`.
pub open spec fn pow10(n: nat) -> int
    decreases n,
{
    if n == 0 {
        1
    } else {
        10 * pow10((n - 1) as nat)
    }
}

/// `mantissa / 10^drop` rounded to the nearest integer, a tie going to the
/// even neighbour; the sign is kept.
pub open spec fn round_half_even(mantissa: int, drop: nat) -> int {
    let unit = pow10(drop);
    let magnitude = if mantissa < 0 {
        -mantissa
    } else {
        mantissa
    };
    let quotient = magnitude / unit;
    let rest = magnitude % unit;
    let rounded = if 2 * rest > unit || (2 * rest == unit && quotient % 2 == 1) {
        quotient + 1
    } else {
        quotient
    };
    if mantissa < 0 {
        -rounded
    } else {
        rounded
    }
}

/// The parts of a decimal after rounding to at most `dp` fractional digits.
pub open spec fn rounded_parts(mantissa: int, scale: nat, dp: nat) -> (int, nat) {
    if scale <= dp {
        (mantissa, scale)
    } else {
        (round_half_even(mantissa, (scale - dp) as nat), dp)
    }
}

/// The parts of a decimal after its trailing fractional zeros are removed.
pub open spec fn stripped_parts(mantissa: int, scale: nat) -> (int, nat)
    decreases scale,
{
    if scale > 0 && mantissa % 10 == 0 {
        stripped_parts(mantissa / 10, (scale - 1) as nat)
    } else {
        (mantissa, scale)
    }
}

/// The parts of the decimal that `Decimal::from_str` reads from `text`, or
/// `None` where it reports an error.
pub uninterp spec fn decimal_from_str(text: Seq<char>) -> Option<(i128, u32)>;

/// The text that `Decimal`'s `Display` gives for the decimal with these parts.
pub uninterp spec fn decimal_text(mantissa: i128, scale: u32) -> Seq<char>;

/// `Decimal::from_str`: the parts of the decimal read from `text`. The
/// grammar is the crate's; the contract only names the result and adds that
/// every decimal has a mantissa of at most 96 bits and a scale of at most 28.
#[verifier::external_body]
pub(crate) fn parse_decimal(text: &str) -> (r: Option<(i128, u32)>)
    ensures
        r == decimal_from_str(text@),
        r matches Some((m, s)) ==> valid_parts(m as int, s as int),
{
    match Decimal::from_str(text) {
        Ok(d) => Some((d.mantissa(), d.scale())),
        Err(_) => None,
    }
}

/// `Decimal::round_dp`: a decimal with at most `dp` fractional digits is
/// returned as it is; any other is rounded half-to-even to exactly `dp`
/// digits.
#[verifier::external_body]
pub(crate) fn round_decimal(mantissa: i128, scale: u32, dp: u32) -> (r: (i128, u32))
    requires
        valid_parts(mantissa as int, scale as int),
    ensures
        (r.0 as int, r.1 as nat) == rounded_parts(mantissa as int, scale as nat, dp as nat),
{
    let d = Decimal::from_i128_with_scale(mantissa, scale).round_dp(dp);
    (d.mantissa(), d.scale())
}

/// `Decimal::checked_add` on two decimals of one scale. Where the sum of the
/// mantissas fits in 96 bits it is the result, at that scale. Where it does
/// not, the crate either reports overflow or gives up a fractional digit:
/// the result then never has the operands' scale.
#[verifier::external_body]
pub(crate) fn add_decimals(a: i128, b: i128, scale: u32) -> (r: Option<(i128, u32)>)
    requires
        valid_parts(a as int, scale as int),
        valid_parts(b as int, scale as int),
    ensures
        valid_parts(a + b, scale as int) ==> r == Some(((a + b) as i128, scale)),
        !valid_parts(a + b, scale as int) ==> (r matches Some((m, s)) ==> s != scale),
{
    let x = Decimal::from_i128_with_scale(a, scale);
    let y = Decimal::from_i128_with_scale(b, scale);
    match x.checked_add(y) {
        Some(d) => Some((d.mantissa(), d.scale())),
        None => None,
    }
}

/// `Decimal::checked_sub` on two decimals of one scale: as `add_decimals`,
/// with the difference of the mantissas.
#[verifier::external_body]
pub(crate) fn sub_decimals(a: i128, b: i128, scale: u32) -> (r: Option<(i128, u32)>)
    requires
        valid_parts(a as int, scale as int),
        valid_parts(b as int, scale as int),
    ensures
        valid_parts(a - b, scale as int) ==> r == Some(((a - b) as i128, scale)),
        !valid_parts(a - b, scale as int) ==> (r matches Some((m, s)) ==> s != scale),
{
    let x = Decimal::from_i128_with_scale(a, scale);
    let y = Decimal::from_i128_with_scale(b, scale);
    match x.checked_sub(y) {
        Some(d) => Some((d.mantissa(), d.scale())),
        None => None,
    }
}

/// `Decimal`'s `<` on two decimals of one scale: the order of the mantissas.
#[verifier::external_body]
pub(crate) fn decimal_less(a: i128, b: i128, scale: u32) -> (r: bool)
    requires
        valid_parts(a as int, scale as int),
        valid_parts(b as int, scale as int),
    ensures
        r == (a < b),
{
    Decimal::from_i128_with_scale(a, scale) < Decimal::from_i128_with_scale(b, scale)
}

/// `Decimal::normalize`: the same number without trailing fractional zeros.
#[verifier::external_body]
pub(crate) fn normalize_decimal(mantissa: i128, scale: u32) -> (r: (i128, u32))
    requires
        valid_parts(mantissa as int, scale as int),
    ensures
        (r.0 as int, r.1 as nat) == stripped_parts(mantissa as int, scale as nat),
{
    let d = Decimal::from_i128_with_scale(mantissa, scale).normalize();
    (d.mantissa(), d.scale())
}

/// `Decimal`'s `to_string`: the text of the decimal with these parts.
#[verifier::external_body]
pub(crate) fn decimal_to_string(mantissa: i128, scale: u32) -> (r: String)
    requires
        valid_parts(mantissa as int, scale as int),
    ensures
        r@ == decimal_text(mantissa, scale),
{
    Decimal::from_i128_with_scale(mantissa, scale).to_string()
}

} // verus!
