//! Amounts of money: exact decimals with four fractional digits.

use crate::decimal::{
    add_decimals, decimal_from_str, decimal_less, decimal_text, decimal_to_string,
    normalize_decimal, parse_decimal, pow10, round_decimal, rounded_parts, stripped_parts,
    sub_decimals, valid_parts, MAX_MANTISSA, MAX_SCALE,
};
use vstd::prelude::*;

verus! {

/// The number of fractional digits that every amount carries.
pub const AMOUNT_SCALE: u32 = 4;

/// Whether `units` ten-thousandths can be held by an [`Amount`].
pub open spec fn in_range(units: int) -> bool {
    -MAX_MANTISSA <= units <= MAX_MANTISSA
}

/// The ten-thousandths that the decimal `mantissa / 10^scale` comes to once
/// it is rounded half-to-even to four fractional digits; `None` where the
/// parts are those of no decimal or the result is out of range.
pub open spec fn units_of_parts(mantissa: int, scale: int) -> Option<int> {
    if !valid_parts(mantissa, scale) {
        None
    } else {
        let rounded = rounded_parts(mantissa, scale as nat, AMOUNT_SCALE as nat);
        let units = rounded.0 * pow10((AMOUNT_SCALE - rounded.1) as nat);
        if in_range(units) {
            Some(units)
        } else {
            None
        }
    }
}

/// The ten-thousandths that a decimal text stands for, `None` where the text
/// is no decimal or its value is out of range.
pub open spec fn units_of_text(text: Seq<char>) -> Option<int> {
    match decimal_from_str(text) {
        Some((mantissa, scale)) => units_of_parts(mantissa as int, scale as int),
        None => None,
    }
}

/// The text of an amount of `units` ten-thousandths: at most four fractional
/// digits, none of them a trailing zero.
pub open spec fn text_of_units(units: int) -> Seq<char> {
    let parts = stripped_parts(units, AMOUNT_SCALE as nat);
    decimal_text(parts.0 as i128, parts.1 as u32)
}

/// The view of an optional amount.
pub open spec fn units_of(amount: Option<Amount>) -> Option<int> {
    match amount {
        Some(a) => Some(a@),
        None => None,
    }
}

/// An amount of money, held as a whole number of ten-thousandths.
///
/// The view of an amount is that number. Every amount is in range: its
/// magnitude fits the 96 bits of a decimal mantissa.
#[derive(Clone, Copy, Debug, PartialEq, Eq, Structural)]
pub struct Amount {
    units: i128,
}

impl View for Amount {
    type V = int;

    closed spec fn view(&self) -> int {
        self.units as int
    }
}

impl Amount {
    #[verifier::type_invariant]
    pub closed spec fn inv(self) -> bool {
        in_range(self.units as int)
    }

    /// Two amounts with one view are one amount.
    pub proof fn lemma_view_is_injective(a: Amount, b: Amount)
        ensures
            a@ == b@ <==> a == b,
    {
    }

    /// An amount that meets the type's invariant is in range.
    pub proof fn lemma_in_range(self)
        requires
            self.inv(),
        ensures
            in_range(self@),
    {
    }

    /// The amount zero.
    pub fn zero() -> (r: Amount)
        ensures
            r@ == 0,
    {
        Amount { units: 0 }
    }

    /// The amount of `units` ten-thousandths, if that is in range.
    pub fn from_units(units: i128) -> (r: Option<Amount>)
        ensures
            units_of(r) == if in_range(units as int) {
                Some(units as int)
            } else {
                None
            },
    {
        if units < -MAX_MANTISSA || units > MAX_MANTISSA {
            None
        } else {
            Some(Amount { units })
        }
    }

    /// This amount in ten-thousandths.
    pub fn units(&self) -> (r: i128)
        ensures
            r == self@,
            in_range(r as int),
    {
        proof {
            use_type_invariant(self);
        }
        self.units
    }

    /// The sum of two amounts, `None` where it is out of range.
    pub fn checked_add(self, other: Amount) -> (r: Option<Amount>)
        ensures
            units_of(r) == if in_range(self@ + other@) {
                Some(self@ + other@)
            } else {
                None
            },
    {
        proof {
            use_type_invariant(self);
            use_type_invariant(other);
        }
        match add_decimals(self.units, other.units, AMOUNT_SCALE) {
            Some((units, scale)) => {
                if scale == AMOUNT_SCALE {
                    Some(Amount { units })
                } else {
                    None
                }
            },
            None => None,
        }
    }

    /// The difference of two amounts, `None` where it is out of range.
    pub fn checked_sub(self, other: Amount) -> (r: Option<Amount>)
        ensures
            units_of(r) == if in_range(self@ - other@) {
                Some(self@ - other@)
            } else {
                None
            },
    {
        proof {
            use_type_invariant(self);
            use_type_invariant(other);
        }
        match sub_decimals(self.units, other.units, AMOUNT_SCALE) {
            Some((units, scale)) => {
                if scale == AMOUNT_SCALE {
                    Some(Amount { units })
                } else {
                    None
                }
            },
            None => None,
        }
    }

    /// Whether this amount is strictly less than `other`.
    pub fn less_than(&self, other: &Amount) -> (r: bool)
        ensures
            r == (self@ < other@),
    {
        proof {
            use_type_invariant(self);
            use_type_invariant(other);
        }
        decimal_less(self.units, other.units, AMOUNT_SCALE)
    }

    /// The amount that the decimal `mantissa / 10^scale` rounds to.
    pub fn from_parts(mantissa: i128, scale: u32) -> (r: Option<Amount>)
        ensures
            units_of(r) == units_of_parts(mantissa as int, scale as int),
    {
        if mantissa < -MAX_MANTISSA || mantissa > MAX_MANTISSA || scale > MAX_SCALE {
            return None;
        }
        let (rounded, digits) = round_decimal(mantissa, scale, AMOUNT_SCALE);
        proof {
            reveal_with_fuel(pow10, 5);
        }
        if rounded < -MAX_MANTISSA || rounded > MAX_MANTISSA {
            return None;
        }
        let factor: i128 = if digits == 0 {
            10000
        } else if digits == 1 {
            1000
        } else if digits == 2 {
            100
        } else if digits == 3 {
            10
        } else {
            1
        };
        Amount::from_units(rounded * factor)
    }

    /// The amount that a decimal text stands for, rounded half-to-even to
    /// four fractional digits.
    pub fn parse(text: &str) -> (r: Option<Amount>)
        ensures
            units_of(r) == units_of_text(text@),
    {
        match parse_decimal(text) {
            Some((mantissa, scale)) => Amount::from_parts(mantissa, scale),
            None => None,
        }
    }

    /// The text of this amount, without trailing fractional zeros.
    pub fn to_string(&self) -> (r: String)
        ensures
            r@ == text_of_units(self@),
    {
        proof {
            use_type_invariant(self);
        }
        let (rounded, digits) = round_decimal(self.units, AMOUNT_SCALE, AMOUNT_SCALE);
        let (mantissa, scale) = normalize_decimal(rounded, digits);
        proof {
            lemma_stripped_parts_shrink(rounded as int, digits as nat);
        }
        decimal_to_string(mantissa, scale)
    }
}

/// Removing trailing zeros enlarges neither the mantissa nor the scale.
proof fn lemma_stripped_parts_shrink(mantissa: int, scale: nat)
    ensures
        stripped_parts(mantissa, scale).1 <= scale,
        mantissa >= 0 ==> 0 <= stripped_parts(mantissa, scale).0 <= mantissa,
        mantissa <= 0 ==> mantissa <= stripped_parts(mantissa, scale).0 <= 0,
    decreases scale,
{
    if scale > 0 && mantissa % 10 == 0 {
        lemma_stripped_parts_shrink(mantissa / 10, (scale - 1) as nat);
    }
}

} // verus!
