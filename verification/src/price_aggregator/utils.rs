//! Fractions from decimal numbers.

use vstd::prelude::*;

use crate::decimal::{lemma_ten_to, power_of_ten, Decimal};
use crate::numbers::Rational;

verus! {

/// The same number as a fraction.
pub fn decimal_to_rational(value: Decimal) -> (r: Rational)
    ensures
        r@ == value@.value(),
{
    let scale: u32 = value.scale();
    let denom: i128 = power_of_ten(scale);
    proof {
        lemma_ten_to(scale as nat, scale as nat);
    }
    Rational::from_i128(value.mantissa(), denom as u128)
}

} // verus!
