//! Decimal numbers: a whole number and how many of its digits stand behind the point.

use std::str::FromStr;

use vstd::arithmetic::power::pow;
use vstd::prelude::*;

verus! {

/// The most digits behind the point.
pub const MAX_SCALE: u32 = 28;

/// The largest whole number: 96 bits.
pub const MAX_MANTISSA: i128 = 79_228_162_514_264_337_593_543_950_335;

/// A one and `n` zeros.
pub open spec fn ten_to(n: nat) -> nat
    decreases n,
{
    if n == 0 {
        1
    } else {
        10 * ten_to((n - 1) as nat)
    }
}

/// More zeros make no smaller number.
pub proof fn lemma_ten_to(m: nat, n: nat)
    requires
        m <= n,
    ensures
        1 <= ten_to(m) <= ten_to(n),
    decreases n,
{
    if m < n {
        lemma_ten_to(m, (n - 1) as nat);
    } else if m > 0 {
        lemma_ten_to((m - 1) as nat, (m - 1) as nat);
    }
}

/// A one and `n` zeros is ten to the power of `n`.
pub proof fn law_zeros_are_powers_of_ten(n: nat)
    ensures
        ten_to(n) == pow(10, n),
    decreases n,
{
    reveal(pow);
    if n > 0 {
        law_zeros_are_powers_of_ten((n - 1) as nat);
    }
}

/// `10i128.pow(n)`, where it fits.
pub fn power_of_ten(n: u32) -> (r: i128)
    requires
        n <= 38,
    ensures
        r == ten_to(n as nat),
{
    let mut power: i128 = 1;
    let mut i: u32 = 0;
    proof {
        reveal_with_fuel(ten_to, 40);
        assert(ten_to(38) == 100_000_000_000_000_000_000_000_000_000_000_000_000);
    }
    while i < n
        invariant
            i <= n <= 38,
            power == ten_to(i as nat),
            ten_to(38) == 100_000_000_000_000_000_000_000_000_000_000_000_000,
        decreases n - i,
    {
        proof {
            lemma_ten_to((i + 1) as nat, 38);
        }
        power = power * 10;
        i += 1;
    }
    power
}

/// Whether a decimal number can hold this.
pub open spec fn is_decimal(mantissa: int, scale: nat) -> bool {
    -MAX_MANTISSA <= mantissa <= MAX_MANTISSA && scale <= MAX_SCALE
}

/// What a decimal number is made of.
pub struct DecimalView {
    pub mantissa: int,
    pub scale: nat,
}

impl DecimalView {
    /// The number.
    pub open spec fn value(self) -> real {
        (self.mantissa as real) / (ten_to(self.scale) as real)
    }
}

/// The decimal number that a text shows; nothing for a text that shows none.
pub uninterp spec fn parsed_decimal(text: Seq<char>) -> Option<DecimalView>;

/// The quotient of two decimal numbers, rounded to what a decimal number can hold; nothing where the divisor
/// is zero or the quotient is too large.
pub uninterp spec fn decimal_quotient(a: DecimalView, b: DecimalView) -> Option<DecimalView>;

/// The product of two decimal numbers, rounded to what a decimal number can hold; nothing where it is too
/// large.
pub uninterp spec fn decimal_product(a: DecimalView, b: DecimalView) -> Option<DecimalView>;

/// The sum of two decimal numbers, rounded to what a decimal number can hold; nothing where it is too large.
pub uninterp spec fn decimal_sum(a: DecimalView, b: DecimalView) -> Option<DecimalView>;

/// The mantissa and scale that were found, if any.
pub open spec fn found(parts: Option<(i128, u32)>) -> Option<DecimalView> {
    match parts {
        Some((mantissa, scale)) => Some(DecimalView { mantissa: mantissa as int, scale: scale as nat }),
        None => None,
    }
}

/// `rust_decimal::Decimal::from_str`. What it reads has at most 96 bits and 28 digits behind the point.
#[verifier::external_body]
fn read_decimal(text: &str) -> (r: Option<(i128, u32)>)
    ensures
        found(r) == parsed_decimal(text@),
        r is Some ==> is_decimal((r->0).0 as int, (r->0).1 as nat),
{
    let value = rust_decimal::Decimal::from_str(text).ok()?;
    Some((value.mantissa(), value.scale()))
}

/// `rust_decimal::Decimal::checked_div`. The result has at most 96 bits and 28 digits behind the point.
#[verifier::external_body]
fn divide(a: (i128, u32), b: (i128, u32)) -> (r: Option<(i128, u32)>)
    requires
        is_decimal(a.0 as int, a.1 as nat),
        is_decimal(b.0 as int, b.1 as nat),
    ensures
        found(r) == decimal_quotient(
            DecimalView { mantissa: a.0 as int, scale: a.1 as nat },
            DecimalView { mantissa: b.0 as int, scale: b.1 as nat },
        ),
        r is Some ==> is_decimal((r->0).0 as int, (r->0).1 as nat),
        b.0 == 0 ==> r is None,
{
    let a = rust_decimal::Decimal::from_i128_with_scale(a.0, a.1);
    let b = rust_decimal::Decimal::from_i128_with_scale(b.0, b.1);
    let value = a.checked_div(b)?;
    Some((value.mantissa(), value.scale()))
}

/// `rust_decimal::Decimal::checked_mul`. The result has at most 96 bits and 28 digits behind the point.
#[verifier::external_body]
fn multiply(a: (i128, u32), b: (i128, u32)) -> (r: Option<(i128, u32)>)
    requires
        is_decimal(a.0 as int, a.1 as nat),
        is_decimal(b.0 as int, b.1 as nat),
    ensures
        found(r) == decimal_product(
            DecimalView { mantissa: a.0 as int, scale: a.1 as nat },
            DecimalView { mantissa: b.0 as int, scale: b.1 as nat },
        ),
        r is Some ==> is_decimal((r->0).0 as int, (r->0).1 as nat),
{
    let a = rust_decimal::Decimal::from_i128_with_scale(a.0, a.1);
    let b = rust_decimal::Decimal::from_i128_with_scale(b.0, b.1);
    let value = a.checked_mul(b)?;
    Some((value.mantissa(), value.scale()))
}

/// `rust_decimal::Decimal::checked_add`. The result has at most 96 bits and 28 digits behind the point.
#[verifier::external_body]
fn add_up(a: (i128, u32), b: (i128, u32)) -> (r: Option<(i128, u32)>)
    requires
        is_decimal(a.0 as int, a.1 as nat),
        is_decimal(b.0 as int, b.1 as nat),
    ensures
        found(r) == decimal_sum(
            DecimalView { mantissa: a.0 as int, scale: a.1 as nat },
            DecimalView { mantissa: b.0 as int, scale: b.1 as nat },
        ),
        r is Some ==> is_decimal((r->0).0 as int, (r->0).1 as nat),
{
    let a = rust_decimal::Decimal::from_i128_with_scale(a.0, a.1);
    let b = rust_decimal::Decimal::from_i128_with_scale(b.0, b.1);
    let value = a.checked_add(b)?;
    Some((value.mantissa(), value.scale()))
}

/// A decimal number.
#[derive(Debug, Clone, Copy)]
pub struct Decimal {
    mantissa: i128,
    scale: u32,
}

impl View for Decimal {
    type V = DecimalView;

    closed spec fn view(&self) -> DecimalView {
        DecimalView { mantissa: self.mantissa as int, scale: self.scale as nat }
    }
}

/// What a decimal number is made of, if there is one.
pub open spec fn decimal_in(value: Option<Decimal>) -> Option<DecimalView> {
    match value {
        Some(value) => Some(value@),
        None => None,
    }
}

impl Decimal {
    #[verifier::type_invariant]
    spec fn wf(&self) -> bool {
        is_decimal(self.mantissa as int, self.scale as nat)
    }

    /// A number with `scale` digits behind the point.
    pub fn new(number: i64, scale: u32) -> (r: Self)
        requires
            scale <= MAX_SCALE,
        ensures
            r@ == (DecimalView { mantissa: number as int, scale: scale as nat }),
    {
        Decimal { mantissa: number as i128, scale }
    }

    /// A number with `scale` digits behind the point; nothing where a decimal number cannot hold it.
    pub fn from_i128_with_scale(number: i128, scale: u32) -> (r: Option<Self>)
        ensures
            r is Some <==> is_decimal(number as int, scale as nat),
            r is Some ==> r->0@ == (DecimalView { mantissa: number as int, scale: scale as nat }),
    {
        if scale <= MAX_SCALE && -MAX_MANTISSA <= number && number <= MAX_MANTISSA {
            Some(Decimal { mantissa: number, scale })
        } else {
            None
        }
    }

    pub fn one() -> (r: Self)
        ensures
            r@ == (DecimalView { mantissa: 1, scale: 0 }),
    {
        Decimal { mantissa: 1, scale: 0 }
    }

    pub fn zero() -> (r: Self)
        ensures
            r@ == (DecimalView { mantissa: 0, scale: 0 }),
    {
        Decimal { mantissa: 0, scale: 0 }
    }

    /// The number that a text shows.
    pub fn parse(text: &str) -> (r: Option<Self>)
        ensures
            decimal_in(r) == parsed_decimal(text@),
    {
        match read_decimal(text) {
            Some((mantissa, scale)) => Some(Decimal { mantissa, scale }),
            None => None,
        }
    }

    pub fn mantissa(&self) -> (r: i128)
        ensures
            r == self@.mantissa,
            -MAX_MANTISSA <= r <= MAX_MANTISSA,
    {
        proof {
            use_type_invariant(self);
        }
        self.mantissa
    }

    pub fn scale(&self) -> (r: u32)
        ensures
            r == self@.scale,
            r <= MAX_SCALE,
    {
        proof {
            use_type_invariant(self);
        }
        self.scale
    }

    pub fn is_zero(&self) -> (r: bool)
        ensures
            r == (self@.mantissa == 0),
    {
        self.mantissa == 0
    }

    /// The quotient; nothing where the divisor is zero or the quotient is too large.
    pub fn over(&self, other: &Decimal) -> (r: Option<Self>)
        ensures
            decimal_in(r) == decimal_quotient(self@, other@),
            other@.mantissa == 0 ==> r is None,
    {
        proof {
            use_type_invariant(self);
            use_type_invariant(other);
        }
        match divide((self.mantissa, self.scale), (other.mantissa, other.scale)) {
            Some((mantissa, scale)) => Some(Decimal { mantissa, scale }),
            None => None,
        }
    }

    /// The product; nothing where it is too large.
    pub fn times(&self, other: &Decimal) -> (r: Option<Self>)
        ensures
            decimal_in(r) == decimal_product(self@, other@),
    {
        proof {
            use_type_invariant(self);
            use_type_invariant(other);
        }
        match multiply((self.mantissa, self.scale), (other.mantissa, other.scale)) {
            Some((mantissa, scale)) => Some(Decimal { mantissa, scale }),
            None => None,
        }
    }

    /// The sum; nothing where it is too large.
    pub fn plus(&self, other: &Decimal) -> (r: Option<Self>)
        ensures
            decimal_in(r) == decimal_sum(self@, other@),
    {
        proof {
            use_type_invariant(self);
            use_type_invariant(other);
        }
        match add_up((self.mantissa, self.scale), (other.mantissa, other.scale)) {
            Some((mantissa, scale)) => Some(Decimal { mantissa, scale }),
            None => None,
        }
    }
}

} // verus!
