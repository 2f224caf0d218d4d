//! Whole numbers of any size and fractions of them. The arithmetic is that of `num_bigint`,
//! `num_integer` and `num_rational`, on bytes.

use num_bigint::{BigInt, BigUint};
use num_rational::BigRational;
use vstd::arithmetic::power2::pow2;
use vstd::prelude::*;

verus! {

/// The number that these bytes stand for, the least significant first.
pub open spec fn le_value(bytes: Seq<u8>) -> nat
    decreases bytes.len(),
{
    if bytes.len() == 0 {
        0
    } else {
        bytes[0] as nat + 256 * le_value(bytes.drop_first())
    }
}

/// The number that these bytes stand for, the most significant first.
pub open spec fn be_value(bytes: Seq<u8>) -> nat
    decreases bytes.len(),
{
    if bytes.len() == 0 {
        0
    } else {
        bytes.last() as nat + 256 * be_value(bytes.drop_last())
    }
}

/// `d` divides `n`.
pub open spec fn divides(d: nat, n: nat) -> bool {
    exists|k: nat| n == #[trigger] (d * k)
}

/// `BigUint::from` of a `u128`.
#[verifier::external_body]
fn biguint_from_u128(value: u128) -> (r: Vec<u8>)
    ensures
        le_value(r@) == value,
{
    BigUint::from(value).to_bytes_le()
}

/// `BigUint::from_bytes_be`, for any bytes.
#[verifier::external_body]
fn biguint_from_bytes_be(bytes: &[u8]) -> (r: Vec<u8>)
    ensures
        le_value(r@) == be_value(bytes@),
{
    BigUint::from_bytes_be(bytes).to_bytes_le()
}

/// `BigUint::to_bytes_be`: the shortest bytes, and one zero byte for zero.
#[verifier::external_body]
fn biguint_to_bytes_be(bytes: &[u8]) -> (r: Vec<u8>)
    ensures
        be_value(r@) == le_value(bytes@),
        r@.len() > 0,
        r@.len() > 1 ==> r@[0] != 0,
{
    BigUint::from_bytes_le(bytes).to_bytes_be()
}

/// `BigUint::to_u64`: the number, if it is small enough.
#[verifier::external_body]
fn biguint_to_u64(bytes: &[u8]) -> (r: Option<u64>)
    ensures
        r is Some <==> le_value(bytes@) <= u64::MAX,
        r is Some ==> r->0 == le_value(bytes@),
{
    num_traits::ToPrimitive::to_u64(&BigUint::from_bytes_le(bytes))
}

/// `+` of `BigUint`.
#[verifier::external_body]
fn biguint_sum(a: &[u8], b: &[u8]) -> (r: Vec<u8>)
    ensures
        le_value(r@) == le_value(a@) + le_value(b@),
{
    (BigUint::from_bytes_le(a) + BigUint::from_bytes_le(b)).to_bytes_le()
}

/// `-` of `BigUint`, which panics where the result would be negative.
#[verifier::external_body]
fn biguint_difference(a: &[u8], b: &[u8]) -> (r: Vec<u8>)
    requires
        le_value(b@) <= le_value(a@),
    ensures
        le_value(r@) == le_value(a@) - le_value(b@),
{
    (BigUint::from_bytes_le(a) - BigUint::from_bytes_le(b)).to_bytes_le()
}

/// `*` of `BigUint`.
#[verifier::external_body]
fn biguint_product(a: &[u8], b: &[u8]) -> (r: Vec<u8>)
    ensures
        le_value(r@) == le_value(a@) * le_value(b@),
{
    (BigUint::from_bytes_le(a) * BigUint::from_bytes_le(b)).to_bytes_le()
}

/// `/` of `BigUint`, which rounds down and panics on a zero divisor.
#[verifier::external_body]
fn biguint_quotient(a: &[u8], b: &[u8]) -> (r: Vec<u8>)
    requires
        le_value(b@) > 0,
    ensures
        le_value(r@) == le_value(a@) / le_value(b@),
{
    (BigUint::from_bytes_le(a) / BigUint::from_bytes_le(b)).to_bytes_le()
}

/// `Integer::gcd` of `BigUint`: the common divisor that every other one divides.
#[verifier::external_body]
fn biguint_gcd(a: &[u8], b: &[u8]) -> (r: Vec<u8>)
    ensures
        divides(le_value(r@), le_value(a@)),
        divides(le_value(r@), le_value(b@)),
        forall|d: nat| #[trigger] divides(d, le_value(a@)) && divides(d, le_value(b@)) ==> divides(d, le_value(r@)),
{
    num_integer::Integer::gcd(&BigUint::from_bytes_le(a), &BigUint::from_bytes_le(b)).to_bytes_le()
}

/// `<` of `BigUint`.
#[verifier::external_body]
fn biguint_less(a: &[u8], b: &[u8]) -> (r: bool)
    ensures
        r == (le_value(a@) < le_value(b@)),
{
    BigUint::from_bytes_le(a) < BigUint::from_bytes_le(b)
}

/// `BigUint::bits`: the fewest bits that express the number.
#[verifier::external_body]
fn biguint_bits(a: &[u8]) -> (r: u64)
    ensures
        le_value(a@) == 0 ==> r == 0,
        le_value(a@) > 0 ==> r > 0 && pow2((r - 1) as nat) <= le_value(a@) < pow2(r as nat),
{
    BigUint::from_bytes_le(a).bits()
}

/// `>>` of `BigUint`: division by a power of two, rounded down.
#[verifier::external_body]
fn biguint_shifted_right(a: &[u8], by: u64) -> (r: Vec<u8>)
    ensures
        le_value(r@) == le_value(a@) / pow2(by as nat),
{
    (BigUint::from_bytes_le(a) >> by).to_bytes_le()
}

/// `BigUint::trailing_zeros`: how often two divides the number, and nothing for zero.
#[verifier::external_body]
fn biguint_trailing_zeros(a: &[u8]) -> (r: Option<u64>)
    ensures
        r is None <==> le_value(a@) == 0,
        r is Some ==> le_value(a@) % pow2(r->0 as nat) == 0 && le_value(a@) % pow2((r->0 + 1) as nat) != 0,
{
    BigUint::from_bytes_le(a).trailing_zeros()
}

/// The decimal digit of a number below ten.
pub open spec fn decimal_digit(value: nat) -> char {
    (48 + value) as char
}

/// The decimal digits of a number, the most significant first.
pub open spec fn decimal_digits(value: nat) -> Seq<char>
    decreases value,
{
    if value < 10 {
        seq![decimal_digit(value)]
    } else {
        decimal_digits(value / 10).push(decimal_digit(value % 10))
    }
}

/// `to_string` of `BigUint`, which writes the number in decimal.
#[verifier::external_body]
fn biguint_to_string(a: &[u8]) -> (r: String)
    ensures
        r@ == decimal_digits(le_value(a@)),
{
    BigUint::from_bytes_le(a).to_string()
}

/// `to_string` of `u64`, which writes the number in decimal.
#[verifier::external_body]
pub(crate) fn u64_to_text(value: u64) -> (r: String)
    ensures
        r@ == decimal_digits(value as nat),
{
    value.to_string()
}

/// A whole number of any size that is not negative.
#[derive(Debug, Eq)]
pub struct Natural {
    bytes: Vec<u8>,
}

impl View for Natural {
    type V = nat;

    closed spec fn view(&self) -> nat {
        le_value(self.bytes@)
    }
}

impl Clone for Natural {
    fn clone(&self) -> (r: Self)
        ensures
            r@ == self@,
    {
        let bytes = self.bytes.clone();
        assert(bytes@ =~= self.bytes@);
        Natural { bytes }
    }
}

impl PartialEq for Natural {
    fn eq(&self, other: &Natural) -> (r: bool) {
        !self.less(other) && !other.less(self)
    }
}

impl vstd::std_specs::cmp::PartialEqSpecImpl for Natural {
    open spec fn obeys_eq_spec() -> bool {
        true
    }

    open spec fn eq_spec(&self, other: &Natural) -> bool {
        self@ == other@
    }
}

impl Natural {
    pub fn from_u64(value: u64) -> (r: Self)
        ensures
            r@ == value,
    {
        Natural { bytes: biguint_from_u128(value as u128) }
    }

    pub fn from_u128(value: u128) -> (r: Self)
        ensures
            r@ == value,
    {
        Natural { bytes: biguint_from_u128(value) }
    }

    pub fn from_bytes_be(bytes: &[u8]) -> (r: Self)
        ensures
            r@ == be_value(bytes@),
    {
        Natural { bytes: biguint_from_bytes_be(bytes) }
    }

    pub fn to_bytes_be(&self) -> (r: Vec<u8>)
        ensures
            be_value(r@) == self@,
            r@.len() > 0,
            r@.len() > 1 ==> r@[0] != 0,
    {
        biguint_to_bytes_be(self.bytes.as_slice())
    }

    pub fn to_u64(&self) -> (r: Option<u64>)
        ensures
            r is Some <==> self@ <= u64::MAX,
            r is Some ==> r->0 == self@,
    {
        biguint_to_u64(self.bytes.as_slice())
    }

    pub fn is_zero(&self) -> (r: bool)
        ensures
            r == (self@ == 0),
    {
        self.bits() == 0
    }

    pub fn plus(&self, other: &Natural) -> (r: Self)
        ensures
            r@ == self@ + other@,
    {
        Natural { bytes: biguint_sum(self.bytes.as_slice(), other.bytes.as_slice()) }
    }

    pub fn minus(&self, other: &Natural) -> (r: Self)
        requires
            other@ <= self@,
        ensures
            r@ == self@ - other@,
    {
        Natural { bytes: biguint_difference(self.bytes.as_slice(), other.bytes.as_slice()) }
    }

    pub fn times(&self, other: &Natural) -> (r: Self)
        ensures
            r@ == self@ * other@,
    {
        Natural { bytes: biguint_product(self.bytes.as_slice(), other.bytes.as_slice()) }
    }

    /// The quotient, rounded down.
    pub fn over(&self, other: &Natural) -> (r: Self)
        requires
            other@ > 0,
        ensures
            r@ == self@ / other@,
    {
        Natural { bytes: biguint_quotient(self.bytes.as_slice(), other.bytes.as_slice()) }
    }

    /// The greatest common divisor; zero only of two zeros.
    pub fn gcd(&self, other: &Natural) -> (r: Self)
        ensures
            divides(r@, self@),
            divides(r@, other@),
            forall|d: nat| #[trigger] divides(d, self@) && divides(d, other@) ==> divides(d, r@),
    {
        Natural { bytes: biguint_gcd(self.bytes.as_slice(), other.bytes.as_slice()) }
    }

    pub fn less(&self, other: &Natural) -> (r: bool)
        ensures
            r == (self@ < other@),
    {
        biguint_less(self.bytes.as_slice(), other.bytes.as_slice())
    }

    /// How many bits the number takes; none for zero.
    pub fn bits(&self) -> (r: u64)
        ensures
            r as nat == bits_of(self@),
            self@ > 0 ==> r > 0 && pow2((r - 1) as nat) <= self@ < pow2(r as nat),
    {
        let r: u64 = biguint_bits(self.bytes.as_slice());
        proof {
            if self@ > 0 {
                lemma_bits_of(self@, r as nat);
            }
        }
        r
    }

    /// The number without its `by` lowest bits.
    pub fn shifted_right(&self, by: u64) -> (r: Self)
        ensures
            r@ == self@ / pow2(by as nat),
    {
        Natural { bytes: biguint_shifted_right(self.bytes.as_slice(), by) }
    }

    /// How many of the lowest bits are zero; nothing for zero.
    pub fn trailing_zeros(&self) -> (r: Option<u64>)
        ensures
            r is None <==> self@ == 0,
            r is Some ==> self@ % pow2(r->0 as nat) == 0 && self@ % pow2((r->0 + 1) as nat) != 0,
    {
        biguint_trailing_zeros(self.bytes.as_slice())
    }

    /// The decimal digits.
    pub fn to_text(&self) -> (r: String)
        ensures
            r@ == decimal_digits(self@),
    {
        biguint_to_string(self.bytes.as_slice())
    }
}

/// The fewest bits that express a number.
pub open spec fn bits_of(n: nat) -> nat
    decreases n,
{
    if n == 0 {
        0
    } else {
        1 + bits_of(n / 2)
    }
}

/// A number has `k` bits where it lies between the powers of two that say so.
pub proof fn lemma_bits_of(n: nat, k: nat)
    requires
        k > 0,
        pow2((k - 1) as nat) <= n < pow2(k),
    ensures
        bits_of(n) == k,
    decreases k,
{
    vstd::arithmetic::power2::lemma_pow2_pos((k - 1) as nat);
    vstd::arithmetic::power2::lemma_pow2_unfold(k);
    if k > 1 {
        vstd::arithmetic::power2::lemma_pow2_unfold((k - 1) as nat);
        lemma_bits_of(n / 2, (k - 1) as nat);
    } else {
        vstd::arithmetic::power2::lemma2_to64();
        assert(n == 1);
        assert(bits_of(0) == 0);
    }
}

/// The power of 256 that a byte at this place counts for.
pub open spec fn byte_weight(place: nat) -> nat {
    pow2(8 * place)
}

/// The number that these bytes stand for in two's complement, the least significant first.
pub open spec fn signed_value(bytes: Seq<u8>) -> int {
    if bytes.len() > 0 && bytes.last() >= 128 {
        le_value(bytes) - byte_weight(bytes.len())
    } else {
        le_value(bytes) as int
    }
}

/// The fraction of two numbers in two's complement.
pub open spec fn fraction(numer: Seq<u8>, denom: Seq<u8>) -> real {
    (signed_value(numer) as real) / (signed_value(denom) as real)
}

/// These bytes are a fraction in lowest terms, with a positive denominator.
pub open spec fn is_fraction(parts: (Vec<u8>, Vec<u8>)) -> bool {
    in_lowest_terms(signed_value(parts.0@), signed_value(parts.1@))
}

/// A fraction has a positive denominator that shares no divisor but one with the numerator.
pub open spec fn in_lowest_terms(numer: int, denom: int) -> bool {
    &&& denom > 0
    &&& forall|d: nat| #[trigger] divides(d, magnitude(numer)) && divides(d, denom as nat) ==> d == 1
}

/// The number without its sign.
pub open spec fn magnitude(n: int) -> nat {
    if n < 0 {
        (-n) as nat
    } else {
        n as nat
    }
}

/// `BigInt::from` of an `i128`.
#[verifier::external_body]
fn bigint_from_i128(value: i128) -> (r: Vec<u8>)
    ensures
        signed_value(r@) == value,
{
    BigInt::from(value).to_signed_bytes_le()
}

/// `BigInt::from` of a `BigUint`.
#[verifier::external_body]
fn bigint_from_biguint(bytes: &[u8]) -> (r: Vec<u8>)
    ensures
        signed_value(r@) == le_value(bytes@),
{
    BigInt::from(BigUint::from_bytes_le(bytes)).to_signed_bytes_le()
}

/// `BigRational::new`, which brings a fraction into lowest terms with a positive denominator and
/// panics on a zero denominator.
#[verifier::external_body]
fn ratio_new(numer: &[u8], denom: &[u8]) -> (r: (Vec<u8>, Vec<u8>))
    requires
        signed_value(denom@) != 0,
    ensures
        is_fraction(r),
        fraction(r.0@, r.1@) == fraction(numer@, denom@),
{
    let x = BigRational::new(BigInt::from_signed_bytes_le(numer), BigInt::from_signed_bytes_le(denom));
    (x.numer().to_signed_bytes_le(), x.denom().to_signed_bytes_le())
}

/// `+` of `BigRational`.
#[verifier::external_body]
fn ratio_sum(a: (&[u8], &[u8]), b: (&[u8], &[u8])) -> (r: (Vec<u8>, Vec<u8>))
    requires
        signed_value(a.1@) > 0,
        signed_value(b.1@) > 0,
    ensures
        is_fraction(r),
        fraction(r.0@, r.1@) == fraction(a.0@, a.1@) + fraction(b.0@, b.1@),
{
    let x = BigRational::new(BigInt::from_signed_bytes_le(a.0), BigInt::from_signed_bytes_le(a.1));
    let y = BigRational::new(BigInt::from_signed_bytes_le(b.0), BigInt::from_signed_bytes_le(b.1));
    let z = x + y;
    (z.numer().to_signed_bytes_le(), z.denom().to_signed_bytes_le())
}

/// `-` of `BigRational`.
#[verifier::external_body]
fn ratio_difference(a: (&[u8], &[u8]), b: (&[u8], &[u8])) -> (r: (Vec<u8>, Vec<u8>))
    requires
        signed_value(a.1@) > 0,
        signed_value(b.1@) > 0,
    ensures
        is_fraction(r),
        fraction(r.0@, r.1@) == fraction(a.0@, a.1@) - fraction(b.0@, b.1@),
{
    let x = BigRational::new(BigInt::from_signed_bytes_le(a.0), BigInt::from_signed_bytes_le(a.1));
    let y = BigRational::new(BigInt::from_signed_bytes_le(b.0), BigInt::from_signed_bytes_le(b.1));
    let z = x - y;
    (z.numer().to_signed_bytes_le(), z.denom().to_signed_bytes_le())
}

/// `*` of `BigRational`.
#[verifier::external_body]
fn ratio_product(a: (&[u8], &[u8]), b: (&[u8], &[u8])) -> (r: (Vec<u8>, Vec<u8>))
    requires
        signed_value(a.1@) > 0,
        signed_value(b.1@) > 0,
    ensures
        is_fraction(r),
        fraction(r.0@, r.1@) == fraction(a.0@, a.1@) * fraction(b.0@, b.1@),
{
    let x = BigRational::new(BigInt::from_signed_bytes_le(a.0), BigInt::from_signed_bytes_le(a.1));
    let y = BigRational::new(BigInt::from_signed_bytes_le(b.0), BigInt::from_signed_bytes_le(b.1));
    let z = x * y;
    (z.numer().to_signed_bytes_le(), z.denom().to_signed_bytes_le())
}

/// `/` of `BigRational`, which panics on a zero divisor.
#[verifier::external_body]
fn ratio_quotient(a: (&[u8], &[u8]), b: (&[u8], &[u8])) -> (r: (Vec<u8>, Vec<u8>))
    requires
        signed_value(a.1@) > 0,
        signed_value(b.1@) > 0,
        signed_value(b.0@) != 0,
    ensures
        is_fraction(r),
        fraction(r.0@, r.1@) == fraction(a.0@, a.1@) / fraction(b.0@, b.1@),
{
    let x = BigRational::new(BigInt::from_signed_bytes_le(a.0), BigInt::from_signed_bytes_le(a.1));
    let y = BigRational::new(BigInt::from_signed_bytes_le(b.0), BigInt::from_signed_bytes_le(b.1));
    let z = x / y;
    (z.numer().to_signed_bytes_le(), z.denom().to_signed_bytes_le())
}

/// `<` of `BigRational`.
#[verifier::external_body]
fn ratio_less(a: (&[u8], &[u8]), b: (&[u8], &[u8])) -> (r: bool)
    requires
        signed_value(a.1@) > 0,
        signed_value(b.1@) > 0,
    ensures
        r == (fraction(a.0@, a.1@) < fraction(b.0@, b.1@)),
{
    let x = BigRational::new(BigInt::from_signed_bytes_le(a.0), BigInt::from_signed_bytes_le(a.1));
    let y = BigRational::new(BigInt::from_signed_bytes_le(b.0), BigInt::from_signed_bytes_le(b.1));
    x < y
}

/// `BigInt::magnitude`: the number without its sign.
#[verifier::external_body]
fn bigint_magnitude(a: &[u8]) -> (r: Vec<u8>)
    ensures
        le_value(r@) == magnitude(signed_value(a@)),
{
    BigInt::from_signed_bytes_le(a).magnitude().to_bytes_le()
}

/// A fraction of whole numbers of any size, in lowest terms.
#[derive(Debug, Eq)]
pub struct Rational {
    numer: Vec<u8>,
    denom: Vec<u8>,
}

impl View for Rational {
    type V = real;

    closed spec fn view(&self) -> real {
        fraction(self.numer@, self.denom@)
    }
}

impl Clone for Rational {
    fn clone(&self) -> (r: Self)
        ensures
            r@ == self@,
            r.numer_value() == self.numer_value(),
            r.denom_value() == self.denom_value(),
    {
        proof {
            use_type_invariant(self);
        }
        let numer = self.numer.clone();
        let denom = self.denom.clone();
        assert(numer@ =~= self.numer@ && denom@ =~= self.denom@);
        Rational { numer, denom }
    }
}

impl PartialEq for Rational {
    fn eq(&self, other: &Rational) -> (r: bool) {
        !self.less(other) && !other.less(self)
    }
}

impl vstd::std_specs::cmp::PartialEqSpecImpl for Rational {
    open spec fn obeys_eq_spec() -> bool {
        true
    }

    open spec fn eq_spec(&self, other: &Rational) -> bool {
        self@ == other@
    }
}

impl Rational {
    #[verifier::type_invariant]
    spec fn wf(&self) -> bool {
        in_lowest_terms(signed_value(self.numer@), signed_value(self.denom@))
    }

    /// The numerator in lowest terms.
    pub closed spec fn numer_value(&self) -> int {
        signed_value(self.numer@)
    }

    /// The denominator in lowest terms.
    pub closed spec fn denom_value(&self) -> int {
        signed_value(self.denom@)
    }

    fn parts(&self) -> (r: (&[u8], &[u8]))
        ensures
            fraction(r.0@, r.1@) == self@,
            r.0@ == self.numer@,
            r.1@ == self.denom@,
            signed_value(r.1@) > 0,
            in_lowest_terms(self.numer_value(), self.denom_value()),
            self@ == self.numer_value() as real / self.denom_value() as real,
    {
        proof {
            use_type_invariant(self);
        }
        (self.numer.as_slice(), self.denom.as_slice())
    }

    /// `numer / denom`.
    pub fn new(numer: &Natural, denom: &Natural) -> (r: Self)
        requires
            denom@ != 0,
        ensures
            r@ == (numer@ as real) / (denom@ as real),
    {
        let top = bigint_from_biguint(numer.bytes.as_slice());
        let bottom = bigint_from_biguint(denom.bytes.as_slice());
        let (n, d) = ratio_new(top.as_slice(), bottom.as_slice());
        Rational { numer: n, denom: d }
    }

    /// `numer / denom` of two small numbers.
    pub fn from_i128(numer: i128, denom: u128) -> (r: Self)
        requires
            denom != 0,
        ensures
            r@ == (numer as int as real) / (denom as int as real),
    {
        let top = bigint_from_i128(numer);
        let bottom = bigint_from_biguint(biguint_from_u128(denom).as_slice());
        let (n, d) = ratio_new(top.as_slice(), bottom.as_slice());
        Rational { numer: n, denom: d }
    }

    pub fn from_natural(value: &Natural) -> (r: Self)
        ensures
            r@ == value@ as real,
    {
        let one = Natural::from_u64(1);
        let r = Rational::new(value, &one);
        assert((value@ as real) / (1nat as real) == value@ as real) by (nonlinear_arith);
        r
    }

    pub fn from_u64(value: u64) -> (r: Self)
        ensures
            r@ == value as int as real,
    {
        Rational::from_natural(&Natural::from_u64(value))
    }

    /// The fraction of two numbers in two's complement, the least significant byte first; nothing where the
    /// denominator is zero.
    pub fn from_signed_bytes(numer: &[u8], denom: &[u8]) -> (r: Option<Self>)
        ensures
            r is Some <==> signed_value(denom@) != 0,
            r is Some ==> r->0@ == fraction(numer@, denom@),
    {
        if (Natural { bytes: bigint_magnitude(denom) }).is_zero() {
            return None;
        }
        let (n, d) = ratio_new(numer, denom);
        Some(Rational { numer: n, denom: d })
    }

    /// The numerator and the denominator in two's complement, the least significant byte first. They make the same
    /// fraction again.
    pub fn to_signed_bytes(&self) -> (r: (Vec<u8>, Vec<u8>))
        ensures
            signed_value(r.0@) == self.numer_value(),
            signed_value(r.1@) == self.denom_value(),
            signed_value(r.1@) > 0,
            fraction(r.0@, r.1@) == self@,
    {
        proof {
            use_type_invariant(self);
        }
        let numer = self.numer.clone();
        let denom = self.denom.clone();
        assert(numer@ =~= self.numer@ && denom@ =~= self.denom@);
        (numer, denom)
    }

    /// The numerator and the denominator of a fraction that is not negative.
    pub fn to_parts(&self) -> (r: (Natural, Natural))
        requires
            self@ >= 0real,
        ensures
            r.0@ == self.numer_value(),
            r.1@ == self.denom_value(),
            r.1@ > 0,
            in_lowest_terms(r.0@ as int, r.1@ as int),
            self@ == (r.0@ as real) / (r.1@ as real),
    {
        let (n, d) = self.parts();
        let numer = Natural { bytes: bigint_magnitude(n) };
        let denom = Natural { bytes: bigint_magnitude(d) };
        proof {
            lemma_fraction_sign(self.numer_value(), self.denom_value());
        }
        (numer, denom)
    }

    pub fn plus(&self, other: &Rational) -> (r: Self)
        ensures
            r@ == self@ + other@,
    {
        let (n, d) = ratio_sum(self.parts(), other.parts());
        Rational { numer: n, denom: d }
    }

    pub fn minus(&self, other: &Rational) -> (r: Self)
        ensures
            r@ == self@ - other@,
    {
        let (n, d) = ratio_difference(self.parts(), other.parts());
        Rational { numer: n, denom: d }
    }

    pub fn times(&self, other: &Rational) -> (r: Self)
        ensures
            r@ == self@ * other@,
    {
        let (n, d) = ratio_product(self.parts(), other.parts());
        Rational { numer: n, denom: d }
    }

    pub fn over(&self, other: &Rational) -> (r: Self)
        requires
            other@ != 0real,
        ensures
            r@ == self@ / other@,
    {
        let a = self.parts();
        let b = other.parts();
        proof {
            lemma_fraction_sign(other.numer_value(), other.denom_value());
        }
        let (n, d) = ratio_quotient(a, b);
        Rational { numer: n, denom: d }
    }

    pub fn less(&self, other: &Rational) -> (r: bool)
        ensures
            r == (self@ < other@),
    {
        ratio_less(self.parts(), other.parts())
    }

    pub fn is_zero(&self) -> (r: bool)
        ensures
            r == (self@ == 0real),
    {
        *self == Rational::from_u64(0)
    }

    pub fn is_negative(&self) -> (r: bool)
        ensures
            r == (self@ < 0real),
    {
        self.less(&Rational::from_u64(0))
    }
}

/// A fraction with a positive denominator has the numerator's sign.
pub proof fn lemma_fraction_sign(numer: int, denom: int)
    requires
        denom > 0,
    ensures
        ((numer as real) / (denom as real) >= 0real) == (numer >= 0),
        ((numer as real) / (denom as real) == 0real) == (numer == 0),
{
    let q = (numer as real) / (denom as real);
    assert(q * (denom as real) == numer as real) by (nonlinear_arith)
        requires
            denom > 0,
            q == (numer as real) / (denom as real),
    ;
    assert((q >= 0real) == (numer >= 0)) by (nonlinear_arith)
        requires
            denom > 0,
            q * (denom as real) == numer as real,
    ;
    assert((q == 0real) == (numer == 0)) by (nonlinear_arith)
        requires
            denom > 0,
            q * (denom as real) == numer as real,
    ;
}

} // verus!
