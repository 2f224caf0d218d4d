use oracles::decimal::{power_of_ten, Decimal, MAX_SCALE};
use oracles::names::{find_named, index_by_name, sort_by_name, str_equal, NameMap};
use oracles::numbers::{Natural, Rational};
use oracles::price_aggregator::utils::decimal_to_rational;
use oracles::text::{between, join};

fn natural(value: u128) -> Natural {
    Natural::from_u128(value)
}

fn rational(numer: i128, denom: u128) -> Rational {
    Rational::from_i128(numer, denom)
}

#[test]
fn naturals_have_any_size() {
    let large = natural(u128::MAX).times(&natural(u128::MAX)).plus(&natural(1));
    assert_eq!(large.to_text(), "115792089237316195423570985008687907852589419931798687112530834793049593217026");
    assert_eq!(large.bits(), 256);
    assert_eq!(large.trailing_zeros(), Some(1));
    assert_eq!(large.to_u64(), None);
    assert_eq!(large.minus(&natural(1)).over(&natural(u128::MAX)), natural(u128::MAX));
    assert_eq!(large.shifted_right(250), natural(63));
}

#[test]
fn naturals_are_compared() {
    assert!(natural(3).less(&natural(4)));
    assert!(!natural(4).less(&natural(4)));
    assert!(natural(0).is_zero());
    assert_eq!(natural(0).bits(), 0);
    assert_eq!(natural(0).trailing_zeros(), None);
    assert_eq!(natural(12).gcd(&natural(18)), natural(6));
    assert_eq!(natural(7).over(&natural(2)), natural(3));
    assert_eq!(Natural::from_u64(u64::MAX).to_u64(), Some(u64::MAX));
}

#[test]
fn naturals_are_bytes() {
    assert_eq!(Natural::from_bytes_be(&[1, 0]), natural(256));
    assert_eq!(Natural::from_bytes_be(&[0, 0, 1, 0]).to_bytes_be(), [1, 0]);
    assert_eq!(Natural::from_bytes_be(&[]), natural(0));
}

#[test]
fn rationals_are_exact() {
    assert_eq!(rational(1, 3).plus(&rational(1, 6)), rational(1, 2));
    assert_eq!(rational(1, 3).minus(&rational(1, 2)), rational(-1, 6));
    assert_eq!(rational(2, 3).times(&rational(3, 4)), rational(1, 2));
    assert_eq!(rational(1, 2).over(&rational(1, 4)), Rational::from_u64(2));
    assert!(rational(1, 3).less(&rational(1, 2)));
    assert!(rational(-1, 3).is_negative());
    assert!(rational(0, 3).is_zero());
    assert!(!rational(0, 3).is_negative());
    assert_eq!(rational(6, 4).to_parts(), (natural(3), natural(2)));
    assert_eq!(Rational::new(&natural(6), &natural(4)), rational(3, 2));
    assert_eq!(Rational::from_natural(&natural(6)), Rational::from_u64(6));
}

#[test]
fn rationals_are_bytes() {
    let (numer, denom) = rational(-3, 2).to_signed_bytes();
    assert_eq!(Rational::from_signed_bytes(&numer, &denom), Some(rational(-3, 2)));
    assert_eq!(Rational::from_signed_bytes(&[1], &[0]), None);
    assert_eq!(Rational::from_signed_bytes(&[6], &[4]), Some(rational(3, 2)));
}

#[test]
fn decimals_have_a_point() {
    let parsed = Decimal::parse("-12.340").unwrap();
    assert_eq!((parsed.mantissa(), parsed.scale()), (-12340, 3));
    assert!(Decimal::parse("twelve").is_none());
    let sum = Decimal::new(15, 1).plus(&Decimal::new(25, 2)).unwrap();
    assert_eq!((sum.mantissa(), sum.scale()), (175, 2));
    let product = Decimal::new(15, 1).times(&Decimal::new(25, 2)).unwrap();
    assert_eq!((product.mantissa(), product.scale()), (375, 3));
    let quotient = Decimal::one().over(&Decimal::new(8, 0)).unwrap();
    assert_eq!((quotient.mantissa(), quotient.scale()), (125, 3));
    assert!(Decimal::one().over(&Decimal::zero()).is_none());
    assert!(Decimal::zero().is_zero());
    assert!(Decimal::from_i128_with_scale(1, MAX_SCALE + 1).is_none());
    assert!(Decimal::from_i128_with_scale(i128::MAX, 0).is_none());
    assert_eq!(Decimal::from_i128_with_scale(-7, 2).unwrap().mantissa(), -7);
    assert_eq!(power_of_ten(3), 1000);
    assert_eq!(decimal_to_rational(Decimal::new(-125, 2)), rational(-5, 4));
}

#[test]
fn names_are_kept_once() {
    let mut map: NameMap<String, u64> = NameMap::new();
    map.insert("b".to_string(), 1);
    map.insert("a".to_string(), 2);
    map.insert("b".to_string(), 3);
    assert_eq!(map.len(), 2);
    assert_eq!(map.get("b"), Some(&3));
    assert!(map.contains("a"));
    assert_eq!(map.remove("b"), Some(3));
    assert_eq!(map.remove("b"), None);
    assert_eq!(map.entries(), &[("a".to_string(), 2)]);
    assert_eq!(map.into_entries(), [("a".to_string(), 2)]);
}

#[test]
fn names_are_found_and_sorted() {
    let names: Vec<String> = ["b", "c", "a", "b"].iter().map(|name| name.to_string()).collect();
    assert_eq!(find_named(&names, "c"), Some(&"c".to_string()));
    assert_eq!(find_named(&names, "d"), None);
    assert_eq!(index_by_name(&names).get("b"), Some(&3));
    assert_eq!(sort_by_name(names), ["a", "b", "b", "c"]);
    assert!(str_equal("a", "a"));
    assert!(!str_equal("a", "b"));
}

#[test]
fn texts_are_joined() {
    assert_eq!(join("a", "b"), "ab");
    assert_eq!(between("(", "x", ")"), "(x)");
}
