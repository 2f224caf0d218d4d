use oracles::numbers::{Natural, Rational};
use oracles::price_aggregator::normalization::{normalize, restrict_output_size};

fn natural(value: u128) -> Natural {
    Natural::from_u128(value)
}

fn power_of_two(exponent: usize) -> Natural {
    let mut bytes = vec![0u8; exponent / 8 + 1];
    bytes[0] = 1 << (exponent % 8);
    Natural::from_bytes_be(&bytes)
}

fn decimal_rational(value: u128, scale: u32) -> Rational {
    Rational::new(&natural(value), &natural(10u128.pow(scale)))
}

#[test]
fn normalize_should_not_panic_on_empty_input() {
    assert_eq!((vec![], natural(1)), normalize(&[], 1024));
}

#[test]
fn normalize_should_compute_gcd() {
    let prices = [decimal_rational(5526312, 7), decimal_rational(1325517, 6)];
    let (collateral_prices, denominator) = normalize(&prices, 1024);
    assert_eq!(
        (vec![natural(2763156), natural(6627585)], natural(5000000)),
        (collateral_prices, denominator)
    );
}

#[test]
fn normalize_should_normalize_numbers_with_same_decimal_count() {
    let prices = [decimal_rational(1337, 3), decimal_rational(9001, 3)];
    let (collateral_prices, denominator) = normalize(&prices, 1024);
    assert_eq!((vec![natural(1337), natural(9001)], natural(1000)), (collateral_prices, denominator));
}

#[test]
fn normalize_should_handle_decimals_with_different_scales() {
    let prices = [
        decimal_rational(2_000, 3),
        decimal_rational(4_000_000, 6),
        decimal_rational(6_000_000_000, 9),
    ];
    let (collateral_prices, denominator) = normalize(&prices, 1024);
    assert_eq!((vec![natural(2), natural(4), natural(6)], natural(1)), (collateral_prices, denominator));
}

#[test]
fn normalize_should_restrict_output_to_at_most_128_bytes() {
    let prices = [
        Rational::new(&natural(2), &power_of_two(1024)),
        Rational::new(&natural(3), &power_of_two(1024)),
        Rational::new(&natural(4), &power_of_two(1024)),
    ];
    let (collateral_prices, denominator) = normalize(&prices, 1024);
    assert_eq!(
        (vec![natural(1), natural(1), natural(2)], power_of_two(1023)),
        (collateral_prices, denominator),
    );
}

#[test]
fn restrict_output_size_should_round_numerator_down_and_denominator_up() {
    let mut numerators = vec![natural(0b1001)];
    let mut denominator = natural(0b1001);
    restrict_output_size(&mut numerators, &mut denominator, 3);
    assert_eq!(numerators, vec![natural(0b100)]);
    assert_eq!(denominator, natural(0b101));
}

#[test]
fn restrict_output_size_should_not_round_denominator_up_when_only_zeroes_were_truncated() {
    let mut numerators = vec![natural(0b1001)];
    let mut denominator = natural(0b1000);
    restrict_output_size(&mut numerators, &mut denominator, 3);
    assert_eq!(numerators, vec![natural(0b100)]);
    assert_eq!(denominator, natural(0b100));
}

#[test]
fn numbers_that_fit_are_not_cut() {
    let mut numerators = vec![natural(0b111), natural(0)];
    let mut denominator = natural(0b101);
    restrict_output_size(&mut numerators, &mut denominator, 3);
    assert_eq!(numerators, vec![natural(0b111), natural(0)]);
    assert_eq!(denominator, natural(0b101));
}

#[test]
fn what_is_left_fits() {
    for max_bits in 1..12u64 {
        let mut numerators = vec![natural(0b1011_0110_1001), natural(3)];
        let mut denominator = natural(0b1_1110_0000_0001);
        restrict_output_size(&mut numerators, &mut denominator, max_bits);
        assert!(numerators.iter().all(|n| n.bits() <= max_bits));
        assert!(denominator.bits() <= max_bits);
    }
}

#[test]
fn denominators_are_rounded_up() {
    let mut denominator = natural(0b1011);
    restrict_output_size(&mut vec![], &mut denominator, 3);
    assert_eq!(denominator, natural(0b110));
}

#[test]
fn denominators_that_grow_by_rounding_lose_one_more_bit() {
    let mut numerators = vec![natural(0b1001)];
    let mut denominator = natural(0b1111);
    restrict_output_size(&mut numerators, &mut denominator, 3);
    assert_eq!(numerators, vec![natural(0b10)]);
    assert_eq!(denominator, natural(0b100));
}

#[test]
fn without_bits_only_a_denominator_is_left() {
    let mut numerators = vec![natural(0b1001)];
    let mut denominator = natural(0b1111);
    restrict_output_size(&mut numerators, &mut denominator, 0);
    assert_eq!(numerators, vec![natural(0)]);
    assert_eq!(denominator, natural(1));
}
