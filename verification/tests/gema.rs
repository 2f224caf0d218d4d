use oracles::numbers::{Natural, Rational};
use oracles::price_aggregator::gema::{compute_part, GemaCalculator};

const SECOND: u128 = 1_000_000_000;

fn rational(numer: i128, denom: u128) -> Rational {
    Rational::from_i128(numer, denom)
}

fn duration_in_seconds(nanos: u128) -> f64 {
    nanos as f64 / 1e9
}

// The weight of the previous price, and the exact fraction that a float between zero and two stands for.
fn weight(calculator: &GemaCalculator, time_elapsed: u128) -> Rational {
    let rounds = (duration_in_seconds(time_elapsed) / duration_in_seconds(calculator.round_duration())).round();
    let factor = 2.0 / (calculator.periods() as f64 + rounds + 1.0).max(2.0);
    let bits = factor.to_bits();
    let exponent = (bits >> 52) as i32 - 1075;
    let mantissa = (bits & ((1 << 52) - 1)) | (1 << 52);
    Rational::from_i128(mantissa as i128, 1u128 << -exponent)
}

#[test]
fn should_only_smooth_increased_prices() {
    let periods = 2;
    let round_duration = 5 * SECOND;
    let calculator = GemaCalculator::new(periods, round_duration);

    let prev_prices = vec![rational(1, 1), rational(1, 1)];
    let curr_prices = vec![rational(2, 1), rational(1, 2)];

    let weight = weight(&calculator, round_duration);
    let prices = calculator.smooth_synthetic_price(Some(&weight), &prev_prices, curr_prices);
    assert_eq!(prices, vec![rational(3, 2), rational(1, 2)]);
}

#[test]
fn should_count_rounds_based_on_time_elapsed() {
    let periods = 2;
    let round_duration = 5 * SECOND;
    let calculator = GemaCalculator::new(periods, round_duration);

    let prev_prices = vec![rational(1, 1), rational(1, 1)];
    let curr_prices = vec![rational(2, 1), rational(1, 2)];

    // both these durations round to 5 seconds (one round)
    let prices_4sec = calculator.smooth_synthetic_price(
        Some(&weight(&calculator, 4 * SECOND)),
        &prev_prices,
        curr_prices.clone(),
    );
    let prices_6sec = calculator.smooth_synthetic_price(
        Some(&weight(&calculator, 6 * SECOND)),
        &prev_prices,
        curr_prices.clone(),
    );
    assert_eq!(prices_4sec, prices_6sec);

    // this duration rounds to 10 seconds (two rounds),
    // so we should assume that we missed a round and not smooth as much
    let prices_8sec =
        calculator.smooth_synthetic_price(Some(&weight(&calculator, 8 * SECOND)), &prev_prices, curr_prices);
    assert!(prices_6sec[0].less(&prices_8sec[0]));
}

#[test]
fn should_smooth_individual_price() {
    let periods = 2;
    let round_duration = 5 * SECOND;
    let calculator = GemaCalculator::new(periods, round_duration);

    let prev_price = Natural::from_u64(1000000);
    let curr_price = Natural::from_u64(2000000);

    let price = calculator.smooth_price(Some(&weight(&calculator, round_duration)), &prev_price, curr_price);
    assert_eq!(price, Natural::from_u64(1500000));
}

#[test]
fn prices_of_other_collateral_are_not_smoothed() {
    let calculator = GemaCalculator::new(2, 5 * SECOND);
    let prices = calculator.smooth_synthetic_price(Some(&rational(1, 2)), &[], vec![rational(2, 1)]);
    assert_eq!(prices, vec![rational(2, 1)]);
    let prices = calculator.smooth_synthetic_price(None, &[rational(1, 1)], vec![rational(2, 1)]);
    assert_eq!(prices, vec![rational(2, 1)]);
}

#[test]
fn falling_whole_prices_are_followed_at_once() {
    let calculator = GemaCalculator::new(2, 5 * SECOND);
    let price = |weight: Option<&Rational>, prev: u64, now: u64| {
        calculator.smooth_price(weight, &Natural::from_u64(prev), Natural::from_u64(now))
    };
    let half = rational(1, 2);
    assert_eq!(price(Some(&half), 100, 99), Natural::from_u64(99));
    assert_eq!(price(Some(&rational(2, 3)), 100, 200), Natural::from_u64(132));
    assert_eq!(price(Some(&rational(3, 2)), 100, 200), Natural::from_u64(200));
    assert_eq!(price(None, 100, 200), Natural::from_u64(200));
}

#[test]
fn parts_are_rounded_down() {
    assert_eq!(compute_part(&Natural::from_u64(10), &rational(1, 3)), Natural::from_u64(3));
    assert_eq!(compute_part(&Natural::from_u64(10), &rational(0, 3)), Natural::from_u64(0));
}

#[test]
fn whole_prices_are_never_smoothed_upwards() {
    let calculator = GemaCalculator::new(2, 5 * SECOND);
    for (weight, prev, now, expected) in [(rational(1, 3), 10, 10, 9), (rational(1, 3), 10, 11, 10), (rational(0, 1), 5, 9, 9)] {
        let price = calculator.smooth_price(Some(&weight), &Natural::from_u64(prev), Natural::from_u64(now));
        assert_eq!(price, Natural::from_u64(expected));
    }
}
