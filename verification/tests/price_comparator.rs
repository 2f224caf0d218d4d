use oracles::numbers::Natural;
use oracles::price_feed::{GenericPriceFeed, IntervalBound, IntervalBoundType, SyntheticPriceFeed, Validity};
use oracles::signature_aggregator::price_comparator::{
    are_bounds_close_enough, choose_generic_feeds_to_sign, choose_synth_feeds_to_sign, feeds_to_sign,
    should_sign_synth_feed, ComparisonResult,
};

fn synthetic_feed(
    synthetic: &str,
    collateral_names: &[&str],
    collateral_prices: &[u64],
    denominator: u64,
) -> SyntheticPriceFeed {
    SyntheticPriceFeed {
        collateral_names: Some(collateral_names.iter().map(|&s| s.to_string()).collect()),
        collateral_prices: collateral_prices
            .iter()
            .map(|&p| Natural::from_u64(p))
            .collect(),
        synthetic: synthetic.into(),
        denominator: Natural::from_u64(denominator),
        validity: Validity::default(),
    }
}

fn generic_feed(name: &str, price: u64) -> GenericPriceFeed {
    GenericPriceFeed {
        price: Natural::from_u64(price),
        name: name.to_string(),
        timestamp: 1337,
    }
}

#[test]
fn price_comparator_should_sign_close_enough_collateral_prices() {
    let leader_feed = vec![synthetic_feed("SYNTH", &["COLL"], &[2], 1)];
    let my_feed = vec![synthetic_feed("SYNTH", &["COLL"], &[199], 100)];

    let result = choose_synth_feeds_to_sign(&leader_feed, &my_feed);
    assert_eq!(result.len(), 1);
    assert!(matches!(result[0], ("SYNTH", ComparisonResult::Sign)));
}

#[test]
fn price_comparator_should_not_sign_distant_collateral_prices() {
    let leader_feed = vec![synthetic_feed("SYNTH", &["COLL"], &[2], 1)];
    let my_feed = vec![synthetic_feed("SYNTH", &["COLL"], &[3], 2)];

    let result = choose_synth_feeds_to_sign(&leader_feed, &my_feed);
    assert_eq!(result.len(), 1);
    assert!(matches!(
        result[0],
        ("SYNTH", ComparisonResult::DoNotSign(_))
    ));
}

#[test]
fn should_sign_close_enough_validity() {
    const TIMESTAMP: u64 = 1712723729359;
    let mut leader_price = synthetic_feed("SYNTH", &["COLL"], &[1], 1);
    leader_price.validity = Validity {
        lower_bound: IntervalBound::unix_timestamp(TIMESTAMP, true),
        upper_bound: IntervalBound::unix_timestamp(TIMESTAMP + 3000000, true),
    };
    let leader_feed = vec![leader_price];
    let mut my_price = synthetic_feed("SYNTH", &["COLL"], &[1], 1);
    my_price.validity = Validity {
        lower_bound: IntervalBound::unix_timestamp(TIMESTAMP + 5000, true),
        upper_bound: IntervalBound::unix_timestamp(TIMESTAMP + 3005000, true),
    };
    let my_feed = vec![my_price];

    let result = choose_synth_feeds_to_sign(&leader_feed, &my_feed);
    assert_eq!(result.len(), 1);
    assert!(matches!(result[0], ("SYNTH", ComparisonResult::Sign)));
}

#[test]
fn should_not_sign_distant_validity() {
    const TIMESTAMP: u64 = 1712723729359;
    let mut leader_price = synthetic_feed("SYNTH", &["COLL"], &[1], 1);
    leader_price.validity = Validity {
        lower_bound: IntervalBound::unix_timestamp(TIMESTAMP, true),
        upper_bound: IntervalBound::unix_timestamp(TIMESTAMP + 3000000, true),
    };
    let leader_feed = vec![leader_price];
    let mut my_price = synthetic_feed("SYNTH", &["COLL"], &[1], 1);
    my_price.validity = Validity {
        lower_bound: IntervalBound::unix_timestamp(TIMESTAMP + 5000000, true),
        upper_bound: IntervalBound::unix_timestamp(TIMESTAMP + 8000000, true),
    };
    let my_feed = vec![my_price];

    let result = choose_synth_feeds_to_sign(&leader_feed, &my_feed);
    assert_eq!(result.len(), 1);
    assert!(matches!(
        result[0],
        ("SYNTH", ComparisonResult::DoNotSign(_))
    ));
}

#[test]
fn price_comparator_should_sign_close_enough_generic_prices() {
    let leader_feed = vec![generic_feed("ADA/USD#RAW", 1000000)];
    let my_feed = vec![generic_feed("ADA/USD#RAW", 1010000)];

    let result = choose_generic_feeds_to_sign(&leader_feed, &my_feed);
    assert_eq!(result.len(), 1);
    assert!(matches!(result[0], ("ADA/USD#RAW", ComparisonResult::Sign)));
}

#[test]
fn price_comparator_should_not_sign_distant_generic_prices() {
    let leader_feed = vec![generic_feed("ADA/USD#RAW", 1000000)];
    let my_feed = vec![generic_feed("ADA/USD#RAW", 2000000)];

    let result = choose_generic_feeds_to_sign(&leader_feed, &my_feed);
    assert_eq!(result.len(), 1);
    assert!(matches!(
        result[0],
        ("ADA/USD#RAW", ComparisonResult::DoNotSign(_))
    ));
}

#[test]
fn should_sign_close_enough_timestamp() {
    const TIMESTAMP: u64 = 1712723729359;
    let mut leader_price = generic_feed("ADA/USD#RAW", 1000000);
    leader_price.timestamp = TIMESTAMP;
    let leader_feed = vec![leader_price];

    let mut my_price = generic_feed("ADA/USD#RAW", 1000000);
    my_price.timestamp = TIMESTAMP + 5000;
    let my_feed = vec![my_price];

    let result = choose_generic_feeds_to_sign(&leader_feed, &my_feed);
    assert_eq!(result.len(), 1);
    assert!(matches!(result[0], ("ADA/USD#RAW", ComparisonResult::Sign)));
}

#[test]
fn should_not_sign_distant_timestmap() {
    const TIMESTAMP: u64 = 1712723729359;
    let mut leader_price = generic_feed("ADA/USD#RAW", 1000000);
    leader_price.timestamp = TIMESTAMP;
    let leader_feed = vec![leader_price];

    let mut my_price = generic_feed("ADA/USD#RAW", 1000000);
    my_price.timestamp = TIMESTAMP + 5000000;
    let my_feed = vec![my_price];

    let result = choose_generic_feeds_to_sign(&leader_feed, &my_feed);
    assert_eq!(result.len(), 1);
    assert!(matches!(
        result[0],
        ("ADA/USD#RAW", ComparisonResult::DoNotSign(_))
    ));
}

fn reason(result: ComparisonResult) -> String {
    match result {
        ComparisonResult::Sign => panic!("would sign"),
        ComparisonResult::DoNotSign(reason) => reason,
    }
}

#[test]
fn refusals_say_what_is_different() {
    let leader = synthetic_feed("SYNTH", &["COLL"], &[2], 1);
    assert_eq!(
        reason(should_sign_synth_feed(&leader, &synthetic_feed("SYNTH", &["COLL"], &[3], 2))),
        "collateral prices (SYNTH per COLL) are too distant: leader has 2/1, we have 3/2"
    );
    assert!(reason(should_sign_synth_feed(&leader, &synthetic_feed("OTHER", &["COLL"], &[2], 1)))
        .starts_with("mismatched synthetics"));
    assert!(matches!(should_sign_synth_feed(&leader, &leader), ComparisonResult::Sign));
}

#[test]
fn closeness_does_not_depend_on_who_leads() {
    for (a, b) in [(100, 101), (100, 102), (1, 1000), (99, 100)] {
        let x = [synthetic_feed("SYNTH", &["COLL"], &[a], 7)];
        let y = [synthetic_feed("SYNTH", &["COLL"], &[b], 7)];
        let there = matches!(choose_synth_feeds_to_sign(&x, &y)[0].1, ComparisonResult::Sign);
        let back = matches!(choose_synth_feeds_to_sign(&y, &x)[0].1, ComparisonResult::Sign);
        assert_eq!(there, back);
    }
}

#[test]
fn bounds_may_be_61_seconds_apart() {
    let at = |ms| IntervalBound::unix_timestamp(ms, true);
    assert!(are_bounds_close_enough(&at(0), &at(61_000)));
    assert!(are_bounds_close_enough(&at(61_000), &at(0)));
    assert!(!are_bounds_close_enough(&at(0), &at(61_001)));
    assert!(!are_bounds_close_enough(&at(61_001), &at(0)));
    let infinite = IntervalBound { bound_type: IntervalBoundType::PositiveInfinity, is_inclusive: true };
    assert!(are_bounds_close_enough(&infinite, &infinite));
    assert!(!are_bounds_close_enough(&infinite, &at(0)));
}

#[test]
fn feeds_of_only_one_side_are_not_signed() {
    let leader = [generic_feed("A", 100), generic_feed("B", 100)];
    let mine = [generic_feed("B", 100), generic_feed("C", 100)];
    assert_eq!(feeds_to_sign(&leader, &mine), vec!["B".to_string()]);
    let results = choose_generic_feeds_to_sign(&leader, &mine);
    assert_eq!(results.iter().map(|r| r.0).collect::<Vec<_>>(), vec!["A", "B", "C"]);
}

#[test]
fn generic_agreement_is_mutual() {
    for (a, b, agreed) in [(100, 101, true), (100, 102, false), (7, 7, true)] {
        let x = [generic_feed("A", a)];
        let y = [generic_feed("A", b)];
        assert_eq!(feeds_to_sign(&x, &y).len() == 1, agreed);
        assert_eq!(feeds_to_sign(&y, &x).len() == 1, agreed);
    }
}
