use oracles::names::NameMap;
use oracles::network::NodeId;
use oracles::numbers::{Natural, Rational};
use oracles::price_feed::{
    GenericEntry, GenericPriceFeed, IntervalBound, IntervalBoundType, PriceData, Signed, SignedEntries, SyntheticEntry,
    SyntheticPriceData, SyntheticPriceFeed, Validity,
};
use oracles::raft::RaftLeader;
use oracles::signature_aggregator::messages::{Commitment, SignerMessage, SignerMessageData};
use oracles::signature_aggregator::payload::{find_end_of_entry_validity, PayloadTracker, Published, MAX_FAILURES, YEAR};
use oracles::signature_aggregator::price_instrumentation::{
    extract_collateral_names, extract_prices_from_feed, variance, PriceInstrumentation,
};
use oracles::signature_aggregator::signer::SignerEvent;

const NOW: u128 = 1_700_000_000_000_000_000;
const SECOND: u128 = 1_000_000_000;

fn node(name: &str) -> NodeId {
    NodeId::new(name.to_string())
}

fn feed(synthetic: &str, prices: &[u64]) -> SyntheticPriceFeed {
    SyntheticPriceFeed {
        collateral_names: Some(["A", "B"].iter().map(|name| name.to_string()).collect()),
        collateral_prices: prices.iter().map(|price| Natural::from_u64(*price)).collect(),
        synthetic: synthetic.to_string(),
        denominator: Natural::from_u64(1),
        validity: Validity::default(),
    }
}

fn entry(synthetic: &str, timestamp: Option<u128>, until: IntervalBoundType) -> SyntheticEntry {
    let mut feed = feed(synthetic, &[3, 4]);
    feed.validity.upper_bound = IntervalBound { bound_type: until, is_inclusive: false };
    SyntheticEntry { price: Rational::from_u64(2), feed: Signed { data: feed, signature: vec![1] }, timestamp }
}

fn generic(name: &str, timestamp: u128, price: u64) -> GenericEntry {
    GenericEntry {
        feed: Signed {
            data: GenericPriceFeed { price: Natural::from_u64(price), name: name.to_string(), timestamp: 1337 },
            signature: vec![2],
        },
        timestamp,
    }
}

fn tracker() -> PayloadTracker {
    PayloadTracker::new(node("me"), &vec!["USDb".to_string(), "BTCb".to_string()], NOW)
}

fn publish(tracker: &mut PayloadTracker, publisher: &str, synthetics: &[&str], now: u128) -> Published {
    let until = IntervalBoundType::Finite((now / 1_000_000) as u64 + 300_000);
    let synthetics = synthetics.iter().map(|synthetic| entry(synthetic, Some(now), until)).collect();
    tracker.publish(node(publisher), &SignedEntries { timestamp: now, synthetics, generics: vec![] }, now)
}

#[test]
fn entries_are_valid_until_a_moment() {
    let end = |until| find_end_of_entry_validity(&entry("USDb", None, until), NOW);
    assert_eq!(end(IntervalBoundType::NegativeInfinity), 0);
    assert_eq!(end(IntervalBoundType::Finite(5)), 5_000_000);
    assert_eq!(end(IntervalBoundType::PositiveInfinity), NOW + YEAR);
}

#[test]
fn the_latest_feeds_are_published() {
    let mut tracker = tracker();
    publish(&mut tracker, "them", &["USDb", "BTCb"], NOW);
    let published = publish(&mut tracker, "them", &["USDb"], NOW + SECOND);
    assert!(!published.should_abdicate);
    assert_eq!(published.payload.publisher, node("them"));
    assert_eq!(published.payload.timestamp, NOW + SECOND);
    assert_eq!(published.payload.synthetics.len(), 2);
    for entry in &published.payload.synthetics {
        assert_eq!(entry.timestamp, if entry.synthetic == "USDb" { NOW + SECOND } else { NOW });
        assert_eq!(entry.price, Rational::from_u64(2));
    }
}

#[test]
fn generic_feeds_are_published() {
    let mut tracker = tracker();
    let entries = |price, timestamp| SignedEntries {
        timestamp,
        synthetics: vec![],
        generics: vec![generic("ADA/USD#RAW", timestamp, price)],
    };
    tracker.publish(node("them"), &entries(1, NOW), NOW);
    let published = tracker.publish(node("them"), &entries(2, NOW + 1), NOW + 1);
    assert_eq!(published.payload.generics.len(), 1);
    assert_eq!(published.payload.generics[0].payload.data.price, Natural::from_u64(2));
    assert_eq!(published.payload.generics[0].timestamp, NOW + 1);
}

#[test]
fn leaders_give_up_after_too_many_failures() {
    let mut tracker = tracker();
    for i in 1..MAX_FAILURES {
        assert!(!publish(&mut tracker, "me", &["USDb"], NOW + i as u128).should_abdicate);
    }
    assert!(publish(&mut tracker, "me", &["USDb"], NOW + 10).should_abdicate);
}

#[test]
fn success_makes_up_for_failures() {
    let mut tracker = tracker();
    for i in 1..MAX_FAILURES {
        publish(&mut tracker, "me", &["USDb"], NOW + i as u128);
    }
    assert!(!publish(&mut tracker, "me", &["USDb", "BTCb"], NOW + 10).should_abdicate);
    assert!(!publish(&mut tracker, "me", &["USDb"], NOW + 11).should_abdicate);
}

#[test]
fn other_leaders_start_afresh() {
    let mut tracker = tracker();
    for i in 1..MAX_FAILURES {
        publish(&mut tracker, "me", &["USDb"], NOW + i as u128);
    }
    assert!(!publish(&mut tracker, "them", &["USDb"], NOW + 10).should_abdicate);
    assert!(!publish(&mut tracker, "me", &["USDb"], NOW + 11).should_abdicate);
}

#[test]
fn feeds_have_an_age() {
    let mut tracker = tracker();
    publish(&mut tracker, "them", &["USDb"], NOW);
    assert_eq!(tracker.feed_age("USDb", NOW + 2 * SECOND), Some((2000, true)));
    assert_eq!(tracker.feed_age("USDb", NOW + 300 * SECOND), Some((300_000, false)));
    assert_eq!(tracker.feed_age("SOLp", NOW), None);
}

fn prices(prices: &[u64]) -> PriceData {
    PriceData {
        synthetics: vec![SyntheticPriceData { price: Rational::from_u64(1), feed: feed("USDb", prices) }],
        generics: vec![],
    }
}

#[test]
fn variance_is_the_mean_square_distance() {
    let values: Vec<Rational> = [2, 4, 6].iter().map(|value| Rational::from_u64(*value)).collect();
    assert_eq!(variance(&values), Rational::from_i128(8, 3));
    assert!(variance(&values[..1]).is_zero());
}

#[test]
fn prices_are_taken_from_feeds() {
    let mut feed = feed("USDb", &[3, 4]);
    feed.denominator = Natural::from_u64(2);
    assert_eq!(extract_prices_from_feed(&feed), [Rational::from_i128(3, 2), Rational::from_u64(2)]);
    let names = extract_collateral_names(&prices(&[3, 4]).synthetics);
    assert_eq!(names.get("USDb"), Some(&vec!["A".to_string(), "B".to_string()]));
}

#[test]
fn variances_are_tracked_by_round() {
    let mut instrumentation = PriceInstrumentation::new();
    assert!(instrumentation.end_round().is_empty());
    assert!(instrumentation.begin_round("r", &prices(&[3, 4])).is_empty());
    instrumentation.track_prices("r", &[feed("USDb", &[5, 4])]);
    instrumentation.track_prices("other", &[feed("USDb", &[100, 100])]);
    let variances = instrumentation.end_round();
    assert_eq!(variances.len(), 2);
    assert_eq!(variances[0].synthetic, "USDb");
    assert_eq!(variances[0].collateral, "A");
    assert_eq!(variances[0].variance, Rational::from_u64(1));
    assert_eq!(variances[1].collateral, "B");
    assert!(variances[1].variance.is_zero());
    assert!(instrumentation.end_round().is_empty());
}

#[test]
fn new_rounds_end_old_ones() {
    let mut instrumentation = PriceInstrumentation::default();
    instrumentation.begin_round("r", &prices(&[3, 4]));
    assert_eq!(instrumentation.begin_round("s", &prices(&[3, 4])).len(), 2);
}

fn commitment(round: &str, feed: SyntheticPriceFeed) -> SignerEvent {
    let data = SignerMessageData::Commit(Commitment {
        identifier: vec![1],
        commitments: NameMap::new(),
        synthetic_feeds: vec![feed],
        generic_feeds: vec![],
    });
    SignerEvent::Message(node("them"), SignerMessage { round: round.to_string(), data })
}

#[test]
fn rounds_of_a_leader_are_observed() {
    let mut instrumentation = PriceInstrumentation::new();
    let mine = prices(&[3, 4]);
    let start = SignerEvent::RoundStarted("r".to_string());
    assert!(instrumentation.observe(false, &start, &mine).unwrap().is_empty());
    assert!(instrumentation.observe(true, &start, &mine).unwrap().is_empty());
    assert!(instrumentation.observe(true, &commitment("r", feed("USDb", &[5, 4])), &mine).unwrap().is_empty());
    assert!(instrumentation.observe(true, &commitment("q", feed("USDb", &[9, 9])), &mine).unwrap().is_empty());
    let end = SignerEvent::LeaderChanged(RaftLeader::Unknown);
    let variances = instrumentation.observe(true, &end, &mine).unwrap();
    assert_eq!(variances.len(), 2);
    assert_eq!(variances[0].variance, Rational::from_u64(1));
    assert!(variances[1].variance.is_zero());
    assert!(instrumentation.observe(false, &end, &mine).unwrap().is_empty());
}

#[test]
fn prices_without_denominator_or_name_are_not_observed() {
    let mut instrumentation = PriceInstrumentation::new();
    let start = SignerEvent::RoundStarted("r".to_string());
    assert!(instrumentation.observe(true, &start, &prices(&[3, 4, 5])).is_none());
    let mut unnamed = prices(&[3]);
    unnamed.synthetics[0].feed.collateral_names = None;
    assert!(instrumentation.observe(true, &start, &unnamed).is_none());
    assert!(instrumentation.observe(true, &start, &prices(&[3, 4])).is_some());
    let mut undivided = feed("USDb", &[3, 4]);
    undivided.denominator = Natural::from_u64(0);
    assert!(instrumentation.observe(true, &commitment("q", undivided.clone()), &prices(&[3, 4])).is_some());
    assert!(instrumentation.observe(true, &commitment("r", undivided), &prices(&[3, 4])).is_none());
}
