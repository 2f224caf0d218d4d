use oracles::aggregator::{
    compute_payload, normalize_collateral_prices, Aggregator, ReportError, SyntheticConfiguration, Token, TokenQuote,
};
use oracles::decimal::Decimal;
use oracles::sources::source::Origin;

#[test]
fn should_not_panic_on_empty_input() {
    assert_eq!((vec![], 1), normalize_collateral_prices(&[]));
}

#[test]
fn should_normalize_numbers_with_same_decimal_count() {
    let prices = [Decimal::new(1337, 3), Decimal::new(9001, 3)];
    let (collateral_prices, denominator) = normalize_collateral_prices(&prices);
    assert_eq!((vec![1337, 9001], 1000), (collateral_prices, denominator));
}

#[test]
fn should_handle_decimals_with_different_scales() {
    let prices = [
        Decimal::new(2_000, 3),
        Decimal::new(4_000_000, 6),
        Decimal::new(6_000_000_000, 9),
    ];
    let (collateral_prices, denominator) = normalize_collateral_prices(&prices);
    assert_eq!((vec![2, 4, 6], 1), (collateral_prices, denominator));
}

#[test]
fn negative_prices_keep_only_their_lowest_bits() {
    let prices = [Decimal::new(-15, 1), Decimal::new(5, 1)];
    assert_eq!((vec![u64::MAX - 2, 1], 2), normalize_collateral_prices(&prices));
}

#[test]
fn payloads_are_named_after_their_token() {
    let config = SyntheticConfiguration { token: Token::USDT, collateral: vec![Token::SNEK] };
    let feed = compute_payload(&config, &[Decimal::new(25, 2)]);
    assert_eq!(feed.synthetic, "USDT");
    assert_eq!(feed.collateral_prices, vec![1]);
    assert_eq!(feed.denominator, 4);
}

fn quote(token: Token, origin: Origin, value: Decimal, relative_to: Token) -> TokenQuote {
    TokenQuote { token, origin, value, relative_to }
}

fn configs() -> Vec<SyntheticConfiguration> {
    vec![SyntheticConfiguration { token: Token::USDT, collateral: vec![Token::MIN, Token::SNEK] }]
}

#[test]
fn reports_average_prices_in_usdt() {
    let mut aggregator = Aggregator::new();
    assert!(aggregator.report(&configs()).is_none());

    aggregator.update(quote(Token::ADA, Origin::Binance, Decimal::new(5, 1), Token::USDT));
    assert_eq!(aggregator.report(&configs()).unwrap().unwrap_err(), ReportError::MissingPrice);

    aggregator.update(quote(Token::MIN, Origin::Maestro, Decimal::new(99, 0), Token::ADA));
    aggregator.update(quote(Token::MIN, Origin::Maestro, Decimal::new(4, 0), Token::ADA));
    aggregator.update(quote(Token::MIN, Origin::Binance, Decimal::new(4, 0), Token::USDT));
    aggregator.update(quote(Token::SNEK, Origin::Binance, Decimal::new(1, 0), Token::USDT));
    let feeds = aggregator.report(&configs()).unwrap().unwrap();
    assert_eq!(feeds.len(), 1);
    // MIN costs 2 at one source and 4 at the other
    assert_eq!((feeds[0].collateral_prices.clone(), feeds[0].denominator), (vec![3, 1], 1));

    aggregator.update(quote(Token::MIN, Origin::Binance, Decimal::new(4, 0), Token::SNEK));
    assert_eq!(aggregator.report(&configs()).unwrap().unwrap_err(), ReportError::Unit(Token::SNEK));
}

#[test]
fn reports_what_is_too_large() {
    let largest = Decimal::from_i128_with_scale(79_228_162_514_264_337_593_543_950_335, 0).unwrap();
    let mut aggregator = Aggregator::new();
    aggregator.update(quote(Token::ADA, Origin::Binance, Decimal::new(5, 0), Token::USDT));
    aggregator.update(quote(Token::MIN, Origin::Binance, largest, Token::ADA));
    assert_eq!(aggregator.report(&configs()).unwrap().unwrap_err(), ReportError::Overflow);
    aggregator.update(quote(Token::MIN, Origin::Binance, largest, Token::USDT));
    aggregator.update(quote(Token::SNEK, Origin::Binance, Decimal::new(1, 28), Token::USDT));
    assert_eq!(aggregator.report(&configs()).unwrap().unwrap_err(), ReportError::Overflow);
}
