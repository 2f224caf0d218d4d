use oracles::config::{CollateralConfig, SyntheticConfig};
use oracles::decimal::Decimal;
use oracles::numbers::{Natural, Rational};
use oracles::price_aggregator::conversions::{Evaluation, TokenPrice, TokenPriceConverter, TokenPriceSource};
use oracles::sources::source::PriceInfo;

fn decimal_rational(value: u64, scale: u32) -> Rational {
    Rational::new(&Natural::from_u64(value), &Natural::from_u64(10u64.pow(scale)))
}

fn simple_rational(numer: u64, denom: u64) -> Rational {
    Rational::new(&Natural::from_u64(numer), &Natural::from_u64(denom))
}

fn default_threshold() -> Rational {
    simple_rational(1, 10)
}

fn make_default_price(token: &str, value: Rational) -> TokenPrice {
    TokenPrice {
        token: token.into(),
        unit: "USD".into(),
        value: value.clone(),
        sources: vec![TokenPriceSource {
            name: "Hard-coded default value".into(),
            value,
            reliability: Rational::from_u64(1),
        }],
    }
}

const MULTIFEED_BACKING_CURRENCIES: usize = 3;

fn make_synthetics() -> Vec<SyntheticConfig> {
    vec![
        SyntheticConfig {
            name: "USDb".into(),
            backing_currencies: vec!["USD".into()],
            invert: false,
            digits: 6,
            collateral: CollateralConfig::List(vec![]),
        },
        SyntheticConfig {
            name: "BTCb".into(),
            backing_currencies: vec!["BTC".into()],
            invert: false,
            digits: 8,
            collateral: CollateralConfig::List(vec![]),
        },
        SyntheticConfig {
            name: "SOLp".into(),
            backing_currencies: vec!["SOL".into()],
            invert: true,
            digits: 9,
            collateral: CollateralConfig::List(vec![]),
        },
        SyntheticConfig {
            name: "MULTI".into(),
            backing_currencies: (0..MULTIFEED_BACKING_CURRENCIES)
                .map(|i| format!("COL{i}"))
                .collect(),
            invert: false,
            digits: 6,
            collateral: CollateralConfig::List(vec![]),
        },
    ]
}

fn make_default_prices() -> Vec<TokenPrice> {
    vec![
        make_default_price("ADA", decimal_rational(6, 1)),
        make_default_price("BTC", decimal_rational(58262, 0)),
        make_default_price("LENFI", decimal_rational(379, 2)),
        make_default_price("USDT", Rational::from_u64(1)),
    ]
}

#[test]
fn value_in_usd_should_return_1_for_usd() {
    let source_prices: Vec<(String, PriceInfo)> = vec![];
    let default_prices: Vec<TokenPrice> = vec![];
    let synthetics = make_synthetics();
    let converter = TokenPriceConverter::new(
        &source_prices,
        &default_prices,
        &synthetics,
        default_threshold(),
    );

    assert_eq!(converter.value_in_usd("USD"), Some(Rational::from_u64(1)));
}

#[test]
fn value_in_usd_should_return_defaults() {
    let source_prices: Vec<(String, PriceInfo)> = vec![];
    let default_prices = make_default_prices();
    let synthetics = make_synthetics();
    let converter = TokenPriceConverter::new(
        &source_prices,
        &default_prices,
        &synthetics,
        default_threshold(),
    );

    assert_eq!(converter.value_in_usd("ADA"), Some(decimal_rational(6, 1)));
}

#[test]
fn value_in_usd_should_return_none_when_values_are_missing() {
    let source_prices: Vec<(String, PriceInfo)> = vec![];
    let default_prices: Vec<TokenPrice> = vec![];
    let synthetics = make_synthetics();
    let converter = TokenPriceConverter::new(
        &source_prices,
        &default_prices,
        &synthetics,
        default_threshold(),
    );

    assert_eq!(converter.value_in_usd("ADA"), None);
}

#[test]
fn value_in_usd_should_return_value_from_source() {
    let source_prices: Vec<(String, PriceInfo)> = vec![(
        "Source".into(),
        PriceInfo {
            token: "BTC".into(),
            unit: "USD".into(),
            value: Decimal::new(60000, 0),
            reliability: Decimal::one(),
        },
    )];
    let default_prices: Vec<TokenPrice> = vec![];
    let synthetics = make_synthetics();
    let converter = TokenPriceConverter::new(
        &source_prices,
        &default_prices,
        &synthetics,
        default_threshold(),
    );

    assert_eq!(
        converter.value_in_usd("BTC"),
        Some(decimal_rational(60000, 0))
    );
}

#[test]
fn value_in_usd_should_average_prices() {
    let source_prices: Vec<(String, PriceInfo)> = vec![
        (
            "Word on the street".into(),
            PriceInfo {
                token: "BTC".into(),
                unit: "USD".into(),
                value: Decimal::new(70000, 0),
                reliability: Decimal::one(),
            },
        ),
        (
            "My gut".into(),
            PriceInfo {
                token: "BTC".into(),
                unit: "USD".into(),
                value: Decimal::new(80000, 0),
                reliability: Decimal::one(),
            },
        ),
    ];
    let default_prices: Vec<TokenPrice> = vec![];
    let synthetics = make_synthetics();
    let converter = TokenPriceConverter::new(
        &source_prices,
        &default_prices,
        &synthetics,
        default_threshold(),
    );

    assert_eq!(
        converter.value_in_usd("BTC"),
        Some(decimal_rational(75000, 0))
    );
}

#[test]
fn value_in_usd_should_weight_prices() {
    let source_prices: Vec<(String, PriceInfo)> = vec![
        (
            "Vibes".into(),
            PriceInfo {
                token: "BTC".into(),
                unit: "USD".into(),
                value: Decimal::new(100, 0),
                reliability: Decimal::one(),
            },
        ),
        (
            "My uncle".into(),
            PriceInfo {
                token: "BTC".into(),
                unit: "USD".into(),
                value: Decimal::new(200, 0),
                reliability: Decimal::new(3, 0),
            },
        ),
    ];
    let default_prices: Vec<TokenPrice> = vec![];
    let synthetics: Vec<SyntheticConfig> = vec![];
    let converter = TokenPriceConverter::new(
        &source_prices,
        &default_prices,
        &synthetics,
        default_threshold(),
    );

    assert_eq!(
        converter.value_in_usd("BTC"),
        Some(decimal_rational(175, 0))
    );
}

#[test]
fn value_in_usd_should_convert_prices_in_ada_using_default_ada_price() {
    let source_prices: Vec<(String, PriceInfo)> = vec![(
        "someone".into(),
        PriceInfo {
            token: "LENFI".into(),
            unit: "ADA".into(),
            value: Decimal::new(10000, 0),
            reliability: Decimal::one(),
        },
    )];
    let default_prices = make_default_prices();
    let synthetics = make_synthetics();
    let converter = TokenPriceConverter::new(
        &source_prices,
        &default_prices,
        &synthetics,
        default_threshold(),
    );

    assert_eq!(
        converter.value_in_usd("LENFI"),
        Some(decimal_rational(6000, 0))
    );
}

#[test]
fn value_in_usd_should_not_convert_prices_in_ada_when_ada_price_not_known() {
    let source_prices: Vec<(String, PriceInfo)> = vec![(
        "someone".into(),
        PriceInfo {
            token: "LENFI".into(),
            unit: "ADA".into(),
            value: Decimal::new(10000, 0),
            reliability: Decimal::one(),
        },
    )];
    let default_prices: Vec<TokenPrice> = vec![];
    let synthetics = make_synthetics();
    let converter = TokenPriceConverter::new(
        &source_prices,
        &default_prices,
        &synthetics,
        default_threshold(),
    );

    assert_eq!(converter.value_in_usd("LENFI"), None);
}

#[test]
fn value_in_usd_should_convert_prices_in_ada_using_ada_price_from_api() {
    let source_prices: Vec<(String, PriceInfo)> = vec![
        (
            "price for ada".into(),
            PriceInfo {
                token: "ADA".into(),
                unit: "USD".into(),
                value: Decimal::new(3, 1),
                reliability: Decimal::one(),
            },
        ),
        (
            "price for anything else".into(),
            PriceInfo {
                token: "LENFI".into(),
                unit: "ADA".into(),
                value: Decimal::new(10000, 0),
                reliability: Decimal::one(),
            },
        ),
    ];
    let default_prices: Vec<TokenPrice> = vec![];
    let synthetics = make_synthetics();
    let converter = TokenPriceConverter::new(
        &source_prices,
        &default_prices,
        &synthetics,
        default_threshold(),
    );

    assert_eq!(
        converter.value_in_usd("LENFI"),
        Some(decimal_rational(3000, 0))
    );
}

#[test]
fn value_in_usd_should_convert_prices_in_usdt_using_default_usdt_price() {
    let source_prices: Vec<(String, PriceInfo)> = vec![(
        "someone".into(),
        PriceInfo {
            token: "BTC".into(),
            unit: "USDT".into(),
            value: Decimal::new(5000, 0),
            reliability: Decimal::one(),
        },
    )];
    let default_prices = make_default_prices();
    let synthetics = make_synthetics();
    let converter = TokenPriceConverter::new(
        &source_prices,
        &default_prices,
        &synthetics,
        default_threshold(),
    );

    assert_eq!(
        converter.value_in_usd("BTC"),
        Some(decimal_rational(5000, 0))
    );
}

#[test]
fn value_in_usd_should_not_convert_prices_in_usdt_when_usdt_price_not_known() {
    let source_prices: Vec<(String, PriceInfo)> = vec![(
        "someone".into(),
        PriceInfo {
            token: "BTC".into(),
            unit: "USDT".into(),
            value: Decimal::new(5000, 0),
            reliability: Decimal::one(),
        },
    )];
    let default_prices: Vec<TokenPrice> = vec![];
    let synthetics = make_synthetics();
    let converter = TokenPriceConverter::new(
        &source_prices,
        &default_prices,
        &synthetics,
        default_threshold(),
    );

    assert_eq!(converter.value_in_usd("BTC"), None);
}

#[test]
fn value_in_usd_should_convert_prices_in_usdt_using_usdt_price_from_api() {
    let source_prices: Vec<(String, PriceInfo)> = vec![
        (
            "price for usdt".into(),
            PriceInfo {
                token: "USDT".into(),
                unit: "USD".into(),
                value: Decimal::new(1005, 3),
                reliability: Decimal::one(),
            },
        ),
        (
            "price for anything else".into(),
            PriceInfo {
                token: "BTC".into(),
                unit: "USDT".into(),
                value: Decimal::new(5000, 0),
                reliability: Decimal::one(),
            },
        ),
    ];
    let default_prices = make_default_prices();
    let synthetics = make_synthetics();
    let converter = TokenPriceConverter::new(
        &source_prices,
        &default_prices,
        &synthetics,
        default_threshold(),
    );

    assert_eq!(
        converter.value_in_usd("BTC"),
        Some(decimal_rational(5025, 0))
    );
}

#[test]
fn value_in_usd_should_average_prices_in_different_currencies() {
    let source_prices: Vec<(String, PriceInfo)> = vec![
        (
            "price for usdt".into(),
            PriceInfo {
                token: "USDT".into(),
                unit: "USD".into(),
                value: Decimal::new(1005, 3),
                reliability: Decimal::one(),
            },
        ),
        (
            "price for BTC in USD".into(),
            PriceInfo {
                token: "BTC".into(),
                unit: "USD".into(),
                value: Decimal::new(5000, 0),
                reliability: Decimal::one(),
            },
        ),
        (
            "price for BTC in USDT".into(),
            PriceInfo {
                token: "BTC".into(),
                unit: "USDT".into(),
                value: Decimal::new(5000, 0),
                reliability: Decimal::one(),
            },
        ),
    ];
    let default_prices: Vec<TokenPrice> = vec![];
    let synthetics = make_synthetics();
    let converter = TokenPriceConverter::new(
        &source_prices,
        &default_prices,
        &synthetics,
        default_threshold(),
    );

    assert_eq!(
        converter.value_in_usd("BTC"),
        Some(decimal_rational(50125, 1))
    );
}

#[test]
fn value_in_usd_should_return_value_of_underlying_currency_for_synthetics() {
    let source_prices: Vec<(String, PriceInfo)> = vec![(
        "price for BTC".into(),
        PriceInfo {
            token: "BTC".into(),
            unit: "USD".into(),
            value: Decimal::new(9001, 0),
            reliability: Decimal::one(),
        },
    )];
    let default_prices: Vec<TokenPrice> = vec![];
    let synthetics = make_synthetics();
    let converter = TokenPriceConverter::new(
        &source_prices,
        &default_prices,
        &synthetics,
        default_threshold(),
    );

    assert_eq!(
        converter.value_in_usd("BTCb"),
        Some(decimal_rational(9001, 0))
    );
}

#[test]
fn value_in_usd_should_invert_value_of_underlying_currency_for_solp() {
    let source_prices: Vec<(String, PriceInfo)> = vec![(
        "price for SOL".into(),
        PriceInfo {
            token: "SOL".into(),
            unit: "USD".into(),
            value: Decimal::new(4, 0),
            reliability: Decimal::one(),
        },
    )];
    let default_prices: Vec<TokenPrice> = vec![];
    let synthetics = make_synthetics();
    let converter = TokenPriceConverter::new(
        &source_prices,
        &default_prices,
        &synthetics,
        default_threshold(),
    );

    // SOL is 4, so SOLp is 1/4
    assert_eq!(
        converter.value_in_usd("SOLp"),
        Some(decimal_rational(25, 2))
    );
}

fn synthetic_multifeed_test(
    prices: impl IntoIterator<Item = i64>,
    result: Option<Rational>,
) {
    let source_prices: Vec<_> = prices
        .into_iter()
        .enumerate()
        .map(|(i, price)| {
            let label = format!("price {i}");
            let value = PriceInfo {
                token: format!("COL{i}"),
                unit: "USD".into(),
                value: Decimal::new(price, 0),
                reliability: Decimal::one(),
            };
            (label, value)
        })
        .collect();
    assert!(source_prices.len() <= MULTIFEED_BACKING_CURRENCIES);
    let default_prices: Vec<TokenPrice> = vec![];
    let synthetics = make_synthetics();
    let converter = TokenPriceConverter::new(
        &source_prices,
        &default_prices,
        &synthetics,
        default_threshold(),
    );
    assert_eq!(converter.value_in_usd("MULTI"), result);
}

#[test]
fn value_in_usd_multifeed_should_use_average_of_three_prices() {
    synthetic_multifeed_test([100, 105, 108], Some(simple_rational(313, 3)));
}

#[test]
fn value_in_usd_multifeed_should_ignore_very_divergent_third_price() {
    synthetic_multifeed_test([100, 105, 120], Some(simple_rational(205, 2)));
}

#[test]
fn value_in_usd_multifeed_should_use_average_of_two_nearby_prices() {
    synthetic_multifeed_test([100, 105], Some(simple_rational(205, 2)));
}

#[test]
fn value_in_usd_multifeed_should_not_report_price_when_two_prices_diverge() {
    synthetic_multifeed_test([100, 120], None);
}

#[test]
fn value_in_usd_multifeed_should_use_single_reported_price() {
    synthetic_multifeed_test([100], Some(simple_rational(100, 1)));
}

#[test]
fn value_in_usd_multifeed_should_gracefully_handle_no_prices() {
    synthetic_multifeed_test([], None);
}

#[test]
fn value_in_usd_multifeed_should_use_median_price_when_everything_diverges() {
    synthetic_multifeed_test([100, 120, 140], Some(simple_rational(120, 1)));
}

#[test]
fn token_prices_should_include_all_alphabetized_sources() {
    let source_prices: Vec<(String, PriceInfo)> = vec![
        (
            "ADA source".into(),
            PriceInfo {
                token: "ADA".into(),
                unit: "USD".into(),
                value: Decimal::new(5235, 4),
                reliability: Decimal::one(),
            },
        ),
        (
            "LENFI source 1".into(),
            PriceInfo {
                token: "LENFI".into(),
                unit: "ADA".into(),
                value: Decimal::new(5000, 0),
                reliability: Decimal::one(),
            },
        ),
        (
            "LENFI source 2".into(),
            PriceInfo {
                token: "LENFI".into(),
                unit: "ADA".into(),
                value: Decimal::new(15000, 0),
                reliability: Decimal::one(),
            },
        ),
    ];
    let default_prices: Vec<TokenPrice> = vec![];
    let synthetics = make_synthetics();
    let converter = TokenPriceConverter::new(
        &source_prices,
        &default_prices,
        &synthetics,
        default_threshold(),
    );

    let prices = converter.token_prices();
    let lenfi_prices: Vec<_> = prices.into_iter().filter(|p| p.token == "LENFI").collect();
    assert_eq!(
        lenfi_prices,
        vec![TokenPrice {
            token: "LENFI".into(),
            unit: "ADA".into(),
            value: decimal_rational(10000, 0),
            sources: vec![
                TokenPriceSource {
                    name: "LENFI source 1".into(),
                    value: decimal_rational(5000, 0),
                    reliability: Rational::from_u64(1),
                },
                TokenPriceSource {
                    name: "LENFI source 2".into(),
                    value: decimal_rational(15000, 0),
                    reliability: Rational::from_u64(1),
                }
            ]
        }]
    );
}

#[test]
fn token_prices_should_include_defaults_if_no_explicit_prices_were_found() {
    let source_prices: Vec<(String, PriceInfo)> = vec![];
    let default_prices = make_default_prices();
    let synthetics = make_synthetics();
    let converter = TokenPriceConverter::new(
        &source_prices,
        &default_prices,
        &synthetics,
        default_threshold(),
    );

    let prices = converter.token_prices();
    let lenfi_prices: Vec<_> = prices.into_iter().filter(|p| p.token == "LENFI").collect();
    assert_eq!(
        lenfi_prices,
        vec![TokenPrice {
            token: "LENFI".into(),
            unit: "USD".into(),
            value: decimal_rational(379, 2),
            sources: vec![TokenPriceSource {
                name: "Hard-coded default value".into(),
                value: decimal_rational(379, 2),
                reliability: Rational::from_u64(1),
            },]
        }]
    );
}

#[test]
fn token_prices_should_not_include_synthetics_without_prices() {
    let source_prices: Vec<(String, PriceInfo)> = vec![];
    let default_prices: Vec<TokenPrice> = vec![];
    let synthetics = make_synthetics();
    let converter = TokenPriceConverter::new(
        &source_prices,
        &default_prices,
        &synthetics,
        default_threshold(),
    );

    let prices = converter.token_prices();
    let lenfi_prices: Vec<_> = prices.into_iter().filter(|p| p.token == "LENFI").collect();
    assert_eq!(lenfi_prices, vec![]);
}

fn from(source: &str, token: &str, unit: &str, value: i64) -> (String, PriceInfo) {
    (
        source.to_string(),
        PriceInfo {
            token: token.to_string(),
            unit: unit.to_string(),
            value: Decimal::new(value, 0),
            reliability: Decimal::one(),
        },
    )
}

#[test]
fn tokens_that_are_priced_in_each_other_have_no_value() {
    let source_prices = vec![from("a", "X", "Y", 2), from("b", "Y", "X", 3)];
    let converter = TokenPriceConverter::new(&source_prices, &[], &[], default_threshold());
    assert!(!converter.can_resolve("X"));
    assert!(matches!(converter.evaluate("X"), Evaluation::Undefined));
    assert!(converter.can_resolve("USD"));
    assert!(matches!(converter.evaluate("NOTHING"), Evaluation::Nothing));
}

#[test]
fn the_order_of_backing_currencies_does_not_matter() {
    let source_prices = vec![from("a", "A", "USD", 100), from("b", "B", "USD", 105), from("c", "C", "USD", 120)];
    let backed_by = |names: [&str; 3]| {
        vec![SyntheticConfig {
            name: "S".to_string(),
            backing_currencies: names.iter().map(|n| n.to_string()).collect(),
            invert: false,
            digits: 6,
            collateral: CollateralConfig::List(vec![]),
        }]
    };
    for names in [["A", "B", "C"], ["C", "B", "A"], ["B", "C", "A"]] {
        let synthetics = backed_by(names);
        let converter = TokenPriceConverter::new(&source_prices, &[], &synthetics, default_threshold());
        assert_eq!(converter.value_in_usd("S"), Some(simple_rational(205, 2)));
    }
}

#[test]
fn prices_that_cannot_be_averaged_make_no_converter() {
    let mut worthless = from("a", "A", "USD", 100);
    worthless.1.reliability = Decimal::zero();
    assert!(TokenPriceConverter::try_new(&[worthless], &[], &[], default_threshold()).is_none());
    assert!(TokenPriceConverter::try_new(&[from("a", "A", "USD", 1)], &[], &[], default_threshold()).is_some());
}

#[test]
fn average_prices_lie_between_their_sources() {
    let source_prices = vec![
        from("a", "A", "USD", 100),
        from("b", "A", "X", 11),
        from("c", "X", "USD", 10),
        from("d", "A", "UNKNOWN", 999),
    ];
    let converter = TokenPriceConverter::new(&source_prices, &[], &[], default_threshold());
    assert_eq!(converter.value_in_usd("A"), Some(Rational::from_u64(105)));
}
