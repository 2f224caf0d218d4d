//! What holds of the feeds that are made of prices.

use vstd::arithmetic::power::pow;
use vstd::arithmetic::power2::pow2;
use vstd::prelude::*;

use crate::config::{CurrencyConfig, OracleConfig, SyntheticConfig};
use crate::decimal::{law_zeros_are_powers_of_ten, lemma_ten_to, ten_to};
use crate::health::OriginView;
use crate::names::{has_name, is_first, lemma_listing_exists, lemma_precedes_irreflexive, precedes, NameMap, Named};
use crate::numbers::{Natural, Rational};
use crate::price_aggregator::conversions::laws::law_defaults_fill_in;
use crate::price_aggregator::conversions::{
    valuation, ConverterView, QuoteView, TokenPriceConverter, Valuation,
};
use crate::price_aggregator::gema::{
    law_each_price_is_smoothed_by_its_own, law_whole_rises_are_held_back, lemma_part_exists, part_of,
};
use crate::price_aggregator::normalization::{
    law_fitting_numbers_stay, law_prices_are_exact_where_they_fit, normalize,
};
use crate::price_aggregator::persistence::{saved, saved_price, PersistenceView};
use crate::price_aggregator::synth_config_source::{current_collateral, ConfigSourceView, SyntheticConfigSource};
use crate::price_aggregator::{
    all_feeds, always_asked, collateral_prices, computed, converter_for, currencies_health, default_prices, digits_of,
    generic_payload, pricing, remembered_generics, remembered_synthetics, signed_prices, smoothed_feed, smoothed_prices,
    source_if, sources_for_config, synthetic_payload, synthetics_health, weight_in, weights_by_name, whole_price,
    AggregatorView, CurrencyFeeds, FeedsView, PayloadError, PayloadErrorView, PreviousSyntheticView, PreviousView, PriceAggregator, PricingView, SourceKind,
};
use crate::price_feed::generic::GenericFeedView;
use crate::price_feed::synthetic::SyntheticDataView;
use crate::price_feed::{views, IntervalBoundType, SyntheticPriceData};
use crate::signature_aggregator::payload::{GenericPayloadView, SyntheticPayloadView};

verus! {

/// What the smallest part of a currency with so many digits is worth.
pub open spec fn part_value(value: real, digits: u32) -> real {
    value / (pow(10, digits as nat) as real)
}

/// How many digits a currency has is what the first synthetic of its name says; where there is none, the first currency
/// of its name.
pub proof fn law_first_of_a_name_has_the_digits(
    synthetics: Seq<SyntheticConfig>,
    currencies: Seq<CurrencyConfig>,
    name: Seq<char>,
    at: int,
)
    ensures
        0 <= at < synthetics.len() && synthetics[at].name@ == name && (forall|j: int|
            0 <= j < at ==> (#[trigger] synthetics[j]).name@ != name) ==> digits_of(synthetics, currencies, name) == Some(
            synthetics[at].digits,
        ),
        0 <= at < currencies.len() && currencies[at].name@ == name && (forall|j: int|
            0 <= j < at ==> (#[trigger] currencies[j]).name@ != name) && (forall|j: int|
            0 <= j < synthetics.len() ==> (#[trigger] synthetics[j]).name@ != name) ==> digits_of(
            synthetics,
            currencies,
            name,
        ) == Some(currencies[at].digits),
        (forall|j: int| 0 <= j < currencies.len() ==> (#[trigger] currencies[j]).name@ != name) && (forall|j: int|
            0 <= j < synthetics.len() ==> (#[trigger] synthetics[j]).name@ != name) ==> digits_of(
            synthetics,
            currencies,
            name,
        ) is None,
{
    if 0 <= at < synthetics.len() && synthetics[at].name@ == name && (forall|j: int|
        0 <= j < at ==> (#[trigger] synthetics[j]).name@ != name) {
        assert(synthetics[at].name() == name);
        assert(is_first(synthetics, name, at));
        let first = choose|first: int| is_first(synthetics, name, first);
        assert(first == at) by {
            if first < at {
                assert(synthetics[first].name() == name);
                assert(synthetics[first].name@ == name);
            } else if at < first {
                assert(synthetics[at].name() != name);
            }
        }
    }
    if 0 <= at < currencies.len() && currencies[at].name@ == name && (forall|j: int|
        0 <= j < at ==> (#[trigger] currencies[j]).name@ != name) {
        assert(currencies[at].name() == name);
        assert(is_first(currencies, name, at));
        let first = choose|first: int| is_first(currencies, name, first);
        assert(first == at) by {
            if first < at {
                assert(currencies[first].name() == name);
                assert(currencies[first].name@ == name);
            } else if at < first {
                assert(currencies[at].name() != name);
            }
        }
    }
    if forall|j: int| 0 <= j < synthetics.len() ==> (#[trigger] synthetics[j]).name@ != name {
        assert forall|j: int| 0 <= j < synthetics.len() implies (#[trigger] synthetics[j]).name() != name by {
            assert(synthetics[j].name@ != name);
        }
        assert(!has_name(synthetics, name));
    }
    if forall|j: int| 0 <= j < currencies.len() ==> (#[trigger] currencies[j]).name@ != name {
        assert forall|j: int| 0 <= j < currencies.len() implies (#[trigger] currencies[j]).name() != name by {
            assert(currencies[j].name@ != name);
        }
        assert(!has_name(currencies, name));
    }
}

/// Whether this is the price of a collateral: the smallest part of the collateral is worth as much as so many smallest
/// parts of the synthetic.
pub open spec fn is_price_in(
    converter: ConverterView,
    synthetics: Seq<SyntheticConfig>,
    currencies: Seq<CurrencyConfig>,
    collateral: Seq<char>,
    synthetic_price: real,
    synthetic_digits: u32,
    price: real,
) -> bool {
    &&& valuation(converter, collateral) is Value
    &&& digits_of(synthetics, currencies, collateral) is Some
    &&& price * part_value(synthetic_price, synthetic_digits) == part_value(
        valuation(converter, collateral)->Value_0,
        digits_of(synthetics, currencies, collateral)->0,
    )
}

/// The price of each collateral times what the smallest part of the synthetic is worth is what the smallest part of the
/// collateral is worth.
pub proof fn law_collateral_is_priced_in_the_synthetic(
    converter: ConverterView,
    synthetics: Seq<SyntheticConfig>,
    currencies: Seq<CurrencyConfig>,
    collateral: Seq<Seq<char>>,
    synthetic_price: real,
    synthetic_digits: u32,
)
    ensures
        collateral_prices(converter, synthetics, currencies, collateral, synthetic_price, synthetic_digits) matches Ok(
            prices,
        ) ==> prices.len() == collateral.len() && forall|i: int|
            0 <= i < prices.len() ==> is_price_in(
                converter,
                synthetics,
                currencies,
                collateral[i],
                synthetic_price,
                synthetic_digits,
                #[trigger] prices[i],
            ),
    decreases collateral.len(),
{
    if collateral.len() > 0 {
        let front = collateral.drop_last();
        law_collateral_is_priced_in_the_synthetic(
            converter,
            synthetics,
            currencies,
            front,
            synthetic_price,
            synthetic_digits,
        );
        if let Ok(prices) = collateral_prices(
            converter,
            synthetics,
            currencies,
            collateral,
            synthetic_price,
            synthetic_digits,
        ) {
            let before = collateral_prices(converter, synthetics, currencies, front, synthetic_price, synthetic_digits)->Ok_0;
            let name = collateral.last();
            let digits = digits_of(synthetics, currencies, name)->0;
            let value = valuation(converter, name)->Value_0;
            law_zeros_are_powers_of_ten(synthetic_digits as nat);
            law_zeros_are_powers_of_ten(digits as nat);
            lemma_ten_to(0, synthetic_digits as nat);
            lemma_ten_to(0, digits as nat);
            let up = pow(10, synthetic_digits as nat) as real;
            let down = pow(10, digits as nat) as real;
            assert((value * up / down / synthetic_price) * (synthetic_price / up) == value / down) by (nonlinear_arith)
                requires
                    up > 0real,
                    down > 0real,
                    synthetic_price != 0real,
            ;
            assert forall|i: int| 0 <= i < prices.len() implies is_price_in(
                converter,
                synthetics,
                currencies,
                collateral[i],
                synthetic_price,
                synthetic_digits,
                #[trigger] prices[i],
            ) by {
                if i < front.len() {
                    assert(before[i] == prices[i]);
                    assert(front[i] == collateral[i]);
                }
            }
        }
    }
}

/// Whether a collateral has a price in a synthetic: it is known how many digits it has and what it is worth, and no
/// scale is too large.
pub open spec fn can_be_priced(
    converter: ConverterView,
    synthetics: Seq<SyntheticConfig>,
    currencies: Seq<CurrencyConfig>,
    collateral: Seq<char>,
    synthetic_price: real,
    synthetic_digits: u32,
) -> bool {
    &&& valuation(converter, collateral) is Value
    &&& digits_of(synthetics, currencies, collateral) matches Some(digits) && digits <= 18
    &&& synthetic_digits <= 18
    &&& synthetic_price != 0real
}

/// Whether the collateral at this place is the first that cannot be priced, and this is what is said of it: that it is not
/// known what it is worth, with its name, if it is only that.
pub open spec fn is_first_missing(
    converter: ConverterView,
    synthetics: Seq<SyntheticConfig>,
    currencies: Seq<CurrencyConfig>,
    collateral: Seq<Seq<char>>,
    synthetic_price: real,
    synthetic_digits: u32,
    at: int,
    error: PayloadErrorView,
) -> bool {
    &&& 0 <= at < collateral.len()
    &&& !can_be_priced(converter, synthetics, currencies, collateral[at], synthetic_price, synthetic_digits)
    &&& forall|i: int|
        0 <= i < at ==> can_be_priced(
            converter,
            synthetics,
            currencies,
            #[trigger] collateral[i],
            synthetic_price,
            synthetic_digits,
        )
    &&& error == if valuation(converter, collateral[at]) is Nothing && digits_of(synthetics, currencies, collateral[at])
        is Some {
        PayloadErrorView::NoCollateralPrice(collateral[at])
    } else {
        PayloadErrorView::Undefined
    }
}

/// The prices of collateral are found if each of it can be priced. Otherwise the first that cannot be decides what is
/// said.
pub proof fn law_first_missing_collateral_is_reported(
    converter: ConverterView,
    synthetics: Seq<SyntheticConfig>,
    currencies: Seq<CurrencyConfig>,
    collateral: Seq<Seq<char>>,
    synthetic_price: real,
    synthetic_digits: u32,
)
    ensures
        match collateral_prices(converter, synthetics, currencies, collateral, synthetic_price, synthetic_digits) {
            Ok(_) => forall|i: int|
                0 <= i < collateral.len() ==> can_be_priced(
                    converter,
                    synthetics,
                    currencies,
                    #[trigger] collateral[i],
                    synthetic_price,
                    synthetic_digits,
                ),
            Err(error) => exists|at: int| #[trigger]
                is_first_missing(
                    converter,
                    synthetics,
                    currencies,
                    collateral,
                    synthetic_price,
                    synthetic_digits,
                    at,
                    error,
                ),
        },
    decreases collateral.len(),
{
    if collateral.len() > 0 {
        let front = collateral.drop_last();
        law_first_missing_collateral_is_reported(
            converter,
            synthetics,
            currencies,
            front,
            synthetic_price,
            synthetic_digits,
        );
        match collateral_prices(converter, synthetics, currencies, front, synthetic_price, synthetic_digits) {
            Ok(_) => {
                assert forall|i: int| 0 <= i < front.len() implies can_be_priced(
                    converter,
                    synthetics,
                    currencies,
                    #[trigger] collateral[i],
                    synthetic_price,
                    synthetic_digits,
                ) by {
                    assert(front[i] == collateral[i]);
                }
                let last = collateral[collateral.len() - 1];
                assert(last == collateral.last());
                if let Err(error) = collateral_prices(
                    converter,
                    synthetics,
                    currencies,
                    collateral,
                    synthetic_price,
                    synthetic_digits,
                ) {
                    assert(is_first_missing(
                        converter,
                        synthetics,
                        currencies,
                        collateral,
                        synthetic_price,
                        synthetic_digits,
                        collateral.len() - 1,
                        error,
                    ));
                }
            },
            Err(error) => {
                let at = choose|at: int| #[trigger]
                    is_first_missing(
                        converter,
                        synthetics,
                        currencies,
                        front,
                        synthetic_price,
                        synthetic_digits,
                        at,
                        error,
                    );
                assert(collateral[at] == front[at]);
                assert forall|i: int| 0 <= i < at implies can_be_priced(
                    converter,
                    synthetics,
                    currencies,
                    #[trigger] collateral[i],
                    synthetic_price,
                    synthetic_digits,
                ) by {
                    assert(front[i] == collateral[i]);
                }
                assert(is_first_missing(
                    converter,
                    synthetics,
                    currencies,
                    collateral,
                    synthetic_price,
                    synthetic_digits,
                    at,
                    error,
                ));
            },
        }
    }
}

/// Whether these prices are made of those by what was signed last: where the last prices are of the same collateral and
/// not from the future, and weigh something, each price that rises is held back by their share of its rise. Otherwise
/// they are the same.
pub open spec fn are_held_back(
    known: AggregatorView,
    synthetic: Seq<char>,
    now: u128,
    weight: Option<real>,
    prices: Seq<real>,
    smooth: Seq<real>,
) -> bool {
    if weight is Some && known.synthetics.contains_key(synthetic) && known.synthetics[synthetic].timestamp <= now
        && known.synthetics[synthetic].prices.len() == prices.len() {
        &&& smooth.len() == prices.len()
        &&& forall|i: int|
            0 <= i < prices.len() ==> prices[i] - #[trigger] smooth[i] == if prices[i]
                < known.synthetics[synthetic].prices[i] {
                0real
            } else {
                weight->0 * (prices[i] - known.synthetics[synthetic].prices[i])
            }
    } else {
        smooth == prices
    }
}

/// Only what was signed of the same synthetic, and not later than now, holds its prices back.
pub proof fn law_last_signed_prices_hold_back_rises(
    known: AggregatorView,
    synthetic: Seq<char>,
    prices: Seq<real>,
    now: u128,
    weight: Option<real>,
)
    ensures
        are_held_back(known, synthetic, now, weight, prices, smoothed_prices(known, synthetic, prices, now, weight)),
{
    if weight is Some && known.synthetics.contains_key(synthetic) && known.synthetics[synthetic].timestamp <= now
        && known.synthetics[synthetic].prices.len() == prices.len() {
        law_each_price_is_smoothed_by_its_own(weight->0, known.synthetics[synthetic].prices, prices);
    }
}

/// A synthetic has a feed if, and only if, it is known how many digits it has and what it is worth, which collateral it
/// has and what that is worth, and all its prices are above zero. Otherwise the first of these that is missing is said.
pub proof fn law_feed_needs_prices(
    known: AggregatorView,
    config: PricingView,
    synthetic: Seq<char>,
    converter: ConverterView,
    source: Option<ConfigSourceView>,
    now: u128,
    weight: Option<real>,
)
    ensures
        match synthetic_payload(known, config, synthetic, converter, source, now, weight) {
            Ok(data) => {
                &&& valuation(converter, synthetic) == Valuation::Value(data.price)
                &&& digits_of(config.synthetics, config.currencies, synthetic) is Some
                &&& source matches Some(source) && current_collateral(source, synthetic) is Some
                    && data.feed.collateral_names == current_collateral(source, synthetic)
                &&& data.feed.feed.synthetic == synthetic
            },
            Err(PayloadErrorView::NoSyntheticPrice) => valuation(converter, synthetic) is Nothing,
            Err(PayloadErrorView::SyntheticsDisabled) => valuation(converter, synthetic) is Value && source is None,
            Err(PayloadErrorView::NoSyntheticConfig) => {
                &&& valuation(converter, synthetic) is Value
                &&& source matches Some(source) && current_collateral(source, synthetic) is None
            },
            Err(PayloadErrorView::NoCollateralPrice(name)) => {
                &&& valuation(converter, synthetic) is Value
                &&& source matches Some(source) && current_collateral(source, synthetic) matches Some(collateral)
                    && collateral.contains(name) && valuation(converter, name) is Nothing
            },
            Err(PayloadErrorView::Undefined) => {
                ||| digits_of(config.synthetics, config.currencies, synthetic) is None
                ||| valuation(converter, synthetic) is Undefined
                ||| valuation(converter, synthetic) matches Valuation::Value(price) && source matches Some(source)
                    && current_collateral(source, synthetic) matches Some(collateral) && match collateral_prices(
                    converter,
                    config.synthetics,
                    config.currencies,
                    collateral,
                    price,
                    digits_of(config.synthetics, config.currencies, synthetic)->0,
                ) {
                    Ok(prices) => exists|i: int|
                        0 <= i < prices.len() && #[trigger] smoothed_prices(known, synthetic, prices, now, weight)[i]
                            <= 0real,
                    Err(error) => error is Undefined,
                }
            },
        },
        valuation(converter, synthetic) is Undefined || digits_of(config.synthetics, config.currencies, synthetic)
            is None ==> synthetic_payload(known, config, synthetic, converter, source, now, weight) == Err::<
            SyntheticDataView,
            _,
        >(PayloadErrorView::Undefined),
{
    if let Some(source) = source {
        if let (Valuation::Value(price), Some(collateral), Some(digits)) = (
            valuation(converter, synthetic),
            current_collateral(source, synthetic),
            digits_of(config.synthetics, config.currencies, synthetic),
        ) {
            law_first_missing_collateral_is_reported(
                converter,
                config.synthetics,
                config.currencies,
                collateral,
                price,
                digits,
            );
            law_collateral_is_priced_in_the_synthetic(
                converter,
                config.synthetics,
                config.currencies,
                collateral,
                price,
                digits,
            );
            if let Ok(prices) = collateral_prices(
                converter,
                config.synthetics,
                config.currencies,
                collateral,
                price,
                digits,
            ) {
                law_last_signed_prices_hold_back_rises(known, synthetic, prices, now, weight);
            }
        }
    }
}

/// The feed of a synthetic of which nothing was signed before says what each collateral is worth in it: the numerator,
/// times what the smallest part of the synthetic is worth, is what the smallest part of the collateral is worth, times
/// the denominator. This is exact where the prices have a common denominator with which no number takes more bits than
/// are allowed.
pub proof fn law_new_feed_says_what_collateral_is_worth(
    known: AggregatorView,
    config: PricingView,
    synthetic: Seq<char>,
    converter: ConverterView,
    source: ConfigSourceView,
    now: u128,
    weight: Option<real>,
    denominator: nat,
    numerators: Seq<nat>,
)
    requires
        synthetic_payload(known, config, synthetic, converter, Some(source), now, weight) is Ok,
        !known.synthetics.contains_key(synthetic),
        0 < denominator < pow2(config.precision as nat),
        current_collateral(source, synthetic) matches Some(collateral) && numerators.len() == collateral.len()
            && forall|i: int|
            0 <= i < numerators.len() ==> #[trigger] numerators[i] < pow2(config.precision as nat) && is_price_in(
                converter,
                config.synthetics,
                config.currencies,
                collateral[i],
                valuation(converter, synthetic)->Value_0,
                digits_of(config.synthetics, config.currencies, synthetic)->0,
                (numerators[i] as real) / (denominator as real),
            ),
    ensures
        synthetic_payload(known, config, synthetic, converter, Some(source), now, weight) matches Ok(data) && {
            let feed = data.feed.feed;
            let collateral = data.feed.collateral_names->0;
            &&& data.feed.collateral_names == current_collateral(source, synthetic)
            &&& feed.denominator > 0
            &&& feed.collateral_prices.len() == collateral.len()
            &&& forall|i: int|
                0 <= i < collateral.len() ==> (#[trigger] feed.collateral_prices[i] as real) * part_value(
                    data.price,
                    digits_of(config.synthetics, config.currencies, synthetic)->0,
                ) == part_value(
                    valuation(converter, collateral[i])->Value_0,
                    digits_of(config.synthetics, config.currencies, collateral[i])->0,
                ) * (feed.denominator as real)
        },
{
    let data = synthetic_payload(known, config, synthetic, converter, Some(source), now, weight)->Ok_0;
    let feed = data.feed.feed;
    let collateral = current_collateral(source, synthetic)->0;
    let digits = digits_of(config.synthetics, config.currencies, synthetic)->0;
    let price = data.price;
    let found = collateral_prices(converter, config.synthetics, config.currencies, collateral, price, digits);
    law_collateral_is_priced_in_the_synthetic(
        converter,
        config.synthetics,
        config.currencies,
        collateral,
        price,
        digits,
    );
    law_first_missing_collateral_is_reported(
        converter,
        config.synthetics,
        config.currencies,
        collateral,
        price,
        digits,
    );
    let prices = found->Ok_0;
    let part = part_value(price, digits);
    assert forall|i: int| 0 <= i < prices.len() implies 0real < #[trigger] prices[i] && prices[i] * (denominator as real)
        == numerators[i] as real && numerators[i] < pow2(config.precision as nat) by {
        assert(numerators[i] < pow2(config.precision as nat));
        let fraction = (numerators[i] as real) / (denominator as real);
        assert(is_price_in(
            converter,
            config.synthetics,
            config.currencies,
            collateral[i],
            price,
            digits,
            prices[i],
        ));
        assert(can_be_priced(converter, config.synthetics, config.currencies, collateral[i], price, digits));
        law_zeros_are_powers_of_ten(digits as nat);
        lemma_ten_to(0, digits as nat);
        let up = pow(10, digits as nat) as real;
        assert(price / up != 0real) by (nonlinear_arith)
            requires
                up > 0real,
                price != 0real,
        ;
        let p = prices[i];
        assert(p == fraction) by (nonlinear_arith)
            requires
                p * part == fraction * part,
                part != 0real,
        ;
        let n = numerators[i] as real;
        let d = denominator as real;
        assert(p * d == n) by (nonlinear_arith)
            requires
                p == n / d,
                d > 0real,
        ;
    }
    law_prices_are_exact_where_they_fit(prices, config.precision as nat, numerators, denominator);
    let least = feed.denominator as real;
    assert forall|i: int| 0 <= i < collateral.len() implies (#[trigger] feed.collateral_prices[i] as real) * part
        == part_value(
        valuation(converter, collateral[i])->Value_0,
        digits_of(config.synthetics, config.currencies, collateral[i])->0,
    ) * least by {
        let p = prices[i];
        let n = feed.collateral_prices[i] as real;
        assert(is_price_in(converter, config.synthetics, config.currencies, collateral[i], price, digits, p));
        let worth = part_value(
            valuation(converter, collateral[i])->Value_0,
            digits_of(config.synthetics, config.currencies, collateral[i])->0,
        );
        assert(n * part == worth * least) by (nonlinear_arith)
            requires
                p * least == n,
                p * part == worth,
        ;
    }
}

/// The feed of a synthetic holds the prices of its collateral, after those that were signed last have held back what
/// rises: `numerators` over `denominator` are what that leaves of `prices`. The fractions of the feed are the same.
/// This is exact where no number takes more bits than are allowed.
pub proof fn law_feed_holds_what_is_not_held_back(
    known: AggregatorView,
    config: PricingView,
    synthetic: Seq<char>,
    converter: ConverterView,
    source: ConfigSourceView,
    now: u128,
    weight: Option<real>,
    prices: Seq<real>,
    denominator: nat,
    numerators: Seq<nat>,
)
    requires
        synthetic_payload(known, config, synthetic, converter, Some(source), now, weight) is Ok,
        0 < denominator < pow2(config.precision as nat),
        current_collateral(source, synthetic) matches Some(collateral) && prices.len() == collateral.len() && forall|
            i: int,
        |
            0 <= i < prices.len() ==> is_price_in(
                converter,
                config.synthetics,
                config.currencies,
                collateral[i],
                valuation(converter, synthetic)->Value_0,
                digits_of(config.synthetics, config.currencies, synthetic)->0,
                #[trigger] prices[i],
            ),
        numerators.len() == prices.len(),
        forall|i: int| 0 <= i < numerators.len() ==> #[trigger] numerators[i] < pow2(config.precision as nat),
        are_held_back(
            known,
            synthetic,
            now,
            weight,
            prices,
            Seq::new(numerators.len(), |i: int| (numerators[i] as real) / (denominator as real)),
        ),
    ensures
        synthetic_payload(known, config, synthetic, converter, Some(source), now, weight) matches Ok(data) && {
            let feed = data.feed.feed;
            &&& feed.denominator > 0
            &&& feed.collateral_prices.len() == numerators.len()
            &&& forall|i: int|
                0 <= i < numerators.len() ==> #[trigger] feed.collateral_prices[i] * denominator == numerators[i]
                    * feed.denominator
        },
{
    let data = synthetic_payload(known, config, synthetic, converter, Some(source), now, weight)->Ok_0;
    let feed = data.feed.feed;
    let collateral = current_collateral(source, synthetic)->0;
    let digits = digits_of(config.synthetics, config.currencies, synthetic)->0;
    let price = data.price;
    let found = collateral_prices(converter, config.synthetics, config.currencies, collateral, price, digits)->Ok_0;
    law_collateral_is_priced_in_the_synthetic(
        converter,
        config.synthetics,
        config.currencies,
        collateral,
        price,
        digits,
    );
    law_first_missing_collateral_is_reported(
        converter,
        config.synthetics,
        config.currencies,
        collateral,
        price,
        digits,
    );
    let part = part_value(price, digits);
    assert forall|i: int| 0 <= i < prices.len() implies #[trigger] found[i] == prices[i] by {
        let p = prices[i];
        let q = found[i];
        assert(is_price_in(converter, config.synthetics, config.currencies, collateral[i], price, digits, p));
        assert(is_price_in(converter, config.synthetics, config.currencies, collateral[i], price, digits, q));
        assert(can_be_priced(converter, config.synthetics, config.currencies, collateral[i], price, digits));
        law_zeros_are_powers_of_ten(digits as nat);
        lemma_ten_to(0, digits as nat);
        let up = pow(10, digits as nat) as real;
        assert(price / up != 0real) by (nonlinear_arith)
            requires
                up > 0real,
                price != 0real,
        ;
        assert(p == q) by (nonlinear_arith)
            requires
                p * part == q * part,
                part != 0real,
        ;
    }
    assert(found =~= prices);
    law_last_signed_prices_hold_back_rises(known, synthetic, prices, now, weight);
    let smooth = smoothed_prices(known, synthetic, prices, now, weight);
    let left = Seq::new(numerators.len(), |i: int| (numerators[i] as real) / (denominator as real));
    assert(smooth =~= left) by {
        assert forall|i: int| 0 <= i < prices.len() implies #[trigger] smooth[i] == left[i] by {
            assert(prices[i] - smooth[i] == prices[i] - left[i]);
        }
    }
    let d = denominator as real;
    assert forall|i: int| 0 <= i < smooth.len() implies 0real < #[trigger] smooth[i] && smooth[i] * d
        == numerators[i] as real && numerators[i] < pow2(config.precision as nat) by {
        let n = numerators[i] as real;
        assert((n / d) * d == n) by (nonlinear_arith)
            requires
                d > 0real,
        ;
    }
    law_prices_are_exact_where_they_fit(smooth, config.precision as nat, numerators, denominator);
    let least = feed.denominator as real;
    assert forall|i: int| 0 <= i < numerators.len() implies #[trigger] feed.collateral_prices[i] * denominator
        == numerators[i] * feed.denominator by {
        let p = smooth[i];
        let n = feed.collateral_prices[i] as real;
        let m = numerators[i] as real;
        assert(n * d == m * least) by (nonlinear_arith)
            requires
                p * least == n,
                p * d == m,
        ;
        let a = feed.collateral_prices[i] as int;
        let b = denominator as int;
        let e = numerators[i] as int;
        let f = feed.denominator as int;
        assert((a * b) as real == (a as real) * (b as real)) by (nonlinear_arith);
        assert((e * f) as real == (e as real) * (f as real)) by (nonlinear_arith);
    }
}

/// The feed of a synthetic can be used from a minute before it is made, at that moment too, until five minutes after
/// it, but not at that moment; both count in whole milliseconds, without what is less than one.
pub proof fn law_feed_is_valid_for_six_minutes(
    known: AggregatorView,
    config: PricingView,
    synthetic: Seq<char>,
    converter: ConverterView,
    source: Option<ConfigSourceView>,
    now: u128,
    weight: Option<real>,
)
    requires
        60_000_000_000 <= now,
        (now + 300_000_000_000) / 1_000_000 <= u64::MAX,
    ensures
        synthetic_payload(known, config, synthetic, converter, source, now, weight) matches Ok(data) ==> {
            let validity = data.feed.feed.validity;
            &&& validity.lower_bound.is_inclusive
            &&& !validity.upper_bound.is_inclusive
            &&& validity.lower_bound.bound_type matches IntervalBoundType::Finite(from) && from * 1_000_000 <= now
                - 60_000_000_000 < (from + 1) * 1_000_000
            &&& validity.upper_bound.bound_type matches IntervalBoundType::Finite(to) && to * 1_000_000 <= now
                + 300_000_000_000 < (to + 1) * 1_000_000
        },
{
}

/// A whole number of ten-millionths is what there is of a price, without what is less than one.
pub open spec fn is_in_feed_parts(price: real, whole: nat) -> bool {
    whole as real <= price * 10_000_000real < whole as real + 1real
}

/// Whether a smoothed feed is made of a price by what was signed last of that feed: where that is not from the future,
/// and weighs a share, a price that rises is made up of what is left of both by their weights, each without what is less
/// than one. Otherwise it is the same.
pub open spec fn is_held_back(
    known: AggregatorView,
    now: u128,
    weights: Map<Seq<char>, real>,
    price: nat,
    feed: GenericFeedView,
) -> bool {
    let weight = weights[feed.name];
    let previous = known.generics[feed.name].price;
    if weights.contains_key(feed.name) && known.generics.contains_key(feed.name) && known.generics[feed.name].timestamp
        <= now && 0real <= weight <= 1real && previous <= price {
        feed.price == ((price as real) * (1real - weight)).floor() + ((previous as real) * weight).floor()
    } else {
        feed.price == price
    }
}

proof fn lemma_held_back(
    known: AggregatorView,
    now: u128,
    weights: Map<Seq<char>, real>,
    price: nat,
    feed: GenericFeedView,
)
    requires
        feed == smoothed_feed(known, feed.name, price, now, weights),
    ensures
        is_held_back(known, now, weights, price, feed),
{
    if known.generics.contains_key(feed.name) && weights.contains_key(feed.name) {
        law_whole_rises_are_held_back(weights[feed.name], known.generics[feed.name].price, price);
    }
}

proof fn lemma_feed_parts(price: real)
    requires
        price > 0real,
    ensures
        whole_price(price) matches Some(whole) && is_in_feed_parts(price, whole),
{
    lemma_part_exists(10_000_000, price);
    let whole = part_of(10_000_000, price);
    assert((whole + 1) as real == whole as real + 1real);
    assert((10_000_000nat as real) * price == price * 10_000_000real) by (nonlinear_arith);
}

/// A currency that is worth something has four feeds, all made now, in whole milliseconds: what it is worth in dollars,
/// what a dollar is worth in it, and the same two smoothed. Prices count in ten-millionths. Where nothing was signed
/// before, the smoothed ones are as the others.
pub proof fn law_currency_has_four_feeds(
    known: AggregatorView,
    currency: Seq<char>,
    converter: ConverterView,
    now: u128,
    weights: Map<Seq<char>, real>,
)
    requires
        now / 1_000_000 <= u64::MAX,
    ensures
        match valuation(converter, currency) {
            Valuation::Value(price) => if price > 0real {
                generic_payload(known, currency, converter, now, weights) matches FeedsView::Feeds(feeds) && {
                    &&& feeds.len() == 4
                    &&& feeds[0].name == currency + "/USD#RAW"@
                    &&& feeds[1].name == "USD/"@ + currency + "#RAW"@
                    &&& feeds[2].name == currency + "/USD#GEMA"@
                    &&& feeds[3].name == "USD/"@ + currency + "#GEMA"@
                    &&& is_in_feed_parts(price, feeds[0].price)
                    &&& is_in_feed_parts(1real / price, feeds[1].price)
                    &&& forall|i: int|
                        0 <= i < 4 ==> (#[trigger] feeds[i]).timestamp * 1_000_000 <= now < (feeds[i].timestamp + 1)
                            * 1_000_000
                    &&& forall|i: int|
                        2 <= i < 4 ==> is_held_back(known, now, weights, feeds[i - 2].price, #[trigger] feeds[i])
                }
            } else {
                price == 0real ==> generic_payload(known, currency, converter, now, weights) is Undefined
            },
            Valuation::Nothing => generic_payload(known, currency, converter, now, weights) is Nothing,
            Valuation::Undefined => generic_payload(known, currency, converter, now, weights) is Undefined,
        },
{
    if let Valuation::Value(price) = valuation(converter, currency) {
        if price > 0real {
            assert(1real / price > 0real) by (nonlinear_arith)
                requires
                    price > 0real,
            ;
            lemma_feed_parts(price);
            lemma_feed_parts(1real / price);
            let feeds = generic_payload(known, currency, converter, now, weights)->Feeds_0;
            lemma_held_back(known, now, weights, feeds[0].price, feeds[2]);
            lemma_held_back(known, now, weights, feeds[1].price, feeds[3]);
        }
    }
}

/// Every synthetic that has a price is reported, and nothing else, in the order in which they are configured.
pub proof fn law_every_priced_synthetic_is_reported(outcomes: Seq<Result<SyntheticDataView, PayloadErrorView>>)
    ensures
        computed(outcomes) == outcomes.filter(
            |outcome: Result<SyntheticDataView, PayloadErrorView>| outcome is Ok,
        ).map_values(|outcome: Result<SyntheticDataView, PayloadErrorView>| outcome->Ok_0),
    decreases outcomes.len(),
{
    reveal(Seq::filter);
    let is_priced = |outcome: Result<SyntheticDataView, PayloadErrorView>| outcome is Ok;
    let data_of = |outcome: Result<SyntheticDataView, PayloadErrorView>| outcome->Ok_0;
    if outcomes.len() == 0 {
        assert(outcomes.filter(is_priced).map_values(data_of) =~= seq![]);
    } else {
        law_every_priced_synthetic_is_reported(outcomes.drop_last());
        let rest = outcomes.drop_last().filter(is_priced);
        if outcomes.last() is Ok {
            assert(outcomes.filter(is_priced) == rest.push(outcomes.last()));
            assert(rest.push(outcomes.last()).map_values(data_of) =~= rest.map_values(data_of).push(
                outcomes.last()->Ok_0,
            ));
        }
    }
}

/// Every feed of every currency is reported.
pub proof fn law_every_feed_is_reported(feeds: Seq<FeedsView>, currency: int, at: int)
    requires
        0 <= currency < feeds.len(),
        feeds[currency] matches FeedsView::Feeds(of_currency) && 0 <= at < of_currency.len(),
    ensures
        all_feeds(feeds).contains(feeds[currency]->Feeds_0[at]),
    decreases feeds.len(),
{
    let feed = feeds[currency]->Feeds_0[at];
    let front = feeds.drop_last();
    if currency < front.len() {
        law_every_feed_is_reported(front, currency, at);
        let i = choose|i: int| 0 <= i < all_feeds(front).len() && all_feeds(front)[i] == feed;
        assert(all_feeds(feeds)[i] == feed);
    } else {
        assert(all_feeds(feeds)[all_feeds(front).len() + at] == feed);
    }
}

/// Every feed that is reported is one of a currency.
pub proof fn law_every_reported_feed_is_of_a_currency(feeds: Seq<FeedsView>, feed: GenericFeedView)
    requires
        all_feeds(feeds).contains(feed),
    ensures
        exists|i: int|
            0 <= i < feeds.len() && (#[trigger] feeds[i]) is Feeds && feeds[i]->Feeds_0.contains(feed),
    decreases feeds.len(),
{
    if feeds.len() > 0 {
        let front = feeds.drop_last();
        let last = feeds[feeds.len() - 1];
        let at = choose|at: int| 0 <= at < all_feeds(feeds).len() && all_feeds(feeds)[at] == feed;
        if at < all_feeds(front).len() {
            assert(all_feeds(front)[at] == feed);
            assert(all_feeds(front).contains(feed));
            law_every_reported_feed_is_of_a_currency(front, feed);
            let i = choose|i: int|
                0 <= i < front.len() && (#[trigger] front[i]) is Feeds && front[i]->Feeds_0.contains(feed);
            assert(feeds[i] == front[i]);
        } else {
            assert(last->Feeds_0[at - all_feeds(front).len()] == feed);
            assert(last->Feeds_0.contains(feed));
        }
    }
}

/// A synthetic is healthy if, and only if, it has a price; a currency if, and only if, it has feeds. Each is reported
/// under its own name.
pub proof fn law_health_tells_what_has_a_price(
    synthetics: Seq<SyntheticConfig>,
    outcomes: Seq<Result<SyntheticDataView, PayloadErrorView>>,
    currencies: Seq<Seq<char>>,
    feeds: Seq<FeedsView>,
)
    requires
        synthetics.len() == outcomes.len(),
        currencies.len() == feeds.len(),
    ensures
        synthetics_health(synthetics, outcomes).len() == synthetics.len(),
        forall|i: int|
            0 <= i < synthetics.len() ==> {
                &&& (#[trigger] synthetics_health(synthetics, outcomes)[i]).origin == OriginView::Currency(
                    synthetics[i].name@,
                )
                &&& synthetics_health(synthetics, outcomes)[i].status is Healthy <==> outcomes[i] is Ok
            },
        currencies_health(currencies, feeds).len() == currencies.len(),
        forall|i: int|
            0 <= i < currencies.len() ==> {
                &&& (#[trigger] currencies_health(currencies, feeds)[i]).origin == OriginView::Currency(currencies[i])
                &&& currencies_health(currencies, feeds)[i].status is Healthy <==> feeds[i] is Feeds
            },
{
}

/// What is remembered of a feed is the newest that was signed, and of several from the same moment the last: nothing
/// newer was signed, and it was known before or is among what is signed now. Of other feeds nothing changes.
pub proof fn law_newest_feed_is_remembered(
    known: Map<Seq<char>, PreviousView>,
    entries: Seq<GenericPayloadView>,
    feed: Seq<char>,
)
    ensures
        ({
            let after = remembered_generics(known, entries);
            &&& after.contains_key(feed) <==> known.contains_key(feed) || exists|i: int|
                0 <= i < entries.len() && (#[trigger] entries[i]).name == feed
            &&& forall|i: int|
                0 <= i < entries.len() && (#[trigger] entries[i]).name == feed ==> entries[i].timestamp
                    <= after[feed].timestamp
            &&& after.contains_key(feed) ==> {
                ||| known.contains_key(feed) && after[feed] == known[feed] && forall|i: int|
                    0 <= i < entries.len() && (#[trigger] entries[i]).name == feed ==> entries[i].timestamp
                        < known[feed].timestamp
                ||| exists|i: int|
                    0 <= i < entries.len() && (#[trigger] entries[i]).name == feed && after[feed].timestamp
                        == entries[i].timestamp && after[feed].price == entries[i].payload.data.price && forall|j: int|
                        i < j < entries.len() && (#[trigger] entries[j]).name == feed ==> entries[j].timestamp
                            < entries[i].timestamp
            }
        }),
    decreases entries.len(),
{
    if entries.len() > 0 {
        let front = entries.drop_last();
        let last = entries[entries.len() - 1];
        law_newest_feed_is_remembered(known, front, feed);
        let before = remembered_generics(known, front);
        assert forall|i: int| 0 <= i < front.len() implies #[trigger] entries[i] == front[i] by {}
        let after = remembered_generics(known, entries);
        if last.name == feed && !(before.contains_key(feed) && before[feed].timestamp > last.timestamp) {
            assert(after[feed].timestamp == last.timestamp);
        } else {
            assert(after.contains_key(feed) == before.contains_key(feed));
            assert(after.contains_key(feed) ==> after[feed] == before[feed]);
            if before.contains_key(feed) {
                if exists|i: int|
                    0 <= i < front.len() && (#[trigger] front[i]).name == feed && before[feed].timestamp
                        == front[i].timestamp && before[feed].price == front[i].payload.data.price && forall|j: int|
                        i < j < front.len() && (#[trigger] front[j]).name == feed ==> front[j].timestamp
                            < front[i].timestamp {
                    let i = choose|i: int|
                        0 <= i < front.len() && (#[trigger] front[i]).name == feed && before[feed].timestamp
                            == front[i].timestamp && before[feed].price == front[i].payload.data.price && forall|
                            j: int,
                        |
                            i < j < front.len() && (#[trigger] front[j]).name == feed ==> front[j].timestamp
                                < front[i].timestamp;
                    assert(entries[i].name == feed);
                    assert forall|j: int| i < j < entries.len() && (#[trigger] entries[j]).name == feed implies entries[j].timestamp
                        < entries[i].timestamp by {
                        if j < front.len() {
                            assert(front[j].name == feed);
                        }
                    }
                }
            }
        }
    }
}

/// What is signed of a synthetic is remembered, unless something later is known: when it was made, and its prices, as
/// fractions of the denominator. Nothing changes for the others. The prices are exact where no number takes more bits
/// than are kept.
pub proof fn law_signed_prices_are_remembered(
    known: Map<Seq<char>, PreviousSyntheticView>,
    entries: Seq<SyntheticPayloadView>,
    entry: SyntheticPayloadView,
)
    requires
        remembered_synthetics(known, entries) is Some,
        0 < entry.payload.data.denominator < pow2(512),
        forall|i: int|
            0 <= i < entry.payload.data.collateral_prices.len() ==> #[trigger] entry.payload.data.collateral_prices[i]
                < pow2(512),
    ensures
        ({
            let before = remembered_synthetics(known, entries)->0;
            let name = entry.synthetic;
            let feed = entry.payload.data;
            remembered_synthetics(known, entries.push(entry)) matches Some(after) && {
                &&& forall|other: Seq<char>|
                    other != name ==> (#[trigger] after.contains_key(other) <==> before.contains_key(other))
                        && after[other] == before[other]
                &&& after.contains_key(name)
                &&& if before.contains_key(name) && before[name].timestamp > entry.timestamp {
                    after[name] == before[name]
                } else {
                    &&& after[name].timestamp == entry.timestamp
                    &&& after[name].prices.len() == feed.collateral_prices.len()
                    &&& forall|i: int|
                        0 <= i < feed.collateral_prices.len() ==> (#[trigger] after[name].prices[i]) * (
                        feed.denominator as real) == feed.collateral_prices[i] as real
                }
            }
        }),
{
    let feed = entry.payload.data;
    let all = entries.push(entry);
    assert(all.drop_last() =~= entries);
    assert(all.last() == entry);
    law_fitting_numbers_stay(feed.collateral_prices, feed.denominator, 512);
    let d = feed.denominator as real;
    let prices = signed_prices(feed);
    assert forall|i: int| 0 <= i < feed.collateral_prices.len() implies (#[trigger] prices[i]) * d
        == feed.collateral_prices[i] as real by {
        let n = feed.collateral_prices[i] as real;
        assert((n / d) * d == n) by (nonlinear_arith)
            requires
                d > 0real,
        ;
    }
}

/// A node asks each exchange, the pools that are configured, and those that want a key where there is one; SundaeSwap
/// through one way only. It asks none of them twice: there are no more than these.
pub proof fn law_configured_sources_are_asked(config: OracleConfig, maestro: bool, rates: bool)
    ensures
        ({
            let asked = sources_for_config(config, maestro, rates);
            &&& asked.contains(SourceKind::Binance)
            &&& asked.contains(SourceKind::ByBit)
            &&& asked.contains(SourceKind::Coinbase)
            &&& asked.contains(SourceKind::CryptoCom)
            &&& asked.contains(SourceKind::Kucoin)
            &&& asked.contains(SourceKind::Okx)
            &&& asked.contains(SourceKind::Minswap) <==> config.minswap is Some
            &&& asked.contains(SourceKind::Splash) <==> config.splash is Some
            &&& asked.contains(SourceKind::CSwap) <==> config.cswap is Some
            &&& asked.contains(SourceKind::VyFi) <==> config.vyfi is Some
            &&& asked.contains(SourceKind::WingRiders) <==> config.wingriders is Some
            &&& asked.contains(SourceKind::Maestro) <==> maestro
            &&& asked.contains(SourceKind::FxRatesApi) <==> rates
            &&& asked.contains(SourceKind::SundaeSwap) <==> config.sundaeswap is Some && config.sundaeswap->0.use_api
            &&& asked.contains(SourceKind::SundaeSwapKupo) <==> config.sundaeswap is Some
                && !config.sundaeswap->0.use_api
            &&& asked.len() == 6 + one_if(config.minswap is Some) + one_if(config.splash is Some) + one_if(
                config.cswap is Some,
            ) + one_if(config.vyfi is Some) + one_if(config.wingriders is Some) + one_if(maestro) + one_if(rates)
                + one_if(config.sundaeswap is Some)
        }),
{
    lemma_asked(config, maestro, rates, SourceKind::Binance);
    lemma_asked(config, maestro, rates, SourceKind::ByBit);
    lemma_asked(config, maestro, rates, SourceKind::Coinbase);
    lemma_asked(config, maestro, rates, SourceKind::CryptoCom);
    lemma_asked(config, maestro, rates, SourceKind::Kucoin);
    lemma_asked(config, maestro, rates, SourceKind::Okx);
    lemma_asked(config, maestro, rates, SourceKind::Minswap);
    lemma_asked(config, maestro, rates, SourceKind::Splash);
    lemma_asked(config, maestro, rates, SourceKind::CSwap);
    lemma_asked(config, maestro, rates, SourceKind::VyFi);
    lemma_asked(config, maestro, rates, SourceKind::WingRiders);
    lemma_asked(config, maestro, rates, SourceKind::Maestro);
    lemma_asked(config, maestro, rates, SourceKind::FxRatesApi);
    lemma_asked(config, maestro, rates, SourceKind::SundaeSwap);
    lemma_asked(config, maestro, rates, SourceKind::SundaeSwapKupo);
}

/// One, if something holds.
pub open spec fn one_if(holds: bool) -> nat {
    if holds {
        1
    } else {
        0
    }
}

proof fn lemma_source_if(before: Seq<SourceKind>, asked: bool, kind: SourceKind, other: SourceKind)
    ensures
        (before + source_if(asked, kind)).contains(other) <==> before.contains(other) || asked && other == kind,
{
    let one = source_if(asked, kind);
    vstd::seq_lib::lemma_seq_concat_contains_all_elements(before, one, other);
    if asked {
        assert(one[0] == kind);
    }
}

proof fn lemma_always_asked(kind: SourceKind)
    ensures
        always_asked().contains(kind) <==> kind is Binance || kind is ByBit || kind is Coinbase || kind is CryptoCom
            || kind is Kucoin || kind is Okx,
{
    let all = always_asked();
    assert(all[0] is Binance && all[1] is ByBit && all[2] is Coinbase && all[3] is CryptoCom && all[4] is Kucoin
        && all[5] is Okx);
}

proof fn lemma_asked(config: OracleConfig, maestro: bool, rates: bool, kind: SourceKind)
    ensures
        sources_for_config(config, maestro, rates).contains(kind) <==> {
            ||| kind is Binance
            ||| kind is ByBit
            ||| kind is Coinbase
            ||| kind is CryptoCom
            ||| kind is Kucoin
            ||| kind is Okx
            ||| config.minswap is Some && kind is Minswap
            ||| config.splash is Some && kind is Splash
            ||| config.cswap is Some && kind is CSwap
            ||| config.vyfi is Some && kind is VyFi
            ||| config.wingriders is Some && kind is WingRiders
            ||| maestro && kind is Maestro
            ||| rates && kind is FxRatesApi
            ||| config.sundaeswap is Some && config.sundaeswap->0.use_api && kind is SundaeSwap
            ||| config.sundaeswap is Some && !config.sundaeswap->0.use_api && kind is SundaeSwapKupo
        },
{
    let s0 = always_asked();
    lemma_always_asked(kind);
    let s1 = s0 + source_if(config.minswap is Some, SourceKind::Minswap);
    let s2 = s1 + source_if(config.splash is Some, SourceKind::Splash);
    let s3 = s2 + source_if(config.cswap is Some, SourceKind::CSwap);
    let s4 = s3 + source_if(config.vyfi is Some, SourceKind::VyFi);
    let s5 = s4 + source_if(config.wingriders is Some, SourceKind::WingRiders);
    let s6 = s5 + source_if(maestro, SourceKind::Maestro);
    let s7 = s6 + source_if(rates, SourceKind::FxRatesApi);
    let s8 = s7 + source_if(config.sundaeswap is Some && config.sundaeswap->0.use_api, SourceKind::SundaeSwap);
    lemma_source_if(s0, config.minswap is Some, SourceKind::Minswap, kind);
    lemma_source_if(s1, config.splash is Some, SourceKind::Splash, kind);
    lemma_source_if(s2, config.cswap is Some, SourceKind::CSwap, kind);
    lemma_source_if(s3, config.vyfi is Some, SourceKind::VyFi, kind);
    lemma_source_if(s4, config.wingriders is Some, SourceKind::WingRiders, kind);
    lemma_source_if(s5, maestro, SourceKind::Maestro, kind);
    lemma_source_if(s6, rates, SourceKind::FxRatesApi, kind);
    lemma_source_if(s7, config.sundaeswap is Some && config.sundaeswap->0.use_api, SourceKind::SundaeSwap, kind);
    lemma_source_if(
        s8,
        config.sundaeswap is Some && !config.sundaeswap->0.use_api,
        SourceKind::SundaeSwapKupo,
        kind,
    );
}

/// What values go by is what the sources say and what is configured: the synthetics and how far apart their currencies may
/// be. The prices that are kept fill in if, and only if, they are to be used.
pub proof fn law_kept_prices_fill_in_where_they_are_used(
    config: OracleConfig,
    said: Seq<QuoteView>,
    kept: PersistenceView,
    token: Seq<char>,
)
    requires
        kept.prices.dom().finite(),
        forall|i: int| 0 <= i < said.len() ==> (#[trigger] said[i]).info.token != token,
    ensures
        ({
            let converter = converter_for(config, said, kept);
            &&& converter.threshold * (pow(10, config.max_price_divergence@.scale) as real)
                == config.max_price_divergence@.mantissa as real
            &&& converter.prices.contains_key(token) <==> config.use_persisted_prices && kept.prices.contains_key(token)
            &&& converter.prices.contains_key(token) ==> converter.prices[token] == seq![
                saved_price(token, kept.prices[token]),
            ]
        }),
{
    let threshold = config.max_price_divergence@;
    law_zeros_are_powers_of_ten(threshold.scale);
    lemma_ten_to(0, threshold.scale);
    let m = threshold.mantissa as real;
    let s = ten_to(threshold.scale) as real;
    assert((m / s) * s == m) by (nonlinear_arith)
        requires
            s > 0real,
    ;
    let defaults = default_prices(config.use_persisted_prices, kept);
    if config.use_persisted_prices {
        let all = saved(kept.prices);
        assert(all.dom() =~= kept.prices.dom());
        let (names, listed) = lemma_listing_exists(all);
        assert forall|i: int| 0 <= i < listed.len() implies (#[trigger] listed[i]).token == names[i] && listed[i]
            == saved_price(names[i], kept.prices[names[i]]) by {
            assert(names.contains(names[i]));
            assert(all.contains_key(names[i]));
            assert(all[names[i]] == listed[i]);
        }
        if kept.prices.contains_key(token) {
            assert(all.contains_key(token));
            assert(names.contains(token));
            let at = choose|at: int| 0 <= at < names.len() && names[at] == token;
            assert forall|j: int| 0 <= j < at implies (#[trigger] defaults[j]).token != token by {
                assert(listed[j].token == names[j]);
                assert(precedes(names[j], names[at]));
                lemma_precedes_irreflexive(token);
            }
            assert(listed[at].token == token);
            law_defaults_fill_in(said, defaults, token, at);
        } else {
            assert forall|j: int| 0 <= j < defaults.len() implies (#[trigger] defaults[j]).token != token by {
                assert(listed[j].token == names[j]);
                assert(names.contains(names[j]));
            }
            law_defaults_fill_in(said, defaults, token, 0);
        }
    } else {
        law_defaults_fill_in(said, defaults, token, 0);
    }
}

/// What an aggregator makes of a synthetic of which nothing was signed before: a feed whose numerators, times what the
/// smallest part of the synthetic is worth, are what the smallest parts of its collateral are worth, times the
/// denominator. This is exact where the prices have a common denominator with which no number takes more bits than are
/// allowed.
pub proof fn law_computed_feed_says_what_collateral_is_worth(
    aggregator: &PriceAggregator,
    config: &OracleConfig,
    synthetic: &str,
    converter: &TokenPriceConverter,
    source: &SyntheticConfigSource,
    now: u128,
    weight: Option<&Rational>,
    outcome: Result<SyntheticPriceData, PayloadError>,
    denominator: nat,
    numerators: Seq<nat>,
)
    requires
        call_ensures(
            PriceAggregator::do_compute_synthetic_payload,
            (aggregator, config, synthetic, converter, Some(source), now, weight),
            outcome,
        ),
        outcome is Ok,
        !aggregator@.synthetics.contains_key(synthetic@),
        0 < denominator < pow2(config.price_precision as nat),
        current_collateral(source@, synthetic@) matches Some(collateral) && numerators.len() == collateral.len()
            && forall|i: int|
            0 <= i < numerators.len() ==> #[trigger] numerators[i] < pow2(config.price_precision as nat) && is_price_in(
                converter@,
                config.synthetics@,
                config.currencies@,
                collateral[i],
                valuation(converter@, synthetic@)->Value_0,
                digits_of(config.synthetics@, config.currencies@, synthetic@)->0,
                (numerators[i] as real) / (denominator as real),
            ),
    ensures
        outcome matches Ok(data) && {
            let feed = data@.feed.feed;
            let collateral = current_collateral(source@, synthetic@)->0;
            &&& valuation(converter@, synthetic@) == Valuation::Value(data@.price)
            &&& feed.synthetic == synthetic@
            &&& feed.denominator > 0
            &&& feed.collateral_prices.len() == collateral.len()
            &&& forall|i: int|
                0 <= i < collateral.len() ==> (#[trigger] feed.collateral_prices[i] as real) * part_value(
                    data@.price,
                    digits_of(config.synthetics@, config.currencies@, synthetic@)->0,
                ) == part_value(
                    valuation(converter@, collateral[i])->Value_0,
                    digits_of(config.synthetics@, config.currencies@, collateral[i])->0,
                ) * (feed.denominator as real)
        },
{
    law_new_feed_says_what_collateral_is_worth(
        aggregator@,
        pricing(*config),
        synthetic@,
        converter@,
        source@,
        now,
        weight_in(weight),
        denominator,
        numerators,
    );
    law_feed_needs_prices(
        aggregator@,
        pricing(*config),
        synthetic@,
        converter@,
        Some(source@),
        now,
        weight_in(weight),
    );
}

/// Normalizing gives each price as a numerator over one denominator. They are exact where the prices have a common
/// denominator with which no number takes more bits than are allowed; and of all such, the denominator is the least.
pub proof fn law_normalized_prices_are_the_prices(
    prices: &[Rational],
    max_bits: u64,
    outcome: (Vec<Natural>, Natural),
    numerators: Seq<nat>,
    denominator: nat,
)
    requires
        call_ensures(normalize, (prices, max_bits), outcome),
        0 < denominator < pow2(max_bits as nat),
        numerators.len() == prices@.len(),
        forall|i: int|
            0 <= i < prices@.len() ==> 0real < (#[trigger] prices@[i])@ && prices@[i]@ * (denominator as real)
                == numerators[i] as real && numerators[i] < pow2(max_bits as nat),
    ensures
        0 < outcome.1@ <= denominator,
        outcome.0@.len() == prices@.len(),
        forall|i: int|
            0 <= i < prices@.len() ==> prices@[i]@ * (outcome.1@ as real) == (#[trigger] outcome.0@[i])@ as real,
{
    let all = views(prices@);
    assert forall|i: int| 0 <= i < all.len() implies 0real < #[trigger] all[i] && all[i] * (denominator as real)
        == numerators[i] as real && numerators[i] < pow2(max_bits as nat) by {
        assert(all[i] == prices@[i]@);
    }
    law_prices_are_exact_where_they_fit(all, max_bits as nat, numerators, denominator);
    let found = views(outcome.0@);
    assert forall|i: int| 0 <= i < prices@.len() implies prices@[i]@ * (outcome.1@ as real) == (
    #[trigger] outcome.0@[i])@ as real by {
        assert(found[i] == outcome.0@[i]@);
        assert(all[i] == prices@[i]@);
    }
}

/// The feeds that an aggregator computes of a currency that is worth something are its four, with the prices that those
/// count in.
pub proof fn law_computed_feeds_are_four(
    aggregator: &PriceAggregator,
    currency: &str,
    converter: &TokenPriceConverter,
    now: u128,
    weights: &NameMap<String, Rational>,
    outcome: CurrencyFeeds,
    price: real,
)
    requires
        call_ensures(
            PriceAggregator::compute_generic_payload,
            (aggregator, currency, converter, now, weights),
            outcome,
        ),
        valuation(converter@, currency@) == Valuation::Value(price),
        price > 0real,
        now / 1_000_000 <= u64::MAX,
    ensures
        outcome matches CurrencyFeeds::Feeds(feeds) && {
            &&& feeds@.len() == 4
            &&& feeds@[0].name@ == currency@ + "/USD#RAW"@
            &&& feeds@[1].name@ == "USD/"@ + currency@ + "#RAW"@
            &&& feeds@[2].name@ == currency@ + "/USD#GEMA"@
            &&& feeds@[3].name@ == "USD/"@ + currency@ + "#GEMA"@
            &&& is_in_feed_parts(price, feeds@[0].price@)
            &&& is_in_feed_parts(1real / price, feeds@[1].price@)
            &&& feeds@[0].timestamp * 1_000_000 <= now < (feeds@[0].timestamp + 1) * 1_000_000
        },
{
    law_currency_has_four_feeds(aggregator@, currency@, converter@, now, weights_by_name(weights@));
    let feeds = outcome->Feeds_0;
    let found = views(feeds@);
    assert(found[0] == feeds@[0]@ && found[1] == feeds@[1]@ && found[2] == feeds@[2]@ && found[3] == feeds@[3]@);
}

} // verus!
