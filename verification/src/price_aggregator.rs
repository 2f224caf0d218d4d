//! From the prices that sources report to the feeds that are to be signed. Moments are counted in nanoseconds
//! since 1970.

use vstd::arithmetic::power2::lemma_pow2_pos;
use vstd::prelude::*;

use crate::config::{CurrencyConfig, OracleConfig, SyntheticConfig};
use crate::decimal::{lemma_ten_to, power_of_ten, ten_to};
use crate::health::{HealthInfo, HealthInfoView, HealthStatus, Origin, OriginView, StatusView};
use crate::names::{alphabetical, find_named, first_named, has_name, NameMap};
use crate::numbers::{Natural, Rational};
use crate::price_feed::generic::GenericFeedView;
use crate::price_feed::synthetic::{texts, NamedFeedView, SyntheticDataView, SyntheticFeedView};
use crate::price_feed::{views, GenericPriceFeed, IntervalBound, IntervalBoundType, PriceData};
use crate::price_feed::{SyntheticPriceData, SyntheticPriceFeed, Validity};
use crate::signature_aggregator::payload::{GenericPayloadView, Payload};
use crate::signature_aggregator::payload::SyntheticPayloadView;
use crate::sources::source::PriceInfo;
use crate::text::{between, join};

use conversions::{all_prices, have_weight, listed_prices, quotes, synthetics_by_name, valuation, ConverterView};
use conversions::{Evaluation, QuoteView, TokenPriceConverter, TokenPriceView, Valuation};
use gema::{all_smoothed, compute_part, part_of, whole_smoothed, GemaCalculator};
use normalization::{all_positive, cut_denominator, cut_numerators, excess_bits, least_denominator};
use normalization::{normalize, numerators_over, restrict_output_size};
use persistence::{are_defined, known_prices, saved, PersistenceView, TokenPricePersistence};
use synth_config_source::{current_collateral, ConfigSourceView, SyntheticConfigSource};

use utils::decimal_to_rational;

pub mod conversions;
pub mod gema;
pub mod laws;
pub mod normalization;
pub mod persistence;
pub mod source_adapter;
pub mod synth_config_source;
pub mod utils;

pub use conversions::{TokenPrice, TokenPriceSource};

verus! {

/// The most bits of prices that are smoothed.
pub const MAX_PREVIOUS_BITS: u64 = 512;

/// The prices of a synthetic's collateral that were signed last.
#[derive(Debug)]
struct PreviousSyntheticPrices {
    timestamp: u128,
    prices: Vec<Rational>,
}

/// The price of a feed that was signed last.
#[derive(Debug)]
struct PreviousPrice {
    timestamp: u128,
    price: Natural,
}

/// The prices of a synthetic's collateral that were signed last.
pub struct PreviousSyntheticView {
    pub timestamp: u128,
    pub prices: Seq<real>,
}

/// The price of a feed that was signed last.
pub struct PreviousView {
    pub timestamp: u128,
    pub price: nat,
}

impl View for PreviousSyntheticPrices {
    type V = PreviousSyntheticView;

    closed spec fn view(&self) -> PreviousSyntheticView {
        PreviousSyntheticView { timestamp: self.timestamp, prices: views(self.prices@) }
    }
}

impl View for PreviousPrice {
    type V = PreviousView;

    closed spec fn view(&self) -> PreviousView {
        PreviousView { timestamp: self.timestamp, price: self.price@ }
    }
}

/// Finds the prices that are to be signed, by those that were signed last.
pub struct PriceAggregator {
    previous_synth_prices: NameMap<String, PreviousSyntheticPrices>,
    previous_prices: NameMap<String, PreviousPrice>,
    gema: GemaCalculator,
}

/// What was signed last.
pub struct AggregatorView {
    pub synthetics: Map<Seq<char>, PreviousSyntheticView>,
    pub generics: Map<Seq<char>, PreviousView>,
}

impl View for PriceAggregator {
    type V = AggregatorView;

    closed spec fn view(&self) -> AggregatorView {
        AggregatorView {
            synthetics: self.previous_synth_prices@.map_values(|prices: PreviousSyntheticPrices| prices@),
            generics: self.previous_prices@.map_values(|price: PreviousPrice| price@),
        }
    }
}

/// Prices as fractions of whole numbers.
pub open spec fn fractions(numerators: Seq<nat>, denominator: nat) -> Seq<real> {
    Seq::new(numerators.len(), |i: int| (numerators[i] as real) / (denominator as real))
}

/// The prices of a feed, with as many bits as are smoothed.
pub open spec fn signed_prices(feed: SyntheticFeedView) -> Seq<real> {
    let excess = excess_bits(feed.collateral_prices, feed.denominator, MAX_PREVIOUS_BITS as nat);
    fractions(cut_numerators(feed.collateral_prices, excess), cut_denominator(feed.denominator, excess))
}

/// Whether a feed's prices are numbers: without a denominator it can have none.
pub open spec fn has_fractions(feed: SyntheticFeedView) -> bool {
    feed.denominator > 0 || feed.collateral_prices.len() == 0
}

/// What is remembered of the synthetics that were signed: of each, unless there is something later. There is nothing
/// to remember of prices without a denominator.
pub open spec fn remembered_synthetics(
    known: Map<Seq<char>, PreviousSyntheticView>,
    entries: Seq<SyntheticPayloadView>,
) -> Option<Map<Seq<char>, PreviousSyntheticView>>
    decreases entries.len(),
{
    if entries.len() == 0 {
        Some(known)
    } else {
        let entry = entries.last();
        match remembered_synthetics(known, entries.drop_last()) {
            None => None,
            Some(before) => if before.contains_key(entry.synthetic) && before[entry.synthetic].timestamp > entry.timestamp {
                Some(before)
            } else if !has_fractions(entry.payload.data) {
                None
            } else {
                Some(
                    before.insert(
                        entry.synthetic,
                        PreviousSyntheticView {
                            timestamp: entry.timestamp,
                            prices: signed_prices(entry.payload.data),
                        },
                    ),
                )
            },
        }
    }
}

/// What is remembered of the feeds that were signed: of each, unless there is something later.
pub open spec fn remembered_generics(
    known: Map<Seq<char>, PreviousView>,
    entries: Seq<GenericPayloadView>,
) -> Map<Seq<char>, PreviousView>
    decreases entries.len(),
{
    if entries.len() == 0 {
        known
    } else {
        let entry = entries.last();
        let before = remembered_generics(known, entries.drop_last());
        if before.contains_key(entry.name) && before[entry.name].timestamp > entry.timestamp {
            before
        } else {
            before.insert(
                entry.name,
                PreviousView { timestamp: entry.timestamp, price: entry.payload.data.price },
            )
        }
    }
}

/// What is left of a denominator is not zero.
proof fn lemma_cut_denominator_positive(denominator: nat, excess: nat)
    requires
        denominator > 0,
    ensures
        cut_denominator(denominator, excess) > 0,
{
    lemma_pow2_pos(excess);
    let size = vstd::arithmetic::power2::pow2(excess) as int;
    vstd::arithmetic::div_mod::lemma_div_is_ordered(size, denominator + size - 1, size);
    vstd::arithmetic::div_mod::lemma_div_by_self(size);
}

/// The prices of a feed, with as many bits as are smoothed.
fn collect_prices(feed: &SyntheticPriceFeed) -> (r: Vec<Rational>)
    requires
        has_fractions(feed@),
    ensures
        views(r@) == signed_prices(feed@),
{
    let mut numerators = crate::price_feed::synthetic::clone_naturals(&feed.collateral_prices);
    let mut denominator = feed.denominator.clone();
    assert(views(numerators@) =~= feed@.collateral_prices);
    restrict_output_size(&mut numerators, &mut denominator, MAX_PREVIOUS_BITS);
    let ghost excess = excess_bits(feed@.collateral_prices, feed@.denominator, MAX_PREVIOUS_BITS as nat);
    proof {
        if feed@.denominator > 0 {
            lemma_cut_denominator_positive(feed@.denominator, excess);
        }
    }
    let mut prices: Vec<Rational> = Vec::new();
    let mut i: usize = 0;
    while i < numerators.len()
        invariant
            i <= numerators.len(),
            denominator@ > 0 || numerators.len() == 0,
            prices.len() == i,
            forall|j: int|
                0 <= j < i ==> (#[trigger] prices@[j])@ == (numerators@[j]@ as real) / (denominator@ as real),
        decreases numerators.len() - i,
    {
        prices.push(Rational::new(&numerators[i], &denominator));
        i += 1;
    }
    assert(views(prices@) =~= fractions(views(numerators@), denominator@));
    prices
}

impl PriceAggregator {
    /// Nothing was signed yet.
    pub fn new(config: &OracleConfig) -> (r: Self)
        ensures
            r@.synthetics == Map::<Seq<char>, PreviousSyntheticView>::empty(),
            r@.generics == Map::<Seq<char>, PreviousView>::empty(),
    {
        let r = PriceAggregator {
            previous_synth_prices: NameMap::new(),
            previous_prices: NameMap::new(),
            gema: GemaCalculator::new(config.gema_periods, config.round_duration),
        };
        assert(r@.synthetics =~= Map::<Seq<char>, PreviousSyntheticView>::empty());
        assert(r@.generics =~= Map::<Seq<char>, PreviousView>::empty());
        r
    }

    /// Whether the prices that were signed are numbers, as far as there is nothing later.
    pub fn can_remember(&self, new_payload: &Payload) -> (r: bool)
        ensures
            r == remembered_synthetics(self@.synthetics, new_payload@.synthetics) is Some,
    {
        let ghost synthetics = new_payload@.synthetics;
        let ghost start = self@.synthetics;
        let entries = &new_payload.synthetics;
        let mut times: NameMap<String, u128> = NameMap::new();
        let mut i: usize = 0;
        assert(synthetics.take(0) =~= seq![]);
        while i < entries.len()
            invariant
                i <= entries.len(),
                synthetics == views(entries@),
                synthetics == new_payload@.synthetics,
                start == self@.synthetics,
                remembered_synthetics(start, synthetics.take(i as int)) is Some,
                are_later_times(start, times@, remembered_synthetics(start, synthetics.take(i as int))->0),
            decreases entries.len() - i,
        {
            let entry = &entries[i];
            let ghost before = times@;
            proof {
                assert(synthetics.take(i + 1).drop_last() =~= synthetics.take(i as int));
                assert(synthetics.take(i + 1).last() == entry@);
            }
            let last = match times.get(entry.synthetic.as_str()) {
                Some(time) => Some(*time),
                None => match self.previous_synth_prices.get(entry.synthetic.as_str()) {
                    Some(known) => Some(known.timestamp),
                    None => None,
                },
            };
            let is_older = match last {
                Some(time) => time > entry.timestamp,
                None => false,
            };
            if !is_older {
                let data = &entry.payload.data;
                if data.denominator.is_zero() && data.collateral_prices.len() > 0 {
                    proof {
                        let known = remembered_synthetics(start, synthetics.take(i as int))->0;
                        assert(known.contains_key(entry.synthetic@) ==> known[entry.synthetic@].timestamp
                            <= entry.timestamp);
                        assert(!has_fractions(entry@.payload.data));
                        assert(remembered_synthetics(start, synthetics.take(i + 1)) is None);
                        if remembered_synthetics(start, synthetics) is Some {
                            lemma_remembered_start(start, synthetics, i + 1);
                        }
                    }
                    return false;
                }
                times.insert(entry.synthetic.clone(), entry.timestamp);
                assert(times@ == before.insert(entry.synthetic@, entry.timestamp));
            }
            i += 1;
        }
        assert(synthetics.take(i as int) =~= synthetics);
        true
    }

    /// Remembers what was signed.
    pub fn update_previous_prices(&mut self, new_payload: &Payload)
        requires
            remembered_synthetics(old(self)@.synthetics, new_payload@.synthetics) is Some,
        ensures
            remembered_synthetics(old(self)@.synthetics, new_payload@.synthetics) == Some(final(self)@.synthetics),
            final(self)@.generics == remembered_generics(old(self)@.generics, new_payload@.generics),
    {
        let ghost start = self@;
        let ghost synthetics = new_payload@.synthetics;
        let ghost generics = new_payload@.generics;
        let entries = &new_payload.synthetics;
        let mut i: usize = 0;
        assert(synthetics.take(0) =~= seq![]);
        while i < entries.len()
            invariant
                i <= entries.len(),
                synthetics == views(entries@),
                remembered_synthetics(start.synthetics, synthetics) is Some,
                remembered_synthetics(start.synthetics, synthetics.take(i as int)) == Some(self@.synthetics),
                self@.generics == start.generics,
            decreases entries.len() - i,
        {
            let entry = &entries[i];
            let ghost before = self@;
            proof {
                assert(synthetics.take(i + 1).drop_last() =~= synthetics.take(i as int));
                assert(synthetics.take(i + 1).last() == entry@);
                lemma_remembered_start(start.synthetics, synthetics, i + 1);
            }
            let is_older = match self.previous_synth_prices.get(entry.synthetic.as_str()) {
                Some(known) => known.timestamp > entry.timestamp,
                None => false,
            };
            if !is_older {
                let prices = PreviousSyntheticPrices {
                    timestamp: entry.timestamp,
                    prices: collect_prices(&entry.payload.data),
                };
                let ghost new = prices@;
                self.previous_synth_prices.insert(entry.synthetic.clone(), prices);
                assert(self@.synthetics =~= before.synthetics.insert(entry.synthetic@, new));
            }
            i += 1;
        }
        assert(synthetics.take(i as int) =~= synthetics);
        let ghost remembered = self@.synthetics;
        let entries = &new_payload.generics;
        let mut k: usize = 0;
        assert(generics.take(0) =~= seq![]);
        while k < entries.len()
            invariant
                k <= entries.len(),
                generics == views(entries@),
                self@.synthetics == remembered,
                self@.generics == remembered_generics(start.generics, generics.take(k as int)),
            decreases entries.len() - k,
        {
            let entry = &entries[k];
            let ghost before = self@;
            proof {
                assert(generics.take(k + 1).drop_last() =~= generics.take(k as int));
                assert(generics.take(k + 1).last() == entry@);
            }
            let is_older = match self.previous_prices.get(entry.name.as_str()) {
                Some(known) => known.timestamp > entry.timestamp,
                None => false,
            };
            if !is_older {
                let price = PreviousPrice { timestamp: entry.timestamp, price: entry.payload.data.price.clone() };
                let ghost new = price@;
                self.previous_prices.insert(entry.name.clone(), price);
                assert(self@.generics =~= before.generics.insert(entry.name@, new));
            }
            k += 1;
        }
        assert(generics.take(k as int) =~= generics);
    }
}

/// These are the times of what is remembered now, as far as it is not what was known at the start.
spec fn are_later_times(
    start: Map<Seq<char>, PreviousSyntheticView>,
    times: Map<Seq<char>, u128>,
    now: Map<Seq<char>, PreviousSyntheticView>,
) -> bool {
    forall|name: Seq<char>|
        #![trigger now.contains_key(name)]
        #![trigger times.contains_key(name)]
        {
            &&& now.contains_key(name) <==> times.contains_key(name) || start.contains_key(name)
            &&& times.contains_key(name) ==> now[name].timestamp == times[name]
            &&& !times.contains_key(name) && start.contains_key(name) ==> now[name].timestamp == start[name].timestamp
        }
}

/// If all can be remembered, the first of them can.
proof fn lemma_remembered_start(
    known: Map<Seq<char>, PreviousSyntheticView>,
    entries: Seq<SyntheticPayloadView>,
    n: int,
)
    requires
        0 <= n <= entries.len(),
        remembered_synthetics(known, entries) is Some,
    ensures
        remembered_synthetics(known, entries.take(n)) is Some,
    decreases entries.len(),
{
    if n == entries.len() {
        assert(entries.take(n) =~= entries);
    } else {
        assert(entries.drop_last().take(n) =~= entries.take(n));
        lemma_remembered_start(known, entries.drop_last(), n);
    }
}

/// The largest power of ten that prices are scaled by.
pub const MAX_DIGITS: u32 = 18;

/// A minute, in nanoseconds.
pub const MINUTE: u128 = 60_000_000_000;

/// How many parts of a dollar the prices of feeds are counted in.
pub const FEED_SCALE: u64 = 10_000_000;

/// How many digits a currency has: what the first synthetic of that name says, or else the first currency.
pub open spec fn digits_of(
    synthetics: Seq<SyntheticConfig>,
    currencies: Seq<CurrencyConfig>,
    name: Seq<char>,
) -> Option<u32> {
    if has_name(synthetics, name) {
        Some(first_named(synthetics, name).digits)
    } else if has_name(currencies, name) {
        Some(first_named(currencies, name).digits)
    } else {
        None
    }
}

/// Why there is no price.
#[derive(Debug)]
pub enum PayloadError {
    /// The synthetic's price is not known.
    NoSyntheticPrice,
    SyntheticsDisabled,
    NoSyntheticConfig,
    /// The price of a collateral is not known.
    NoCollateralPrice(String),
    /// There is no such price: a currency is not known or has too many digits, a value is not defined, a price is
    /// not above zero.
    Undefined,
}

pub enum PayloadErrorView {
    NoSyntheticPrice,
    SyntheticsDisabled,
    NoSyntheticConfig,
    NoCollateralPrice(Seq<char>),
    Undefined,
}

impl View for PayloadError {
    type V = PayloadErrorView;

    open spec fn view(&self) -> PayloadErrorView {
        match self {
            PayloadError::NoSyntheticPrice => PayloadErrorView::NoSyntheticPrice,
            PayloadError::SyntheticsDisabled => PayloadErrorView::SyntheticsDisabled,
            PayloadError::NoSyntheticConfig => PayloadErrorView::NoSyntheticConfig,
            PayloadError::NoCollateralPrice(name) => PayloadErrorView::NoCollateralPrice(name@),
            PayloadError::Undefined => PayloadErrorView::Undefined,
        }
    }
}

/// What a health report says of an error.
pub open spec fn error_text(error: PayloadErrorView) -> Seq<char> {
    match error {
        PayloadErrorView::NoSyntheticPrice => "could not compute synthetic price"@,
        PayloadErrorView::SyntheticsDisabled => "synthetics are not enabled"@,
        PayloadErrorView::NoSyntheticConfig => "could not retrieve synthetic config"@,
        PayloadErrorView::NoCollateralPrice(name) => "could not compute price for collateral "@ + name,
        PayloadErrorView::Undefined => "price is not defined"@,
    }
}

impl PayloadError {
    /// What a health report says of it.
    pub fn describe(&self) -> (r: String)
        ensures
            r@ == error_text(self@),
    {
        match self {
            PayloadError::NoSyntheticPrice => "could not compute synthetic price".to_owned(),
            PayloadError::SyntheticsDisabled => "synthetics are not enabled".to_owned(),
            PayloadError::NoSyntheticConfig => "could not retrieve synthetic config".to_owned(),
            PayloadError::NoCollateralPrice(name) => join("could not compute price for collateral ", name.as_str()),
            PayloadError::Undefined => "price is not defined".to_owned(),
        }
    }
}

/// What a currency is worth in units of a synthetic, when both are counted in their smallest parts.
pub open spec fn price_in_synthetic(price: real, digits: nat, synthetic_price: real, synthetic_digits: nat) -> real {
    price * (ten_to(synthetic_digits) as real) / (ten_to(digits) as real) / synthetic_price
}

/// The prices of a synthetic's collateral, as they are now.
pub open spec fn collateral_prices(
    converter: ConverterView,
    synthetics: Seq<SyntheticConfig>,
    currencies: Seq<CurrencyConfig>,
    collateral: Seq<Seq<char>>,
    synthetic_price: real,
    synthetic_digits: u32,
) -> Result<Seq<real>, PayloadErrorView>
    decreases collateral.len(),
{
    if collateral.len() == 0 {
        Ok(seq![])
    } else {
        match collateral_prices(
            converter,
            synthetics,
            currencies,
            collateral.drop_last(),
            synthetic_price,
            synthetic_digits,
        ) {
            Err(error) => Err(error),
            Ok(prices) => match digits_of(synthetics, currencies, collateral.last()) {
                None => Err(PayloadErrorView::Undefined),
                Some(digits) => match valuation(converter, collateral.last()) {
                    Valuation::Undefined => Err(PayloadErrorView::Undefined),
                    Valuation::Nothing => Err(PayloadErrorView::NoCollateralPrice(collateral.last())),
                    Valuation::Value(price) => if synthetic_digits > MAX_DIGITS || digits > MAX_DIGITS
                        || synthetic_price == 0real {
                        Err(PayloadErrorView::Undefined)
                    } else {
                        Ok(
                            prices.push(
                                price_in_synthetic(price, digits as nat, synthetic_price, synthetic_digits as nat),
                            ),
                        )
                    },
                },
            },
        }
    }
}

/// Prices of a synthetic's collateral, smoothed by those that were signed last. Without those, or if they are from
/// the future, they stay as they are.
pub open spec fn smoothed_prices(
    known: AggregatorView,
    synthetic: Seq<char>,
    prices: Seq<real>,
    now: u128,
    weight: Option<real>,
) -> Seq<real> {
    if known.synthetics.contains_key(synthetic) && now >= known.synthetics[synthetic].timestamp
        && known.synthetics[synthetic].prices.len() == prices.len() {
        match weight {
            Some(weight) => all_smoothed(weight, known.synthetics[synthetic].prices, prices),
            None => prices,
        }
    } else {
        prices
    }
}

/// A price that can be used from a minute ago until in five minutes.
pub open spec fn validity_at(now: u128) -> Validity {
    Validity {
        lower_bound: IntervalBound {
            bound_type: IntervalBoundType::Finite(((now - MINUTE) as u128 / 1_000_000) as u64),
            is_inclusive: true,
        },
        upper_bound: IntervalBound {
            bound_type: IntervalBoundType::Finite(((now + 5 * MINUTE) as u128 / 1_000_000) as u64),
            is_inclusive: false,
        },
    }
}

/// The moments that a price can be made at.
pub open spec fn is_moment(now: u128) -> bool {
    MINUTE <= now && (now + 5 * MINUTE) / 1_000_000 <= u64::MAX
}

/// The feed of a synthetic at these prices.
pub open spec fn synthetic_feed(
    synthetic: Seq<char>,
    collateral: Seq<Seq<char>>,
    prices: Seq<real>,
    precision: u64,
    now: u128,
) -> NamedFeedView {
    let least = least_denominator(prices);
    let numerators = numerators_over(prices, least);
    let excess = excess_bits(numerators, least, precision as nat);
    NamedFeedView {
        feed: SyntheticFeedView {
            collateral_prices: cut_numerators(numerators, excess),
            synthetic,
            denominator: cut_denominator(least, excess),
            validity: validity_at(now),
        },
        collateral_names: Some(collateral),
    }
}

/// What is configured, as far as prices go by it.
pub struct PricingView {
    pub synthetics: Seq<SyntheticConfig>,
    pub currencies: Seq<CurrencyConfig>,
    pub precision: u64,
}

/// What is configured, as far as prices go by it.
pub open spec fn pricing(config: OracleConfig) -> PricingView {
    PricingView {
        synthetics: config.synthetics@,
        currencies: config.currencies@,
        precision: config.price_precision,
    }
}

/// The price and the feed of a synthetic.
pub open spec fn synthetic_payload(
    known: AggregatorView,
    config: PricingView,
    synthetic: Seq<char>,
    converter: ConverterView,
    source: Option<ConfigSourceView>,
    now: u128,
    weight: Option<real>,
) -> Result<SyntheticDataView, PayloadErrorView> {
    match digits_of(config.synthetics, config.currencies, synthetic) {
        None => Err(PayloadErrorView::Undefined),
        Some(digits) => match valuation(converter, synthetic) {
            Valuation::Undefined => Err(PayloadErrorView::Undefined),
            Valuation::Nothing => Err(PayloadErrorView::NoSyntheticPrice),
            Valuation::Value(price) => match source {
                None => Err(PayloadErrorView::SyntheticsDisabled),
                Some(source) => match current_collateral(source, synthetic) {
                    None => Err(PayloadErrorView::NoSyntheticConfig),
                    Some(collateral) => match collateral_prices(
                        converter,
                        config.synthetics,
                        config.currencies,
                        collateral,
                        price,
                        digits,
                    ) {
                        Err(error) => Err(error),
                        Ok(prices) => {
                            let smooth = smoothed_prices(known, synthetic, prices, now, weight);
                            if all_positive(smooth) {
                                Ok(
                                    SyntheticDataView {
                                        price,
                                        feed: synthetic_feed(synthetic, collateral, smooth, config.precision, now),
                                    },
                                )
                            } else {
                                Err(PayloadErrorView::Undefined)
                            }
                        },
                    },
                },
            },
        },
    }
}

/// The configuration source, if there is one.
pub open spec fn source_in(source: Option<&SyntheticConfigSource>) -> Option<ConfigSourceView> {
    match source {
        Some(source) => Some(source@),
        None => None,
    }
}

/// The weight, if there is one.
pub open spec fn weight_in(weight: Option<&Rational>) -> Option<real> {
    match weight {
        Some(weight) => Some(weight@),
        None => None,
    }
}

/// Prices or an error.
pub open spec fn prices_in(outcome: Result<Vec<Rational>, PayloadError>) -> Result<Seq<real>, PayloadErrorView> {
    match outcome {
        Ok(prices) => Ok(views(prices@)),
        Err(error) => Err(error@),
    }
}

/// A synthetic's price or an error.
pub open spec fn data_in(outcome: Result<SyntheticPriceData, PayloadError>) -> Result<SyntheticDataView, PayloadErrorView> {
    match outcome {
        Ok(data) => Ok(data@),
        Err(error) => Err(error@),
    }
}

/// Whether each of these prices is above zero.
fn are_positive(prices: &Vec<Rational>) -> (r: bool)
    ensures
        r == all_positive(views(prices@)),
{
    let zero = Rational::from_u64(0);
    let mut i: usize = 0;
    while i < prices.len()
        invariant
            i <= prices.len(),
            zero@ == 0real,
            forall|j: int| 0 <= j < i ==> #[trigger] views(prices@)[j] > 0real,
        decreases prices.len() - i,
    {
        assert(views(prices@)[i as int] == prices@[i as int]@);
        if !zero.less(&prices[i]) {
            return false;
        }
        i += 1;
    }
    true
}

/// How many digits a currency has.
fn get_digits(config: &OracleConfig, currency: &str) -> (r: Option<u32>)
    ensures
        r == digits_of(config.synthetics@, config.currencies@, currency@),
{
    if let Some(synthetic) = find_named(config.synthetics.as_slice(), currency) {
        return Some(synthetic.digits);
    }
    match find_named(config.currencies.as_slice(), currency) {
        Some(currency) => Some(currency.digits),
        None => None,
    }
}

/// The prices of a synthetic's collateral, as they are now.
fn find_collateral_prices(
    config: &OracleConfig,
    converter: &TokenPriceConverter,
    collateral: &Vec<String>,
    synthetic_price: &Rational,
    synthetic_digits: u32,
) -> (r: Result<Vec<Rational>, PayloadError>)
    ensures
        prices_in(r) == collateral_prices(
            converter@,
            config.synthetics@,
            config.currencies@,
            texts(collateral@),
            synthetic_price@,
            synthetic_digits,
        ),
{
    let ghost all = texts(collateral@);
    let mut prices: Vec<Rational> = Vec::new();
    let mut i: usize = 0;
    assert(all.take(0) =~= seq![]);
    assert(views(prices@) =~= seq![]);
    while i < collateral.len()
        invariant
            i <= collateral.len(),
            all == texts(collateral@),
            collateral_prices(
                converter@,
                config.synthetics@,
                config.currencies@,
                all.take(i as int),
                synthetic_price@,
                synthetic_digits,
            ) == Ok::<Seq<real>, PayloadErrorView>(views(prices@)),
        decreases collateral.len() - i,
    {
        let name = &collateral[i];
        let ghost before = prices@;
        proof {
            assert(all.take(i + 1).drop_last() =~= all.take(i as int));
            assert(all.take(i + 1).last() == name@);
        }
        let outcome = match get_digits(config, name.as_str()) {
            None => Err(PayloadError::Undefined),
            Some(digits) => match converter.evaluate(name.as_str()) {
                Evaluation::Undefined => Err(PayloadError::Undefined),
                Evaluation::Nothing => Err(PayloadError::NoCollateralPrice(name.clone())),
                Evaluation::Value(price) => if synthetic_digits > MAX_DIGITS || digits > MAX_DIGITS
                    || synthetic_price.is_zero() {
                    Err(PayloadError::Undefined)
                } else {
                    let up: i128 = power_of_ten(synthetic_digits);
                    let down: i128 = power_of_ten(digits);
                    proof {
                        lemma_ten_to(0, synthetic_digits as nat);
                        lemma_ten_to(0, digits as nat);
                    }
                    let scaled = price.times(&Rational::from_natural(&Natural::from_u128(up as u128))).over(
                        &Rational::from_natural(&Natural::from_u128(down as u128)),
                    );
                    Ok(scaled.over(synthetic_price))
                },
            },
        };
        match outcome {
            Ok(price) => {
                prices.push(price);
                assert(views(prices@) =~= views(before).push(price@));
            },
            Err(error) => {
                proof {
                    lemma_first_missing(
                        converter@,
                        config.synthetics@,
                        config.currencies@,
                        all,
                        synthetic_price@,
                        synthetic_digits,
                        i + 1,
                    );
                }
                return Err(error);
            },
        }
        i += 1;
    }
    assert(all.take(i as int) =~= all);
    Ok(prices)
}

proof fn lemma_first_missing(
    converter: ConverterView,
    synthetics: Seq<SyntheticConfig>,
    currencies: Seq<CurrencyConfig>,
    collateral: Seq<Seq<char>>,
    synthetic_price: real,
    synthetic_digits: u32,
    n: int,
)
    requires
        0 <= n <= collateral.len(),
        collateral_prices(
            converter,
            synthetics,
            currencies,
            collateral.take(n),
            synthetic_price,
            synthetic_digits,
        ) is Err,
    ensures
        collateral_prices(converter, synthetics, currencies, collateral, synthetic_price, synthetic_digits)
            == collateral_prices(
            converter,
            synthetics,
            currencies,
            collateral.take(n),
            synthetic_price,
            synthetic_digits,
        ),
    decreases collateral.len(),
{
    if n == collateral.len() {
        assert(collateral.take(n) =~= collateral);
    } else {
        assert(collateral.drop_last().take(n) =~= collateral.take(n));
        lemma_first_missing(
            converter,
            synthetics,
            currencies,
            collateral.drop_last(),
            synthetic_price,
            synthetic_digits,
            n,
        );
    }
}

impl PriceAggregator {
    /// How long ago the prices of a synthetic were signed; nothing if they were not, or in the future.
    pub fn synthetic_elapsed(&self, synthetic: &str, now: u128) -> (r: Option<u128>)
        ensures
            r is Some <==> self@.synthetics.contains_key(synthetic@) && now >= self@.synthetics[synthetic@].timestamp,
            r is Some ==> r->0 == now - self@.synthetics[synthetic@].timestamp,
    {
        match self.previous_synth_prices.get(synthetic) {
            Some(previous) => if now >= previous.timestamp {
                Some(now - previous.timestamp)
            } else {
                None
            },
            None => None,
        }
    }

    /// How long ago the price of a feed was signed; nothing if it was not, or in the future.
    pub fn feed_elapsed(&self, feed: &str, now: u128) -> (r: Option<u128>)
        ensures
            r is Some <==> self@.generics.contains_key(feed@) && now >= self@.generics[feed@].timestamp,
            r is Some ==> r->0 == now - self@.generics[feed@].timestamp,
    {
        match self.previous_prices.get(feed) {
            Some(previous) => if now >= previous.timestamp {
                Some(now - previous.timestamp)
            } else {
                None
            },
            None => None,
        }
    }

    /// Prices of a synthetic's collateral, smoothed by those that were signed last.
    pub fn apply_synth_gema(
        &self,
        synth: &str,
        prices: Vec<Rational>,
        now: u128,
        weight: Option<&Rational>,
    ) -> (r: Vec<Rational>)
        ensures
            views(r@) == smoothed_prices(self@, synth@, views(prices@), now, weight_in(weight)),
    {
        let previous = match self.previous_synth_prices.get(synth) {
            Some(previous) => previous,
            None => {
                return prices;
            },
        };
        if now < previous.timestamp {
            return prices;
        }
        self.gema.smooth_synthetic_price(weight, previous.prices.as_slice(), prices)
    }

    /// The price and the feed of a synthetic.
    pub fn do_compute_synthetic_payload(
        &self,
        config: &OracleConfig,
        synth: &str,
        converter: &TokenPriceConverter,
        source: Option<&SyntheticConfigSource>,
        now: u128,
        weight: Option<&Rational>,
    ) -> (r: Result<SyntheticPriceData, PayloadError>)
        requires
            is_moment(now),
        ensures
            data_in(r) == synthetic_payload(
                self@,
                pricing(*config),
                synth@,
                converter@,
                source_in(source),
                now,
                weight_in(weight),
            ),
    {
        let synth_digits: u32 = match get_digits(config, synth) {
            Some(digits) => digits,
            None => {
                return Err(PayloadError::Undefined);
            },
        };
        let synth_price = match converter.evaluate(synth) {
            Evaluation::Value(price) => price,
            Evaluation::Nothing => {
                return Err(PayloadError::NoSyntheticPrice);
            },
            Evaluation::Undefined => {
                return Err(PayloadError::Undefined);
            },
        };
        let source = match source {
            Some(source) => source,
            None => {
                return Err(PayloadError::SyntheticsDisabled);
            },
        };
        let collateral = match source.synthetic_collateral(synth) {
            Some(collateral) => collateral,
            None => {
                return Err(PayloadError::NoSyntheticConfig);
            },
        };
        let prices = match find_collateral_prices(config, converter, &collateral, &synth_price, synth_digits) {
            Ok(prices) => prices,
            Err(error) => {
                return Err(error);
            },
        };
        let prices = self.apply_synth_gema(synth, prices, now, weight);
        if !are_positive(&prices) {
            return Err(PayloadError::Undefined);
        }
        let (collateral_prices, denominator) = normalize(prices.as_slice(), config.price_precision);
        let valid_from: u128 = now - MINUTE;
        let valid_to: u128 = now + 5 * MINUTE;
        assert(valid_from / 1_000_000 <= valid_to / 1_000_000) by (nonlinear_arith)
            requires
                valid_from <= valid_to,
        ;
        let feed = SyntheticPriceFeed {
            collateral_names: Some(collateral),
            collateral_prices,
            synthetic: synth.to_owned(),
            denominator,
            validity: Validity {
                lower_bound: IntervalBound::moment(valid_from, true),
                upper_bound: IntervalBound::moment(valid_to, false),
            },
        };
        assert(feed@.collateral_prices =~= views(feed.collateral_prices@));
        Ok(SyntheticPriceData { price: synth_price, feed })
    }
}

/// A price in the parts that feeds count in, without what is less than one; nothing for a price below zero by one of
/// them or more.
pub open spec fn whole_price(price: real) -> Option<nat> {
    if price >= 0real {
        Some(part_of(FEED_SCALE as nat, price))
    } else if part_of(FEED_SCALE as nat, 0real - price) == 0 {
        Some(0)
    } else {
        None
    }
}

/// A price in the parts that feeds count in.
fn to_int(price: &Rational) -> (r: Option<Natural>)
    ensures
        match r {
            Some(n) => whole_price(price@) == Some(n@),
            None => whole_price(price@) is None,
        },
{
    let scale = Natural::from_u64(FEED_SCALE);
    if !price.is_negative() {
        return Some(compute_part(&scale, price));
    }
    let below = Rational::from_u64(0).minus(price);
    if compute_part(&scale, &below).is_zero() {
        Some(Natural::from_u64(0))
    } else {
        None
    }
}

/// The price of a feed, smoothed by the one that was signed last. Without one, or if it is from the future, it stays
/// as it is.
pub open spec fn smoothed_price(
    known: AggregatorView,
    feed: Seq<char>,
    price: nat,
    now: u128,
    weight: Option<real>,
) -> nat {
    if known.generics.contains_key(feed) && now >= known.generics[feed].timestamp {
        match weight {
            Some(weight) => whole_smoothed(weight, known.generics[feed].price, price),
            None => price,
        }
    } else {
        price
    }
}

/// The weight of a feed, if it has one.
pub open spec fn weight_of(weights: Map<Seq<char>, real>, feed: Seq<char>) -> Option<real> {
    if weights.contains_key(feed) {
        Some(weights[feed])
    } else {
        None
    }
}

/// Weights by name.
pub open spec fn weights_by_name(weights: Map<Seq<char>, Rational>) -> Map<Seq<char>, real> {
    weights.map_values(|weight: Rational| weight@)
}

/// A smoothed feed.
pub open spec fn smoothed_feed(
    known: AggregatorView,
    name: Seq<char>,
    price: nat,
    now: u128,
    weights: Map<Seq<char>, real>,
) -> GenericFeedView {
    GenericFeedView {
        price: smoothed_price(known, name, price, now, weight_of(weights, name)),
        name,
        timestamp: (now / 1_000_000) as u64,
    }
}

/// A feed as it is.
pub open spec fn raw_feed(name: Seq<char>, price: nat, now: u128) -> GenericFeedView {
    GenericFeedView { price, name, timestamp: (now / 1_000_000) as u64 }
}

/// The feeds of a currency: its price in dollars and that of a dollar in it, as they are and smoothed.
pub open spec fn generic_feeds(
    known: AggregatorView,
    currency: Seq<char>,
    token_usd: nat,
    usd_token: nat,
    now: u128,
    weights: Map<Seq<char>, real>,
) -> Seq<GenericFeedView> {
    seq![
        raw_feed(currency + "/USD#RAW"@, token_usd, now),
        raw_feed("USD/"@ + currency + "#RAW"@, usd_token, now),
        smoothed_feed(known, currency + "/USD#GEMA"@, token_usd, now, weights),
        smoothed_feed(known, "USD/"@ + currency + "#GEMA"@, usd_token, now, weights),
    ]
}

/// The feeds of a currency.
pub enum FeedsView {
    /// There is no such price.
    Undefined,
    /// It is not known.
    Nothing,
    Feeds(Seq<GenericFeedView>),
}

/// The feeds of a currency.
pub open spec fn generic_payload(
    known: AggregatorView,
    currency: Seq<char>,
    converter: ConverterView,
    now: u128,
    weights: Map<Seq<char>, real>,
) -> FeedsView {
    match valuation(converter, currency) {
        Valuation::Undefined => FeedsView::Undefined,
        Valuation::Nothing => FeedsView::Nothing,
        Valuation::Value(price) => if price == 0real {
            FeedsView::Undefined
        } else {
            match (whole_price(price), whole_price(1real / price)) {
                (Some(token_usd), Some(usd_token)) => FeedsView::Feeds(
                    generic_feeds(known, currency, token_usd, usd_token, now, weights),
                ),
                _ => FeedsView::Undefined,
            }
        },
    }
}

/// The feeds of a currency.
#[derive(Debug)]
pub enum CurrencyFeeds {
    /// There is no such price.
    Undefined,
    /// It is not known.
    Nothing,
    Feeds(Vec<GenericPriceFeed>),
}

impl View for CurrencyFeeds {
    type V = FeedsView;

    open spec fn view(&self) -> FeedsView {
        match self {
            CurrencyFeeds::Undefined => FeedsView::Undefined,
            CurrencyFeeds::Nothing => FeedsView::Nothing,
            CurrencyFeeds::Feeds(feeds) => FeedsView::Feeds(views(feeds@)),
        }
    }
}

impl PriceAggregator {
    /// The price of a feed, smoothed by the one that was signed last.
    pub fn apply_gema(&self, feed: &str, price: Natural, now: u128, weight: Option<&Rational>) -> (r: Natural)
        ensures
            r@ == smoothed_price(self@, feed@, price@, now, weight_in(weight)),
    {
        let previous = match self.previous_prices.get(feed) {
            Some(previous) => previous,
            None => {
                return price;
            },
        };
        if now < previous.timestamp {
            return price;
        }
        self.gema.smooth_price(weight, &previous.price, price)
    }

    /// The feeds of a currency.
    pub fn compute_generic_payload(
        &self,
        currency: &str,
        converter: &TokenPriceConverter,
        now: u128,
        weights: &NameMap<String, Rational>,
    ) -> (r: CurrencyFeeds)
        ensures
            r@ == generic_payload(self@, currency@, converter@, now, weights_by_name(weights@)),
    {
        let price = match converter.evaluate(currency) {
            Evaluation::Value(price) => price,
            Evaluation::Nothing => {
                return CurrencyFeeds::Nothing;
            },
            Evaluation::Undefined => {
                return CurrencyFeeds::Undefined;
            },
        };
        if price.is_zero() {
            return CurrencyFeeds::Undefined;
        }
        let inverse = Rational::from_u64(1).over(&price);
        let (token_usd, usd_token) = match (to_int(&price), to_int(&inverse)) {
            (Some(token_usd), Some(usd_token)) => (token_usd, usd_token),
            _ => {
                return CurrencyFeeds::Undefined;
            },
        };
        let timestamp: u64 = #[verifier::truncate] ((now / 1_000_000) as u64);
        let mut feeds: Vec<GenericPriceFeed> = Vec::new();
        feeds.push(GenericPriceFeed { price: token_usd.clone(), name: join(currency, "/USD#RAW"), timestamp });
        feeds.push(GenericPriceFeed { price: usd_token.clone(), name: between("USD/", currency, "#RAW"), timestamp });
        let token_usd_gema = join(currency, "/USD#GEMA");
        let weight = weights.get(token_usd_gema.as_str());
        feeds.push(
            GenericPriceFeed {
                price: self.apply_gema(token_usd_gema.as_str(), token_usd, now, weight),
                name: token_usd_gema,
                timestamp,
            },
        );
        let usd_token_gema = between("USD/", currency, "#GEMA");
        let weight = weights.get(usd_token_gema.as_str());
        feeds.push(
            GenericPriceFeed {
                price: self.apply_gema(usd_token_gema.as_str(), usd_token, now, weight),
                name: usd_token_gema,
                timestamp,
            },
        );
        assert(views(feeds@) =~= generic_feeds(
            self@,
            currency@,
            whole_price(price@)->0,
            whole_price(inverse@)->0,
            now,
            weights_by_name(weights@),
        ));
        CurrencyFeeds::Feeds(feeds)
    }
}

/// What is reported of a synthetic.
pub open spec fn synthetic_health(
    synthetic: Seq<char>,
    outcome: Result<SyntheticDataView, PayloadErrorView>,
) -> HealthInfoView {
    HealthInfoView {
        origin: OriginView::Currency(synthetic),
        status: match outcome {
            Ok(_) => StatusView::Healthy,
            Err(error) => StatusView::Unhealthy(error_text(error)),
        },
    }
}

/// What is reported of a currency.
pub open spec fn currency_health(currency: Seq<char>, feeds: FeedsView) -> HealthInfoView {
    HealthInfoView {
        origin: OriginView::Currency(currency),
        status: match feeds {
            FeedsView::Feeds(_) => StatusView::Healthy,
            _ => StatusView::Unhealthy("could not compute price"@),
        },
    }
}

/// Those synthetics that have a price.
pub open spec fn computed(outcomes: Seq<Result<SyntheticDataView, PayloadErrorView>>) -> Seq<SyntheticDataView>
    decreases outcomes.len(),
{
    if outcomes.len() == 0 {
        seq![]
    } else {
        match outcomes.last() {
            Ok(data) => computed(outcomes.drop_last()).push(data),
            Err(_) => computed(outcomes.drop_last()),
        }
    }
}

/// The feeds of all currencies.
pub open spec fn all_feeds(feeds: Seq<FeedsView>) -> Seq<GenericFeedView>
    decreases feeds.len(),
{
    if feeds.len() == 0 {
        seq![]
    } else {
        match feeds.last() {
            FeedsView::Feeds(feeds_of_one) => all_feeds(feeds.drop_last()) + feeds_of_one,
            _ => all_feeds(feeds.drop_last()),
        }
    }
}

/// The weights of what was signed last, by name.
pub struct Weights {
    pub synthetics: NameMap<String, Rational>,
    pub generics: NameMap<String, Rational>,
}

/// What prices are found by.
pub struct Inputs {
    pub known: AggregatorView,
    pub config: PricingView,
    pub converter: ConverterView,
    pub source: Option<ConfigSourceView>,
    pub synthetic_weights: Map<Seq<char>, real>,
    pub feed_weights: Map<Seq<char>, real>,
    pub now: u128,
}

/// What becomes of each synthetic.
pub open spec fn synthetic_outcomes(
    inputs: Inputs,
    synthetics: Seq<SyntheticConfig>,
) -> Seq<Result<SyntheticDataView, PayloadErrorView>> {
    Seq::new(synthetics.len(), |i: int| synthetic_outcome(inputs, synthetics[i].name@))
}

/// What becomes of a synthetic.
pub open spec fn synthetic_outcome(inputs: Inputs, synthetic: Seq<char>) -> Result<SyntheticDataView, PayloadErrorView> {
    synthetic_payload(
        inputs.known,
        inputs.config,
        synthetic,
        inputs.converter,
        inputs.source,
        inputs.now,
        weight_of(inputs.synthetic_weights, synthetic),
    )
}

/// What becomes of each currency.
pub open spec fn feed_outcomes(inputs: Inputs, currencies: Seq<Seq<char>>) -> Seq<FeedsView> {
    Seq::new(
        currencies.len(),
        |i: int|
            generic_payload(inputs.known, currencies[i], inputs.converter, inputs.now, inputs.feed_weights),
    )
}

/// Whether there is no such price.
pub open spec fn is_undefined(outcome: Result<SyntheticDataView, PayloadErrorView>) -> bool {
    outcome matches Err(error) && error is Undefined
}

/// Whether all of these are defined.
pub open spec fn outcomes_defined(outcomes: Seq<Result<SyntheticDataView, PayloadErrorView>>) -> bool {
    forall|i: int|
        0 <= i < outcomes.len() ==> !is_undefined(#[trigger] outcomes[i])
}

/// Whether all of these are defined.
pub open spec fn feeds_defined(feeds: Seq<FeedsView>) -> bool {
    forall|i: int| 0 <= i < feeds.len() ==> (#[trigger] feeds[i]) !is Undefined
}

/// What is reported of these synthetics.
pub open spec fn synthetics_health(
    synthetics: Seq<SyntheticConfig>,
    outcomes: Seq<Result<SyntheticDataView, PayloadErrorView>>,
) -> Seq<HealthInfoView> {
    Seq::new(synthetics.len(), |i: int| synthetic_health(synthetics[i].name@, outcomes[i]))
}

/// What is reported of these currencies.
pub open spec fn currencies_health(currencies: Seq<Seq<char>>, feeds: Seq<FeedsView>) -> Seq<HealthInfoView> {
    Seq::new(currencies.len(), |i: int| currency_health(currencies[i], feeds[i]))
}

impl PriceAggregator {
    /// A synthetic's price, if it has one, and how it is doing.
    pub fn compute_synthetic_payload(
        &self,
        config: &OracleConfig,
        synth: &SyntheticConfig,
        converter: &TokenPriceConverter,
        source: Option<&SyntheticConfigSource>,
        now: u128,
        weight: Option<&Rational>,
    ) -> (r: Option<(Option<SyntheticPriceData>, HealthInfo)>)
        requires
            is_moment(now),
        ensures
            ({
                let outcome = synthetic_payload(
                    self@,
                    pricing(*config),
                    synth.name@,
                    converter@,
                    source_in(source),
                    now,
                    weight_in(weight),
                );
                &&& r is None <==> is_undefined(outcome)
                &&& r matches Some((data, health)) ==> {
                    &&& health@ == synthetic_health(synth.name@, outcome)
                    &&& match outcome {
                        Ok(expected) => data matches Some(data) && data@ == expected,
                        Err(_) => data is None,
                    }
                }
            }),
    {
        let origin = Origin::Currency(synth.name.clone());
        match self.do_compute_synthetic_payload(config, synth.name.as_str(), converter, source, now, weight) {
            Ok(data) => Some((Some(data), HealthInfo { origin, status: HealthStatus::Healthy })),
            Err(PayloadError::Undefined) => None,
            Err(error) => Some((None, HealthInfo { origin, status: HealthStatus::Unhealthy(error.describe()) })),
        }
    }

    /// The prices of all synthetics, and how they are doing; nothing if one of them is not defined.
    fn compute_synthetics(
        &self,
        config: &OracleConfig,
        converter: &TokenPriceConverter,
        source: Option<&SyntheticConfigSource>,
        weights: &Weights,
        now: u128,
        Ghost(inputs): Ghost<Inputs>,
    ) -> (r: Option<(Vec<SyntheticPriceData>, Vec<HealthInfo>)>)
        requires
            is_moment(now),
            inputs.known == self@,
            inputs.config == pricing(*config),
            inputs.converter == converter@,
            inputs.source == source_in(source),
            inputs.synthetic_weights == weights_by_name(weights.synthetics@),
            inputs.now == now,
        ensures
            r is Some <==> outcomes_defined(synthetic_outcomes(inputs, config.synthetics@)),
            r matches Some((data, health)) ==> {
                &&& views(data@) == computed(synthetic_outcomes(inputs, config.synthetics@))
                &&& views(health@) == synthetics_health(
                    config.synthetics@,
                    synthetic_outcomes(inputs, config.synthetics@),
                )
            },
    {
        let ghost outcomes = synthetic_outcomes(inputs, config.synthetics@);
        let mut all: Vec<SyntheticPriceData> = Vec::new();
        let mut reports: Vec<HealthInfo> = Vec::new();
        let mut i: usize = 0;
        assert(outcomes.take(0) =~= seq![]);
        assert(views(all@) =~= computed(outcomes.take(0)));
        while i < config.synthetics.len()
            invariant
                i <= config.synthetics.len(),
                is_moment(now),
                inputs.known == self@,
                inputs.config == pricing(*config),
                inputs.converter == converter@,
                inputs.source == source_in(source),
                inputs.synthetic_weights == weights_by_name(weights.synthetics@),
                inputs.now == now,
                outcomes == synthetic_outcomes(inputs, config.synthetics@),
                views(all@) == computed(outcomes.take(i as int)),
                reports.len() == i,
                forall|j: int|
                    0 <= j < i ==> (#[trigger] reports@[j])@ == synthetic_health(
                        config.synthetics@[j].name@,
                        outcomes[j],
                    ),
                forall|j: int| 0 <= j < i ==> !is_undefined(#[trigger] outcomes[j]),
            decreases config.synthetics.len() - i,
        {
            let synth = &config.synthetics[i];
            let ghost before = all@;
            proof {
                assert(outcomes.take(i + 1).drop_last() =~= outcomes.take(i as int));
                assert(outcomes.take(i + 1).last() == outcomes[i as int]);
                assert(outcomes[i as int] == synthetic_outcome(inputs, synth.name@));
            }
            let weight = weights.synthetics.get(synth.name.as_str());
            match self.compute_synthetic_payload(config, synth, converter, source, now, weight) {
                None => {
                    return None;
                },
                Some((data, report)) => {
                    if let Some(data) = data {
                        all.push(data);
                        assert(views(all@) =~= views(before).push(data@));
                    }
                    reports.push(report);
                },
            }
            i += 1;
        }
        proof {
            assert(outcomes.take(i as int) =~= outcomes);
            assert(views(reports@) =~= synthetics_health(config.synthetics@, outcomes));
        }
        Some((all, reports))
    }

    /// The feeds of all currencies, and how they are doing; nothing if one of them is not defined.
    fn compute_generics(
        &self,
        config: &OracleConfig,
        converter: &TokenPriceConverter,
        weights: &Weights,
        now: u128,
        Ghost(inputs): Ghost<Inputs>,
    ) -> (r: Option<(Vec<GenericPriceFeed>, Vec<HealthInfo>)>)
        requires
            inputs.known == self@,
            inputs.converter == converter@,
            inputs.feed_weights == weights_by_name(weights.generics@),
            inputs.now == now,
        ensures
            r is Some <==> feeds_defined(feed_outcomes(inputs, texts(config.feeds.currencies@))),
            r matches Some((feeds, health)) ==> {
                &&& views(feeds@) == all_feeds(feed_outcomes(inputs, texts(config.feeds.currencies@)))
                &&& views(health@) == currencies_health(
                    texts(config.feeds.currencies@),
                    feed_outcomes(inputs, texts(config.feeds.currencies@)),
                )
            },
    {
        let currencies = &config.feeds.currencies;
        let ghost names = texts(currencies@);
        let ghost outcomes = feed_outcomes(inputs, names);
        let mut all: Vec<GenericPriceFeed> = Vec::new();
        let mut reports: Vec<HealthInfo> = Vec::new();
        let mut i: usize = 0;
        assert(outcomes.take(0) =~= seq![]);
        assert(views(all@) =~= all_feeds(outcomes.take(0)));
        while i < currencies.len()
            invariant
                i <= currencies.len(),
                inputs.known == self@,
                inputs.converter == converter@,
                inputs.feed_weights == weights_by_name(weights.generics@),
                inputs.now == now,
                names == texts(currencies@),
                *currencies == config.feeds.currencies,
                outcomes == feed_outcomes(inputs, names),
                views(all@) == all_feeds(outcomes.take(i as int)),
                reports.len() == i,
                forall|j: int| 0 <= j < i ==> (#[trigger] reports@[j])@ == currency_health(names[j], outcomes[j]),
                forall|j: int| 0 <= j < i ==> (#[trigger] outcomes[j]) !is Undefined,
            decreases currencies.len() - i,
        {
            let currency = &currencies[i];
            let ghost before = all@;
            proof {
                assert(outcomes.take(i + 1).drop_last() =~= outcomes.take(i as int));
                assert(outcomes.take(i + 1).last() == outcomes[i as int]);
                assert(names[i as int] == currency@);
            }
            let origin = Origin::Currency(currency.clone());
            match self.compute_generic_payload(currency.as_str(), converter, now, &weights.generics) {
                CurrencyFeeds::Undefined => {
                    return None;
                },
                CurrencyFeeds::Nothing => {
                    let reason = "could not compute price".to_owned();
                    reports.push(HealthInfo { origin, status: HealthStatus::Unhealthy(reason) });
                },
                CurrencyFeeds::Feeds(feeds) => {
                    let mut feeds = feeds;
                    let ghost added = feeds@;
                    all.append(&mut feeds);
                    assert(views(all@) =~= views(before) + views(added));
                    reports.push(HealthInfo { origin, status: HealthStatus::Healthy });
                },
            }
            i += 1;
        }
        proof {
            assert(outcomes.take(i as int) =~= outcomes);
            assert(views(reports@) =~= currencies_health(names, outcomes));
        }
        Some((all, reports))
    }
}

/// What a node has found.
pub struct Report {
    pub data: PriceData,
    /// The prices that it goes by.
    pub audit: Vec<TokenPrice>,
    pub health: Vec<HealthInfo>,
}

/// The default prices: those that are kept, if they are used.
pub open spec fn default_prices(use_persisted_prices: bool, kept: PersistenceView) -> Seq<TokenPriceView> {
    if use_persisted_prices {
        alphabetical(saved(kept.prices))
    } else {
        seq![]
    }
}

/// What values go by.
pub open spec fn converter_for(config: OracleConfig, said: Seq<QuoteView>, kept: PersistenceView) -> ConverterView {
    ConverterView {
        prices: all_prices(said, default_prices(config.use_persisted_prices, kept)),
        synthetics: synthetics_by_name(config.synthetics@),
        threshold: config.max_price_divergence@.value(),
    }
}

impl PriceAggregator {
    /// What prices are found by.
    pub open spec fn inputs(
        &self,
        config: OracleConfig,
        said: Seq<QuoteView>,
        kept: PersistenceView,
        source: Option<&SyntheticConfigSource>,
        weights: Weights,
        now: u128,
    ) -> Inputs {
        Inputs {
            known: self@,
            config: pricing(config),
            converter: converter_for(config, said, kept),
            source: source_in(source),
            synthetic_weights: weights_by_name(weights.synthetics@),
            feed_weights: weights_by_name(weights.generics@),
            now,
        }
    }

    /// What a node has found; nothing if some price is not defined. The prices that are kept are brought up to date.
    pub fn report(
        &self,
        config: &OracleConfig,
        source_prices: &Vec<(String, PriceInfo)>,
        persistence: &mut TokenPricePersistence,
        source: Option<&SyntheticConfigSource>,
        weights: &Weights,
        now: u128,
    ) -> (r: Option<Report>)
        requires
            is_moment(now),
        ensures
            ({
                let said = quotes(source_prices@);
                let inputs = self.inputs(*config, said, old(persistence)@, source, *weights, now);
                let outcomes = synthetic_outcomes(inputs, config.synthetics@);
                let currencies = texts(config.feeds.currencies@);
                let feeds = feed_outcomes(inputs, currencies);
                &&& r is Some <==> have_weight(said) && outcomes_defined(outcomes) && feeds_defined(feeds)
                    && are_defined(inputs.converter, old(persistence)@.currencies)
                &&& r matches Some(report) ==> {
                    &&& report.data@.synthetics == computed(outcomes)
                    &&& report.data@.generics == all_feeds(feeds)
                    &&& views(report.audit@) == listed_prices(inputs.converter.prices)
                    &&& views(report.health@) == synthetics_health(config.synthetics@, outcomes) + currencies_health(
                        currencies,
                        feeds,
                    )
                }
                &&& final(persistence)@.currencies == old(persistence)@.currencies
                &&& final(persistence)@.prices == if r is Some {
                    known_prices(inputs.converter, old(persistence)@.currencies)
                } else {
                    old(persistence)@.prices
                }
            }),
    {
        let ghost said = quotes(source_prices@);
        let ghost inputs = self.inputs(*config, said, persistence@, source, *weights, now);
        let defaults = if config.use_persisted_prices {
            persistence.saved_prices()
        } else {
            Vec::new()
        };
        assert(views(defaults@) =~= default_prices(config.use_persisted_prices, persistence@));
        let threshold = decimal_to_rational(config.max_price_divergence);
        let converter = match TokenPriceConverter::try_new(
            source_prices.as_slice(),
            defaults.as_slice(),
            config.synthetics.as_slice(),
            threshold,
        ) {
            Some(converter) => converter,
            None => {
                return None;
            },
        };
        assert(converter@ == inputs.converter);
        let (synthetics, mut health) = match self.compute_synthetics(
            config,
            &converter,
            source,
            weights,
            now,
            Ghost(inputs),
        ) {
            Some(found) => found,
            None => {
                return None;
            },
        };
        let (generics, mut more) = match self.compute_generics(config, &converter, weights, now, Ghost(inputs)) {
            Some(found) => found,
            None => {
                return None;
            },
        };
        let audit = converter.token_prices();
        if !persistence.save_prices(&converter) {
            return None;
        }
        let ghost first = health@;
        let ghost second = more@;
        health.append(&mut more);
        assert(views(health@) =~= views(first) + views(second));
        Some(Report { data: PriceData { synthetics, generics }, audit, health })
    }
}

/// The sources that prices can come from.
#[derive(Debug, Clone, Copy, PartialEq, Eq, Structural)]
pub enum SourceKind {
    Binance,
    ByBit,
    Coinbase,
    CryptoCom,
    Kucoin,
    Okx,
    Minswap,
    Splash,
    CSwap,
    VyFi,
    WingRiders,
    Maestro,
    FxRatesApi,
    SundaeSwap,
    SundaeSwapKupo,
}

/// A source, if there is reason to ask it.
pub open spec fn source_if(asked: bool, kind: SourceKind) -> Seq<SourceKind> {
    if asked {
        seq![kind]
    } else {
        seq![]
    }
}

/// The sources that a node asks: exchanges always, pools where they are configured, and those that want a key where
/// there is one.
pub open spec fn sources_for_config(config: OracleConfig, has_maestro_key: bool, has_fxratesapi_key: bool) -> Seq<SourceKind> {
    always_asked() + source_if(config.minswap is Some, SourceKind::Minswap) + source_if(
        config.splash is Some,
        SourceKind::Splash,
    ) + source_if(config.cswap is Some, SourceKind::CSwap) + source_if(config.vyfi is Some, SourceKind::VyFi)
        + source_if(config.wingriders is Some, SourceKind::WingRiders) + source_if(has_maestro_key, SourceKind::Maestro)
        + source_if(has_fxratesapi_key, SourceKind::FxRatesApi) + source_if(
        config.sundaeswap is Some && config.sundaeswap->0.use_api,
        SourceKind::SundaeSwap,
    ) + source_if(config.sundaeswap is Some && !config.sundaeswap->0.use_api, SourceKind::SundaeSwapKupo)
}

/// The exchanges.
pub open spec fn always_asked() -> Seq<SourceKind> {
    seq![
        SourceKind::Binance,
        SourceKind::ByBit,
        SourceKind::Coinbase,
        SourceKind::CryptoCom,
        SourceKind::Kucoin,
        SourceKind::Okx,
    ]
}

fn push_if(sources: &mut Vec<SourceKind>, asked: bool, kind: SourceKind)
    ensures
        final(sources)@ == old(sources)@ + source_if(asked, kind),
{
    let ghost before = sources@;
    if asked {
        sources.push(kind);
    }
    assert(sources@ =~= before + source_if(asked, kind));
}

/// The sources that a node asks.
pub fn choose_sources(config: &OracleConfig, has_maestro_key: bool, has_fxratesapi_key: bool) -> (r: Vec<SourceKind>)
    ensures
        r@ == sources_for_config(*config, has_maestro_key, has_fxratesapi_key),
{
    let mut sources: Vec<SourceKind> = Vec::new();
    sources.push(SourceKind::Binance);
    sources.push(SourceKind::ByBit);
    sources.push(SourceKind::Coinbase);
    sources.push(SourceKind::CryptoCom);
    sources.push(SourceKind::Kucoin);
    sources.push(SourceKind::Okx);
    assert(sources@ =~= always_asked());
    push_if(&mut sources, config.minswap.is_some(), SourceKind::Minswap);
    push_if(&mut sources, config.splash.is_some(), SourceKind::Splash);
    push_if(&mut sources, config.cswap.is_some(), SourceKind::CSwap);
    push_if(&mut sources, config.vyfi.is_some(), SourceKind::VyFi);
    push_if(&mut sources, config.wingriders.is_some(), SourceKind::WingRiders);
    push_if(&mut sources, has_maestro_key, SourceKind::Maestro);
    push_if(&mut sources, has_fxratesapi_key, SourceKind::FxRatesApi);
    let (has_sundaeswap, use_api) = match &config.sundaeswap {
        Some(sundaeswap) => (true, sundaeswap.use_api),
        None => (false, false),
    };
    push_if(&mut sources, has_sundaeswap && use_api, SourceKind::SundaeSwap);
    push_if(&mut sources, has_sundaeswap && !use_api, SourceKind::SundaeSwapKupo);
    sources
}

/// What is remembered of a feed does not get older.
pub proof fn law_remembered_feeds_do_not_get_older(
    known: Map<Seq<char>, PreviousView>,
    entries: Seq<GenericPayloadView>,
    feed: Seq<char>,
)
    requires
        known.contains_key(feed),
    ensures
        remembered_generics(known, entries).contains_key(feed),
        remembered_generics(known, entries)[feed].timestamp >= known[feed].timestamp,
    decreases entries.len(),
{
    if entries.len() > 0 {
        law_remembered_feeds_do_not_get_older(known, entries.drop_last(), feed);
    }
}

/// What is remembered of a synthetic does not get older.
pub proof fn law_remembered_synthetics_do_not_get_older(
    known: Map<Seq<char>, PreviousSyntheticView>,
    entries: Seq<SyntheticPayloadView>,
    synthetic: Seq<char>,
)
    requires
        known.contains_key(synthetic),
    ensures
        remembered_synthetics(known, entries) matches Some(after) ==> after.contains_key(synthetic)
            && after[synthetic].timestamp >= known[synthetic].timestamp,
    decreases entries.len(),
{
    if entries.len() > 0 {
        law_remembered_synthetics_do_not_get_older(known, entries.drop_last(), synthetic);
    }
}

} // verus!
