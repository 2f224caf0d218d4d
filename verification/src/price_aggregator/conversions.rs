//! What tokens are worth, by the prices that sources report.

use vstd::prelude::*;

use crate::config::SyntheticConfig;
use crate::names::{alphabetical, ascending, has_name, index_by_name, is_last, keys_of, lemma_alphabetical};
use crate::names::{lemma_entries_listed, lemma_entry, lemma_place, lists_map, map_of, names_ascend, names_of, str_equal};
use crate::names::{NameMap, Named};
use crate::numbers::Rational;
use crate::price_aggregator::utils::decimal_to_rational;
use crate::price_feed::synthetic::{clone_names, texts};
use crate::price_feed::{copy_all, views, Copied};
use crate::sources::source::{PriceInfo, PriceInfoView};

pub mod laws;

verus! {

/// The price of a token in a unit, and the sources that it was made of.
#[derive(Debug, PartialEq)]
pub struct TokenPrice {
    pub token: String,
    pub unit: String,
    pub value: Rational,
    pub sources: Vec<TokenPriceSource>,
}

/// What one source says of a price, and how much weight that has.
#[derive(Debug, PartialEq)]
pub struct TokenPriceSource {
    pub name: String,
    pub value: Rational,
    pub reliability: Rational,
}

pub struct TokenPriceView {
    pub token: Seq<char>,
    pub unit: Seq<char>,
    pub value: real,
    pub sources: Seq<TokenPriceSourceView>,
}

pub struct TokenPriceSourceView {
    pub name: Seq<char>,
    pub value: real,
    pub reliability: real,
}

impl View for TokenPrice {
    type V = TokenPriceView;

    open spec fn view(&self) -> TokenPriceView {
        TokenPriceView {
            token: self.token@,
            unit: self.unit@,
            value: self.value@,
            sources: views(self.sources@),
        }
    }
}

impl View for TokenPriceSource {
    type V = TokenPriceSourceView;

    open spec fn view(&self) -> TokenPriceSourceView {
        TokenPriceSourceView { name: self.name@, value: self.value@, reliability: self.reliability@ }
    }
}

impl Copied for TokenPrice {
    fn copied(&self) -> (r: Self) {
        TokenPrice {
            token: self.token.clone(),
            unit: self.unit.clone(),
            value: self.value.clone(),
            sources: copy_all(&self.sources),
        }
    }
}

impl Copied for TokenPriceSource {
    fn copied(&self) -> (r: Self) {
        TokenPriceSource {
            name: self.name.clone(),
            value: self.value.clone(),
            reliability: self.reliability.clone(),
        }
    }
}

/// The currencies that back a synthetic, and whether it has the inverse of their value.
pub struct BackingView {
    pub currencies: Seq<Seq<char>>,
    pub invert: bool,
}

/// What a converter goes by.
pub struct ConverterView {
    /// The prices of a token, one for each unit.
    pub prices: Map<Seq<char>, Seq<TokenPriceView>>,
    pub synthetics: Map<Seq<char>, BackingView>,
    /// How far apart the values of a synthetic's currencies may be.
    pub threshold: real,
}

/// What a token is worth.
pub enum Valuation {
    /// There is no such value: it depends on itself, or takes a division by zero, or more than three
    /// currencies back a synthetic.
    Undefined,
    /// It is not known.
    Nothing,
    Value(real),
}

/// The tokens that the value of a token depends on.
pub open spec fn dependencies(converter: ConverterView, token: Seq<char>) -> Seq<Seq<char>> {
    if token == "USD"@ {
        seq![]
    } else if converter.synthetics.contains_key(token) {
        converter.synthetics[token].currencies
    } else if converter.prices.contains_key(token) {
        units(converter.prices[token])
    } else {
        seq![]
    }
}

/// The units of these prices.
pub open spec fn units(prices: Seq<TokenPriceView>) -> Seq<Seq<char>> {
    Seq::new(prices.len(), |i: int| prices[i].unit)
}

/// These tokens have ranks above those of the tokens that they depend on.
pub open spec fn is_ranking(converter: ConverterView, ranks: Map<Seq<char>, nat>) -> bool {
    forall|token: Seq<char>| #[trigger] ranks.contains_key(token) ==> below(ranks, dependencies(converter, token), ranks[token])
}

/// These tokens have ranks below `rank`.
pub open spec fn below(ranks: Map<Seq<char>, nat>, tokens: Seq<Seq<char>>, rank: nat) -> bool {
    forall|i: int| 0 <= i < tokens.len() ==> ranks.contains_key(#[trigger] tokens[i]) && ranks[tokens[i]] < rank
}

/// Whether the value of a token depends, in the end, on no value that depends on itself.
pub open spec fn is_resolvable(converter: ConverterView, token: Seq<char>) -> bool {
    exists|ranks: Map<Seq<char>, nat>| #[trigger] is_ranking(converter, ranks) && ranks.contains_key(token)
}

/// What the first `n` tokens that this one depends on are worth.
pub open spec fn values_below(
    converter: ConverterView,
    ranks: Map<Seq<char>, nat>,
    token: Seq<char>,
    n: nat,
) -> Seq<Valuation>
    decreases ranks[token], n,
    when is_ranking(converter, ranks) && ranks.contains_key(token) && n <= dependencies(converter, token).len()
{
    if n == 0 {
        seq![]
    } else {
        values_below(converter, ranks, token, (n - 1) as nat).push(
            value_ranked(converter, ranks, dependencies(converter, token)[n - 1]),
        )
    }
}

/// What a token is worth, found in the order of the ranks.
pub open spec fn value_ranked(converter: ConverterView, ranks: Map<Seq<char>, nat>, token: Seq<char>) -> Valuation
    decreases ranks[token], dependencies(converter, token).len() + 1,
    when is_ranking(converter, ranks) && ranks.contains_key(token)
{
    combined(
        converter,
        token,
        values_below(converter, ranks, token, dependencies(converter, token).len()),
    )
}

/// What a token is worth.
pub open spec fn valuation(converter: ConverterView, token: Seq<char>) -> Valuation {
    if is_resolvable(converter, token) {
        let ranks = choose|ranks: Map<Seq<char>, nat>| #[trigger]
            is_ranking(converter, ranks) && ranks.contains_key(token);
        value_ranked(converter, ranks, token)
    } else {
        Valuation::Undefined
    }
}

/// What a token is worth, when the tokens that it depends on are worth `values`. A synthetic is worth what the
/// currencies that back it are worth.
pub open spec fn combined(converter: ConverterView, token: Seq<char>, values: Seq<Valuation>) -> Valuation {
    if token == "USD"@ {
        Valuation::Value(1real)
    } else if converter.synthetics.contains_key(token) {
        synthetic_value(converter.synthetics[token].invert, converter.threshold, values)
    } else if converter.prices.contains_key(token) {
        average_price(converter.prices[token], values)
    } else {
        Valuation::Nothing
    }
}

/// Whether each of these is defined.
pub open spec fn all_defined(values: Seq<Valuation>) -> bool {
    forall|i: int| 0 <= i < values.len() ==> (#[trigger] values[i]) !is Undefined
}

/// The values of these sources in a unit that is worth `factor`, by their weight.
pub open spec fn weighted(sources: Seq<TokenPriceSourceView>, factor: real) -> real
    decreases sources.len(),
{
    if sources.len() == 0 {
        0real
    } else {
        weighted(sources.drop_last(), factor) + sources.last().value * factor * sources.last().reliability
    }
}

/// The weight of these sources.
pub open spec fn reliability(sources: Seq<TokenPriceSourceView>) -> real
    decreases sources.len(),
{
    if sources.len() == 0 {
        0real
    } else {
        reliability(sources.drop_last()) + sources.last().reliability
    }
}

/// The values of all sources whose unit has a value, by their weight.
pub open spec fn total_value(prices: Seq<TokenPriceView>, values: Seq<Valuation>) -> real
    decreases prices.len(),
{
    if prices.len() == 0 {
        0real
    } else {
        let n = prices.len() - 1;
        total_value(prices.drop_last(), values) + match values[n] {
            Valuation::Value(factor) => weighted(prices[n].sources, factor),
            _ => 0real,
        }
    }
}

/// The weight of all sources whose unit has a value.
pub open spec fn total_reliability(prices: Seq<TokenPriceView>, values: Seq<Valuation>) -> real
    decreases prices.len(),
{
    if prices.len() == 0 {
        0real
    } else {
        let n = prices.len() - 1;
        total_reliability(prices.drop_last(), values) + match values[n] {
            Valuation::Value(_) => reliability(prices[n].sources),
            _ => 0real,
        }
    }
}

/// The average of all sources whose unit has a value, by their weight.
pub open spec fn average_price(prices: Seq<TokenPriceView>, values: Seq<Valuation>) -> Valuation {
    if !all_defined(values) {
        Valuation::Undefined
    } else if total_reliability(prices, values) == 0real {
        Valuation::Nothing
    } else {
        Valuation::Value(total_value(prices, values) / total_reliability(prices, values))
    }
}

/// The values that are known.
pub open spec fn known(values: Seq<Valuation>) -> Seq<real>
    decreases values.len(),
{
    if values.len() == 0 {
        seq![]
    } else {
        match values.last() {
            Valuation::Value(value) => known(values.drop_last()).push(value),
            _ => known(values.drop_last()),
        }
    }
}

pub open spec fn smaller(a: real, b: real) -> real {
    if a < b {
        a
    } else {
        b
    }
}

pub open spec fn larger(a: real, b: real) -> real {
    if a < b {
        b
    } else {
        a
    }
}

/// How far two values are apart, by the smaller of them.
pub open spec fn divergence(a: real, b: real) -> real {
    (larger(a, b) - smaller(a, b)) / smaller(a, b)
}

/// What two values come to: their average, if both are close to it, and nothing otherwise.
pub open spec fn agreed_of_two(a: real, b: real, threshold: real) -> Valuation {
    let average = (a + b) / 2real;
    if smaller(a, average) == 0real || smaller(b, average) == 0real {
        Valuation::Undefined
    } else if divergence(a, average) < threshold && divergence(b, average) < threshold {
        Valuation::Value(average)
    } else {
        Valuation::Nothing
    }
}

/// What three values, in ascending order, come to: their average, if all are close to it; or the average of two
/// neighbours that are close, the lower two first; or else the one in the middle.
pub open spec fn agreed_of_three(low: real, middle: real, high: real, threshold: real) -> Valuation {
    let average = (low + middle + high) / 3real;
    if smaller(low, average) == 0real || smaller(middle, average) == 0real || smaller(high, average) == 0real {
        Valuation::Undefined
    } else if divergence(low, average) < threshold && divergence(middle, average) < threshold && divergence(
        high,
        average,
    ) < threshold {
        Valuation::Value(average)
    } else if low == 0real {
        Valuation::Undefined
    } else if divergence(low, middle) < threshold {
        Valuation::Value((low + middle) / 2real)
    } else if middle == 0real {
        Valuation::Undefined
    } else if divergence(middle, high) < threshold {
        Valuation::Value((middle + high) / 2real)
    } else {
        Valuation::Value(middle)
    }
}

/// What the values of the currencies that back a synthetic come to.
pub open spec fn agreed(values: Seq<real>, threshold: real) -> Valuation {
    if values.len() == 0 {
        Valuation::Nothing
    } else if values.len() == 1 {
        Valuation::Value(values[0])
    } else if values.len() == 2 {
        agreed_of_two(values[0], values[1], threshold)
    } else if values.len() == 3 {
        let low = smaller(smaller(values[0], values[1]), values[2]);
        let high = larger(larger(values[0], values[1]), values[2]);
        let middle = values[0] + values[1] + values[2] - low - high;
        agreed_of_three(low, middle, high, threshold)
    } else {
        Valuation::Undefined
    }
}

/// The inverse of a value.
pub open spec fn inverse(value: Valuation) -> Valuation {
    match value {
        Valuation::Value(value) => if value == 0real {
            Valuation::Undefined
        } else {
            Valuation::Value(1real / value)
        },
        other => other,
    }
}

/// What a synthetic is worth when the currencies that back it are worth `values`.
pub open spec fn synthetic_value(invert: bool, threshold: real, values: Seq<Valuation>) -> Valuation {
    if !all_defined(values) {
        Valuation::Undefined
    } else if invert {
        inverse(agreed(known(values), threshold))
    } else {
        agreed(known(values), threshold)
    }
}

/// The value does not depend on which ranking it was found by.
pub proof fn lemma_ranking_does_not_matter(
    converter: ConverterView,
    a: Map<Seq<char>, nat>,
    b: Map<Seq<char>, nat>,
    token: Seq<char>,
    n: nat,
)
    requires
        is_ranking(converter, a),
        is_ranking(converter, b),
        a.contains_key(token),
        b.contains_key(token),
        n <= dependencies(converter, token).len(),
    ensures
        values_below(converter, a, token, n) == values_below(converter, b, token, n),
    decreases a[token], n,
{
    if n > 0 {
        lemma_ranking_does_not_matter(converter, a, b, token, (n - 1) as nat);
        let next = dependencies(converter, token)[n - 1];
        assert(below(a, dependencies(converter, token), a[token]));
        assert(below(b, dependencies(converter, token), b[token]));
        let all = dependencies(converter, next).len();
        lemma_ranking_does_not_matter(converter, a, b, next, all);
        assert(value_ranked(converter, a, next) == combined(converter, next, values_below(converter, a, next, all)));
        assert(value_ranked(converter, b, next) == combined(converter, next, values_below(converter, b, next, all)));
        assert(values_below(converter, a, token, n) == values_below(converter, a, token, (n - 1) as nat).push(
            value_ranked(converter, a, next),
        ));
        assert(values_below(converter, b, token, n) == values_below(converter, b, token, (n - 1) as nat).push(
            value_ranked(converter, b, next),
        ));
    }
}

/// The value, found by any ranking.
pub proof fn lemma_valuation(converter: ConverterView, ranks: Map<Seq<char>, nat>, token: Seq<char>)
    requires
        is_ranking(converter, ranks),
        ranks.contains_key(token),
    ensures
        is_resolvable(converter, token),
        valuation(converter, token) == value_ranked(converter, ranks, token),
{
    let chosen = choose|ranks: Map<Seq<char>, nat>| #[trigger]
        is_ranking(converter, ranks) && ranks.contains_key(token);
    lemma_ranking_does_not_matter(converter, chosen, ranks, token, dependencies(converter, token).len());
}

/// What a token is worth.
#[derive(Debug)]
pub enum Evaluation {
    /// There is no such value.
    Undefined,
    /// It is not known.
    Nothing,
    Value(Rational),
}

impl View for Evaluation {
    type V = Valuation;

    open spec fn view(&self) -> Valuation {
        match self {
            Evaluation::Undefined => Valuation::Undefined,
            Evaluation::Nothing => Valuation::Nothing,
            Evaluation::Value(value) => Valuation::Value(value@),
        }
    }
}

/// Whether each of these is defined.
fn are_defined(values: &Vec<Evaluation>) -> (r: bool)
    ensures
        r == all_defined(views(values@)),
{
    let mut i: usize = 0;
    while i < values.len()
        invariant
            i <= values.len(),
            forall|j: int| 0 <= j < i ==> (#[trigger] views(values@)[j]) !is Undefined,
        decreases values.len() - i,
    {
        assert(views(values@)[i as int] == values@[i as int]@);
        if let Evaluation::Undefined = values[i] {
            return false;
        }
        i += 1;
    }
    true
}

/// The average of all sources whose unit has a value, by their weight.
fn compute_average_price(prices: &Vec<TokenPrice>, values: &Vec<Evaluation>) -> (r: Evaluation)
    requires
        values.len() == prices.len(),
    ensures
        r@ == average_price(views(prices@), views(values@)),
{
    if !are_defined(values) {
        return Evaluation::Undefined;
    }
    let ghost all = views(prices@);
    let ghost worth = views(values@);
    let mut value = Rational::from_u64(0);
    let mut weight = Rational::from_u64(0);
    let mut i: usize = 0;
    assert(all.take(0) =~= seq![]);
    while i < prices.len()
        invariant
            i <= prices.len(),
            prices.len() == values.len(),
            all == views(prices@),
            worth == views(values@),
            value@ == total_value(all.take(i as int), worth),
            weight@ == total_reliability(all.take(i as int), worth),
        decreases prices.len() - i,
    {
        let ghost before = all.take(i as int);
        let ghost now = all.take(i + 1);
        let ghost found = all[i as int].sources;
        assert(now.drop_last() =~= before);
        assert(now[i as int] == all[i as int]);
        assert(worth[i as int] == values@[i as int]@);
        if let Evaluation::Value(factor) = &values[i] {
            let sources = &prices[i].sources;
            let ghost value_before = value@;
            let ghost weight_before = weight@;
            let mut j: usize = 0;
            assert(found.take(0) =~= seq![]);
            while j < sources.len()
                invariant
                    j <= sources.len(),
                    found == views(sources@),
                    value@ == value_before + weighted(found.take(j as int), factor@),
                    weight@ == weight_before + reliability(found.take(j as int)),
                decreases sources.len() - j,
            {
                let source = &sources[j];
                proof {
                    assert(found.take(j + 1).drop_last() =~= found.take(j as int));
                    assert(found.take(j + 1).last() == source@);
                }
                value = value.plus(&source.value.times(factor).times(&source.reliability));
                weight = weight.plus(&source.reliability);
                j += 1;
            }
            assert(found.take(j as int) =~= found);
        }
        i += 1;
    }
    assert(all.take(i as int) =~= all);
    if weight.is_zero() {
        Evaluation::Nothing
    } else {
        Evaluation::Value(value.over(&weight))
    }
}

/// The values that are known.
fn known_values(values: &Vec<Evaluation>) -> (r: Vec<Rational>)
    ensures
        views(r@) == known(views(values@)),
{
    let ghost all = views(values@);
    let mut found: Vec<Rational> = Vec::new();
    let mut i: usize = 0;
    assert(all.take(0) =~= seq![]);
    assert(views(found@) =~= known(all.take(0)));
    while i < values.len()
        invariant
            i <= values.len(),
            all == views(values@),
            views(found@) == known(all.take(i as int)),
        decreases values.len() - i,
    {
        let ghost before = found@;
        proof {
            assert(all.take(i + 1).drop_last() =~= all.take(i as int));
            assert(all.take(i + 1).last() == values@[i as int]@);
        }
        if let Evaluation::Value(value) = &values[i] {
            found.push(value.clone());
            assert(views(found@) =~= views(before).push(value@));
        }
        i += 1;
    }
    assert(all.take(i as int) =~= all);
    found
}

/// The smaller of two values.
fn smaller_of(a: &Rational, b: &Rational) -> (r: Rational)
    ensures
        r@ == smaller(a@, b@),
{
    if a.less(b) {
        a.clone()
    } else {
        b.clone()
    }
}

/// The larger of two values.
fn larger_of(a: &Rational, b: &Rational) -> (r: Rational)
    ensures
        r@ == larger(a@, b@),
{
    if a.less(b) {
        b.clone()
    } else {
        a.clone()
    }
}

/// How far two values are apart, by the smaller of them.
fn find_divergence(v1: &Rational, v2: &Rational) -> (r: Option<Rational>)
    ensures
        r is None <==> smaller(v1@, v2@) == 0real,
        r is Some ==> r->0@ == divergence(v1@, v2@),
{
    let smallest = smaller_of(v1, v2);
    if smallest.is_zero() {
        None
    } else {
        Some(larger_of(v1, v2).minus(&smallest).over(&smallest))
    }
}

/// What two values come to.
fn agree_on_two(a: &Rational, b: &Rational, threshold: &Rational) -> (r: Evaluation)
    ensures
        r@ == agreed_of_two(a@, b@, threshold@),
{
    let average = a.plus(b).over(&Rational::from_u64(2));
    match (find_divergence(a, &average), find_divergence(b, &average)) {
        (Some(first), Some(second)) => if first.less(threshold) && second.less(threshold) {
            Evaluation::Value(average)
        } else {
            Evaluation::Nothing
        },
        _ => Evaluation::Undefined,
    }
}

/// What three values, in ascending order, come to.
fn agree_on_three(low: &Rational, middle: &Rational, high: &Rational, threshold: &Rational) -> (r: Evaluation)
    requires
        low@ <= middle@ <= high@,
    ensures
        r@ == agreed_of_three(low@, middle@, high@, threshold@),
{
    let average = low.plus(middle).plus(high).over(&Rational::from_u64(3));
    match (
        find_divergence(low, &average),
        find_divergence(middle, &average),
        find_divergence(high, &average),
    ) {
        (Some(first), Some(second), Some(third)) => {
            if first.less(threshold) && second.less(threshold) && third.less(threshold) {
                return Evaluation::Value(average);
            }
        },
        _ => {
            return Evaluation::Undefined;
        },
    }
    match find_divergence(low, middle) {
        Some(lower) => if lower.less(threshold) {
            return Evaluation::Value(low.plus(middle).over(&Rational::from_u64(2)));
        },
        None => {
            return Evaluation::Undefined;
        },
    }
    match find_divergence(middle, high) {
        Some(upper) => if upper.less(threshold) {
            Evaluation::Value(middle.plus(high).over(&Rational::from_u64(2)))
        } else {
            Evaluation::Value(middle.clone())
        },
        None => Evaluation::Undefined,
    }
}

/// What the values of the currencies that back a synthetic come to.
fn agree(values: &Vec<Rational>, threshold: &Rational) -> (r: Evaluation)
    ensures
        r@ == agreed(views(values@), threshold@),
{
    if values.len() == 0 {
        Evaluation::Nothing
    } else if values.len() == 1 {
        Evaluation::Value(values[0].clone())
    } else if values.len() == 2 {
        agree_on_two(&values[0], &values[1], threshold)
    } else if values.len() == 3 {
        let low = smaller_of(&smaller_of(&values[0], &values[1]), &values[2]);
        let high = larger_of(&larger_of(&values[0], &values[1]), &values[2]);
        let middle = values[0].plus(&values[1]).plus(&values[2]).minus(&low).minus(&high);
        agree_on_three(&low, &middle, &high, threshold)
    } else {
        Evaluation::Undefined
    }
}

/// What a synthetic is worth when the currencies that back it are worth `values`.
fn compute_synthetic_value(invert: bool, threshold: &Rational, values: &Vec<Evaluation>) -> (r: Evaluation)
    ensures
        r@ == synthetic_value(invert, threshold@, views(values@)),
{
    if !are_defined(values) {
        return Evaluation::Undefined;
    }
    let value = agree(&known_values(values), threshold);
    if !invert {
        return value;
    }
    match value {
        Evaluation::Value(value) => if value.is_zero() {
            Evaluation::Undefined
        } else {
            Evaluation::Value(Rational::from_u64(1).over(&value))
        },
        other => other,
    }
}

/// Finds what tokens are worth.
pub struct TokenPriceConverter<'a> {
    prices: NameMap<String, Vec<TokenPrice>>,
    synthetics: &'a [SyntheticConfig],
    synthetic_places: NameMap<String, usize>,
    threshold: Rational,
}

/// What a converter needs to know of a synthetic.
pub open spec fn backing_of(synthetic: SyntheticConfig) -> BackingView {
    BackingView { currencies: texts(synthetic.backing_currencies@), invert: synthetic.invert }
}

/// The synthetics by name; of those with the same name, the last.
pub open spec fn synthetics_by_name(synthetics: Seq<SyntheticConfig>) -> Map<Seq<char>, BackingView> {
    Map::new(
        |name: Seq<char>| has_name(synthetics, name),
        |name: Seq<char>| backing_of(synthetics[choose|at: int| is_last(synthetics, name, at)]),
    )
}

/// The prices of each token.
pub open spec fn prices_by_token(prices: Map<Seq<char>, Vec<TokenPrice>>) -> Map<Seq<char>, Seq<TokenPriceView>> {
    prices.map_values(|listed: Vec<TokenPrice>| views(listed@))
}

impl<'a> View for TokenPriceConverter<'a> {
    type V = ConverterView;

    closed spec fn view(&self) -> ConverterView {
        ConverterView {
            prices: prices_by_token(self.prices@),
            synthetics: synthetics_by_name(self.synthetics@),
            threshold: self.threshold@,
        }
    }
}

impl<'a> TokenPriceConverter<'a> {
    #[verifier::type_invariant]
    spec fn wf(&self) -> bool {
        &&& forall|name: Seq<char>| #[trigger]
            self.synthetic_places@.contains_key(name) <==> has_name(self.synthetics@, name)
        &&& forall|name: Seq<char>| #[trigger]
            self.synthetic_places@.contains_key(name) ==> is_last(
                self.synthetics@,
                name,
                self.synthetic_places@[name] as int,
            )
    }

    /// The synthetic of this name.
    fn synthetic(&self, name: &str) -> (r: Option<&SyntheticConfig>)
        ensures
            r is Some <==> self@.synthetics.contains_key(name@),
            r is Some ==> backing_of(*r->0) == self@.synthetics[name@],
    {
        proof {
            use_type_invariant(self);
        }
        match self.synthetic_places.get(name) {
            Some(at) => {
                proof {
                    let chosen = choose|at: int| is_last(self.synthetics@, name@, at);
                    assert(is_last(self.synthetics@, name@, *at as int));
                    assert(chosen == *at as int) by {
                        if chosen < *at as int {
                            assert(self.synthetics@[*at as int].name() != name@);
                        } else if chosen > *at as int {
                            assert(self.synthetics@[chosen].name() != name@);
                        }
                    }
                }
                Some(&self.synthetics[*at])
            },
            None => None,
        }
    }

    /// The tokens that the value of a token depends on.
    fn find_dependencies(&self, token: &str) -> (r: Vec<String>)
        ensures
            texts(r@) == dependencies(self@, token@),
    {
        if str_equal(token, "USD") {
            let none: Vec<String> = Vec::new();
            assert(texts(none@) =~= dependencies(self@, token@));
            return none;
        }
        if let Some(synthetic) = self.synthetic(token) {
            return clone_names(&synthetic.backing_currencies);
        }
        let mut found: Vec<String> = Vec::new();
        if let Some(prices) = self.prices.get(token) {
            let mut i: usize = 0;
            while i < prices.len()
                invariant
                    i <= prices.len(),
                    found.len() == i,
                    forall|j: int| 0 <= j < i ==> (#[trigger] found@[j])@ == prices@[j].unit@,
                decreases prices.len() - i,
            {
                found.push(prices[i].unit.clone());
                i += 1;
            }
        }
        assert(texts(found@) =~= dependencies(self@, token@));
        found
    }

    /// What a token is worth, when the tokens that it depends on are worth `values`.
    fn combine(&self, token: &str, values: &Vec<Evaluation>) -> (r: Evaluation)
        requires
            values.len() == dependencies(self@, token@).len(),
        ensures
            r@ == combined(self@, token@, views(values@)),
    {
        if str_equal(token, "USD") {
            return Evaluation::Value(Rational::from_u64(1));
        }
        if let Some(synthetic) = self.synthetic(token) {
            return compute_synthetic_value(synthetic.invert, &self.threshold, values);
        }
        match self.prices.get(token) {
            Some(prices) => compute_average_price(prices, values),
            None => Evaluation::Nothing,
        }
    }

    /// What a token is worth, found in the order of the ranks.
    fn evaluate_ranked(&self, token: &str, Ghost(ranks): Ghost<Map<Seq<char>, nat>>) -> (r: Evaluation)
        requires
            is_ranking(self@, ranks),
            ranks.contains_key(token@),
        ensures
            r@ == value_ranked(self@, ranks, token@),
        decreases ranks[token@],
    {
        let needed = self.find_dependencies(token);
        let ghost tokens = dependencies(self@, token@);
        let mut values: Vec<Evaluation> = Vec::new();
        let mut i: usize = 0;
        assert(views(values@) =~= values_below(self@, ranks, token@, 0));
        while i < needed.len()
            invariant
                i <= needed.len(),
                is_ranking(self@, ranks),
                ranks.contains_key(token@),
                tokens == dependencies(self@, token@),
                texts(needed@) == tokens,
                views(values@) == values_below(self@, ranks, token@, i as nat),
                values.len() == i,
            decreases needed.len() - i,
        {
            let ghost before = values@;
            assert(needed@[i as int]@ == tokens[i as int]);
            assert(below(ranks, tokens, ranks[token@]));
            let value = self.evaluate_ranked(needed[i].as_str(), Ghost(ranks));
            values.push(value);
            assert(views(values@) =~= views(before).push(value@));
            i += 1;
        }
        assert(needed@.len() == tokens.len());
        self.combine(token, &values)
    }

    /// The tokens that have prices, and the synthetics.
    fn candidates(&self) -> (r: Vec<String>)
        ensures
            forall|name: Seq<char>| #[trigger] texts(r@).contains(name) <==> is_candidate(self@, name),
    {
        proof {
            use_type_invariant(self);
        }
        let mut found: Vec<String> = Vec::new();
        let entries = self.prices.entries();
        let mut i: usize = 0;
        while i < entries.len()
            invariant
                i <= entries.len(),
                found.len() == i,
                forall|j: int| 0 <= j < i ==> (#[trigger] found@[j])@ == entries@[j].0@,
            decreases entries.len() - i,
        {
            found.push(entries[i].0.clone());
            i += 1;
        }
        let ghost first = found@;
        let places = self.synthetic_places.entries();
        let mut k: usize = 0;
        while k < places.len()
            invariant
                k <= places.len(),
                found.len() == first.len() + k,
                forall|j: int| 0 <= j < first.len() ==> #[trigger] found@[j] == first[j],
                forall|j: int| 0 <= j < k ==> (#[trigger] found@[first.len() + j])@ == places@[j].0@,
            decreases places.len() - k,
        {
            found.push(places[k].0.clone());
            k += 1;
        }
        proof {
            let names = texts(found@);
            assert forall|name: Seq<char>| #[trigger] names.contains(name) <==> is_candidate(self@, name) by {
                if names.contains(name) {
                    let at = choose|at: int| 0 <= at < names.len() && names[at] == name;
                    if at < first.len() {
                        assert(found@[at] == first[at]);
                        lemma_entry(entries@, at);
                    } else {
                        assert(found@[first.len() + (at - first.len())]@ == places@[at - first.len()].0@);
                        lemma_entry(places@, at - first.len());
                        assert(self.synthetic_places@.contains_key(name));
                    }
                }
                if self@.prices.contains_key(name) {
                    let at = lemma_place(entries@, name);
                    assert(found@[at] == first[at]);
                    assert(names[at] == name);
                }
                if self@.synthetics.contains_key(name) {
                    assert(self.synthetic_places@.contains_key(name));
                    let at = lemma_place(places@, name);
                    assert(found@[first.len() + at]@ == places@[at].0@);
                    assert(names[first.len() + at] == name);
                }
            }
        }
        found
    }

    /// Whether a token depends on nothing that is still to be resolved.
    fn is_ready(&self, token: &str, resolved: &NameMap<String, ()>) -> (r: bool)
        ensures
            r == ready(self@, token@, resolved@.dom()),
    {
        let needed = self.find_dependencies(token);
        let ghost tokens = dependencies(self@, token@);
        let mut i: usize = 0;
        while i < needed.len()
            invariant
                i <= needed.len(),
                texts(needed@) == tokens,
                tokens == dependencies(self@, token@),
                forall|j: int| 0 <= j < i ==> settled(self@, #[trigger] tokens[j], resolved@.dom()),
            decreases needed.len() - i,
        {
            assert(needed@[i as int]@ == tokens[i as int]);
            let name = needed[i].as_str();
            if (self.prices.contains(name) || self.synthetic(name).is_some()) && !resolved.contains(name) {
                return false;
            }
            i += 1;
        }
        assert(tokens.len() == needed@.len());
        true
    }

    /// Whether the value of a token depends, in the end, on no value that depends on itself.
    pub fn can_resolve(&self, token: &str) -> (r: bool)
        ensures
            r == is_resolvable(self@, token@),
    {
        let mut resolved: NameMap<String, ()> = NameMap::new();
        let mut pending = self.candidates();
        let ghost mut ranks: Map<Seq<char>, nat> = Map::new(
            |name: Seq<char>| !is_candidate(self@, name),
            |name: Seq<char>| 0nat,
        );
        let ghost mut top: nat = 1;
        let mut grows = true;
        assert forall|j: int| 0 <= j < pending@.len() implies is_candidate(self@, (#[trigger] pending@[j])@) by {
            assert(texts(pending@)[j] == pending@[j]@);
            assert(texts(pending@).contains(pending@[j]@));
        }
        assert(is_ranking(self@, ranks)) by {
            assert forall|name: Seq<char>| #[trigger] ranks.contains_key(name) implies below(
                ranks,
                dependencies(self@, name),
                ranks[name],
            ) by {
                assert(dependencies(self@, name).len() == 0);
            }
        }
        while grows
            invariant
                is_ranking(self@, ranks),
                ranks_cover(self@, ranks, resolved@.dom(), top),
                forall|j: int| 0 <= j < pending@.len() ==> is_candidate(self@, (#[trigger] pending@[j])@),
                forall|name: Seq<char>| #[trigger]
                    is_candidate(self@, name) && !resolved@.contains_key(name) ==> texts(pending@).contains(name),
                !grows ==> forall|i: int|
                    0 <= i < pending@.len() ==> !ready(self@, (#[trigger] pending@[i])@, resolved@.dom()),
            decreases pending.len() + (if grows { 1int } else { 0int }),
        {
            let ghost resolved_before = resolved@.dom();
            let ghost names = texts(pending@);
            assert(names.skip(0) =~= names);
            assert forall|j: int| 0 <= j < names.len() implies is_candidate(self@, #[trigger] names[j]) by {
                assert(names[j] == pending@[j]@);
            }
            let mut rest: Vec<String> = Vec::new();
            let mut i: usize = 0;
            while i < pending.len()
                invariant
                    i <= pending.len(),
                    rest.len() <= i,
                    is_ranking(self@, ranks),
                    ranks_cover(self@, ranks, resolved@.dom(), top),
                    names == texts(pending@),
                    forall|j: int| 0 <= j < names.len() ==> is_candidate(self@, #[trigger] names[j]),
                    forall|j: int| 0 <= j < rest@.len() ==> is_candidate(self@, (#[trigger] rest@[j])@),
                    forall|name: Seq<char>| #[trigger]
                        is_candidate(self@, name) && !resolved@.contains_key(name) ==> texts(rest@).contains(name)
                            || names.skip(i as int).contains(name),
                    rest.len() == i ==> resolved@.dom() == resolved_before && forall|j: int|
                        0 <= j < i ==> !ready(self@, (#[trigger] rest@[j])@, resolved_before),
                decreases pending.len() - i,
            {
                let name = pending[i].clone();
                let ghost before = resolved@.dom();
                let ghost rest_before = rest@;
                assert(names[i as int] == name@);
                assert(names.skip(i as int) =~= seq![name@] + names.skip(i + 1));
                if resolved.contains(name.as_str()) {
                    assert forall|other: Seq<char>| #[trigger]
                        is_candidate(self@, other) && !resolved@.contains_key(other) implies texts(rest@).contains(other)
                        || names.skip(i + 1).contains(other) by {
                        lemma_front(name@, names.skip(i + 1), other);
                    }
                } else if self.is_ready(name.as_str(), &resolved) {
                    proof {
                        lemma_ready_ranks(self@, ranks, before, top, name@);
                        ranks = ranks.insert(name@, top);
                        top = top + 1;
                    }
                    resolved.insert(name, ());
                    assert(resolved@.dom() =~= before.insert(name@));
                    assert forall|other: Seq<char>| #[trigger]
                        is_candidate(self@, other) && !resolved@.contains_key(other) implies texts(rest@).contains(other)
                        || names.skip(i + 1).contains(other) by {
                        assert(!before.contains(other));
                        lemma_front(name@, names.skip(i + 1), other);
                    }
                } else {
                    rest.push(name);
                    assert(texts(rest@) =~= texts(rest_before).push(name@));
                    assert forall|other: Seq<char>| #[trigger]
                        is_candidate(self@, other) && !resolved@.contains_key(other) implies texts(rest@).contains(other)
                        || names.skip(i + 1).contains(other) by {
                        lemma_front(name@, names.skip(i + 1), other);
                        lemma_pushed(texts(rest_before), name@, other);
                    }
                }
                i += 1;
            }
            grows = rest.len() < pending.len();
            pending = rest;
        }
        let r = !(self.prices.contains(token) || self.synthetic(token).is_some()) || resolved.contains(token);
        proof {
            if r {
                assert(ranks.contains_key(token@));
                assert(is_resolvable(self@, token@));
            }
            if is_resolvable(self@, token@) {
                let found = choose|found: Map<Seq<char>, nat>| #[trigger]
                    is_ranking(self@, found) && found.contains_key(token@);
                assert forall|name: Seq<char>| #[trigger]
                    is_candidate(self@, name) && !resolved@.dom().contains(name) implies !ready(
                    self@,
                    name,
                    resolved@.dom(),
                ) by {
                    assert(texts(pending@).contains(name));
                    let at = choose|at: int| 0 <= at < pending@.len() && texts(pending@)[at] == name;
                    assert(!ready(self@, pending@[at]@, resolved@.dom()));
                }
                lemma_resolved(self@, found, resolved@.dom(), token@);
            }
        }
        r
    }

    /// What a token is worth.
    pub fn evaluate(&self, token: &str) -> (r: Evaluation)
        ensures
            r@ == valuation(self@, token@),
    {
        if !self.can_resolve(token) {
            return Evaluation::Undefined;
        }
        let ghost ranks = choose|ranks: Map<Seq<char>, nat>| #[trigger]
            is_ranking(self@, ranks) && ranks.contains_key(token@);
        self.evaluate_ranked(token, Ghost(ranks))
    }

    /// What a token is worth, if that is known.
    pub fn value_in_usd(&self, token: &str) -> (r: Option<Rational>)
        requires
            valuation(self@, token@) !is Undefined,
        ensures
            match r {
                Some(value) => valuation(self@, token@) == Valuation::Value(value@),
                None => valuation(self@, token@) is Nothing,
            },
    {
        match self.evaluate(token) {
            Evaluation::Value(value) => Some(value),
            _ => None,
        }
    }
}

/// What a source says of the price of a token in a unit.
pub struct QuoteView {
    pub source: Seq<char>,
    pub info: PriceInfoView,
}

/// What the sources say.
pub open spec fn quotes(source_prices: Seq<(String, PriceInfo)>) -> Seq<QuoteView> {
    Seq::new(
        source_prices.len(),
        |i: int| QuoteView { source: source_prices[i].0@, info: source_prices[i].1@ },
    )
}

/// What a quote says, and how much weight that has.
pub open spec fn source_of(quote: QuoteView) -> TokenPriceSourceView {
    TokenPriceSourceView {
        name: quote.source,
        value: quote.info.value.value(),
        reliability: quote.info.reliability.value(),
    }
}

/// What the sources say of the price of a token in a unit, in the order in which they say it.
pub open spec fn sources_for(quotes: Seq<QuoteView>, token: Seq<char>, unit: Seq<char>) -> Seq<TokenPriceSourceView>
    decreases quotes.len(),
{
    if quotes.len() == 0 {
        seq![]
    } else {
        let rest = sources_for(quotes.drop_last(), token, unit);
        if quotes.last().info.token == token && quotes.last().info.unit == unit {
            rest.push(source_of(quotes.last()))
        } else {
            rest
        }
    }
}

/// The price of a token in a unit: the average of its sources, by their weight.
pub open spec fn quoted_price(quotes: Seq<QuoteView>, token: Seq<char>, unit: Seq<char>) -> TokenPriceView {
    let sources = sources_for(quotes, token, unit);
    TokenPriceView { token, unit, value: weighted(sources, 1real) / reliability(sources), sources }
}

/// The prices of a token by unit.
pub open spec fn prices_by_unit(quotes: Seq<QuoteView>, token: Seq<char>) -> Map<Seq<char>, TokenPriceView> {
    Map::new(
        |unit: Seq<char>| sources_for(quotes, token, unit).len() > 0,
        |unit: Seq<char>| quoted_price(quotes, token, unit),
    )
}

/// Whether any source has a price of a token.
pub open spec fn is_quoted(quotes: Seq<QuoteView>, token: Seq<char>) -> bool {
    exists|i: int| 0 <= i < quotes.len() && (#[trigger] quotes[i]).info.token == token
}

/// The first of these prices that is of this token.
pub open spec fn is_first(prices: Seq<TokenPriceView>, token: Seq<char>, at: int) -> bool {
    &&& 0 <= at < prices.len()
    &&& prices[at].token == token
    &&& forall|j: int| 0 <= j < at ==> (#[trigger] prices[j]).token != token
}

/// Whether one of these prices is of this token.
pub open spec fn is_priced(prices: Seq<TokenPriceView>, token: Seq<char>) -> bool {
    exists|i: int| 0 <= i < prices.len() && (#[trigger] prices[i]).token == token
}

/// The prices of each token: those that the sources have, in alphabetical order of their units, and for a token
/// that no source has a price of, the default.
pub open spec fn all_prices(
    quotes: Seq<QuoteView>,
    defaults: Seq<TokenPriceView>,
) -> Map<Seq<char>, Seq<TokenPriceView>> {
    Map::new(
        |token: Seq<char>| is_quoted(quotes, token) || is_priced(defaults, token),
        |token: Seq<char>|
            if is_quoted(quotes, token) {
                alphabetical(prices_by_unit(quotes, token))
            } else {
                seq![defaults[choose|at: int| is_first(defaults, token, at)]]
            },
    )
}

/// Whether the sources of every price have a weight.
pub open spec fn have_weight(quotes: Seq<QuoteView>) -> bool {
    forall|token: Seq<char>, unit: Seq<char>|
        (#[trigger] sources_for(quotes, token, unit)).len() > 0 ==> reliability(sources_for(quotes, token, unit)) != 0real
}

/// Sources by token and unit.
type Grouped = NameMap<String, NameMap<String, Vec<TokenPriceSource>>>;

/// Whether the sources stand under their token and unit.
spec fn is_grouped(grouped: Map<Seq<char>, NameMap<String, Vec<TokenPriceSource>>>, quotes: Seq<QuoteView>) -> bool {
    &&& forall|token: Seq<char>| #[trigger] grouped.contains_key(token) <==> is_quoted(quotes, token)
    &&& forall|token: Seq<char>| #[trigger]
        grouped.contains_key(token) ==> units_grouped(grouped[token]@, quotes, token)
}

/// Whether the sources of a token stand under their unit.
spec fn units_grouped(
    units: Map<Seq<char>, Vec<TokenPriceSource>>,
    quotes: Seq<QuoteView>,
    token: Seq<char>,
) -> bool {
    &&& forall|unit: Seq<char>| #[trigger]
        units.contains_key(unit) <==> sources_for(quotes, token, unit).len() > 0
    &&& forall|unit: Seq<char>| #[trigger]
        units.contains_key(unit) ==> views(units[unit]@) == sources_for(quotes, token, unit)
}

/// A token with sources in some unit is quoted.
proof fn lemma_quoted(quotes: Seq<QuoteView>, token: Seq<char>, unit: Seq<char>)
    requires
        sources_for(quotes, token, unit).len() > 0,
    ensures
        is_quoted(quotes, token),
    decreases quotes.len(),
{
    let front = quotes.drop_last();
    if quotes.last().info.token != token {
        lemma_quoted(front, token, unit);
        let i = choose|i: int| 0 <= i < front.len() && (#[trigger] front[i]).info.token == token;
        assert(quotes[i].info.token == token);
    } else {
        assert(quotes[quotes.len() - 1].info.token == token);
    }
}

/// The sources by token and unit.
fn group(source_prices: &[(String, PriceInfo)]) -> (r: Grouped)
    ensures
        is_grouped(r@, quotes(source_prices@)),
{
    let ghost all = quotes(source_prices@);
    let mut grouped: Grouped = NameMap::new();
    let mut i: usize = 0;
    while i < source_prices.len()
        invariant
            i <= source_prices.len(),
            all == quotes(source_prices@),
            is_grouped(grouped@, all.take(i as int)),
        decreases source_prices.len() - i,
    {
        let ghost front = all.take(i as int);
        let ghost now = all.take(i + 1);
        let ghost before = grouped@;
        let (source_name, price) = &source_prices[i];
        let ghost quote = all[i as int];
        let ghost token = price.token@;
        let ghost unit = price.unit@;
        let source = TokenPriceSource {
            name: source_name.clone(),
            value: decimal_to_rational(price.value),
            reliability: decimal_to_rational(price.reliability),
        };
        assert(now.drop_last() =~= front && now.last() == quote);
        assert(source@ == source_of(quote));
        let mut units = match grouped.remove(price.token.as_str()) {
            Some(units) => units,
            None => NameMap::new(),
        };
        let ghost units_before = units@;
        proof {
            assert forall|u: Seq<char>| #[trigger] units_before.contains_key(u) <==> sources_for(front, token, u).len()
                > 0 by {
                if sources_for(front, token, u).len() > 0 {
                    lemma_quoted(front, token, u);
                }
            }
            assert(units_grouped(units_before, front, token));
        }
        let mut sources = match units.remove(price.unit.as_str()) {
            Some(sources) => sources,
            None => Vec::new(),
        };
        let ghost sources_before = sources@;
        assert(views(sources_before) =~= sources_for(front, token, unit));
        sources.push(source);
        assert(views(sources@) =~= views(sources_before).push(source@));
        units.insert(price.unit.clone(), sources);
        let ghost units_after = units@;
        assert(units_after =~= units_before.insert(unit, sources));
        assert(units_grouped(units_after, now, token));
        grouped.insert(price.token.clone(), units);
        proof {
            assert(grouped@ =~= before.insert(token, units));
            assert forall|t: Seq<char>| #[trigger] grouped@.contains_key(t) <==> is_quoted(now, t) by {
                if t == token {
                    assert(now[i as int].info.token == token);
                } else {
                    if is_quoted(front, t) {
                        let k = choose|k: int| 0 <= k < front.len() && (#[trigger] front[k]).info.token == t;
                        assert(now[k].info.token == t);
                    }
                    if is_quoted(now, t) {
                        let k = choose|k: int| 0 <= k < now.len() && (#[trigger] now[k]).info.token == t;
                        assert(front[k].info.token == t);
                    }
                    assert(before.contains_key(t) <==> is_quoted(front, t));
                }
            }
            assert forall|t: Seq<char>| #[trigger] grouped@.contains_key(t) implies units_grouped(
                grouped@[t]@,
                now,
                t,
            ) by {
                if t != token {
                    assert(before.contains_key(t));
                    assert(units_grouped(before[t]@, front, t));
                    assert forall|u: Seq<char>| sources_for(now, t, u) == sources_for(front, t, u) by {}
                }
            }
        }
        i += 1;
    }
    assert(all.take(i as int) =~= all);
    grouped
}

/// The weight of these sources.
fn weigh(sources: &Vec<TokenPriceSource>) -> (r: Rational)
    ensures
        r@ == reliability(views(sources@)),
{
    let ghost all = views(sources@);
    let mut weight = Rational::from_u64(0);
    let mut i: usize = 0;
    assert(all.take(0) =~= seq![]);
    while i < sources.len()
        invariant
            i <= sources.len(),
            all == views(sources@),
            weight@ == reliability(all.take(i as int)),
        decreases sources.len() - i,
    {
        proof {
            assert(all.take(i + 1).drop_last() =~= all.take(i as int));
            assert(all.take(i + 1).last() == sources@[i as int]@);
        }
        weight = weight.plus(&sources[i].reliability);
        i += 1;
    }
    assert(all.take(i as int) =~= all);
    weight
}

/// Whether the sources of every price of a token have a weight.
fn units_have_weight(
    units: &NameMap<String, Vec<TokenPriceSource>>,
    Ghost(quotes): Ghost<Seq<QuoteView>>,
    Ghost(token): Ghost<Seq<char>>,
) -> (r: bool)
    requires
        units_grouped(units@, quotes, token),
    ensures
        r <==> forall|unit: Seq<char>|
            (#[trigger] sources_for(quotes, token, unit)).len() > 0 ==> reliability(sources_for(quotes, token, unit))
                != 0real,
{
    let entries = units.entries();
    let mut i: usize = 0;
    while i < entries.len()
        invariant
            i <= entries.len(),
            entries@ == units.listed(),
            units@ == map_of(entries@),
            ascending(keys_of(entries@)),
            units_grouped(units@, quotes, token),
            forall|j: int| 0 <= j < i ==> reliability(views((#[trigger] entries@[j]).1@)) != 0real,
        decreases entries.len() - i,
    {
        proof {
            lemma_entry(entries@, i as int);
            assert(units@.contains_key(entries@[i as int].0@));
        }
        if weigh(&entries[i].1).is_zero() {
            return false;
        }
        i += 1;
    }
    proof {
        assert forall|unit: Seq<char>| (#[trigger] sources_for(quotes, token, unit)).len() > 0 implies reliability(
            sources_for(quotes, token, unit),
        ) != 0real by {
            assert(units@.contains_key(unit));
            let at = lemma_place(entries@, unit);
            lemma_entry(entries@, at);
            assert(reliability(views(entries@[at].1@)) != 0real);
        }
    }
    true
}

/// Whether the sources of every price have a weight.
fn all_have_weight(source_prices: &[(String, PriceInfo)]) -> (r: bool)
    ensures
        r == have_weight(quotes(source_prices@)),
{
    let ghost said = quotes(source_prices@);
    let grouped = group(source_prices);
    let entries = grouped.entries();
    let mut i: usize = 0;
    while i < entries.len()
        invariant
            i <= entries.len(),
            entries@ == grouped.listed(),
            grouped@ == map_of(entries@),
            ascending(keys_of(entries@)),
            is_grouped(grouped@, said),
            said == quotes(source_prices@),
            forall|j: int, unit: Seq<char>|
                0 <= j < i && (#[trigger] sources_for(said, entries@[j].0@, unit)).len() > 0 ==> reliability(
                    sources_for(said, entries@[j].0@, unit),
                ) != 0real,
        decreases entries.len() - i,
    {
        proof {
            lemma_entry(entries@, i as int);
            assert(grouped@.contains_key(entries@[i as int].0@));
        }
        if !units_have_weight(&entries[i].1, Ghost(said), Ghost(entries@[i as int].0@)) {
            return false;
        }
        i += 1;
    }
    proof {
        assert forall|token: Seq<char>, unit: Seq<char>|
            (#[trigger] sources_for(said, token, unit)).len() > 0 implies reliability(sources_for(said, token, unit))
            != 0real by {
            lemma_quoted(said, token, unit);
            assert(grouped@.contains_key(token));
            let at = lemma_place(entries@, token);
            assert(sources_for(said, entries@[at].0@, unit).len() > 0);
        }
    }
    true
}

/// The price that these sources make.
fn price_from(token: &String, unit: &String, sources: &Vec<TokenPriceSource>) -> (r: TokenPrice)
    requires
        reliability(views(sources@)) != 0real,
    ensures
        r.token@ == token@,
        r.unit@ == unit@,
        r.value@ == weighted(views(sources@), 1real) / reliability(views(sources@)),
        views(r.sources@) == views(sources@),
{
    let ghost all = views(sources@);
    let mut value = Rational::from_u64(0);
    let mut weight = Rational::from_u64(0);
    let mut i: usize = 0;
    assert(all.take(0) =~= seq![]);
    while i < sources.len()
        invariant
            i <= sources.len(),
            all == views(sources@),
            value@ == weighted(all.take(i as int), 1real),
            weight@ == reliability(all.take(i as int)),
        decreases sources.len() - i,
    {
        let source = &sources[i];
        proof {
            assert(all.take(i + 1).drop_last() =~= all.take(i as int));
            assert(all.take(i + 1).last() == source@);
            assert(source@.value * 1real * source@.reliability == source@.value * source@.reliability)
                by (nonlinear_arith);
        }
        value = value.plus(&source.value.times(&source.reliability));
        weight = weight.plus(&source.reliability);
        i += 1;
    }
    assert(all.take(i as int) =~= all);
    TokenPrice { token: token.clone(), unit: unit.clone(), value: value.over(&weight), sources: copy_all(sources) }
}

/// The prices of a token, in alphabetical order of their units.
fn prices_of(
    token: &String,
    units: &NameMap<String, Vec<TokenPriceSource>>,
    Ghost(quotes): Ghost<Seq<QuoteView>>,
) -> (r: Vec<TokenPrice>)
    requires
        units_grouped(units@, quotes, token@),
        have_weight(quotes),
    ensures
        views(r@) == alphabetical(prices_by_unit(quotes, token@)),
{
    let entries = units.entries();
    let mut found: Vec<TokenPrice> = Vec::new();
    let mut i: usize = 0;
    while i < entries.len()
        invariant
            i <= entries.len(),
            entries@ == units.listed(),
            units@ == map_of(entries@),
            ascending(keys_of(entries@)),
            units_grouped(units@, quotes, token@),
            have_weight(quotes),
            found.len() == i,
            forall|j: int| 0 <= j < i ==> (#[trigger] found@[j])@ == quoted_price(quotes, token@, entries@[j].0@),
        decreases entries.len() - i,
    {
        proof {
            lemma_entry(entries@, i as int);
            assert(units@.contains_key(entries@[i as int].0@));
        }
        let price = price_from(token, &entries[i].0, &entries[i].1);
        found.push(price);
        i += 1;
    }
    proof {
        let model = prices_by_unit(quotes, token@);
        let names = names_of(keys_of(entries@));
        let listed = views(found@);
        lemma_entries_listed(entries@);
        assert forall|name: Seq<char>| #[trigger] model.contains_key(name) <==> names.contains(name) by {
            assert(units@.contains_key(name) <==> names.contains(name));
        }
        assert forall|i: int| 0 <= i < names.len() implies model[#[trigger] names[i]] == listed[i] by {
            lemma_entry(entries@, i);
            assert(units@.contains_key(entries@[i].0@));
            assert(names[i] == entries@[i].0@);
            assert(listed[i] == found@[i]@);
        }
        assert(names_ascend(names));
        assert(names.len() == listed.len());
        assert(lists_map(model, names, listed));
        lemma_alphabetical(model, names, listed);
    }
    found
}

/// Whether a token has prices or is a synthetic.
pub open spec fn is_candidate(converter: ConverterView, token: Seq<char>) -> bool {
    converter.prices.contains_key(token) || converter.synthetics.contains_key(token)
}

/// Whether a token depends on nothing, or is among those that are resolved.
spec fn settled(converter: ConverterView, token: Seq<char>, resolved: Set<Seq<char>>) -> bool {
    !is_candidate(converter, token) || resolved.contains(token)
}

/// Whether a token depends on nothing that is still to be resolved.
spec fn ready(converter: ConverterView, token: Seq<char>, resolved: Set<Seq<char>>) -> bool {
    forall|i: int|
        0 <= i < dependencies(converter, token).len() ==> settled(
            converter,
            #[trigger] dependencies(converter, token)[i],
            resolved,
        )
}

/// The tokens that depend on nothing and those that are resolved have ranks below `top`.
spec fn ranks_cover(
    converter: ConverterView,
    ranks: Map<Seq<char>, nat>,
    resolved: Set<Seq<char>>,
    top: nat,
) -> bool {
    &&& forall|name: Seq<char>| #[trigger] ranks.contains_key(name) <==> settled(converter, name, resolved)
    &&& forall|name: Seq<char>| #[trigger] ranks.contains_key(name) ==> ranks[name] < top
}

/// A token that is ready can have the next rank.
proof fn lemma_ready_ranks(
    converter: ConverterView,
    ranks: Map<Seq<char>, nat>,
    resolved: Set<Seq<char>>,
    top: nat,
    token: Seq<char>,
)
    requires
        is_ranking(converter, ranks),
        ranks_cover(converter, ranks, resolved, top),
        ready(converter, token, resolved),
        !settled(converter, token, resolved),
    ensures
        is_ranking(converter, ranks.insert(token, top)),
        ranks_cover(converter, ranks.insert(token, top), resolved.insert(token), top + 1),
{
    let after = ranks.insert(token, top);
    assert forall|name: Seq<char>| #[trigger] after.contains_key(name) implies below(
        after,
        dependencies(converter, name),
        after[name],
    ) by {
        let needed = dependencies(converter, name);
        assert forall|i: int| 0 <= i < needed.len() implies after.contains_key(#[trigger] needed[i])
            && after[needed[i]] < after[name] by {
            if name == token {
                assert(settled(converter, needed[i], resolved));
                assert(ranks.contains_key(needed[i]));
            } else {
                assert(ranks.contains_key(name));
                assert(below(ranks, needed, ranks[name]));
            }
        }
    }
    assert forall|name: Seq<char>| #[trigger] after.contains_key(name) <==> settled(
        converter,
        name,
        resolved.insert(token),
    ) by {
        assert(ranks.contains_key(name) <==> settled(converter, name, resolved));
    }
}

/// What stands in a list after its first element, or is that element, stands in it.
proof fn lemma_front(first: Seq<char>, rest: Seq<Seq<char>>, name: Seq<char>)
    ensures
        (seq![first] + rest).contains(name) <==> name == first || rest.contains(name),
{
    let all = seq![first] + rest;
    assert(all[0] == first);
    if rest.contains(name) {
        let at = choose|at: int| 0 <= at < rest.len() && rest[at] == name;
        assert(all[at + 1] == name);
    }
    if all.contains(name) && name != first {
        let at = choose|at: int| 0 <= at < all.len() && all[at] == name;
        assert(rest[at - 1] == name);
    }
}

/// What stands in a list, or is put at its end, stands in it afterwards.
proof fn lemma_pushed(names: Seq<Seq<char>>, last: Seq<char>, name: Seq<char>)
    ensures
        names.push(last).contains(name) <==> name == last || names.contains(name),
{
    let all = names.push(last);
    assert(all[names.len() as int] == last);
    if names.contains(name) {
        let at = choose|at: int| 0 <= at < names.len() && names[at] == name;
        assert(all[at] == name);
    }
    if all.contains(name) && name != last {
        let at = choose|at: int| 0 <= at < all.len() && all[at] == name;
        assert(names[at] == name);
    }
}

/// When no token is ready any more, every token that can be resolved is.
proof fn lemma_resolved(
    converter: ConverterView,
    ranks: Map<Seq<char>, nat>,
    resolved: Set<Seq<char>>,
    token: Seq<char>,
)
    requires
        is_ranking(converter, ranks),
        ranks.contains_key(token),
        forall|name: Seq<char>| #[trigger]
            is_candidate(converter, name) && !resolved.contains(name) ==> !ready(converter, name, resolved),
    ensures
        settled(converter, token, resolved),
    decreases ranks[token],
{
    if !settled(converter, token, resolved) {
        let needed = dependencies(converter, token);
        assert(below(ranks, needed, ranks[token]));
        assert forall|i: int| 0 <= i < needed.len() implies settled(converter, #[trigger] needed[i], resolved) by {
            lemma_resolved(converter, ranks, resolved, needed[i]);
        }
        assert(ready(converter, token, resolved));
    }
}

/// The prices of all tokens, one token after the other in alphabetical order.
pub open spec fn listed_prices(prices: Map<Seq<char>, Seq<TokenPriceView>>) -> Seq<TokenPriceView> {
    joined(alphabetical(prices))
}

/// These lists, one after the other.
pub open spec fn joined(lists: Seq<Seq<TokenPriceView>>) -> Seq<TokenPriceView>
    decreases lists.len(),
{
    if lists.len() == 0 {
        seq![]
    } else {
        joined(lists.drop_last()) + lists.last()
    }
}

impl<'a> TokenPriceConverter<'a> {
    /// A converter that goes by what sources say, and by defaults for what they say nothing of.
    pub fn new(
        source_prices: &[(String, PriceInfo)],
        default_prices: &[TokenPrice],
        synthetics: &'a [SyntheticConfig],
        max_synthetic_divergence: Rational,
    ) -> (r: Self)
        requires
            have_weight(quotes(source_prices@)),
        ensures
            r@.prices == all_prices(quotes(source_prices@), views(default_prices@)),
            r@.synthetics == synthetics_by_name(synthetics@),
            r@.threshold == max_synthetic_divergence@,
    {
        let ghost said = quotes(source_prices@);
        let ghost defaults = views(default_prices@);
        let grouped = group(source_prices);
        let entries = grouped.entries();
        let mut prices: NameMap<String, Vec<TokenPrice>> = NameMap::new();
        let mut i: usize = 0;
        while i < entries.len()
            invariant
                i <= entries.len(),
                entries@ == grouped.listed(),
                grouped@ == map_of(entries@),
                ascending(keys_of(entries@)),
                is_grouped(grouped@, said),
                have_weight(said),
                forall|name: Seq<char>| #[trigger]
                    prices@.contains_key(name) <==> has_name(keys_of(entries@).take(i as int), name),
                forall|name: Seq<char>| #[trigger]
                    prices@.contains_key(name) ==> views(prices@[name]@) == alphabetical(prices_by_unit(said, name)),
            decreases entries.len() - i,
        {
            let ghost before = prices@;
            let ghost front = keys_of(entries@).take(i as int);
            let ghost now = keys_of(entries@).take(i + 1);
            proof {
                lemma_entry(entries@, i as int);
                assert(grouped@.contains_key(entries@[i as int].0@));
                assert(now =~= front.push(entries@[i as int].0));
            }
            let found = prices_of(&entries[i].0, &entries[i].1, Ghost(said));
            prices.insert(entries[i].0.clone(), found);
            proof {
                let new = entries@[i as int].0@;
                assert forall|name: Seq<char>| #[trigger] prices@.contains_key(name) <==> has_name(now, name) by {
                    lemma_has_name_pushed(front, entries@[i as int].0, name);
                    assert(before.contains_key(name) <==> has_name(front, name));
                }
            }
            i += 1;
        }
        proof {
            assert(keys_of(entries@).take(i as int) =~= keys_of(entries@));
            assert forall|name: Seq<char>| #[trigger] prices@.contains_key(name) <==> is_quoted(said, name) by {
                assert(grouped@.contains_key(name) <==> has_name(keys_of(entries@), name));
            }
        }
        let ghost quoted = prices@;
        let mut k: usize = 0;
        while k < default_prices.len()
            invariant
                k <= default_prices.len(),
                defaults == views(default_prices@),
                forall|name: Seq<char>| #[trigger] quoted.contains_key(name) <==> is_quoted(said, name),
                forall|name: Seq<char>| #[trigger]
                    prices@.contains_key(name) <==> quoted.contains_key(name) || is_priced(defaults.take(k as int), name),
                forall|name: Seq<char>| #[trigger] quoted.contains_key(name) ==> prices@[name] == quoted[name],
                forall|name: Seq<char>| #[trigger]
                    prices@.contains_key(name) && !quoted.contains_key(name) ==> is_default(
                        defaults,
                        name,
                        views(prices@[name]@),
                    ),
            decreases default_prices.len() - k,
        {
            let ghost before = prices@;
            let ghost front = defaults.take(k as int);
            let ghost now = defaults.take(k + 1);
            let price = &default_prices[k];
            let ghost new = price.token@;
            assert(now =~= front.push(price@));
            if !prices.contains(price.token.as_str()) {
                let mut only: Vec<TokenPrice> = Vec::new();
                only.push(price.copied());
                assert(views(only@) =~= seq![price@]);
                prices.insert(price.token.clone(), only);
                proof {
                    assert(!is_priced(front, new));
                    assert forall|j: int| 0 <= j < k implies (#[trigger] defaults[j]).token != new by {
                        assert(front[j] == defaults[j]);
                    }
                    assert(is_first(defaults, new, k as int));
                    assert(is_default(defaults, new, views(only@)));
                }
            }
            proof {
                assert forall|name: Seq<char>| #[trigger] prices@.contains_key(name) <==> quoted.contains_key(name)
                    || is_priced(now, name) by {
                    lemma_is_priced_pushed(front, price@, name);
                    assert(before.contains_key(name) <==> quoted.contains_key(name) || is_priced(front, name));
                }
            }
            k += 1;
        }
        let synthetic_places = index_by_name(synthetics);
        let r = TokenPriceConverter { prices, synthetics, synthetic_places, threshold: max_synthetic_divergence };
        proof {
            assert(defaults.take(k as int) =~= defaults);
            let model = all_prices(said, defaults);
            assert forall|name: Seq<char>| #[trigger] model.contains_key(name) <==> r@.prices.contains_key(name) by {
                assert(prices@.contains_key(name) <==> quoted.contains_key(name) || is_priced(defaults, name));
                assert(quoted.contains_key(name) <==> is_quoted(said, name));
            }
            assert forall|name: Seq<char>| model.contains_key(name) implies #[trigger] model[name] == r@.prices[name] by {
                assert(prices@.contains_key(name));
                if !quoted.contains_key(name) {
                    let at = choose|at: int| is_first(defaults, name, at) && views(prices@[name]@) == seq![defaults[at]];
                    let chosen = choose|at: int| is_first(defaults, name, at);
                    assert(is_first(defaults, name, at));
                    assert(is_first(defaults, name, chosen));
                    assert(at == chosen) by {
                        if at < chosen {
                            assert(defaults[at].token != name);
                        } else if chosen < at {
                            assert(defaults[chosen].token != name);
                        }
                    }
                }
            }
            assert(r@.prices =~= model);
        }
        r
    }

    /// A converter, as `new` makes it; nothing where the sources of some price have no weight.
    pub fn try_new(
        source_prices: &[(String, PriceInfo)],
        default_prices: &[TokenPrice],
        synthetics: &'a [SyntheticConfig],
        max_synthetic_divergence: Rational,
    ) -> (r: Option<Self>)
        ensures
            r is Some <==> have_weight(quotes(source_prices@)),
            r matches Some(converter) ==> {
                &&& converter@.prices == all_prices(quotes(source_prices@), views(default_prices@))
                &&& converter@.synthetics == synthetics_by_name(synthetics@)
                &&& converter@.threshold == max_synthetic_divergence@
            },
    {
        if all_have_weight(source_prices) {
            Some(TokenPriceConverter::new(source_prices, default_prices, synthetics, max_synthetic_divergence))
        } else {
            None
        }
    }

    /// The prices of all tokens, one token after the other in alphabetical order.
    pub fn token_prices(&self) -> (r: Vec<TokenPrice>)
        ensures
            views(r@) == listed_prices(self@.prices),
    {
        let entries = self.prices.entries();
        let ghost lists = Seq::new(entries@.len(), |i: int| views(entries@[i].1@));
        proof {
            let model = self@.prices;
            let names = names_of(keys_of(entries@));
            lemma_entries_listed(entries@);
            assert forall|i: int| 0 <= i < names.len() implies model[#[trigger] names[i]] == lists[i] by {
                lemma_entry(entries@, i);
            }
            assert forall|name: Seq<char>| #[trigger] model.contains_key(name) <==> names.contains(name) by {
                assert(self.prices@.contains_key(name) <==> names.contains(name));
            }
            assert(lists_map(model, names, lists));
            lemma_alphabetical(model, names, lists);
        }
        let mut all: Vec<TokenPrice> = Vec::new();
        let mut i: usize = 0;
        assert(lists.take(0) =~= seq![]);
        assert(views(all@) =~= joined(lists.take(0)));
        while i < entries.len()
            invariant
                i <= entries.len(),
                lists == Seq::new(entries@.len(), |i: int| views(entries@[i].1@)),
                views(all@) == joined(lists.take(i as int)),
            decreases entries.len() - i,
        {
            let mut more = copy_all(&entries[i].1);
            let ghost before = all@;
            let ghost added = more@;
            all.append(&mut more);
            proof {
                assert(lists.take(i + 1).drop_last() =~= lists.take(i as int));
                assert(lists.take(i + 1).last() == views(added));
                assert(views(all@) =~= views(before) + views(added));
            }
            i += 1;
        }
        assert(lists.take(i as int) =~= lists);
        all
    }
}

/// Whether these are the default of a token.
spec fn is_default(defaults: Seq<TokenPriceView>, token: Seq<char>, prices: Seq<TokenPriceView>) -> bool {
    exists|at: int| is_first(defaults, token, at) && prices == seq![#[trigger] defaults[at]]
}

proof fn lemma_has_name_pushed(keys: Seq<String>, last: String, name: Seq<char>)
    ensures
        has_name(keys.push(last), name) <==> last@ == name || has_name(keys, name),
{
    let all = keys.push(last);
    assert(all[keys.len() as int].name() == last@);
    if has_name(keys, name) {
        let i = choose|i: int| 0 <= i < keys.len() && (#[trigger] keys[i]).name() == name;
        assert(all[i].name() == name);
    }
    if has_name(all, name) && last@ != name {
        let i = choose|i: int| 0 <= i < all.len() && (#[trigger] all[i]).name() == name;
        assert(keys[i].name() == name);
    }
}

proof fn lemma_is_priced_pushed(prices: Seq<TokenPriceView>, last: TokenPriceView, token: Seq<char>)
    ensures
        is_priced(prices.push(last), token) <==> last.token == token || is_priced(prices, token),
{
    let all = prices.push(last);
    assert(all[prices.len() as int] == last);
    if is_priced(prices, token) {
        let i = choose|i: int| 0 <= i < prices.len() && (#[trigger] prices[i]).token == token;
        assert(all[i].token == token);
    }
    if is_priced(all, token) && last.token != token {
        let i = choose|i: int| 0 <= i < all.len() && (#[trigger] all[i]).token == token;
        assert(prices[i].token == token);
    }
}

/// What the tokens that this one depends on are worth.
pub open spec fn dependency_values(converter: ConverterView, token: Seq<char>) -> Seq<Valuation> {
    Seq::new(
        dependencies(converter, token).len(),
        |i: int| valuation(converter, dependencies(converter, token)[i]),
    )
}

proof fn lemma_values_below(converter: ConverterView, ranks: Map<Seq<char>, nat>, token: Seq<char>, n: nat)
    requires
        is_ranking(converter, ranks),
        ranks.contains_key(token),
        n <= dependencies(converter, token).len(),
    ensures
        values_below(converter, ranks, token, n) == dependency_values(converter, token).take(n as int),
    decreases n,
{
    let all = dependency_values(converter, token);
    if n == 0 {
        assert(values_below(converter, ranks, token, 0) =~= all.take(0));
    } else {
        lemma_values_below(converter, ranks, token, (n - 1) as nat);
        let next = dependencies(converter, token)[n - 1];
        assert(below(ranks, dependencies(converter, token), ranks[token]));
        lemma_valuation(converter, ranks, next);
        assert(values_below(converter, ranks, token, n) == values_below(converter, ranks, token, (n - 1) as nat).push(
            value_ranked(converter, ranks, next),
        ));
        assert(all.take(n as int) =~= all.take(n - 1).push(all[n - 1]));
    }
}

/// What a token is worth follows from what the tokens that it depends on are worth.
pub proof fn law_value_follows_from_dependencies(converter: ConverterView, token: Seq<char>)
    requires
        is_resolvable(converter, token),
    ensures
        valuation(converter, token) == combined(converter, token, dependency_values(converter, token)),
{
    let ranks = choose|ranks: Map<Seq<char>, nat>| #[trigger]
        is_ranking(converter, ranks) && ranks.contains_key(token);
    let all = dependency_values(converter, token);
    lemma_values_below(converter, ranks, token, all.len());
    assert(all.take(all.len() as int) =~= all);
}

/// The value of everything is in dollars: a dollar is worth one.
pub proof fn law_a_dollar_is_worth_one(converter: ConverterView)
    ensures
        valuation(converter, "USD"@) == Valuation::Value(1real),
{
    let ranks = Map::<Seq<char>, nat>::empty().insert("USD"@, 0);
    assert forall|token: Seq<char>| #[trigger] ranks.contains_key(token) implies below(
        ranks,
        dependencies(converter, token),
        ranks[token],
    ) by {}
    assert(is_ranking(converter, ranks));
    law_value_follows_from_dependencies(converter, "USD"@);
}

/// A synthetic that one currency backs is worth what the currency is worth, or the inverse of it.
pub proof fn law_synthetic_follows_its_currency(converter: ConverterView, synthetic: Seq<char>, currency: Seq<char>)
    requires
        synthetic != "USD"@,
        converter.synthetics.contains_key(synthetic),
        converter.synthetics[synthetic].currencies == seq![currency],
        is_resolvable(converter, synthetic),
    ensures
        valuation(converter, synthetic) == if converter.synthetics[synthetic].invert {
            inverse(valuation(converter, currency))
        } else {
            valuation(converter, currency)
        },
{
    law_value_follows_from_dependencies(converter, synthetic);
    let values = dependency_values(converter, synthetic);
    let value = valuation(converter, currency);
    assert(values =~= seq![value]);
    assert(values.drop_last() =~= seq![]);
    assert(known(values.drop_last()) =~= seq![]);
    assert(values[0] == value);
}

/// A synthetic is worth no less than the least of its currencies, and no more than the greatest.
pub proof fn law_agreed_value_lies_between(values: Seq<real>, threshold: real)
    ensures
        agreed(values, threshold) matches Valuation::Value(value) ==> (exists|i: int|
            0 <= i < values.len() && #[trigger] values[i] <= value) && (exists|i: int|
            0 <= i < values.len() && #[trigger] values[i] >= value),
{
    if let Valuation::Value(value) = agreed(values, threshold) {
        assert(values.len() <= 3);
        let a = values[0];
        if values.len() == 2 {
            let b = values[1];
            assert(a <= value || b <= value);
            assert(a >= value || b >= value);
        } else if values.len() == 3 {
            let b = values[1];
            let c = values[2];
            assert(a <= value || b <= value || c <= value);
            assert(a >= value || b >= value || c >= value);
        }
    }
}

/// The price of a token lies between what its sources say, in dollars: where all of those whose unit has a value lie
/// between two bounds, and none has a negative weight, so does their average.
pub proof fn law_average_price_lies_between(prices: Seq<TokenPriceView>, values: Seq<Valuation>, low: real, high: real)
    requires
        sources_lie_between(prices, values, low, high),
    ensures
        average_price(prices, values) matches Valuation::Value(price) ==> low <= price <= high,
{
    lemma_totals_lie_between(prices, values, low, high);
    let value = total_value(prices, values);
    let weight = total_reliability(prices, values);
    if weight > 0real {
        assert(low <= value / weight <= high) by (nonlinear_arith)
            requires
                weight > 0real,
                low * weight <= value <= high * weight,
        ;
    }
}

/// What each source whose unit has a value says, in dollars, lies between these bounds, and its weight is not negative.
pub open spec fn sources_lie_between(
    prices: Seq<TokenPriceView>,
    values: Seq<Valuation>,
    low: real,
    high: real,
) -> bool {
    forall|n: int|
        0 <= n < prices.len() ==> match #[trigger] values[n] {
            Valuation::Value(factor) => quotes_lie_between(prices[n].sources, factor, low, high),
            _ => true,
        }
}

/// What each source says in a unit that is worth `factor` lies between these bounds, and its weight is not negative.
pub open spec fn quotes_lie_between(sources: Seq<TokenPriceSourceView>, factor: real, low: real, high: real) -> bool {
    forall|i: int|
        0 <= i < sources.len() ==> low <= (#[trigger] sources[i]).value * factor <= high && sources[i].reliability
            >= 0real
}

proof fn lemma_weighted_lies_between(sources: Seq<TokenPriceSourceView>, factor: real, low: real, high: real)
    requires
        quotes_lie_between(sources, factor, low, high),
    ensures
        reliability(sources) >= 0real,
        low * reliability(sources) <= weighted(sources, factor) <= high * reliability(sources),
    decreases sources.len(),
{
    if sources.len() > 0 {
        let rest = sources.drop_last();
        let last = sources.last();
        assert(last == sources[sources.len() - 1]);
        assert forall|i: int| 0 <= i < rest.len() implies low <= (#[trigger] rest[i]).value * factor <= high
            && rest[i].reliability >= 0real by {
            assert(rest[i] == sources[i]);
        }
        lemma_weighted_lies_between(rest, factor, low, high);
        let before = reliability(rest);
        let weight = last.reliability;
        let quote = last.value * factor;
        assert(low * (before + weight) == low * before + low * weight && high * (before + weight) == high * before
            + high * weight) by (nonlinear_arith);
        assert(low * weight <= quote * weight <= high * weight) by (nonlinear_arith)
            requires
                low <= quote <= high,
                weight >= 0real,
        ;
    } else {
        assert(low * 0real == 0real && high * 0real == 0real) by (nonlinear_arith);
    }
}

proof fn lemma_totals_lie_between(prices: Seq<TokenPriceView>, values: Seq<Valuation>, low: real, high: real)
    requires
        sources_lie_between(prices, values, low, high),
    ensures
        total_reliability(prices, values) >= 0real,
        low * total_reliability(prices, values) <= total_value(prices, values) <= high * total_reliability(prices, values),
    decreases prices.len(),
{
    if prices.len() > 0 {
        let n = prices.len() - 1;
        let rest = prices.drop_last();
        assert forall|i: int| 0 <= i < rest.len() implies match #[trigger] values[i] {
            Valuation::Value(factor) => quotes_lie_between(rest[i].sources, factor, low, high),
            _ => true,
        } by {
            assert(rest[i] == prices[i]);
        }
        lemma_totals_lie_between(rest, values, low, high);
        if let Valuation::Value(factor) = values[n] {
            lemma_weighted_lies_between(prices[n].sources, factor, low, high);
            let before = total_reliability(rest, values);
            let weight = reliability(prices[n].sources);
            assert(low * (before + weight) == low * before + low * weight && high * (before + weight) == high * before
                + high * weight) by (nonlinear_arith);
        }
    } else {
        assert(low * 0real == 0real && high * 0real == 0real) by (nonlinear_arith);
    }
}

/// A synthetic that is backed by positive values is worth a value between them; and where it has the inverse of their
/// value, it is worth one over that.
pub proof fn law_inverted_synthetic_is_worth_one_over(threshold: real, values: Seq<Valuation>)
    requires
        all_defined(values),
        forall|i: int| 0 <= i < known(values).len() ==> #[trigger] known(values)[i] > 0real,
    ensures
        synthetic_value(false, threshold, values) matches Valuation::Value(value) ==> value > 0real && (exists|i: int|
            0 <= i < known(values).len() && #[trigger] known(values)[i] <= value) && (exists|i: int|
            0 <= i < known(values).len() && #[trigger] known(values)[i] >= value),
        synthetic_value(true, threshold, values) == match synthetic_value(false, threshold, values) {
            Valuation::Value(value) => Valuation::Value(1real / value),
            other => other,
        },
{
    law_agreed_value_lies_between(known(values), threshold);
}

/// How often a value is among those that are known.
proof fn lemma_known_count(values: Seq<Valuation>, value: real)
    ensures
        known(values).to_multiset().count(value) == values.to_multiset().count(Valuation::Value(value)),
    decreases values.len(),
{
    broadcast use vstd::seq_lib::group_to_multiset_ensures;

    if values.len() > 0 {
        lemma_known_count(values.drop_last(), value);
        assert(values =~= values.drop_last().push(values.last()));
        assert(values.to_multiset() =~= values.drop_last().to_multiset().insert(values.last()));
        if let Valuation::Value(last) = values.last() {
            let front = known(values.drop_last());
            assert(known(values) == front.push(last));
            assert(known(values).to_multiset() =~= front.to_multiset().insert(last));
        }
    }
}

/// Two lists of the same length, of no more than three values, come to the same if each value occurs as often in both.
proof fn lemma_agreed_by_counts(a: Seq<real>, b: Seq<real>, threshold: real)
    requires
        a.len() == b.len(),
        a.to_multiset() == b.to_multiset(),
    ensures
        agreed(a, threshold) == agreed(b, threshold),
{
    broadcast use vstd::seq_lib::group_to_multiset_ensures;

    if a.len() == 1 {
        assert(a =~= Seq::<real>::empty().push(a[0]));
        assert(b =~= Seq::<real>::empty().push(b[0]));
        assert(a.to_multiset().count(a[0]) == b.to_multiset().count(a[0]));
    } else if a.len() == 2 {
        lemma_count_of_two(a);
        lemma_count_of_two(b);
        assert(occurrences_in_two(a, a[0]) == occurrences_in_two(b, a[0]));
        assert(occurrences_in_two(a, a[1]) == occurrences_in_two(b, a[1]));
    } else if a.len() == 3 {
        lemma_count_of_three(a);
        lemma_count_of_three(b);
        assert(occurrences_in_three(a, a[0]) == occurrences_in_three(b, a[0]));
        assert(occurrences_in_three(a, a[1]) == occurrences_in_three(b, a[1]));
        assert(occurrences_in_three(a, a[2]) == occurrences_in_three(b, a[2]));
    }
}

spec fn occurrence(value: real, other: real) -> nat {
    if value == other {
        1
    } else {
        0
    }
}

spec fn occurrences_in_two(values: Seq<real>, value: real) -> nat {
    occurrence(values[0], value) + occurrence(values[1], value)
}

spec fn occurrences_in_three(values: Seq<real>, value: real) -> nat {
    occurrence(values[0], value) + occurrence(values[1], value) + occurrence(values[2], value)
}

proof fn lemma_count_of_two(values: Seq<real>)
    requires
        values.len() == 2,
    ensures
        forall|value: real| #[trigger] occurrences_in_two(values, value) == values.to_multiset().count(value),
{
    broadcast use vstd::seq_lib::group_to_multiset_ensures;

    let none = Seq::<real>::empty();
    assert(values =~= none.push(values[0]).push(values[1]));
    assert(values.to_multiset() =~= none.to_multiset().insert(values[0]).insert(values[1]));
}

proof fn lemma_count_of_three(values: Seq<real>)
    requires
        values.len() == 3,
    ensures
        forall|value: real| #[trigger] occurrences_in_three(values, value) == values.to_multiset().count(value),
{
    broadcast use vstd::seq_lib::group_to_multiset_ensures;

    let none = Seq::<real>::empty();
    assert(values =~= none.push(values[0]).push(values[1]).push(values[2]));
    assert(values.to_multiset() =~= none.to_multiset().insert(values[0]).insert(values[1]).insert(values[2]));
}

/// In which order currencies back a synthetic makes no difference.
pub proof fn law_order_of_currencies_does_not_matter(invert: bool, threshold: real, a: Seq<Valuation>, b: Seq<Valuation>)
    requires
        a.to_multiset() == b.to_multiset(),
    ensures
        synthetic_value(invert, threshold, a) == synthetic_value(invert, threshold, b),
{
    broadcast use vstd::seq_lib::group_to_multiset_ensures;

    assert(all_defined(a) == all_defined(b)) by {
        vstd::seq_lib::to_multiset_contains(a, Valuation::Undefined);
        vstd::seq_lib::to_multiset_contains(b, Valuation::Undefined);
        lemma_all_defined(a);
        lemma_all_defined(b);
    }
    assert forall|value: real| #[trigger] known(a).to_multiset().count(value) == known(b).to_multiset().count(value) by {
        lemma_known_count(a, value);
        lemma_known_count(b, value);
    }
    assert(known(a).to_multiset() =~= known(b).to_multiset());
    assert(known(a).len() == known(a).to_multiset().len());
    assert(known(b).len() == known(b).to_multiset().len());
    lemma_agreed_by_counts(known(a), known(b), threshold);
}

proof fn lemma_all_defined(values: Seq<Valuation>)
    ensures
        all_defined(values) <==> !values.contains(Valuation::Undefined),
{
    if !all_defined(values) {
        let i = choose|i: int| 0 <= i < values.len() && (#[trigger] values[i]) is Undefined;
        assert(values[i] == Valuation::Undefined);
    }
}

} // verus!
