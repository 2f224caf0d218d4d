//! What holds of the values of tokens and synthetics.

use vstd::arithmetic::power::pow;
use vstd::prelude::*;

use crate::config::SyntheticConfig;
use crate::decimal::{law_zeros_are_powers_of_ten, lemma_ten_to, ten_to, DecimalView};
use crate::names::{has_name, is_last, lemma_listing_exists, Named};
use crate::numbers::Rational;
use crate::price_aggregator::conversions::{
    all_defined, all_prices, average_price, below, dependencies, dependency_values, divergence, is_first, is_ranking,
    is_resolvable, joined, known, law_inverted_synthetic_is_worth_one_over, law_order_of_currencies_does_not_matter,
    law_value_follows_from_dependencies, listed_prices, prices_by_unit, quoted_price, reliability, sources_for, synthetic_value, synthetics_by_name,
    total_reliability, total_value, valuation, weighted, ConverterView, QuoteView, TokenPriceConverter,
    TokenPriceSourceView, TokenPriceView, Valuation,
};

verus! {

/// Whether `high` exceeds `low` by less than this share of `low`.
pub open spec fn is_near(low: real, high: real, share: real) -> bool {
    high - low < share * low
}

proof fn lemma_divergence(a: real, b: real, share: real)
    requires
        0real < a <= b,
    ensures
        divergence(a, b) < share <==> is_near(a, b, share),
        divergence(b, a) < share <==> is_near(a, b, share),
{
    let gap = b - a;
    assert(gap / a < share <==> gap < share * a) by (nonlinear_arith)
        requires
            a > 0real,
    ;
    assert(divergence(a, b) == gap / a);
    assert(divergence(b, a) == gap / a);
}

/// Two positive values are known of a synthetic. It is worth the middle between them if they are near each other:
/// the higher exceeds the lower by less than twice the threshold. Otherwise nothing is known of its worth.
pub proof fn law_two_near_values_meet_in_the_middle(threshold: real, values: Seq<Valuation>, low: real, high: real)
    requires
        0real < low <= high,
        values.to_multiset() == seq![Valuation::Value(low), Valuation::Value(high)].to_multiset(),
    ensures
        is_near(low, high, 2real * threshold) ==> (synthetic_value(false, threshold, values) matches Valuation::Value(
            value,
        ) && value - low == high - value),
        !is_near(low, high, 2real * threshold) ==> synthetic_value(false, threshold, values) is Nothing,
{
    let sorted = seq![Valuation::Value(low), Valuation::Value(high)];
    law_order_of_currencies_does_not_matter(false, threshold, values, sorted);
    lemma_known_of_two(low, high);
    let average = (low + high) / 2real;
    lemma_divergence(low, average, threshold);
    lemma_divergence(average, high, threshold);
    assert(average - low == high - average);
    let gap = average - low;
    if is_near(low, average, threshold) {
        assert(threshold * low <= threshold * average) by (nonlinear_arith)
            requires
                0real < low <= average,
                average - low < threshold * low,
        ;
    }
    assert((2real * threshold) * low == 2real * (threshold * low)) by (nonlinear_arith);
}

proof fn lemma_known_of_two(a: real, b: real)
    ensures
        known(seq![Valuation::Value(a), Valuation::Value(b)]) == seq![a, b],
        all_defined(seq![Valuation::Value(a), Valuation::Value(b)]),
{
    reveal_with_fuel(known, 3);
    let values = seq![Valuation::Value(a), Valuation::Value(b)];
    assert(values.drop_last() =~= seq![Valuation::Value(a)]);
    assert(values.drop_last().drop_last() =~= seq![]);
    assert(known(values) =~= seq![a, b]);
}

proof fn lemma_known_of_three(a: real, b: real, c: real)
    ensures
        known(seq![Valuation::Value(a), Valuation::Value(b), Valuation::Value(c)]) == seq![a, b, c],
        all_defined(seq![Valuation::Value(a), Valuation::Value(b), Valuation::Value(c)]),
{
    let values = seq![Valuation::Value(a), Valuation::Value(b), Valuation::Value(c)];
    lemma_known_of_two(a, b);
    assert(values.drop_last() =~= seq![Valuation::Value(a), Valuation::Value(b)]);
    assert(known(values) =~= seq![a, b, c]);
}

/// Whether three ascending values are all near their average.
pub open spec fn are_near_average(low: real, middle: real, high: real, share: real) -> bool {
    let average = (low + middle + high) / 3real;
    is_near(low, average, share) && is_near(average, high, share)
}

/// Three positive values are known of a synthetic. Where all are near their average, it is worth that: it is as far
/// above some of them as it is below the others. Where they are not, it is worth what lies in the middle between two
/// neighbours that are near each other, of the lower two if those are; the third is left out. Where no two are near
/// each other, it is worth the one in the middle.
pub proof fn law_outliers_are_left_out(
    threshold: real,
    values: Seq<Valuation>,
    low: real,
    middle: real,
    high: real,
)
    requires
        0real < low <= middle <= high,
        values.to_multiset() == seq![
            Valuation::Value(low),
            Valuation::Value(middle),
            Valuation::Value(high),
        ].to_multiset(),
    ensures
        synthetic_value(false, threshold, values) matches Valuation::Value(value) && {
            let near = are_near_average(low, middle, high, threshold);
            &&& near ==> (value - low) + (value - middle) + (value - high) == 0real
            &&& !near && is_near(low, middle, threshold) ==> value - low == middle - value
            &&& !near && !is_near(low, middle, threshold) && is_near(middle, high, threshold) ==> value - middle == high
                - value
            &&& !near && !is_near(low, middle, threshold) && !is_near(middle, high, threshold) ==> value == middle
        },
{
    let sorted = seq![Valuation::Value(low), Valuation::Value(middle), Valuation::Value(high)];
    law_order_of_currencies_does_not_matter(false, threshold, values, sorted);
    lemma_known_of_three(low, middle, high);
    let average = (low + middle + high) / 3real;
    lemma_divergence(low, average, threshold);
    lemma_divergence(average, high, threshold);
    if middle <= average {
        lemma_divergence(middle, average, threshold);
        if is_near(low, average, threshold) {
            assert(threshold * low <= threshold * middle) by (nonlinear_arith)
                requires
                    0real < low <= middle <= average,
                    average - low < threshold * low,
            ;
        }
    } else {
        lemma_divergence(average, middle, threshold);
    }
    lemma_divergence(low, middle, threshold);
    lemma_divergence(middle, high, threshold);
}

/// What is not known of a currency makes no difference to the synthetic: it is worth what the others come to.
pub proof fn law_unknown_currencies_make_no_difference(
    invert: bool,
    threshold: real,
    before: Seq<Valuation>,
    after: Seq<Valuation>,
)
    ensures
        synthetic_value(invert, threshold, before.push(Valuation::Nothing) + after) == synthetic_value(
            invert,
            threshold,
            before + after,
        ),
{
    let with = before.push(Valuation::Nothing) + after;
    let without = before + after;
    lemma_known_without(before, after);
    assert(all_defined(with) <==> all_defined(without)) by {
        assert forall|i: int| 0 <= i < without.len() implies #[trigger] without[i] == with[if i < before.len() {
            i
        } else {
            i + 1
        }] by {}
        assert forall|i: int| 0 <= i < with.len() && i != before.len() implies #[trigger] with[i] == without[if i
            < before.len() {
            i
        } else {
            i - 1
        }] by {}
    }
}

proof fn lemma_known_without(before: Seq<Valuation>, after: Seq<Valuation>)
    ensures
        known(before.push(Valuation::Nothing) + after) == known(before + after),
    decreases after.len(),
{
    let with = before.push(Valuation::Nothing) + after;
    let without = before + after;
    if after.len() == 0 {
        assert(with =~= before.push(Valuation::Nothing));
        assert(with.drop_last() =~= before);
        assert(without =~= before);
    } else {
        lemma_known_without(before, after.drop_last());
        assert(with.drop_last() =~= before.push(Valuation::Nothing) + after.drop_last());
        assert(without.drop_last() =~= before + after.drop_last());
    }
}

/// What a synthetic is worth is decided by the threshold of the converter and by what the currencies that back it are
/// worth, whether or not it has prices of its own.
pub proof fn law_synthetic_is_worth_what_its_currencies_are(converter: ConverterView, synthetic: Seq<char>)
    requires
        synthetic != "USD"@,
        converter.synthetics.contains_key(synthetic),
        is_resolvable(converter, synthetic),
    ensures
        valuation(converter, synthetic) == synthetic_value(
            converter.synthetics[synthetic].invert,
            converter.threshold,
            converter.synthetics[synthetic].currencies.map_values(|currency: Seq<char>| valuation(converter, currency)),
        ),
{
    law_value_follows_from_dependencies(converter, synthetic);
    assert(dependency_values(converter, synthetic) =~= converter.synthetics[synthetic].currencies.map_values(
        |currency: Seq<char>| valuation(converter, currency),
    ));
}

/// What a token is worth is decided by its prices and by what their units are worth.
pub proof fn law_token_is_worth_what_its_prices_say(converter: ConverterView, token: Seq<char>)
    requires
        token != "USD"@,
        !converter.synthetics.contains_key(token),
        converter.prices.contains_key(token),
        is_resolvable(converter, token),
    ensures
        valuation(converter, token) == average_price(
            converter.prices[token],
            converter.prices[token].map_values(|price: TokenPriceView| valuation(converter, price.unit)),
        ),
{
    law_value_follows_from_dependencies(converter, token);
    assert(dependency_values(converter, token) =~= converter.prices[token].map_values(
        |price: TokenPriceView| valuation(converter, price.unit),
    ));
}

/// Of a token that is no synthetic and that has no price, nothing is known.
pub proof fn law_tokens_without_prices_are_unknown(converter: ConverterView, token: Seq<char>)
    requires
        token != "USD"@,
        !converter.synthetics.contains_key(token),
        !converter.prices.contains_key(token),
    ensures
        valuation(converter, token) is Nothing,
{
    let ranks = Map::<Seq<char>, nat>::empty().insert(token, 0);
    assert forall|name: Seq<char>| #[trigger] ranks.contains_key(name) implies below(
        ranks,
        dependencies(converter, name),
        ranks[name],
    ) by {}
    assert(is_ranking(converter, ranks));
    law_value_follows_from_dependencies(converter, token);
}

/// How far sources pull a price up, by their weight, or down where they say less; in a unit that is worth `factor`.
pub open spec fn pull(sources: Seq<TokenPriceSourceView>, factor: real, price: real) -> real {
    sources.fold_left(
        0real,
        |sum: real, source: TokenPriceSourceView| sum + source.reliability * (source.value * factor - price),
    )
}

/// How far all sources whose unit has a value pull a price up, by their weight.
pub open spec fn total_pull(prices: Seq<TokenPriceView>, values: Seq<Valuation>, price: real) -> real
    decreases prices.len(),
{
    if prices.len() == 0 || values.len() == 0 {
        0real
    } else {
        total_pull(prices.drop_last(), values.drop_last(), price) + match values.last() {
            Valuation::Value(factor) => pull(prices.last().sources, factor, price),
            _ => 0real,
        }
    }
}

proof fn lemma_pull(sources: Seq<TokenPriceSourceView>, factor: real, price: real)
    ensures
        pull(sources, factor, price) == weighted(sources, factor) - price * reliability(sources),
    decreases sources.len(),
{
    if sources.len() > 0 {
        let rest = sources.drop_last();
        let last = sources.last();
        lemma_pull(rest, factor, price);
        let weight = last.reliability;
        let quote = last.value * factor;
        assert(pull(sources, factor, price) == pull(rest, factor, price) + weight * (quote - price));
        assert(weight * (quote - price) == quote * weight - price * weight) by (nonlinear_arith);
        let before = reliability(rest);
        assert(price * (before + weight) == price * before + price * weight) by (nonlinear_arith);
    } else {
        assert(price * 0real == 0real) by (nonlinear_arith);
    }
}

proof fn lemma_total_pull(prices: Seq<TokenPriceView>, values: Seq<Valuation>, all: Seq<Valuation>, price: real)
    requires
        prices.len() == values.len() <= all.len(),
        values == all.take(values.len() as int),
    ensures
        total_pull(prices, values, price) == total_value(prices, all) - price * total_reliability(prices, all),
    decreases prices.len(),
{
    if prices.len() > 0 {
        let n = prices.len() - 1;
        let rest = prices.drop_last();
        assert(values.drop_last() =~= all.take(n as int));
        assert(values.last() == all[n]);
        lemma_total_pull(rest, values.drop_last(), all, price);
        if let Valuation::Value(factor) = all[n] {
            lemma_pull(prices[n].sources, factor, price);
            let before = total_reliability(rest, all);
            let weight = reliability(prices[n].sources);
            assert(price * (before + weight) == price * before + price * weight) by (nonlinear_arith);
        }
    } else {
        assert(price * 0real == 0real) by (nonlinear_arith);
    }
}

/// The price of a token is where its sources are in balance: those that say more pull it up as much as those that say
/// less pull it down, each by how far away it is, in dollars, times its reliability. A source whose unit has no value
/// does not pull.
pub proof fn law_sources_are_in_balance(prices: Seq<TokenPriceView>, values: Seq<Valuation>)
    requires
        prices.len() == values.len(),
    ensures
        average_price(prices, values) matches Valuation::Value(price) ==> total_pull(prices, values, price) == 0real,
{
    if let Valuation::Value(price) = average_price(prices, values) {
        assert(values.take(values.len() as int) =~= values);
        lemma_total_pull(prices, values, values, price);
        let value = total_value(prices, values);
        let weight = total_reliability(prices, values);
        assert(value - (value / weight) * weight == 0real) by (nonlinear_arith)
            requires
                weight != 0real,
        ;
    }
}

/// A source whose unit has a value, and that is reliable, is enough for a token to have a price.
pub proof fn law_one_reliable_source_is_enough(
    prices: Seq<TokenPriceView>,
    values: Seq<Valuation>,
    price: int,
    source: int,
)
    requires
        prices.len() == values.len(),
        forall|n: int| 0 <= n < values.len() ==> (#[trigger] values[n]) !is Undefined,
        forall|n: int, i: int|
            0 <= n < prices.len() && 0 <= i < prices[n].sources.len() ==> (#[trigger] prices[n].sources[i]).reliability
                >= 0real,
        0 <= price < prices.len(),
        values[price] is Value,
        0 <= source < prices[price].sources.len(),
        prices[price].sources[source].reliability > 0real,
    ensures
        average_price(prices, values) is Value,
{
    lemma_total_is_positive(prices, values, price, source);
}

/// Where no source has a reliability, or none has a unit with a value, nothing is known of a token.
pub proof fn law_without_reliable_sources_nothing_is_known(prices: Seq<TokenPriceView>, values: Seq<Valuation>)
    requires
        prices.len() == values.len(),
        forall|n: int| 0 <= n < values.len() ==> (#[trigger] values[n]) !is Undefined,
        forall|n: int, i: int|
            0 <= n < prices.len() && values[n] is Value && 0 <= i < prices[n].sources.len() ==> (
            #[trigger] prices[n].sources[i]).reliability == 0real,
    ensures
        average_price(prices, values) is Nothing,
{
    lemma_total_is_zero(prices, values);
}

proof fn lemma_total_is_zero(prices: Seq<TokenPriceView>, values: Seq<Valuation>)
    requires
        prices.len() <= values.len(),
        forall|n: int, i: int|
            0 <= n < prices.len() && values[n] is Value && 0 <= i < prices[n].sources.len() ==> (
            #[trigger] prices[n].sources[i]).reliability == 0real,
    ensures
        total_reliability(prices, values) == 0real,
    decreases prices.len(),
{
    if prices.len() > 0 {
        let n = prices.len() - 1;
        let rest = prices.drop_last();
        assert forall|m: int, i: int|
            0 <= m < rest.len() && values[m] is Value && 0 <= i < rest[m].sources.len() implies (
        #[trigger] rest[m].sources[i]).reliability == 0real by {
            assert(rest[m] == prices[m]);
            assert(prices[m].sources[i].reliability == 0real);
        }
        lemma_total_is_zero(rest, values);
        if values[n] is Value {
            let sources = prices[n].sources;
            assert forall|i: int| 0 <= i < sources.len() implies (#[trigger] sources[i]).reliability == 0real by {
                assert(prices[n].sources[i].reliability == 0real);
            }
            lemma_weight_is_zero(sources);
        }
    }
}

proof fn lemma_weight_is_zero(sources: Seq<TokenPriceSourceView>)
    requires
        forall|i: int| 0 <= i < sources.len() ==> (#[trigger] sources[i]).reliability == 0real,
    ensures
        reliability(sources) == 0real,
    decreases sources.len(),
{
    if sources.len() > 0 {
        lemma_weight_is_zero(sources.drop_last());
    }
}

proof fn lemma_weight(sources: Seq<TokenPriceSourceView>, at: int)
    requires
        forall|i: int| 0 <= i < sources.len() ==> (#[trigger] sources[i]).reliability >= 0real,
    ensures
        reliability(sources) >= 0real,
        0 <= at < sources.len() ==> reliability(sources) >= sources[at].reliability,
    decreases sources.len(),
{
    if sources.len() > 0 {
        lemma_weight(sources.drop_last(), at);
    }
}

proof fn lemma_total_is_positive(prices: Seq<TokenPriceView>, values: Seq<Valuation>, price: int, source: int)
    requires
        prices.len() <= values.len(),
        forall|n: int, i: int|
            0 <= n < prices.len() && 0 <= i < prices[n].sources.len() ==> (#[trigger] prices[n].sources[i]).reliability
                >= 0real,
    ensures
        total_reliability(prices, values) >= 0real,
        0 <= price < prices.len() && values[price] is Value && 0 <= source < prices[price].sources.len()
            && prices[price].sources[source].reliability > 0real ==> total_reliability(prices, values) > 0real,
    decreases prices.len(),
{
    if prices.len() > 0 {
        let n = prices.len() - 1;
        let rest = prices.drop_last();
        assert forall|m: int, i: int| 0 <= m < rest.len() && 0 <= i < rest[m].sources.len() implies (
        #[trigger] rest[m].sources[i]).reliability >= 0real by {
            assert(rest[m] == prices[m]);
            assert(prices[m].sources[i].reliability >= 0real);
        }
        lemma_total_is_positive(rest, values, price, source);
        let sources = prices[n].sources;
        assert forall|i: int| 0 <= i < sources.len() implies (#[trigger] sources[i]).reliability >= 0real by {
            assert(prices[n].sources[i].reliability >= 0real);
        }
        lemma_weight(sources, source);
        if price < n {
            assert(price < 0 || rest[price] == prices[price]);
        }
    }
}

/// The tokens whose value can be found are those for which the values of all that they depend on can be found.
pub proof fn law_resolvable_when_all_dependencies_are(converter: ConverterView, token: Seq<char>)
    ensures
        is_resolvable(converter, token) <==> forall|i: int|
            0 <= i < dependencies(converter, token).len() ==> is_resolvable(
                converter,
                #[trigger] dependencies(converter, token)[i],
            ),
{
    let needed = dependencies(converter, token);
    if is_resolvable(converter, token) {
        let ranks = choose|ranks: Map<Seq<char>, nat>| #[trigger]
            is_ranking(converter, ranks) && ranks.contains_key(token);
        assert(below(ranks, needed, ranks[token]));
        assert forall|i: int| 0 <= i < needed.len() implies is_resolvable(converter, #[trigger] needed[i]) by {
            assert(ranks.contains_key(needed[i]));
        }
    }
    if forall|i: int| 0 <= i < needed.len() ==> is_resolvable(converter, #[trigger] needed[i]) {
        let (ranks, top) = lemma_ranks_of_all(converter, needed, needed.len());
        if !ranks.contains_key(token) {
            let after = ranks.insert(token, top);
            assert forall|name: Seq<char>| #[trigger] after.contains_key(name) implies below(
                after,
                dependencies(converter, name),
                after[name],
            ) by {
                if name != token {
                    assert(ranks.contains_key(name));
                    assert(below(ranks, dependencies(converter, name), ranks[name]));
                }
            }
            assert(is_ranking(converter, after));
            assert(after.contains_key(token));
        } else {
            assert(is_ranking(converter, ranks));
        }
    }
}

/// The lesser of the ranks that a token has.
spec fn merged(a: Map<Seq<char>, nat>, b: Map<Seq<char>, nat>) -> Map<Seq<char>, nat> {
    Map::new(
        |name: Seq<char>| a.contains_key(name) || b.contains_key(name),
        |name: Seq<char>|
            if a.contains_key(name) && (!b.contains_key(name) || a[name] <= b[name]) {
                a[name]
            } else {
                b[name]
            },
    )
}

proof fn lemma_ranks_of_all(converter: ConverterView, tokens: Seq<Seq<char>>, n: nat) -> (r: (
    Map<Seq<char>, nat>,
    nat,
))
    requires
        n <= tokens.len(),
        forall|i: int| 0 <= i < tokens.len() ==> is_resolvable(converter, #[trigger] tokens[i]),
    ensures
        is_ranking(converter, r.0),
        forall|i: int| 0 <= i < n ==> r.0.contains_key(#[trigger] tokens[i]) && r.0[tokens[i]] < r.1,
    decreases n,
{
    if n == 0 {
        (Map::empty(), 0)
    } else {
        let (front, top) = lemma_ranks_of_all(converter, tokens, (n - 1) as nat);
        let last = tokens[n - 1];
        let more = choose|ranks: Map<Seq<char>, nat>| #[trigger]
            is_ranking(converter, ranks) && ranks.contains_key(last);
        let all = merged(front, more);
        assert forall|name: Seq<char>| #[trigger] all.contains_key(name) implies below(
            all,
            dependencies(converter, name),
            all[name],
        ) by {
            if front.contains_key(name) {
                assert(below(front, dependencies(converter, name), front[name]));
            }
            if more.contains_key(name) {
                assert(below(more, dependencies(converter, name), more[name]));
            }
        }
        let above = if all[last] < top { top } else { all[last] + 1 };
        (all, above)
    }
}

/// The sources of a price are all quotes of the token in the unit, in their order, each with who says it, what it says and
/// how much weight that has.
pub proof fn law_every_quote_is_a_source(quotes: Seq<QuoteView>, token: Seq<char>, unit: Seq<char>)
    ensures
        ({
            let own = quotes.filter(|quote: QuoteView| quote.info.token == token && quote.info.unit == unit);
            let sources = sources_for(quotes, token, unit);
            &&& sources.len() == own.len()
            &&& forall|i: int|
                0 <= i < own.len() ==> {
                    &&& (#[trigger] sources[i]).name == own[i].source
                    &&& sources[i].value * (pow(10, own[i].info.value.scale) as real)
                        == own[i].info.value.mantissa as real
                    &&& sources[i].reliability * (pow(10, own[i].info.reliability.scale) as real)
                        == own[i].info.reliability.mantissa as real
                }
        }),
    decreases quotes.len(),
{
    reveal(Seq::filter);
    if quotes.len() > 0 {
        let front = quotes.drop_last();
        law_every_quote_is_a_source(front, token, unit);
        let last = quotes.last();
        if last.info.token == token && last.info.unit == unit {
            lemma_decimal_value(last.info.value);
            lemma_decimal_value(last.info.reliability);
        }
    }
}

proof fn lemma_decimal_value(number: DecimalView)
    ensures
        number.value() * (pow(10, number.scale) as real) == number.mantissa as real,
{
    law_zeros_are_powers_of_ten(number.scale);
    lemma_ten_to(0, number.scale);
    let m = number.mantissa as real;
    let s = ten_to(number.scale) as real;
    assert((m / s) * s == m) by (nonlinear_arith)
        requires
            s > 0real,
    ;
}

/// The price of a token in a unit is where its sources are in balance, each by how far away it is times its reliability.
pub proof fn law_quoted_price_is_in_balance(quotes: Seq<QuoteView>, token: Seq<char>, unit: Seq<char>)
    requires
        reliability(sources_for(quotes, token, unit)) != 0real,
    ensures
        ({
            let price = quoted_price(quotes, token, unit);
            &&& price.token == token
            &&& price.unit == unit
            &&& price.sources == sources_for(quotes, token, unit)
            &&& pull(price.sources, 1real, price.value) == 0real
        }),
{
    let sources = sources_for(quotes, token, unit);
    let price = quoted_price(quotes, token, unit);
    lemma_pull(sources, 1real, price.value);
    let value = weighted(sources, 1real);
    let weight = reliability(sources);
    assert(value - (value / weight) * weight == 0real) by (nonlinear_arith)
        requires
            weight != 0real,
    ;
}

/// A token has the default price, the first of it, if no source has a price of it; the price from sources where one has;
/// and none where there is neither.
pub proof fn law_defaults_fill_in(
    quotes: Seq<QuoteView>,
    defaults: Seq<TokenPriceView>,
    token: Seq<char>,
    at: int,
)
    ensures
        ({
            let prices = all_prices(quotes, defaults);
            let quoted = exists|i: int| 0 <= i < quotes.len() && (#[trigger] quotes[i]).info.token == token;
            &&& quoted ==> prices.contains_key(token) && prices[token] == all_prices(quotes, seq![])[token]
            &&& !quoted && 0 <= at < defaults.len() && defaults[at].token == token && (forall|j: int|
                0 <= j < at ==> (#[trigger] defaults[j]).token != token) ==> prices.contains_key(token) && prices[token]
                == seq![defaults[at]]
            &&& !quoted && (forall|j: int| 0 <= j < defaults.len() ==> (#[trigger] defaults[j]).token != token)
                ==> !prices.contains_key(token)
        }),
{
    let prices = all_prices(quotes, defaults);
    if 0 <= at < defaults.len() && defaults[at].token == token && (forall|j: int|
        0 <= j < at ==> (#[trigger] defaults[j]).token != token) {
        assert(is_first(defaults, token, at));
        let chosen = choose|at: int| is_first(defaults, token, at);
        assert(is_first(defaults, token, chosen));
        if chosen < at {
            assert(defaults[chosen].token != token);
        } else if at < chosen {
            assert(defaults[at].token != token);
        }
    }
}

/// A token has one price for each unit that a source quotes it in, made of just these quotes.
pub proof fn law_every_quoted_unit_has_a_price(
    quotes: Seq<QuoteView>,
    defaults: Seq<TokenPriceView>,
    at: int,
)
    requires
        0 <= at < quotes.len(),
    ensures
        ({
            let token = quotes[at].info.token;
            let prices = all_prices(quotes, defaults);
            prices.contains_key(token) && exists|i: int|
                0 <= i < prices[token].len() && #[trigger] prices[token][i] == quoted_price(
                    quotes,
                    token,
                    quotes[at].info.unit,
                )
        }),
{
    let token = quotes[at].info.token;
    let unit = quotes[at].info.unit;
    let by_unit = prices_by_unit(quotes, token);
    lemma_units_are_finite(quotes, token);
    let (names, listed) = lemma_listing_exists(by_unit);
    lemma_quote_has_sources(quotes, at);
    assert(by_unit.contains_key(unit));
    assert(names.contains(unit));
    let i = choose|i: int| 0 <= i < names.len() && names[i] == unit;
    assert(by_unit[names[i]] == listed[i]);
    assert(all_prices(quotes, defaults)[token] == listed);
}

proof fn lemma_quote_has_sources(quotes: Seq<QuoteView>, at: int)
    requires
        0 <= at < quotes.len(),
    ensures
        sources_for(quotes, quotes[at].info.token, quotes[at].info.unit).len() > 0,
    decreases quotes.len(),
{
    if at < quotes.len() - 1 {
        lemma_quote_has_sources(quotes.drop_last(), at);
    }
}

proof fn lemma_units_are_finite(quotes: Seq<QuoteView>, token: Seq<char>)
    ensures
        prices_by_unit(quotes, token).dom().finite(),
    decreases quotes.len(),
{
    let dom = prices_by_unit(quotes, token).dom();
    if quotes.len() == 0 {
        assert(dom =~= Set::empty());
    } else {
        lemma_units_are_finite(quotes.drop_last(), token);
        let before = prices_by_unit(quotes.drop_last(), token).dom();
        assert(dom.subset_of(before.insert(quotes.last().info.unit)));
        vstd::set_lib::lemma_set_subset_finite(before.insert(quotes.last().info.unit), dom);
    }
}

/// A synthetic is backed by the currencies of the last one that is configured under its name, and has their inverse if that
/// one says so.
pub proof fn law_last_synthetic_of_a_name_counts(synthetics: Seq<SyntheticConfig>, at: int)
    requires
        0 <= at < synthetics.len(),
        forall|j: int| at < j < synthetics.len() ==> (#[trigger] synthetics[j]).name@ != synthetics[at].name@,
    ensures
        ({
            let backing = synthetics_by_name(synthetics);
            let name = synthetics[at].name@;
            &&& backing.contains_key(name)
            &&& backing[name].invert == synthetics[at].invert
            &&& backing[name].currencies.len() == synthetics[at].backing_currencies@.len()
            &&& forall|i: int|
                0 <= i < backing[name].currencies.len() ==> #[trigger] backing[name].currencies[i]
                    == synthetics[at].backing_currencies@[i]@
        }),
{
    let name = synthetics[at].name@;
    assert(synthetics[at].name() == name);
    assert forall|j: int| at < j < synthetics.len() implies (#[trigger] synthetics[j]).name() != name by {
        assert(synthetics[j].name@ != name);
    }
    assert(is_last(synthetics, name, at));
    let chosen = choose|at: int| is_last(synthetics, name, at);
    assert(is_last(synthetics, name, chosen));
    if chosen < at {
        assert(synthetics[at].name() != name);
    } else if at < chosen {
        assert(synthetics[chosen].name() != name);
    }
    assert(has_name(synthetics, name));
}

/// The prices of all tokens are listed: each price of each token is among them.
pub proof fn law_every_price_is_listed(prices: Map<Seq<char>, Seq<TokenPriceView>>, token: Seq<char>, at: int)
    requires
        prices.dom().finite(),
        prices.contains_key(token),
        0 <= at < prices[token].len(),
    ensures
        listed_prices(prices).contains(prices[token][at]),
{
    let (names, lists) = lemma_listing_exists(prices);
    assert(names.contains(token));
    let k = choose|k: int| 0 <= k < names.len() && names[k] == token;
    assert(prices[names[k]] == lists[k]);
    lemma_joined(lists, k, at);
}

proof fn lemma_joined(lists: Seq<Seq<TokenPriceView>>, which: int, at: int)
    requires
        0 <= which < lists.len(),
        0 <= at < lists[which].len(),
    ensures
        joined(lists).contains(lists[which][at]),
    decreases lists.len(),
{
    let front = lists.drop_last();
    let price = lists[which][at];
    if which < front.len() {
        lemma_joined(front, which, at);
        let i = choose|i: int| 0 <= i < joined(front).len() && joined(front)[i] == price;
        assert(joined(lists)[i] == price);
    } else {
        assert(joined(lists)[joined(front).len() + at] == price);
    }
}

/// A token that has a price in one unit only is worth that price times what the unit is worth.
pub proof fn law_token_in_one_unit_is_worth_its_price(
    sources: Seq<TokenPriceSourceView>,
    token: Seq<char>,
    unit: Seq<char>,
    value: real,
    worth: real,
)
    requires
        reliability(sources) != 0real,
        pull(sources, 1real, value) == 0real,
    ensures
        average_price(seq![TokenPriceView { token, unit, value, sources }], seq![Valuation::Value(worth)])
            == Valuation::Value(value * worth),
{
    reveal_with_fuel(total_value, 2);
    reveal_with_fuel(total_reliability, 2);
    let prices = seq![TokenPriceView { token, unit, value, sources }];
    let values = seq![Valuation::Value(worth)];
    assert(prices.drop_last() =~= seq![]);
    lemma_pull(sources, 1real, value);
    lemma_weighted_scales(sources, worth);
    let sum = weighted(sources, 1real);
    let weight = reliability(sources);
    assert(total_value(prices, values) == sum * worth);
    assert(total_reliability(prices, values) == weight);
    assert((sum * worth) / weight == value * worth) by (nonlinear_arith)
        requires
            weight != 0real,
            sum == value * weight,
    ;
}

proof fn lemma_weighted_scales(sources: Seq<TokenPriceSourceView>, factor: real)
    ensures
        weighted(sources, factor) == weighted(sources, 1real) * factor,
    decreases sources.len(),
{
    if sources.len() > 0 {
        let rest = sources.drop_last();
        let last = sources.last();
        lemma_weighted_scales(rest, factor);
        let before = weighted(rest, 1real);
        let (v, r) = (last.value, last.reliability);
        assert((before + v * 1real * r) * factor == before * factor + v * factor * r) by (nonlinear_arith);
    } else {
        assert(0real * factor == 0real) by (nonlinear_arith);
    }
}

/// What a converter gives for a synthetic that three currencies back, of which it knows that they are worth something: the
/// average of all three where they are near it, that of two neighbours that are near each other where not, the lower two
/// first, and else the one in the middle; or one over that.
pub proof fn law_three_currencies_come_to_one_value(
    converter: &TokenPriceConverter,
    synthetic: &str,
    outcome: Option<Rational>,
    low: real,
    middle: real,
    high: real,
)
    requires
        call_ensures(TokenPriceConverter::value_in_usd, (converter, synthetic), outcome),
        synthetic@ != "USD"@,
        converter@.synthetics.contains_key(synthetic@),
        is_resolvable(converter@, synthetic@),
        0real < low <= middle <= high,
        converter@.synthetics[synthetic@].currencies.map_values(
            |currency: Seq<char>| valuation(converter@, currency),
        ).to_multiset() == seq![
            Valuation::Value(low),
            Valuation::Value(middle),
            Valuation::Value(high),
        ].to_multiset(),
    ensures
        outcome matches Some(found) && {
            let inverted = converter@.synthetics[synthetic@].invert;
            let value = if inverted {
                1real / found@
            } else {
                found@
            };
            let threshold = converter@.threshold;
            let near = are_near_average(low, middle, high, threshold);
            &&& near ==> (value - low) + (value - middle) + (value - high) == 0real
            &&& !near && is_near(low, middle, threshold) ==> value - low == middle - value
            &&& !near && !is_near(low, middle, threshold) && is_near(middle, high, threshold) ==> value - middle == high
                - value
            &&& !near && !is_near(low, middle, threshold) && !is_near(middle, high, threshold) ==> value == middle
        },
{
    let values = converter@.synthetics[synthetic@].currencies.map_values(
        |currency: Seq<char>| valuation(converter@, currency),
    );
    let threshold = converter@.threshold;
    law_synthetic_is_worth_what_its_currencies_are(converter@, synthetic@);
    law_outliers_are_left_out(threshold, values, low, middle, high);
    let plain = synthetic_value(false, threshold, values)->Value_0;
    let sorted = seq![Valuation::Value(low), Valuation::Value(middle), Valuation::Value(high)];
    law_order_of_currencies_does_not_matter(false, threshold, values, sorted);
    law_order_of_currencies_does_not_matter(true, threshold, values, sorted);
    lemma_known_of_three(low, middle, high);
    law_inverted_synthetic_is_worth_one_over(threshold, sorted);
    assert(1real / (1real / plain) == plain) by (nonlinear_arith)
        requires
            plain > 0real,
    ;
}

} // verus!
