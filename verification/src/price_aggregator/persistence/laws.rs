//! What holds of the prices that are kept.

use vstd::prelude::*;

use crate::names::{alphabetical, lemma_listing_exists};
use crate::numbers::Rational;
use crate::price_aggregator::conversions::{
    average_price, reliability, total_reliability, total_value, valuation, weighted, ConverterView, Valuation,
};
use crate::price_aggregator::persistence::{known_prices, loaded, saved, saved_price};

verus! {

/// The prices that are kept are those of the currencies that are to be kept, as far as they are known, and what they are
/// worth now.
pub proof fn law_known_values_are_kept(converter: ConverterView, currencies: Seq<Seq<char>>, token: Seq<char>)
    ensures
        known_prices(converter, currencies).contains_key(token) <==> currencies.contains(token) && valuation(
            converter,
            token,
        ) is Value,
        known_prices(converter, currencies).contains_key(token) ==> valuation(converter, token) == Valuation::Value(
            known_prices(converter, currencies)[token],
        ),
    decreases currencies.len(),
{
    if currencies.len() > 0 {
        let front = currencies.drop_last();
        law_known_values_are_kept(converter, front, token);
        if front.contains(token) {
            let i = choose|i: int| 0 <= i < front.len() && front[i] == token;
            assert(currencies[i] == token);
        } else if currencies.contains(token) {
            let i = choose|i: int| 0 <= i < currencies.len() && currencies[i] == token;
            assert(i == currencies.len() - 1 || front[i] == token);
        }
        assert(currencies.contains(currencies[currencies.len() - 1]));
    }
}

/// A price that was kept is what the token is worth, in dollars, where it is the only one.
pub proof fn law_kept_price_is_the_value(token: Seq<char>, price: real)
    ensures
        saved_price(token, price).token == token,
        saved_price(token, price).unit == "USD"@,
        average_price(seq![saved_price(token, price)], seq![Valuation::Value(1real)]) == Valuation::Value(price),
{
    reveal_with_fuel(weighted, 2);
    reveal_with_fuel(reliability, 2);
    reveal_with_fuel(total_value, 2);
    reveal_with_fuel(total_reliability, 2);
    let prices = seq![saved_price(token, price)];
    let values = seq![Valuation::Value(1real)];
    let sources = prices[0].sources;
    assert(prices.drop_last() =~= seq![]);
    assert(sources.drop_last() =~= seq![]);
    assert(weighted(sources, 1real) == price) by {
        assert(0real + price * 1real * 1real == price) by (nonlinear_arith);
    }
    assert(total_value(prices, values) == price);
    assert(total_reliability(prices, values) == 1real);
    assert(price / 1real == price) by (nonlinear_arith);
}

/// Each price that was kept is among the default prices.
pub proof fn law_every_kept_price_is_used(prices: Map<Seq<char>, real>, token: Seq<char>)
    requires
        prices.dom().finite(),
    ensures
        prices.contains_key(token) ==> alphabetical(saved(prices)).contains(saved_price(token, prices[token])),
        alphabetical(saved(prices)).len() == prices.dom().len(),
{
    let all = saved(prices);
    assert(all.dom() =~= prices.dom());
    let (names, listed) = lemma_listing_exists(all);
    if prices.contains_key(token) {
        assert(names.contains(token));
        let i = choose|i: int| 0 <= i < names.len() && names[i] == token;
        assert(all[names[i]] == listed[i]);
    }
    assert(names.no_duplicates()) by {
        assert forall|i: int, j: int| 0 <= i < names.len() && 0 <= j < names.len() && i != j implies names[i]
            != names[j] by {
            crate::names::lemma_precedes_irreflexive(names[i]);
            if i < j {
                assert(crate::names::precedes(names[i], names[j]));
            } else {
                assert(crate::names::precedes(names[j], names[i]));
            }
        }
    }
    names.unique_seq_to_set();
    assert(names.to_set() =~= prices.dom()) by {
        assert forall|name: Seq<char>| names.to_set().contains(name) <==> prices.dom().contains(name) by {
            assert(all.contains_key(name) <==> names.contains(name));
        }
    }
}

/// Of several prices of a token, the last is loaded.
pub proof fn law_last_price_is_loaded(data: Seq<(String, Rational)>, at: int)
    requires
        0 <= at < data.len(),
        forall|j: int| at < j < data.len() ==> (#[trigger] data[j]).0@ != data[at].0@,
    ensures
        loaded(data).contains_key(data[at].0@),
        loaded(data)[data[at].0@] == data[at].1@,
    decreases data.len(),
{
    if at < data.len() - 1 {
        let front = data.drop_last();
        assert(data[data.len() - 1].0@ != data[at].0@);
        law_last_price_is_loaded(front, at);
    }
}

} // verus!
