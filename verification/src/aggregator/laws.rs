//! What holds of average prices and of the feeds that are made of them.

use vstd::prelude::*;

use crate::aggregator::{
    ada_price, average_price, decimal_average, decimal_total, in_usdt, is_feed, is_normalized, largest_scale,
    law_normalized_prices_are_exact, numerators, place_of, prices_of, values_of, Aggregator, PriceFeed, ReportError,
    SyntheticConfiguration, Token, TokenQuote,
};
use crate::decimal::{
    decimal_product, decimal_quotient, decimal_sum, lemma_ten_to, ten_to, DecimalView,
};
use crate::sources::laws::rounds_within;
use crate::sources::source::Origin;

verus! {

/// The sum of these numbers.
pub open spec fn sum_of(values: Seq<DecimalView>) -> real {
    values.fold_left(0real, |sum: real, value: DecimalView| sum + value.value())
}

/// Whether sums of decimal numbers are exact.
pub open spec fn sums_are_exact() -> bool {
    forall|a: DecimalView, b: DecimalView|
        (#[trigger] decimal_sum(a, b)) is Some ==> decimal_sum(a, b)->0.value() == a.value() + b.value()
}

/// The average of numbers, times how many they are, is their sum, but for the rounding of the quotient, as far as sums
/// are exact.
pub proof fn law_average_times_count_is_the_sum(values: Seq<DecimalView>, rounding: real)
    requires
        values.len() > 0,
    ensures
        sums_are_exact() && rounds_within(rounding) ==> (decimal_average(values) matches Some(average) ==> -rounding * (
        values.len() as real) <= average.value() * (values.len() as real) - sum_of(values) <= rounding * (
        values.len() as real)),
{
    if sums_are_exact() && rounds_within(rounding) && decimal_average(values) is Some {
        lemma_decimal_total(values);
        let sum = decimal_total(values)->0;
        let count = DecimalView { mantissa: values.len() as int, scale: 0 };
        let n = values.len() as real;
        assert(ten_to(0) == 1);
        assert(n / 1real == n) by (nonlinear_arith);
        assert(count.value() == n);
        let average = decimal_average(values)->0;
        assert(decimal_quotient(sum, count) == Some(average));
        let exact = sum.value() / n;
        let off = average.value() - exact;
        let price = average.value();
        assert(-rounding <= off <= rounding);
        let total = sum.value();
        assert(exact * n == total) by (nonlinear_arith)
            requires
                n > 0real,
                exact == total / n,
        ;
        assert(-rounding * n <= price * n - total <= rounding * n) by (nonlinear_arith)
            requires
                n > 0real,
                exact * n == total,
                off == price - exact,
                -rounding <= off <= rounding,
        ;
    }
}

proof fn lemma_decimal_total(values: Seq<DecimalView>)
    requires
        sums_are_exact(),
        decimal_total(values) is Some,
    ensures
        decimal_total(values)->0.value() == sum_of(values),
    decreases values.len(),
{
    if values.len() > 0 {
        lemma_decimal_total(values.drop_last());
        let before = decimal_total(values.drop_last())->0;
        assert(decimal_sum(before, values.last()) is Some);
    } else {
        assert(ten_to(0) == 1);
        assert((0int as real) / (1nat as real) == 0real) by (nonlinear_arith);
    }
}

/// The prices that are averaged of a token are all that there are of it and no others: those in USDT as they are, and
/// those in ADA times what ADA is worth.
pub proof fn law_all_prices_of_a_token_are_averaged(quotes: Seq<TokenQuote>, ada: DecimalView, token: Token)
    ensures
        ({
            let own = quotes.filter(|quote: TokenQuote| quote.token == token);
            let prices = prices_of(quotes, ada, token);
            &&& prices.len() == own.len()
            &&& forall|i: int|
                0 <= i < own.len() ==> {
                    &&& (#[trigger] own[i]).relative_to == Token::USDT ==> prices[i] == own[i].value@
                    &&& own[i].relative_to == Token::ADA && decimal_product(own[i].value@, ada) is Some ==> Some(prices[i])
                        == decimal_product(own[i].value@, ada)
                }
        }),
        average_price(quotes, ada, token) matches Ok(price) ==> Some(price) == decimal_average(
            prices_of(quotes, ada, token),
        ),
        (forall|i: int| 0 <= i < quotes.len() ==> (#[trigger] quotes[i]).token != token) ==> average_price(
            quotes,
            ada,
            token,
        ) is Err,
{
    lemma_prices_of(quotes, ada, token);
    if forall|i: int| 0 <= i < quotes.len() ==> (#[trigger] quotes[i]).token != token {
        lemma_no_prices(quotes, ada, token);
    }
}

proof fn lemma_prices_of(quotes: Seq<TokenQuote>, ada: DecimalView, token: Token)
    ensures
        prices_of(quotes, ada, token) == quotes.filter(|quote: TokenQuote| quote.token == token).map_values(
            |quote: TokenQuote| in_usdt(quote, ada)->Ok_0,
        ),
    decreases quotes.len(),
{
    reveal(Seq::filter);
    let is_own = |quote: TokenQuote| quote.token == token;
    let converted = |quote: TokenQuote| in_usdt(quote, ada)->Ok_0;
    if quotes.len() == 0 {
        assert(quotes.filter(is_own).map_values(converted) =~= seq![]);
    } else {
        let rest = quotes.drop_last().filter(is_own);
        lemma_prices_of(quotes.drop_last(), ada, token);
        if quotes.last().token == token {
            assert(quotes.filter(is_own) == rest.push(quotes.last()));
            assert(rest.push(quotes.last()).map_values(converted) =~= rest.map_values(converted).push(
                in_usdt(quotes.last(), ada)->Ok_0,
            ));
        }
    }
}

proof fn lemma_no_prices(quotes: Seq<TokenQuote>, ada: DecimalView, token: Token)
    requires
        forall|i: int| 0 <= i < quotes.len() ==> (#[trigger] quotes[i]).token != token,
    ensures
        prices_of(quotes, ada, token).len() == 0,
    decreases quotes.len(),
{
    if quotes.len() > 0 {
        assert(quotes[quotes.len() - 1].token != token);
        assert forall|i: int| 0 <= i < quotes.len() - 1 implies (#[trigger] quotes.drop_last()[i]).token != token by {
            assert(quotes.drop_last()[i] == quotes[i]);
        }
        lemma_no_prices(quotes.drop_last(), ada, token);
    }
}

/// What ADA is worth is what Binance says.
pub proof fn law_ada_is_worth_what_binance_says(quotes: Seq<TokenQuote>, at: int)
    ensures
        0 <= at < quotes.len() && quotes[at].token == Token::ADA && quotes[at].origin == Origin::Binance && (forall|
            j: int,
        |
            at < j < quotes.len() ==> !((#[trigger] quotes[j]).token == Token::ADA && quotes[j].origin
                == Origin::Binance)) ==> ada_price(quotes) == Some(quotes[at].value@),
        ada_price(quotes) is Some ==> exists|i: int|
            0 <= i < quotes.len() && (#[trigger] quotes[i]).token == Token::ADA && quotes[i].origin == Origin::Binance,
    decreases quotes.len(),
{
    if quotes.len() > 0 {
        let front = quotes.drop_last();
        let last = quotes[quotes.len() - 1];
        law_ada_is_worth_what_binance_says(front, at);
        assert forall|j: int| 0 <= j < front.len() implies #[trigger] front[j] == quotes[j] by {}
        if last.token == Token::ADA && last.origin == Origin::Binance {
            assert(quotes.last() == last);
        } else if ada_price(quotes) is Some {
            let i = choose|i: int|
                0 <= i < front.len() && (#[trigger] front[i]).token == Token::ADA && front[i].origin == Origin::Binance;
            assert(quotes[i] == front[i]);
        }
    }
}

/// A new price takes the place of the first of the same token from the same source, if there is one.
pub proof fn law_newer_prices_replace_older(quotes: Seq<TokenQuote>, info: TokenQuote)
    ensures
        match place_of(quotes, info) {
            Some(at) => 0 <= at < quotes.len() && quotes[at].token == info.token && quotes[at].origin == info.origin
                && forall|j: int|
                0 <= j < at ==> !((#[trigger] quotes[j]).token == info.token && quotes[j].origin == info.origin),
            None => forall|j: int|
                0 <= j < quotes.len() ==> !((#[trigger] quotes[j]).token == info.token && quotes[j].origin
                    == info.origin),
        },
    decreases quotes.len(),
{
    if quotes.len() > 0 {
        let front = quotes.drop_last();
        law_newer_prices_replace_older(front, info);
        assert forall|j: int| 0 <= j < front.len() implies #[trigger] quotes[j] == front[j] by {}
    }
}

/// Where nothing is cut off, each numerator is the price times the denominator.
pub proof fn law_feed_prices_are_the_averages(
    prices: Seq<DecimalView>,
    g: nat,
    collateral_prices: Seq<u64>,
    denominator: u64,
    i: int,
)
    requires
        is_normalized(prices, g, collateral_prices, denominator),
        0 <= i < prices.len(),
        0 <= numerators(prices)[i] <= u64::MAX,
        ten_to(largest_scale(prices)) <= u64::MAX,
    ensures
        collateral_prices[i] as real == prices[i].value() * (denominator as real),
        denominator > 0,
{
    law_normalized_prices_are_exact(prices, g, collateral_prices, denominator, i);
    let scale = largest_scale(prices);
    lemma_scale(prices, i);
    lemma_ten_to(0, scale);
    lemma_ten_to(0, prices[i].scale);
    lemma_ten_to_product(prices[i].scale, (scale - prices[i].scale) as nat);
    let n = collateral_prices[i] as int;
    let whole = ten_to(scale) as int;
    let own = ten_to(prices[i].scale) as int;
    let more = ten_to((scale - prices[i].scale) as nat) as int;
    let m = prices[i].mantissa;
    let d = denominator as int;
    assert(n * whole == (m * more) * d);
    assert(whole == own * more);
    assert(more > 0) by {
        lemma_ten_to(0, (scale - prices[i].scale) as nat);
    }
    assert(n * own == m * d) by (nonlinear_arith)
        requires
            n * whole == (m * more) * d,
            whole == own * more,
            more > 0,
    ;
    assert((n * own) as real == (n as real) * (own as real) && (m * d) as real == (m as real) * (d as real))
        by (nonlinear_arith);
    let (nr, or, mr, dr) = (n as real, own as real, m as real, d as real);
    assert(nr == (mr / or) * dr) by (nonlinear_arith)
        requires
            nr * or == mr * dr,
            or > 0real,
    ;
    assert(d > 0) by {
        let gi = g as int;
        assert(crate::numbers::divides(g, ten_to(scale)));
        let k = choose|k: nat| ten_to(scale) == #[trigger] (g * k);
        assert(whole / gi == k) by {
            vstd::arithmetic::div_mod::lemma_div_multiples_vanish(k as int, gi);
            assert(gi * k == whole);
        }
        assert(k > 0) by (nonlinear_arith)
            requires
                g * k > 0,
        ;
        assert(k <= whole) by (nonlinear_arith)
            requires
                gi * k == whole,
                gi > 0,
                k > 0,
        ;
    }
}

proof fn lemma_scale(prices: Seq<DecimalView>, i: int)
    requires
        0 <= i < prices.len(),
    ensures
        prices[i].scale <= largest_scale(prices),
    decreases prices.len(),
{
    if i < prices.len() - 1 {
        lemma_scale(prices.drop_last(), i);
    }
}

proof fn lemma_ten_to_product(a: nat, b: nat)
    ensures
        ten_to(a + b) == ten_to(a) * ten_to(b),
    decreases a,
{
    if a > 0 {
        lemma_ten_to_product((a - 1) as nat, b);
        let x = ten_to((a - 1) as nat) as int;
        let y = ten_to(b) as int;
        assert(10 * (x * y) == (10 * x) * y) by (nonlinear_arith);
        assert(ten_to(a + b) == 10 * ten_to((a - 1 + b) as nat));
    } else {
        assert(ten_to(0) == 1);
        assert(1 * ten_to(b) == ten_to(b)) by (nonlinear_arith);
    }
}

/// The feeds that are reported are those of the synthetics in their order; and in each of them, where nothing is cut off, the
/// numerator of each collateral is the average price of that token times the denominator.
pub proof fn law_reported_prices_are_averages(
    aggregator: &Aggregator,
    configs: &Vec<SyntheticConfiguration>,
    outcome: Option<Result<Vec<PriceFeed>, ReportError>>,
    ada: DecimalView,
    i: int,
    j: int,
)
    requires
        call_ensures(Aggregator::report, (aggregator, configs), outcome),
        outcome matches Some(Ok(_)),
        ada_price(aggregator.prices@) == Some(ada),
        0 <= i < configs@.len(),
        0 <= j < configs@[i].collateral@.len(),
        forall|k: int|
            0 <= k < configs@[i].collateral@.len() ==> 0 <= #[trigger] numerators(
                values_of(aggregator.prices@, ada, configs@[i].collateral@),
            )[k] <= u64::MAX,
        ten_to(largest_scale(values_of(aggregator.prices@, ada, configs@[i].collateral@))) <= u64::MAX,
    ensures
        outcome matches Some(Ok(feeds)) && {
            &&& feeds@.len() == configs@.len()
            &&& feeds@[i].synthetic@ == configs@[i].token.text()
            &&& feeds@[i].collateral_prices@.len() == configs@[i].collateral@.len()
            &&& feeds@[i].collateral_prices@[j] as real == average_price(
                aggregator.prices@,
                ada,
                configs@[i].collateral@[j],
            )->Ok_0.value() * (feeds@[i].denominator as real)
        },
{
    let feeds = outcome->0->Ok_0;
    let prices = values_of(aggregator.prices@, ada, configs@[i].collateral@);
    assert(is_feed(feeds@[i], configs@[i], prices));
    let g = choose|g: nat| #[trigger] is_normalized(prices, g, feeds@[i].collateral_prices@, feeds@[i].denominator);
    let numerator = numerators(prices)[j];
    law_feed_prices_are_the_averages(prices, g, feeds@[i].collateral_prices@, feeds@[i].denominator, j);
}

} // verus!
