//! What holds of the prices that sources report.

use vstd::arithmetic::power::pow;
use vstd::prelude::*;

use crate::config::HydratedPool;
use crate::decimal::{decimal_quotient, law_zeros_are_powers_of_ten, lemma_ten_to, parsed_decimal, ten_to, DecimalView};
use crate::keys::text_in;
use crate::plutus::Plutus;
use crate::sources::binance::{binance_listing, binance_price, is_first_place, occurs_at};
use crate::sources::bybit::{bybit_listing, bybit_price, ByBitResponse};
use crate::sources::coinbase::{coinbase_listing, coinbase_price, CoinbaseResponse};
use crate::sources::kupo::{delay_of, KupoStatusView};
use crate::sources::minswap::minswap_price;
use crate::sources::pools::{amount, pool_price, price_of_value, ChainValue, Match, PoolError};
use crate::sources::source::{listed_price, Listing, PriceInfo, PriceInfoView, SourceErrorView};
use crate::sources::sundaeswap::{api_price, parsed_number, Asset};
use crate::sources::sundaeswap_kupo::{fee_in, sundaeswap_price, tx_fee};

verus! {

/// So many of the smallest parts of something with so many digits.
pub open spec fn whole_amount(parts: int, digits: nat) -> real {
    (parts as real) / (pow(10, digits) as real)
}

/// Whether this is a quotient, rounded as decimal numbers are: that of two decimal numbers which are worth as much as
/// these.
pub open spec fn is_rounded_quotient(dividend: real, divisor: real, value: DecimalView) -> bool {
    exists|a: DecimalView, b: DecimalView|
        a.value() == dividend && b.value() == divisor && #[trigger] decimal_quotient(a, b) == Some(value)
}

/// Whether quotients of decimal numbers are no further from the exact ones than this.
pub open spec fn rounds_within(rounding: real) -> bool {
    forall|a: DecimalView, b: DecimalView|
        b.value() != 0real && (#[trigger] decimal_quotient(a, b)) is Some ==> -rounding <= decimal_quotient(
            a,
            b,
        )->0.value() - a.value() / b.value() <= rounding
}

/// A rounded quotient times the divisor is the dividend, but for the rounding.
proof fn lemma_rounded_quotient(dividend: real, divisor: real, value: DecimalView, rounding: real)
    requires
        is_rounded_quotient(dividend, divisor, value),
        rounds_within(rounding),
        divisor > 0real,
    ensures
        -rounding * divisor <= value.value() * divisor - dividend <= rounding * divisor,
{
    let (a, b) = choose|a: DecimalView, b: DecimalView|
        a.value() == dividend && b.value() == divisor && #[trigger] decimal_quotient(a, b) == Some(value);
    let price = value.value();
    let exact = dividend / divisor;
    assert(-rounding <= price - exact <= rounding);
    assert(exact * divisor == dividend) by (nonlinear_arith)
        requires
            divisor > 0real,
            exact == dividend / divisor,
    ;
    assert(price * divisor - exact * divisor == (price - exact) * divisor) by (nonlinear_arith);
    let off = price - exact;
    assert(-rounding * divisor <= off * divisor <= rounding * divisor) by (nonlinear_arith)
        requires
            -rounding <= off <= rounding,
            divisor > 0real,
    ;
}

/// The price of a pool is how much of the unit it holds for each of the token: the amount of the unit over that of the
/// token, both with as many digits as they have. It counts by twice the amount of the token, in its smallest parts.
pub proof fn law_pool_price_is_units_per_token(
    token: Seq<char>,
    unit: Seq<char>,
    token_digits: u32,
    unit_digits: u32,
    token_value: u64,
    unit_value: u64,
    rounding: real,
)
    requires
        token_value <= i64::MAX,
        unit_value <= i64::MAX,
    ensures
        pool_price(token, unit, token_digits, unit_digits, token_value, unit_value) matches Ok(price) ==> {
            let tokens = whole_amount(token_value as int, token_digits as nat);
            let units = whole_amount(unit_value as int, unit_digits as nat);
            &&& price.token == token
            &&& price.unit == unit
            &&& is_rounded_quotient(units, tokens, price.value)
            &&& rounds_within(rounding) ==> -rounding * tokens <= price.value.value() * tokens - units <= rounding * tokens
            &&& price.reliability.value() == 2real * (token_value as real)
        },
{
    if let Ok(price) = pool_price(token, unit, token_digits, unit_digits, token_value, unit_value) {
        law_zeros_are_powers_of_ten(token_digits as nat);
        law_zeros_are_powers_of_ten(unit_digits as nat);
        law_zeros_are_powers_of_ten(0);
        lemma_ten_to(0, token_digits as nat);
        reveal(pow);
        let a = DecimalView { mantissa: unit_value as int, scale: unit_digits as nat };
        let b = DecimalView { mantissa: token_value as int, scale: token_digits as nat };
        let tokens = whole_amount(token_value as int, token_digits as nat);
        let units = whole_amount(unit_value as int, unit_digits as nat);
        assert(a.value() == units && b.value() == tokens);
        assert(decimal_quotient(a, b) == Some(price.value));
        let parts = token_value as real;
        let scale = pow(10, token_digits as nat) as real;
        assert(tokens > 0real) by (nonlinear_arith)
            requires
                tokens == parts / scale,
                parts > 0real,
                scale > 0real,
        ;
        if rounds_within(rounding) {
            lemma_rounded_quotient(units, tokens, price.value, rounding);
        }
        let twice = price.reliability.value();
        let m = price.reliability.mantissa as real;
        assert(m / 1real == m) by (nonlinear_arith);
        assert(price.reliability.mantissa == 2 * token_value);
    }
}

/// A pool has a price if, and only if, it holds some of both, neither has too many digits, and no number that comes up
/// is too large. Otherwise it is said what is wrong.
pub proof fn law_pools_that_hold_both_have_a_price(
    token: Seq<char>,
    unit: Seq<char>,
    token_digits: u32,
    unit_digits: u32,
    token_value: u64,
    unit_value: u64,
)
    requires
        token_value <= i64::MAX,
        unit_value <= i64::MAX,
    ensures
        match pool_price(token, unit, token_digits, unit_digits, token_value, unit_value) {
            Ok(_) => token_value > 0 && unit_value > 0 && token_digits <= 28 && unit_digits <= 28,
            Err(PoolError::Zero) => unit_value == 0,
            Err(PoolError::Infinite) => unit_value > 0 && token_value == 0,
            Err(PoolError::OutOfRange) => {
                ||| token_digits > 28
                ||| unit_digits > 28
                ||| 2 * token_value > i64::MAX
                ||| decimal_quotient(
                    DecimalView { mantissa: unit_value as int, scale: unit_digits as nat },
                    DecimalView { mantissa: token_value as int, scale: token_digits as nat },
                ) is None
            },
            Err(_) => false,
        },
{
}

/// What a pool holds of a token is what its output has of it; of lovelace, which has no id, what is left of it after the
/// fee.
pub proof fn law_fees_are_taken_from_lovelace_only(id: Option<Seq<char>>, value: ChainValue, fee: u64)
    ensures
        match amount(id, value, fee) {
            Ok(held) => match id {
                Some(id) => value.assets@.contains_key(id) && held == value.assets@[id],
                None => held + fee == value.coins,
            },
            Err(error) => error is MissingAmount && match id {
                Some(id) => !value.assets@.contains_key(id),
                None => value.coins < fee,
            },
        },
{
}

/// The price of a pool is that of the amounts of its own two tokens in the output, each with its own digits.
pub proof fn law_pools_are_priced_by_what_they_hold(pool: HydratedPool, value: ChainValue, fee: u64, rounding: real)
    requires
        forall|id: Seq<char>| #[trigger] value.assets@.contains_key(id) ==> value.assets@[id] <= i64::MAX,
        value.coins <= i64::MAX,
    ensures
        price_of_value(pool, value, fee) matches Ok(price) ==> {
            let held = |id: Option<Seq<char>>|
                match id {
                    Some(id) => value.assets@[id] as int,
                    None => value.coins - fee,
                };
            let tokens = whole_amount(held(text_in(pool.token_asset_id)), pool.token_digits as nat);
            let units = whole_amount(held(text_in(pool.unit_asset_id)), pool.unit_digits as nat);
            &&& price.token == pool.pool.token@
            &&& price.unit == pool.pool.unit@
            &&& is_rounded_quotient(units, tokens, price.value)
            &&& rounds_within(rounding) ==> -rounding * tokens <= price.value.value() * tokens - units <= rounding * tokens
        },
{
    if let Ok(price) = price_of_value(pool, value, fee) {
        let token_value = amount(text_in(pool.token_asset_id), value, fee)->Ok_0;
        let unit_value = amount(text_in(pool.unit_asset_id), value, fee)->Ok_0;
        law_pool_price_is_units_per_token(
            pool.pool.token@,
            pool.pool.unit@,
            pool.token_digits,
            pool.unit_digits,
            token_value,
            unit_value,
            rounding,
        );
    }
}

/// A pool of Minswap has the price of the only output that was found for it, and nothing is taken from what it holds.
/// Without an output, or with several, there is no price.
pub proof fn law_minswap_pools_have_one_output(pool: HydratedPool, matches: Seq<Match>)
    ensures
        matches.len() == 1 ==> minswap_price(pool, matches) == price_of_value(pool, matches[0].value, 0),
        matches.len() == 0 ==> minswap_price(pool, matches) == Err::<PriceInfoView, _>(PoolError::NotFound),
        matches.len() > 1 ==> minswap_price(pool, matches) == Err::<PriceInfoView, _>(PoolError::Ambiguous),
{
}

/// A pool of SundaeSwap has the price of what it holds without the fee that its datum names.
pub proof fn law_sundaeswap_pools_hold_their_fees(pool: HydratedPool, found: Match, datum: Seq<char>)
    ensures
        match tx_fee(datum) {
            Ok(fee) => sundaeswap_price(pool, found, Some(datum)) == price_of_value(pool, found.value, fee),
            Err(error) => sundaeswap_price(pool, found, Some(datum)) == Err::<PriceInfoView, _>(error),
        },
        sundaeswap_price(pool, found, None) == Err::<PriceInfoView, _>(PoolError::DatumNotFound),
{
}

/// The fee that a datum names is the number in its eighth field, whatever stands in the others.
pub proof fn law_fee_is_the_eighth_field(datum: Plutus, fee: u64)
    requires
        datum is Constr,
        datum->Constr_fields.len() > 7,
        datum->Constr_fields[7] == Plutus::Int(fee as int),
    ensures
        fee_in(datum) == Ok::<u64, PoolError>(fee),
{
}

/// What the API of SundaeSwap says of a pool: its price is the amount of the first token, which is ADA, for each of the
/// second. It counts by the amount of ADA.
pub proof fn law_api_price_is_ada_per_token(a: Asset, b: Asset, rounding: real)
    requires
        parsed_number(b.quantity@) matches Some(number) ==> number > 0,
    ensures
        api_price(a, b) matches Ok(Some(price)) ==> {
            let ada = whole_amount(parsed_number(a.quantity@)->0 as int, a.decimals as nat);
            let tokens = whole_amount(parsed_number(b.quantity@)->0 as int, b.decimals as nat);
            &&& text_in(b.ticker) == Some(price.token)
            &&& price.unit == "ADA"@
            &&& price.reliability.value() == ada
            &&& is_rounded_quotient(ada, tokens, price.value)
            &&& rounds_within(rounding) ==> -rounding * tokens <= price.value.value() * tokens - ada <= rounding * tokens
        },
        api_price(a, b) == Ok::<_, SourceErrorView>(None::<PriceInfoView>) <==> b.ticker is None,
{
    if let Ok(Some(price)) = api_price(a, b) {
        law_zeros_are_powers_of_ten(a.decimals as nat);
        law_zeros_are_powers_of_ten(b.decimals as nat);
        lemma_ten_to(0, b.decimals as nat);
        let numerator = DecimalView { mantissa: parsed_number(a.quantity@)->0 as int, scale: a.decimals as nat };
        let denominator = DecimalView { mantissa: parsed_number(b.quantity@)->0 as int, scale: b.decimals as nat };
        let tokens = whole_amount(parsed_number(b.quantity@)->0 as int, b.decimals as nat);
        let ada = whole_amount(parsed_number(a.quantity@)->0 as int, a.decimals as nat);
        assert(numerator.value() == ada && denominator.value() == tokens);
        assert(decimal_quotient(numerator, denominator) == Some(price.value));
        let parts = parsed_number(b.quantity@)->0 as int as real;
        let scale = pow(10, b.decimals as nat) as real;
        assert(tokens > 0real) by (nonlinear_arith)
            requires
                tokens == parts / scale,
                parts > 0real,
                scale > 0real,
        ;
        if rounds_within(rounding) {
            lemma_rounded_quotient(ada, tokens, price.value, rounding);
        }
    }
}

/// What an exchange says of a listing is a price in dollars, and counts as one: the number itself, or where the oracle
/// has the inverse, one over it.
pub proof fn law_listed_prices_are_in_dollars(text: Seq<char>, listing: Listing, name: Seq<char>, rounding: real)
    ensures
        listed_price(text, Some(listing), name) matches Ok(price) ==> {
            let shown = parsed_decimal(text)->0.value();
            &&& parsed_decimal(text) is Some
            &&& price.token == listing.token
            &&& price.unit == "USD"@
            &&& price.reliability.value() == 1real
            &&& !listing.invert ==> price.value.value() == shown
            &&& listing.invert ==> is_rounded_quotient(1real, shown, price.value)
            &&& listing.invert && shown > 0real && rounds_within(rounding) ==> -rounding * shown <= price.value.value()
                * shown - 1real <= rounding * shown
        },
        listed_price(text, Some(listing), name) is Err ==> parsed_decimal(text) is None || listing.invert,
{
    if let Ok(price) = listed_price(text, Some(listing), name) {
        let shown = parsed_decimal(text)->0;
        let one = DecimalView { mantissa: 1, scale: 0 };
        assert(ten_to(0) == 1);
        assert((1int as real) / (1nat as real) == 1real) by (nonlinear_arith);
        assert(one.value() == 1real);
        if listing.invert {
            assert(decimal_quotient(one, shown) == Some(price.value));
            if rounds_within(rounding) && shown.value() > 0real {
                lemma_rounded_quotient(1real, shown.value(), price.value, rounding);
            }
        }
    }
}

proof fn lemma_suffix(whole: Seq<char>, name: Seq<char>, front: Seq<char>, suffix: Seq<char>)
    requires
        whole == front + suffix,
    ensures
        name + suffix == whole <==> name == front,
{
    if name + suffix == whole {
        assert((name + suffix).len() == name.len() + suffix.len());
        assert(whole.len() == front.len() + suffix.len());
        assert forall|i: int| 0 <= i < name.len() implies name[i] == front[i] by {
            assert((name + suffix)[i] == whole[i]);
        }
        assert(name =~= front);
    }
}

/// Every exchange has prices of the same currencies under the same names of the oracle, and the inverse of one: of the
/// one that the oracle has as a synthetic of its inverse.
pub proof fn law_exchanges_agree_on_currencies(currency: Seq<char>)
    ensures
        bybit_listing(currency + "USDT"@) == coinbase_listing(currency + "-USD"@),
        bybit_listing(currency + "USDT"@) matches Some(listing) ==> (listing.invert <==> listing.token == "SOLp"@),
        bybit_listing(currency + "USDT"@) matches Some(listing) ==> listing.token == currency || listing.token
            == currency + "b"@ || listing.token == currency + "p"@,
        bybit_listing(currency + "USDT"@) is Some <==> currency == "ADA"@ || currency == "BTC"@ || currency == "MATIC"@
            || currency == "SOL"@,
{
    reveal_strlit("USDT");
    reveal_strlit("-USD");
    reveal_strlit("ADA");
    reveal_strlit("BTC");
    reveal_strlit("MATIC");
    reveal_strlit("SOL");
    reveal_strlit("ADAUSDT");
    reveal_strlit("BTCUSDT");
    reveal_strlit("MATICUSDT");
    reveal_strlit("SOLUSDT");
    reveal_strlit("ADA-USD");
    reveal_strlit("BTC-USD");
    reveal_strlit("MATIC-USD");
    reveal_strlit("SOL-USD");
    reveal_strlit("BTCb");
    reveal_strlit("MATICb");
    reveal_strlit("SOLp");
    reveal_strlit("b");
    reveal_strlit("p");
    assert("ADAUSDT"@ =~= "ADA"@ + "USDT"@);
    assert("BTCUSDT"@ =~= "BTC"@ + "USDT"@);
    assert("MATICUSDT"@ =~= "MATIC"@ + "USDT"@);
    assert("SOLUSDT"@ =~= "SOL"@ + "USDT"@);
    assert("ADA-USD"@ =~= "ADA"@ + "-USD"@);
    assert("BTC-USD"@ =~= "BTC"@ + "-USD"@);
    assert("MATIC-USD"@ =~= "MATIC"@ + "-USD"@);
    assert("SOL-USD"@ =~= "SOL"@ + "-USD"@);
    assert("BTCb"@ =~= "BTC"@ + "b"@);
    assert("MATICb"@ =~= "MATIC"@ + "b"@);
    assert("SOLp"@ =~= "SOL"@ + "p"@);
    assert("ADA"@.len() == 3 && "BTCb"@.len() == 4 && "MATICb"@.len() == 6);
    assert("SOLp"@[0] == 'S' && "BTCb"@[0] == 'B' && "MATICb"@[0] == 'M');
    lemma_suffix("ADAUSDT"@, currency, "ADA"@, "USDT"@);
    lemma_suffix("BTCUSDT"@, currency, "BTC"@, "USDT"@);
    lemma_suffix("MATICUSDT"@, currency, "MATIC"@, "USDT"@);
    lemma_suffix("SOLUSDT"@, currency, "SOL"@, "USDT"@);
    lemma_suffix("ADA-USD"@, currency, "ADA"@, "-USD"@);
    lemma_suffix("BTC-USD"@, currency, "BTC"@, "-USD"@);
    lemma_suffix("MATIC-USD"@, currency, "MATIC"@, "-USD"@);
    lemma_suffix("SOL-USD"@, currency, "SOL"@, "-USD"@);
}

/// Binance has prices of the same currencies, in lower case, under the same names of the oracle.
pub proof fn law_binance_agrees_with_the_others()
    ensures
        binance_listing("ada"@) == bybit_listing("ADAUSDT"@),
        binance_listing("btc"@) == bybit_listing("BTCUSDT"@),
        binance_listing("matic"@) == bybit_listing("MATICUSDT"@),
        binance_listing("sol"@) == bybit_listing("SOLUSDT"@),
        forall|currency: Seq<char>| #[trigger]
            binance_listing(currency) is Some ==> currency == "ada"@ || currency == "btc"@ || currency == "matic"@
                || currency == "sol"@,
{
    reveal_strlit("ada");
    reveal_strlit("btc");
    reveal_strlit("matic");
    reveal_strlit("sol");
    reveal_strlit("ADAUSDT");
    reveal_strlit("BTCUSDT");
    reveal_strlit("MATICUSDT");
    reveal_strlit("SOLUSDT");
    assert("ada"@[0] == 'a' && "btc"@[0] == 'b' && "matic"@[0] == 'm' && "sol"@[0] == 's');
    assert("ADAUSDT"@[0] == 'A' && "BTCUSDT"@[0] == 'B' && "MATICUSDT"@[0] == 'M' && "SOLUSDT"@[0] == 'S');
}

/// The price in a message of Binance is of what stands before the first `usdt` in the name of its stream.
pub proof fn law_streams_are_named_after_currencies(currency: Seq<char>, rest: Seq<char>, price: Seq<char>)
    requires
        forall|at: int| 0 <= at < currency.len() ==> !#[trigger] occurs_at(currency + "usdt"@ + rest, "usdt"@, at),
    ensures
        binance_price(currency + "usdt"@ + rest, price) == listed_price(
            price,
            binance_listing(currency),
            currency + "usdt"@ + rest,
        ),
{
    let stream = currency + "usdt"@ + rest;
    let at = currency.len() as int;
    assert(stream.subrange(at, at + "usdt"@.len()) =~= "usdt"@);
    assert(occurs_at(stream, "usdt"@, at));
    assert(is_first_place(stream, "usdt"@, at));
    let chosen = choose|at: int| is_first_place(stream, "usdt"@, at);
    assert(is_first_place(stream, "usdt"@, chosen));
    if chosen < at {
        assert(!occurs_at(stream, "usdt"@, chosen));
    } else if at < chosen {
        assert(!occurs_at(stream, "usdt"@, at));
    }
    assert(stream.take(at) =~= currency);
}

/// Only an answer with a price brings one; a refusal is passed on.
pub proof fn law_only_answers_with_prices_bring_prices(response: ByBitResponse, answer: CoinbaseResponse)
    ensures
        bybit_price(response) matches Ok(Some(price)) ==> (response matches ByBitResponse::TickerResponse {
            symbol,
            mark_price,
        } && mark_price matches Some(text) && Ok::<PriceInfoView, SourceErrorView>(price) == listed_price(
            text@,
            bybit_listing(symbol@),
            symbol@,
        )),
        response matches ByBitResponse::StatusResponse { success, ret_msg } ==> (bybit_price(response) is Err
            <==> !success),
        response matches ByBitResponse::TickerResponse { symbol, mark_price } ==> (mark_price is None ==> bybit_price(
            response,
        ) == Ok::<_, SourceErrorView>(None::<PriceInfoView>)),
        coinbase_price(answer) matches Ok(price) ==> (answer matches CoinbaseResponse::Ticker { product_id, price: text }
            && Ok::<PriceInfoView, SourceErrorView>(price) == listed_price(
            text@,
            coinbase_listing(product_id@),
            product_id@,
        )),
{
}

/// A chain index that is healthy is asked at once; one that is behind is asked again after a second, one without its node
/// after five, and one that cannot be reached after ten.
pub proof fn law_worse_states_wait_longer(reason: Seq<char>)
    ensures
        delay_of(KupoStatusView::Healthy) == 0,
        delay_of(KupoStatusView::Syncing) == 1_000_000_000,
        delay_of(KupoStatusView::Disconnected) == 5 * delay_of(KupoStatusView::Syncing),
        delay_of(KupoStatusView::Error(reason)) == 2 * delay_of(KupoStatusView::Disconnected),
{
}

/// The price that is read from the outputs of a pool of Minswap: there is one output, and the price is the amount of the
/// unit in it for each of the token, both with as many digits as they have.
pub proof fn law_minswap_reads_units_per_token(
    pool: &HydratedPool,
    matches: &Vec<Match>,
    outcome: Result<PriceInfo, PoolError>,
    rounding: real,
)
    requires
        call_ensures(crate::sources::minswap::receive_matches, (pool, matches), outcome),
        matches@.len() == 1,
        forall|id: Seq<char>| #[trigger]
            matches@[0].value.assets@.contains_key(id) ==> matches@[0].value.assets@[id] <= i64::MAX,
        matches@[0].value.coins <= i64::MAX,
    ensures
        outcome matches Ok(price) ==> {
            let value = matches@[0].value;
            let held = |id: Option<Seq<char>>|
                match id {
                    Some(id) => value.assets@[id] as int,
                    None => value.coins as int,
                };
            let tokens = whole_amount(held(text_in(pool.token_asset_id)), pool.token_digits as nat);
            let units = whole_amount(held(text_in(pool.unit_asset_id)), pool.unit_digits as nat);
            &&& price@.token == pool.pool.token@
            &&& price@.unit == pool.pool.unit@
            &&& is_rounded_quotient(units, tokens, price@.value)
            &&& rounds_within(rounding) ==> -rounding * tokens <= price@.value.value() * tokens - units <= rounding
                * tokens
        },
{
    law_minswap_pools_have_one_output(*pool, matches@);
    law_pools_are_priced_by_what_they_hold(*pool, matches@[0].value, 0, rounding);
}

} // verus!
