//! Feeds of a few fixed tokens, with prices averaged over their sources.

use vstd::prelude::*;

use crate::decimal::{decimal_in, decimal_product, decimal_quotient, decimal_sum, lemma_ten_to, power_of_ten, ten_to};
use crate::decimal::{Decimal, DecimalView, MAX_SCALE};
use crate::numbers::{divides, magnitude};
use crate::sources::source::Origin;

pub mod laws;

verus! {

/// `Integer::gcd` of `i128`: the common divisor, not negative, that every other one divides.
#[verifier::external_body]
fn common_divisor(a: i128, b: i128) -> (r: i128)
    requires
        a > i128::MIN,
        b > i128::MIN,
    ensures
        r >= 0,
        divides(r as nat, magnitude(a as int)),
        divides(r as nat, magnitude(b as int)),
        forall|d: nat| #[trigger]
            divides(d, magnitude(a as int)) && divides(d, magnitude(b as int)) ==> divides(d, r as nat),
{
    num_integer::Integer::gcd(&a, &b)
}

/// What these numbers are made of.
pub open spec fn decimals(prices: Seq<Decimal>) -> Seq<DecimalView> {
    Seq::new(prices.len(), |i: int| prices[i]@)
}

/// The most digits that any of these numbers has behind the point.
pub open spec fn largest_scale(prices: Seq<DecimalView>) -> nat
    decreases prices.len(),
{
    if prices.len() == 0 {
        0
    } else {
        let rest = largest_scale(prices.drop_last());
        if prices.last().scale > rest {
            prices.last().scale
        } else {
            rest
        }
    }
}

proof fn lemma_largest_scale(prices: Seq<DecimalView>, i: int)
    requires
        0 <= i < prices.len(),
    ensures
        prices[i].scale <= largest_scale(prices),
    decreases prices.len(),
{
    if i < prices.len() - 1 {
        lemma_largest_scale(prices.drop_last(), i);
    }
}

/// The numerator of a number over a one and `scale` zeros.
pub open spec fn scaled(price: DecimalView, scale: nat) -> int {
    price.mantissa * ten_to((scale - price.scale) as nat)
}

/// The numerators of numbers over one denominator: a one and as many zeros as the longest needs.
pub open spec fn numerators(prices: Seq<DecimalView>) -> Seq<int> {
    Seq::new(prices.len(), |i: int| scaled(prices[i], largest_scale(prices)))
}

/// Whether `d` divides all these numbers and the denominator.
pub open spec fn divides_all(d: nat, values: Seq<int>, denominator: nat) -> bool {
    divides(d, denominator) && forall|i: int| 0 <= i < values.len() ==> divides(d, magnitude(#[trigger] values[i]))
}

/// The greatest of the numbers that divide them all.
pub open spec fn is_greatest_divisor(g: nat, values: Seq<int>, denominator: nat) -> bool {
    &&& g > 0
    &&& divides_all(g, values, denominator)
    &&& forall|d: nat| #[trigger] divides_all(d, values, denominator) ==> divides(d, g)
}

proof fn lemma_divides_transitive(a: nat, b: nat, c: nat)
    requires
        divides(a, b),
        divides(b, c),
    ensures
        divides(a, c),
{
    let j = choose|j: nat| b == #[trigger] (a * j);
    let k = choose|k: nat| c == #[trigger] (b * k);
    assert((a * j) * k == a * (j * k)) by (nonlinear_arith);
    assert(c == a * (j * k));
}

proof fn lemma_exact_quotient(value: int, g: nat)
    requires
        g > 0,
        divides(g, magnitude(value)),
    ensures
        (value / (g as int)) * g == value,
{
    let k = choose|k: nat| magnitude(value) == #[trigger] (g * k);
    let q = if value < 0 { -(k as int) } else { k as int };
    assert(value == q * g) by {
        assert(-(g * k) == (-(k as int)) * g) by (nonlinear_arith);
        assert(g * k == k * g) by (nonlinear_arith);
    }
    vstd::arithmetic::div_mod::lemma_div_multiples_vanish(q, g as int);
    assert(q * g == g * q) by (nonlinear_arith);
}

/// Divides a number by one of its divisors.
fn divide_exactly(value: i128, divisor: i128) -> (r: i128)
    requires
        value > i128::MIN,
        divisor > 0,
        divides(divisor as nat, magnitude(value as int)),
    ensures
        r == (value as int) / (divisor as int),
        r > i128::MIN,
{
    proof {
        lemma_exact_quotient(value as int, divisor as nat);
    }
    let ghost quotient = (value as int) / (divisor as int);
    if value >= 0 {
        value / divisor
    } else {
        let size: i128 = -value;
        let positive: i128 = size / divisor;
        proof {
            assert(size == (-quotient) * divisor) by (nonlinear_arith)
                requires
                    size == -value,
                    quotient * divisor == value,
            ;
            vstd::arithmetic::div_mod::lemma_div_multiples_vanish(-quotient, divisor as int);
            assert((-quotient) * divisor == divisor * (-quotient)) by (nonlinear_arith);
        }
        -positive
    }
}

/// Whether the numerators of these prices can be computed.
pub open spec fn can_be_scaled(prices: Seq<DecimalView>) -> bool {
    forall|i: int| 0 <= i < prices.len() ==> -i128::MAX <= #[trigger] numerators(prices)[i] <= i128::MAX
}

/// Prices as numerators over one denominator, in lowest terms. Of each number only the 64 lowest bits are kept.
pub open spec fn is_normalized(prices: Seq<DecimalView>, g: nat, collateral_prices: Seq<u64>, rest: u64) -> bool {
    let denominator = ten_to(largest_scale(prices));
    &&& is_greatest_divisor(g, numerators(prices), denominator)
    &&& collateral_prices.len() == prices.len()
    &&& forall|i: int| 0 <= i < prices.len() ==> #[trigger] collateral_prices[i] == (numerators(prices)[i] / (
        g as int)) as u64
    &&& rest == (denominator as int / (g as int)) as u64
}

/// The most digits that any of these numbers has behind the point.
fn find_scale(prices: &[Decimal]) -> (r: u32)
    ensures
        r == largest_scale(decimals(prices@)),
        r <= MAX_SCALE,
{
    let ghost all = decimals(prices@);
    let mut scale: u32 = 0;
    let mut i: usize = 0;
    assert(all.take(0) =~= seq![]);
    while i < prices.len()
        invariant
            i <= prices.len(),
            all == decimals(prices@),
            scale <= MAX_SCALE,
            scale == largest_scale(all.take(i as int)),
        decreases prices.len() - i,
    {
        if prices[i].scale() > scale {
            scale = prices[i].scale();
        }
        proof {
            assert(all.take(i + 1).drop_last() =~= all.take(i as int));
            assert(all.take(i + 1).last() == all[i as int]);
        }
        i += 1;
    }
    assert(all.take(i as int) =~= all);
    scale
}

/// Prices as numerators over one denominator, in lowest terms. Of each number only the 64 lowest bits are kept.
pub fn normalize_collateral_prices(prices: &[Decimal]) -> (r: (Vec<u64>, u64))
    requires
        can_be_scaled(decimals(prices@)),
    ensures
        exists|g: nat| #[trigger] is_normalized(decimals(prices@), g, r.0@, r.1),
{
    let ghost all = decimals(prices@);
    let scale: u32 = find_scale(prices);
    let denominator: i128 = power_of_ten(scale);
    let ghost values = numerators(all);
    let mut normalized: Vec<i128> = Vec::new();
    let mut gcd: i128 = denominator;
    proof {
        lemma_ten_to(0, scale as nat);
        assert(denominator == denominator * 1);
        assert(divides(denominator as nat, denominator as nat));
    }
    let mut k: usize = 0;
    while k < prices.len()
        invariant
            k <= prices.len(),
            all == decimals(prices@),
            values == numerators(all),
            can_be_scaled(all),
            scale <= MAX_SCALE,
            scale == largest_scale(all),
            denominator > 0,
            normalized.len() == k,
            forall|j: int| 0 <= j < k ==> #[trigger] normalized@[j] == values[j],
            gcd > 0,
            divides(gcd as nat, denominator as nat),
            forall|j: int| 0 <= j < k ==> divides(gcd as nat, magnitude(#[trigger] values[j])),
            forall|d: nat| #[trigger]
                divides_all(d, values.take(k as int), denominator as nat) ==> divides(d, gcd as nat),
        decreases prices.len() - k,
    {
        proof {
            lemma_largest_scale(all, k as int);
            assert(values[k as int] == scaled(all[k as int], scale as nat));
        }
        let power: i128 = power_of_ten(scale - prices[k].scale());
        let mantissa: i128 = prices[k].mantissa();
        assert(mantissa * power == values[k as int]);
        let value: i128 = mantissa * power;
        let ghost before = gcd;
        gcd = common_divisor(gcd, value);
        proof {
            assert(magnitude(before as int) == before);
            if gcd == 0 {
                let j = choose|j: nat| before as nat == #[trigger] (0nat * j);
                assert(0nat * j == 0) by (nonlinear_arith);
            }
            lemma_divides_transitive(gcd as nat, before as nat, denominator as nat);
            assert forall|j: int| 0 <= j < k + 1 implies divides(gcd as nat, magnitude(#[trigger] values[j])) by {
                if j < k {
                    lemma_divides_transitive(gcd as nat, before as nat, magnitude(values[j]));
                }
            }
            assert forall|d: nat| #[trigger] divides_all(
                d,
                values.take(k + 1),
                denominator as nat,
            ) implies divides(d, gcd as nat) by {
                assert forall|j: int| 0 <= j < k implies divides(
                    d,
                    magnitude(#[trigger] values.take(k as int)[j]),
                ) by {
                    assert(values.take(k + 1)[j] == values[j]);
                }
                assert(divides_all(d, values.take(k as int), denominator as nat));
                assert(values.take(k + 1)[k as int] == values[k as int]);
            }
        }
        normalized.push(value);
        k += 1;
    }
    proof {
        assert(values.take(k as int) =~= values);
        assert(is_greatest_divisor(gcd as nat, values, denominator as nat));
        assert(magnitude(denominator as int) == denominator);
    }
    let mut collateral_prices: Vec<u64> = Vec::new();
    let mut n: usize = 0;
    while n < normalized.len()
        invariant
            n <= normalized.len(),
            normalized.len() == values.len(),
            all == decimals(prices@),
            values == numerators(all),
            can_be_scaled(all),
            gcd > 0,
            divides_all(gcd as nat, values, denominator as nat),
            forall|j: int| 0 <= j < values.len() ==> #[trigger] normalized@[j] == values[j],
            collateral_prices.len() == n,
            forall|j: int| 0 <= j < n ==> #[trigger] collateral_prices@[j] == (values[j] / (gcd as int)) as u64,
        decreases normalized.len() - n,
    {
        assert(normalized@[n as int] == values[n as int]);
        assert(divides(gcd as nat, magnitude(values[n as int])));
        let quotient: i128 = divide_exactly(normalized[n], gcd);
        collateral_prices.push(quotient as u64);
        n += 1;
    }
    let rest: u64 = divide_exactly(denominator, gcd) as u64;
    let feed = (collateral_prices, rest);
    assert(is_normalized(decimals(prices@), gcd as nat, feed.0@, feed.1));
    feed
}

/// The tokens.
#[derive(Debug, Clone, Copy, PartialEq, Eq, Structural)]
pub enum Token {
    ADA,
    DJED,
    ENCS,
    IUSD,
    LENFI,
    MIN,
    SNEK,
    USDT,
}

impl Token {
    /// What a token is called.
    pub open spec fn text(self) -> Seq<char> {
        match self {
            Token::ADA => "ADA"@,
            Token::DJED => "DJED"@,
            Token::ENCS => "ENCS"@,
            Token::IUSD => "IUSD"@,
            Token::LENFI => "LENFI"@,
            Token::MIN => "MIN"@,
            Token::SNEK => "SNEK"@,
            Token::USDT => "USDT"@,
        }
    }

    /// What a token is called.
    pub fn name(&self) -> (r: String)
        ensures
            r@ == self.text(),
    {
        match self {
            Token::ADA => "ADA".to_owned(),
            Token::DJED => "DJED".to_owned(),
            Token::ENCS => "ENCS".to_owned(),
            Token::IUSD => "IUSD".to_owned(),
            Token::LENFI => "LENFI".to_owned(),
            Token::MIN => "MIN".to_owned(),
            Token::SNEK => "SNEK".to_owned(),
            Token::USDT => "USDT".to_owned(),
        }
    }
}

/// The prices of a synthetic's collateral, as numerators over one denominator.
#[derive(Debug)]
pub struct PriceFeed {
    pub collateral_prices: Vec<u64>,
    pub synthetic: String,
    pub denominator: u64,
}

/// A synthetic and its collateral.
#[derive(Debug)]
pub struct SyntheticConfiguration {
    pub token: Token,
    pub collateral: Vec<Token>,
}

/// The price of a token at a source, in another token.
#[derive(Debug, Clone, Copy)]
pub struct TokenQuote {
    pub token: Token,
    pub origin: Origin,
    pub value: Decimal,
    pub relative_to: Token,
}

/// Why no feeds could be made of the prices.
#[derive(Debug, Clone, Copy, PartialEq, Eq, Structural)]
pub enum ReportError {
    /// A price is in a token that prices cannot be converted from.
    Unit(Token),
    /// A number is too large.
    Overflow,
    /// Some collateral has no price.
    MissingPrice,
}

/// The price of ADA in USDT.
pub open spec fn ada_price(quotes: Seq<TokenQuote>) -> Option<DecimalView>
    decreases quotes.len(),
{
    if quotes.len() == 0 {
        None
    } else if quotes.last().token == Token::ADA && quotes.last().origin == Origin::Binance {
        Some(quotes.last().value@)
    } else {
        ada_price(quotes.drop_last())
    }
}

/// A price in USDT.
pub open spec fn in_usdt(quote: TokenQuote, ada: DecimalView) -> Result<DecimalView, ReportError> {
    match quote.relative_to {
        Token::ADA => match decimal_product(quote.value@, ada) {
            Some(value) => Ok(value),
            None => Err(ReportError::Overflow),
        },
        Token::USDT => Ok(quote.value@),
        _ => Err(ReportError::Unit(quote.relative_to)),
    }
}

/// The first price that has none in USDT.
pub open spec fn first_failure(quotes: Seq<TokenQuote>, ada: DecimalView) -> Option<ReportError>
    decreases quotes.len(),
{
    if quotes.len() == 0 {
        None
    } else {
        match first_failure(quotes.drop_last(), ada) {
            Some(error) => Some(error),
            None => match in_usdt(quotes.last(), ada) {
                Ok(_) => None,
                Err(error) => Some(error),
            },
        }
    }
}

proof fn lemma_first_failure(quotes: Seq<TokenQuote>, ada: DecimalView, n: int)
    requires
        0 <= n <= quotes.len(),
        first_failure(quotes.take(n), ada) is Some,
    ensures
        first_failure(quotes, ada) == first_failure(quotes.take(n), ada),
    decreases quotes.len(),
{
    if n < quotes.len() {
        assert(quotes.drop_last().take(n) =~= quotes.take(n));
        lemma_first_failure(quotes.drop_last(), ada, n);
    } else {
        assert(quotes.take(n) =~= quotes);
    }
}

/// The prices of a token in USDT.
pub open spec fn prices_of(quotes: Seq<TokenQuote>, ada: DecimalView, token: Token) -> Seq<DecimalView>
    decreases quotes.len(),
{
    if quotes.len() == 0 {
        seq![]
    } else {
        let rest = prices_of(quotes.drop_last(), ada, token);
        if quotes.last().token == token {
            rest.push(in_usdt(quotes.last(), ada)->Ok_0)
        } else {
            rest
        }
    }
}

/// The sum of decimal numbers, from the first on; nothing where it becomes too large.
pub open spec fn decimal_total(values: Seq<DecimalView>) -> Option<DecimalView>
    decreases values.len(),
{
    if values.len() == 0 {
        Some(DecimalView { mantissa: 0, scale: 0 })
    } else {
        match decimal_total(values.drop_last()) {
            Some(sum) => decimal_sum(sum, values.last()),
            None => None,
        }
    }
}

/// The average of decimal numbers; nothing where their sum is too large.
pub open spec fn decimal_average(values: Seq<DecimalView>) -> Option<DecimalView> {
    match decimal_total(values) {
        Some(sum) => decimal_quotient(sum, DecimalView { mantissa: values.len() as int, scale: 0 }),
        None => None,
    }
}

/// The average price of a token in USDT.
pub open spec fn average_price(quotes: Seq<TokenQuote>, ada: DecimalView, token: Token) -> Result<
    DecimalView,
    ReportError,
> {
    let prices = prices_of(quotes, ada, token);
    if prices.len() == 0 {
        Err(ReportError::MissingPrice)
    } else {
        match decimal_average(prices) {
            Some(price) => Ok(price),
            None => Err(ReportError::Overflow),
        }
    }
}

/// Whether the numerators of these prices can be computed.
fn check_scaling(prices: &[Decimal]) -> (r: bool)
    ensures
        r == can_be_scaled(decimals(prices@)),
{
    let ghost all = decimals(prices@);
    let scale: u32 = find_scale(prices);
    let mut k: usize = 0;
    while k < prices.len()
        invariant
            k <= prices.len(),
            all == decimals(prices@),
            scale <= MAX_SCALE,
            scale == largest_scale(all),
            forall|j: int| 0 <= j < k ==> -i128::MAX <= #[trigger] numerators(all)[j] <= i128::MAX,
        decreases prices.len() - k,
    {
        proof {
            lemma_largest_scale(all, k as int);
            assert(numerators(all)[k as int] == scaled(all[k as int], scale as nat));
        }
        let power: i128 = power_of_ten(scale - prices[k].scale());
        match prices[k].mantissa().checked_mul(power) {
            Some(value) => {
                if value == i128::MIN {
                    return false;
                }
            },
            None => {
                return false;
            },
        }
        k += 1;
    }
    true
}

/// The average prices of these tokens.
pub open spec fn values_of(quotes: Seq<TokenQuote>, ada: DecimalView, tokens: Seq<Token>) -> Seq<DecimalView> {
    Seq::new(tokens.len(), |i: int| average_price(quotes, ada, tokens[i])->Ok_0)
}

/// The first token that has no price.
pub open spec fn first_missing(quotes: Seq<TokenQuote>, ada: DecimalView, tokens: Seq<Token>) -> Option<ReportError>
    decreases tokens.len(),
{
    if tokens.len() == 0 {
        None
    } else {
        match first_missing(quotes, ada, tokens.drop_last()) {
            Some(error) => Some(error),
            None => match average_price(quotes, ada, tokens.last()) {
                Ok(_) => None,
                Err(error) => Some(error),
            },
        }
    }
}

proof fn lemma_first_missing(quotes: Seq<TokenQuote>, ada: DecimalView, tokens: Seq<Token>, n: int)
    requires
        0 <= n <= tokens.len(),
        first_missing(quotes, ada, tokens.take(n)) is Some,
    ensures
        first_missing(quotes, ada, tokens) == first_missing(quotes, ada, tokens.take(n)),
    decreases tokens.len(),
{
    if n < tokens.len() {
        assert(tokens.drop_last().take(n) =~= tokens.take(n));
        lemma_first_missing(quotes, ada, tokens.drop_last(), n);
    } else {
        assert(tokens.take(n) =~= tokens);
    }
}

/// Why no feed of a synthetic can be made.
pub open spec fn feed_failure(
    quotes: Seq<TokenQuote>,
    ada: DecimalView,
    config: SyntheticConfiguration,
) -> Option<ReportError> {
    match first_missing(quotes, ada, config.collateral@) {
        Some(error) => Some(error),
        None => if can_be_scaled(values_of(quotes, ada, config.collateral@)) {
            None
        } else {
            Some(ReportError::Overflow)
        },
    }
}

/// Why no feed of the first of these synthetics without one can be made.
pub open spec fn first_feed_failure(
    quotes: Seq<TokenQuote>,
    ada: DecimalView,
    configs: Seq<SyntheticConfiguration>,
) -> Option<ReportError>
    decreases configs.len(),
{
    if configs.len() == 0 {
        None
    } else {
        match first_feed_failure(quotes, ada, configs.drop_last()) {
            Some(error) => Some(error),
            None => feed_failure(quotes, ada, configs.last()),
        }
    }
}

proof fn lemma_first_feed_failure(
    quotes: Seq<TokenQuote>,
    ada: DecimalView,
    configs: Seq<SyntheticConfiguration>,
    n: int,
)
    requires
        0 <= n <= configs.len(),
        first_feed_failure(quotes, ada, configs.take(n)) is Some,
    ensures
        first_feed_failure(quotes, ada, configs) == first_feed_failure(quotes, ada, configs.take(n)),
    decreases configs.len(),
{
    if n < configs.len() {
        assert(configs.drop_last().take(n) =~= configs.take(n));
        lemma_first_feed_failure(quotes, ada, configs.drop_last(), n);
    } else {
        assert(configs.take(n) =~= configs);
    }
}

/// The tokens that there are prices of.
pub open spec fn quoted(quotes: Seq<TokenQuote>) -> Seq<Token> {
    Seq::new(quotes.len(), |i: int| quotes[i].token)
}

/// Why no feeds can be made: a price that cannot be converted, an average that is too large, or a synthetic without a
/// feed.
pub open spec fn failure(
    quotes: Seq<TokenQuote>,
    ada: DecimalView,
    configs: Seq<SyntheticConfiguration>,
) -> Option<ReportError> {
    match first_failure(quotes, ada) {
        Some(error) => Some(error),
        None => match first_missing(quotes, ada, quoted(quotes)) {
            Some(error) => Some(error),
            None => first_feed_failure(quotes, ada, configs),
        },
    }
}

/// Whether this is the feed of a synthetic with collateral of these prices.
pub open spec fn is_feed(feed: PriceFeed, config: SyntheticConfiguration, prices: Seq<DecimalView>) -> bool {
    &&& feed.synthetic@ == config.token.text()
    &&& exists|g: nat| #[trigger] is_normalized(prices, g, feed.collateral_prices@, feed.denominator)
}

/// The feed of a synthetic with collateral of these prices.
pub fn compute_payload(config: &SyntheticConfiguration, prices: &[Decimal]) -> (r: PriceFeed)
    requires
        prices@.len() == config.collateral@.len(),
        can_be_scaled(decimals(prices@)),
    ensures
        is_feed(r, *config, decimals(prices@)),
{
    let (collateral_prices, denominator) = normalize_collateral_prices(prices);
    let feed = PriceFeed { collateral_prices, synthetic: config.token.name(), denominator };
    proof {
        let g = choose|g: nat| #[trigger] is_normalized(decimals(prices@), g, collateral_prices@, denominator);
        assert(is_normalized(decimals(prices@), g, feed.collateral_prices@, feed.denominator));
    }
    feed
}

/// The latest prices of tokens at their sources.
#[derive(Debug)]
pub struct Aggregator {
    pub prices: Vec<TokenQuote>,
}

/// Whether two prices are of the same token at the same source.
pub open spec fn same_key(a: TokenQuote, b: TokenQuote) -> bool {
    a.token == b.token && a.origin == b.origin
}

/// The first place of a price of the same token at the same source.
pub open spec fn place_of(quotes: Seq<TokenQuote>, info: TokenQuote) -> Option<int>
    decreases quotes.len(),
{
    if quotes.len() == 0 {
        None
    } else {
        match place_of(quotes.drop_last(), info) {
            Some(at) => Some(at),
            None => if same_key(quotes.last(), info) {
                Some(quotes.len() - 1)
            } else {
                None
            },
        }
    }
}

proof fn lemma_place_of(quotes: Seq<TokenQuote>, info: TokenQuote, n: int)
    requires
        0 <= n <= quotes.len(),
        place_of(quotes.take(n), info) is Some,
    ensures
        place_of(quotes, info) == place_of(quotes.take(n), info),
    decreases quotes.len(),
{
    if n < quotes.len() {
        assert(quotes.drop_last().take(n) =~= quotes.take(n));
        lemma_place_of(quotes.drop_last(), info, n);
    } else {
        assert(quotes.take(n) =~= quotes);
    }
}

impl Aggregator {
    pub fn new() -> (r: Self)
        ensures
            r.prices@.len() == 0,
    {
        Aggregator { prices: Vec::new() }
    }

    /// A new price, which takes the place of the token's earlier one at the same source.
    pub fn update(&mut self, info: TokenQuote)
        ensures
            final(self).prices@ == match place_of(old(self).prices@, info) {
                Some(at) => old(self).prices@.update(at, info),
                None => old(self).prices@.push(info),
            },
    {
        let ghost all = self.prices@;
        let mut i: usize = 0;
        assert(all.take(0) =~= seq![]);
        while i < self.prices.len()
            invariant
                i <= self.prices.len(),
                self.prices@ == all,
                all == old(self).prices@,
                place_of(all.take(i as int), info) is None,
            decreases self.prices.len() - i,
        {
            proof {
                assert(all.take(i + 1).drop_last() =~= all.take(i as int));
                assert(all.take(i + 1).last() == all[i as int]);
            }
            if self.prices[i].token == info.token && self.prices[i].origin == info.origin {
                proof {
                    lemma_place_of(all, info, i + 1);
                }
                self.prices.set(i, info);
                return;
            }
            i += 1;
        }
        assert(all.take(i as int) =~= all);
        self.prices.push(info);
    }

    fn ada_to_usdt(&self) -> (r: Option<Decimal>)
        ensures
            decimal_in(r) == ada_price(self.prices@),
    {
        let ghost all = self.prices@;
        let mut i: usize = self.prices.len();
        assert(all.take(i as int) =~= all);
        while i > 0
            invariant
                i <= self.prices.len(),
                all == self.prices@,
                ada_price(all) == ada_price(all.take(i as int)),
            decreases i,
        {
            proof {
                assert(all.take(i as int).drop_last() =~= all.take(i - 1));
                assert(all.take(i as int).last() == all[i - 1]);
            }
            i -= 1;
            if self.prices[i].token == Token::ADA && self.prices[i].origin == Origin::Binance {
                return Some(self.prices[i].value);
            }
        }
        None
    }

    /// The average price of a token in USDT.
    fn average(&self, ada: &Decimal, token: Token) -> (r: Result<Decimal, ReportError>)
        requires
            first_failure(self.prices@, ada@) is None,
        ensures
            match r {
                Ok(price) => average_price(self.prices@, ada@, token) == Ok::<DecimalView, ReportError>(price@),
                Err(error) => average_price(self.prices@, ada@, token) == Err::<DecimalView, ReportError>(error),
            },
    {
        let ghost all = self.prices@;
        let mut sum = Some(Decimal::zero());
        let mut count: u64 = 0;
        let mut i: usize = 0;
        assert(all.take(0) =~= seq![]);
        while i < self.prices.len()
            invariant
                i <= self.prices.len(),
                all == self.prices@,
                first_failure(all, ada@) is None,
                decimal_in(sum) == decimal_total(prices_of(all.take(i as int), ada@, token)),
                count == prices_of(all.take(i as int), ada@, token).len(),
                count <= i,
            decreases self.prices.len() - i,
        {
            let quote = &self.prices[i];
            let ghost before = prices_of(all.take(i as int), ada@, token);
            proof {
                assert(all.take(i + 1).drop_last() =~= all.take(i as int));
                assert(all.take(i + 1).last() == all[i as int]);
                if first_failure(all.take(i + 1), ada@) is Some {
                    lemma_first_failure(all, ada@, i + 1);
                }
                if first_failure(all.take(i as int), ada@) is Some {
                    lemma_first_failure(all, ada@, i as int);
                }
                assert(in_usdt(*quote, ada@) is Ok);
            }
            if quote.token == token {
                let price = match quote.relative_to {
                    Token::ADA => quote.value.times(ada),
                    _ => Some(quote.value),
                };
                proof {
                    assert(decimal_in(price) == Some(in_usdt(*quote, ada@)->Ok_0));
                    let after = before.push(in_usdt(*quote, ada@)->Ok_0);
                    assert(after.drop_last() =~= before);
                }
                sum = match (sum, price) {
                    (Some(sum), Some(price)) => sum.plus(&price),
                    _ => None,
                };
                count += 1;
            }
            i += 1;
        }
        assert(all.take(i as int) =~= all);
        if count == 0 {
            return Err(ReportError::MissingPrice);
        }
        match (sum, Decimal::from_i128_with_scale(count as i128, 0)) {
            (Some(sum), Some(count)) => match sum.over(&count) {
                Some(price) => Ok(price),
                None => Err(ReportError::Overflow),
            },
            _ => Err(ReportError::Overflow),
        }
    }

    /// The average prices of these tokens.
    fn averages(&self, ada: &Decimal, tokens: &Vec<Token>) -> (r: Result<Vec<Decimal>, ReportError>)
        requires
            first_failure(self.prices@, ada@) is None,
        ensures
            match r {
                Ok(prices) => first_missing(self.prices@, ada@, tokens@) is None && decimals(prices@) == values_of(
                    self.prices@,
                    ada@,
                    tokens@,
                ),
                Err(error) => first_missing(self.prices@, ada@, tokens@) == Some(error),
            },
    {
        let mut prices: Vec<Decimal> = Vec::new();
        let mut i: usize = 0;
        assert(tokens@.take(0) =~= seq![]);
        while i < tokens.len()
            invariant
                i <= tokens.len(),
                first_failure(self.prices@, ada@) is None,
                first_missing(self.prices@, ada@, tokens@.take(i as int)) is None,
                prices.len() == i,
                forall|j: int|
                    0 <= j < i ==> (#[trigger] prices@[j])@ == average_price(self.prices@, ada@, tokens@[j])->Ok_0,
            decreases tokens.len() - i,
        {
            proof {
                assert(tokens@.take(i + 1).drop_last() =~= tokens@.take(i as int));
                assert(tokens@.take(i + 1).last() == tokens@[i as int]);
            }
            match self.average(ada, tokens[i]) {
                Ok(price) => {
                    prices.push(price);
                },
                Err(error) => {
                    proof {
                        lemma_first_missing(self.prices@, ada@, tokens@, i + 1);
                    }
                    return Err(error);
                },
            }
            i += 1;
        }
        assert(tokens@.take(i as int) =~= tokens@);
        assert(decimals(prices@) =~= values_of(self.prices@, ada@, tokens@));
        Ok(prices)
    }

    /// Whether every price can be converted.
    fn check_units(&self, ada: &Decimal) -> (r: Option<ReportError>)
        ensures
            r == first_failure(self.prices@, ada@),
    {
        let ghost all = self.prices@;
        let mut i: usize = 0;
        assert(all.take(0) =~= seq![]);
        while i < self.prices.len()
            invariant
                i <= self.prices.len(),
                all == self.prices@,
                first_failure(all.take(i as int), ada@) is None,
            decreases self.prices.len() - i,
        {
            proof {
                assert(all.take(i + 1).drop_last() =~= all.take(i as int));
                assert(all.take(i + 1).last() == all[i as int]);
            }
            let quote = &self.prices[i];
            let error = match quote.relative_to {
                Token::ADA => match quote.value.times(ada) {
                    Some(_) => None,
                    None => Some(ReportError::Overflow),
                },
                Token::USDT => None,
                other => Some(ReportError::Unit(other)),
            };
            if error.is_some() {
                proof {
                    lemma_first_failure(all, ada@, i + 1);
                }
                return error;
            }
            i += 1;
        }
        assert(all.take(i as int) =~= all);
        None
    }

    /// The feeds of these synthetics. Nothing where the price of ADA is not known yet.
    pub fn report(&self, configs: &Vec<SyntheticConfiguration>) -> (r: Option<Result<Vec<PriceFeed>, ReportError>>)
        ensures
            r is Some <==> ada_price(self.prices@) is Some,
            r matches Some(Ok(feeds)) ==> {
                let ada = ada_price(self.prices@)->0;
                &&& failure(self.prices@, ada, configs@) is None
                &&& feeds@.len() == configs@.len()
                &&& forall|i: int|
                    0 <= i < feeds@.len() ==> is_feed(
                        #[trigger] feeds@[i],
                        configs@[i],
                        values_of(self.prices@, ada, configs@[i].collateral@),
                    )
            },
            r matches Some(Err(error)) ==> failure(self.prices@, ada_price(self.prices@)->0, configs@) == Some(error),
    {
        let ada = match self.ada_to_usdt() {
            Some(ada) => ada,
            None => {
                return None;
            },
        };
        if let Some(error) = self.check_units(&ada) {
            return Some(Err(error));
        }
        let ghost all = self.prices@;
        let mut tokens: Vec<Token> = Vec::new();
        let mut i: usize = 0;
        while i < self.prices.len()
            invariant
                i <= self.prices.len(),
                all == self.prices@,
                tokens@ == quoted(all).take(i as int),
            decreases self.prices.len() - i,
        {
            tokens.push(self.prices[i].token);
            assert(quoted(all).take(i + 1) =~= quoted(all).take(i as int).push(all[i as int].token));
            i += 1;
        }
        assert(quoted(all).take(i as int) =~= quoted(all));
        match self.averages(&ada, &tokens) {
            Ok(_) => {},
            Err(error) => {
                return Some(Err(error));
            },
        }
        let mut feeds: Vec<PriceFeed> = Vec::new();
        let mut k: usize = 0;
        assert(configs@.take(0) =~= seq![]);
        while k < configs.len()
            invariant
                k <= configs.len(),
                all == self.prices@,
                ada_price(all) == Some(ada@),
                first_failure(all, ada@) is None,
                first_missing(all, ada@, quoted(all)) is None,
                first_feed_failure(all, ada@, configs@.take(k as int)) is None,
                feeds.len() == k,
                forall|j: int|
                    0 <= j < k ==> is_feed(
                        #[trigger] feeds@[j],
                        configs@[j],
                        values_of(all, ada@, configs@[j].collateral@),
                    ),
            decreases configs.len() - k,
        {
            let config = &configs[k];
            proof {
                assert(configs@.take(k + 1).drop_last() =~= configs@.take(k as int));
                assert(configs@.take(k + 1).last() == *config);
            }
            match self.averages(&ada, &config.collateral) {
                Ok(prices) => {
                    if !check_scaling(prices.as_slice()) {
                        proof {
                            lemma_first_feed_failure(all, ada@, configs@, k + 1);
                        }
                        return Some(Err(ReportError::Overflow));
                    }
                    assert(prices@.len() == decimals(prices@).len());
                    feeds.push(compute_payload(config, prices.as_slice()));
                },
                Err(error) => {
                    proof {
                        lemma_first_feed_failure(all, ada@, configs@, k + 1);
                    }
                    return Some(Err(error));
                },
            }
            k += 1;
        }
        assert(configs@.take(k as int) =~= configs@);
        Some(Ok(feeds))
    }
}

/// Where nothing is cut off, the feed's prices are the prices that it was made of.
pub proof fn law_normalized_prices_are_exact(
    prices: Seq<DecimalView>,
    g: nat,
    collateral_prices: Seq<u64>,
    rest: u64,
    i: int,
)
    requires
        is_normalized(prices, g, collateral_prices, rest),
        0 <= i < prices.len(),
        0 <= numerators(prices)[i] <= u64::MAX,
        ten_to(largest_scale(prices)) <= u64::MAX,
    ensures
        collateral_prices[i] * ten_to(largest_scale(prices)) == numerators(prices)[i] * rest,
{
    let denominator = ten_to(largest_scale(prices)) as int;
    let numerator = numerators(prices)[i];
    lemma_ten_to(0, largest_scale(prices));
    lemma_exact_quotient(numerator, g);
    assert(magnitude(denominator) == denominator);
    lemma_exact_quotient(denominator, g);
    let (p, q) = (numerator / (g as int), denominator / (g as int));
    assert(0 <= p <= numerator) by (nonlinear_arith)
        requires
            p * g == numerator,
            g > 0,
            numerator >= 0,
    ;
    assert(0 <= q <= denominator) by (nonlinear_arith)
        requires
            q * g == denominator,
            g > 0,
            denominator >= 0,
    ;
    assert(collateral_prices[i] == p);
    assert(rest == q);
    assert(p * (q * g) == (p * g) * q) by (nonlinear_arith);
}

} // verus!
