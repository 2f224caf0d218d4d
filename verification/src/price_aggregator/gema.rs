//! Smoothing: an average that follows falling prices at once, and rising prices slowly.

use vstd::prelude::*;

use crate::numbers::{Natural, Rational};
use crate::price_feed::views;

verus! {

/// How prices are smoothed: over so many periods, each as long as a round. Times are in nanoseconds.
///
/// The weight of the previous price is `2 / max(periods + elapsed + 1, 2)`, where `elapsed` is how many rounds ago
/// that price was made.
#[derive(Debug)]
pub struct GemaCalculator {
    periods: usize,
    round_duration: u128,
}

/// A price that falls is kept; one that rises is averaged with the previous one.
pub open spec fn smoothed(weight: real, previous: real, price: real) -> real {
    if price < previous {
        price
    } else {
        price * (1real - weight) + previous * weight
    }
}

/// Each of these prices, smoothed.
pub open spec fn all_smoothed(weight: real, previous: Seq<real>, prices: Seq<real>) -> Seq<real> {
    Seq::new(prices.len(), |i: int| smoothed(weight, previous[i], prices[i]))
}

/// A part of a whole number, rounded down.
pub open spec fn is_part(number: nat, share: real, part: nat) -> bool {
    part as real <= (number as real) * share < (part + 1) as real
}

/// A part of a whole number, rounded down.
pub open spec fn part_of(number: nat, share: real) -> nat {
    choose|part: nat| is_part(number, share, part)
}

/// A whole price, smoothed, with both parts rounded down.
pub open spec fn whole_smoothed(weight: real, previous: nat, price: nat) -> nat {
    if weight < 0real || weight > 1real || price < previous {
        price
    } else {
        part_of(price, 1real - weight) + part_of(previous, weight)
    }
}

impl GemaCalculator {
    pub closed spec fn spec_periods(&self) -> usize {
        self.periods
    }

    pub closed spec fn spec_round_duration(&self) -> u128 {
        self.round_duration
    }

    pub fn new(periods: usize, round_duration: u128) -> (r: Self)
        ensures
            r.spec_periods() == periods,
            r.spec_round_duration() == round_duration,
    {
        GemaCalculator { periods, round_duration }
    }

    /// Over how many periods prices are smoothed.
    pub fn periods(&self) -> (r: usize)
        ensures
            r == self.spec_periods(),
    {
        self.periods
    }

    /// How long a period is.
    pub fn round_duration(&self) -> (r: u128)
        ensures
            r == self.spec_round_duration(),
    {
        self.round_duration
    }

    /// Each of these prices, smoothed. Without a weight, or with other prices than before, they stay as they are.
    pub fn smooth_synthetic_price(
        &self,
        weight: Option<&Rational>,
        prev_prices: &[Rational],
        prices: Vec<Rational>,
    ) -> (r: Vec<Rational>)
        ensures
            views(r@) == match weight {
                Some(weight) => if prev_prices@.len() == prices@.len() {
                    all_smoothed(weight@, views(prev_prices@), views(prices@))
                } else {
                    views(prices@)
                },
                None => views(prices@),
            },
    {
        if prev_prices.len() != prices.len() {
            return prices;
        }
        let prev_price_weight = match weight {
            Some(weight) => weight,
            None => {
                return prices;
            },
        };
        let curr_price_weight = Rational::from_u64(1).minus(prev_price_weight);
        let mut result: Vec<Rational> = Vec::new();
        let mut i: usize = 0;
        while i < prices.len()
            invariant
                i <= prices.len(),
                prices.len() == prev_prices@.len(),
                curr_price_weight@ == 1real - prev_price_weight@,
                result.len() == i,
                forall|j: int|
                    0 <= j < i ==> (#[trigger] result@[j])@ == smoothed(
                        prev_price_weight@,
                        prev_prices@[j]@,
                        prices@[j]@,
                    ),
            decreases prices.len() - i,
        {
            let price = &prices[i];
            let prev_price = &prev_prices[i];
            let smooth = if price.less(prev_price) {
                price.clone()
            } else {
                price.times(&curr_price_weight).plus(&prev_price.times(prev_price_weight))
            };
            result.push(smooth);
            i += 1;
        }
        assert(views(result@) =~= all_smoothed(prev_price_weight@, views(prev_prices@), views(prices@)));
        result
    }

    /// A whole price, smoothed. Without a weight it stays as it is.
    pub fn smooth_price(&self, weight: Option<&Rational>, prev_price: &Natural, price: Natural) -> (r: Natural)
        ensures
            r@ == match weight {
                Some(weight) => whole_smoothed(weight@, prev_price@, price@),
                None => price@,
            },
    {
        let prev_price_weight = match weight {
            Some(weight) => weight,
            None => {
                return price;
            },
        };
        let curr_price_weight = Rational::from_u64(1).minus(prev_price_weight);
        if prev_price_weight.is_negative() || curr_price_weight.is_negative() || price.less(prev_price) {
            return price;
        }
        compute_part(&price, &curr_price_weight).plus(&compute_part(prev_price, prev_price_weight))
    }
}

/// A part of a whole number, rounded down.
pub fn compute_part(number: &Natural, share: &Rational) -> (r: Natural)
    requires
        share@ >= 0real,
    ensures
        r@ == part_of(number@, share@),
        is_part(number@, share@, r@),
{
    let (numer, denom) = share.to_parts();
    let product = number.times(&numer);
    let r = product.over(&denom);
    proof {
        lemma_part(number@, numer@, denom@, share@, r@);
    }
    r
}

proof fn lemma_part(number: nat, numer: nat, denom: nat, share: real, part: nat)
    requires
        denom > 0,
        share == (numer as real) / (denom as real),
        part == (number * numer) / denom,
    ensures
        is_part(number, share, part),
        part_of(number, share) == part,
{
    let product = number * numer;
    vstd::arithmetic::div_mod::lemma_fundamental_div_mod(product as int, denom as int);
    let rest = product % denom;
    let low = denom * part;
    assert(product == low + rest);
    let nr = number as real;
    let ur = numer as real;
    let dr = denom as real;
    let pr = part as real;
    let rr = rest as real;
    assert((number * numer) as real == nr * ur) by (nonlinear_arith)
        requires
            nr == number as real,
            ur == numer as real,
    ;
    assert((denom * part) as real == dr * pr) by (nonlinear_arith)
        requires
            dr == denom as real,
            pr == part as real,
    ;
    assert(nr * ur == dr * pr + rr);
    assert(0real <= rr < dr);
    assert(pr <= nr * share < pr + 1real) by (nonlinear_arith)
        requires
            dr > 0real,
            share == ur / dr,
            nr * ur == dr * pr + rr,
            0real <= rr < dr,
    ;
    assert((part + 1) as real == pr + 1real);
    assert(is_part(number, share, part));
    let chosen = part_of(number, share);
    assert(is_part(number, share, chosen));
    assert(chosen == part) by {
        let cr = chosen as real;
        assert((chosen + 1) as real == cr + 1real);
    }
}

/// A smoothed price lies between the previous one and the new one.
pub proof fn law_smoothed_price_lies_between(weight: real, previous: real, price: real)
    requires
        0real <= weight <= 1real,
    ensures
        smoothed(weight, previous, price) <= price,
        price >= previous ==> smoothed(weight, previous, price) >= previous,
{
    if price >= previous {
        let gap = price - previous;
        assert(price * (1real - weight) + previous * weight == price - gap * weight) by (nonlinear_arith)
            requires
                gap == price - previous,
        ;
        assert(0real <= gap * weight <= gap) by (nonlinear_arith)
            requires
                gap >= 0real,
                0real <= weight <= 1real,
        ;
    }
}

/// A price that falls is followed at once.
pub proof fn law_falling_prices_are_followed(weight: real, previous: real, price: real)
    requires
        price < previous,
    ensures
        smoothed(weight, previous, price) == price,
{
}

/// The more the previous price weighs, the slower a rising price is followed.
pub proof fn law_more_weight_smooths_more(less: real, more: real, previous: real, price: real)
    requires
        less <= more,
    ensures
        smoothed(more, previous, price) <= smoothed(less, previous, price),
{
    if price >= previous {
        assert(price * (1real - more) + previous * more <= price * (1real - less) + previous * less)
            by (nonlinear_arith)
            requires
                less <= more,
                price >= previous,
        ;
    }
}

/// The less the previous prices weigh, the less a rise of any of the prices is smoothed.
pub proof fn law_less_weight_smooths_every_price_less(less: real, more: real, previous: Seq<real>, prices: Seq<real>)
    requires
        less <= more,
        previous.len() == prices.len(),
    ensures
        all_smoothed(more, previous, prices).len() == all_smoothed(less, previous, prices).len(),
        forall|i: int|
            0 <= i < prices.len() ==> #[trigger] all_smoothed(more, previous, prices)[i] <= all_smoothed(
                less,
                previous,
                prices,
            )[i],
{
    assert forall|i: int| 0 <= i < prices.len() implies #[trigger] all_smoothed(more, previous, prices)[i]
        <= all_smoothed(less, previous, prices)[i] by {
        law_more_weight_smooths_more(less, more, previous[i], prices[i]);
    }
}

/// A whole price, smoothed, is never above the new price, and less than two below the exact average.
pub proof fn law_whole_price_is_smoothed(weight: real, previous: nat, price: nat)
    requires
        0real <= weight <= 1real,
    ensures
        whole_smoothed(weight, previous, price) <= price,
        whole_smoothed(weight, previous, price) as real <= smoothed(weight, previous as real, price as real) < (
        whole_smoothed(weight, previous, price) + 2) as real,
        price >= previous ==> whole_smoothed(weight, previous, price) + 1 >= previous,
{
    let exact = smoothed(weight, previous as real, price as real);
    law_smoothed_price_lies_between(weight, previous as real, price as real);
    if price >= previous {
        lemma_part_exists(price, 1real - weight);
        lemma_part_exists(previous, weight);
        let kept = part_of(price, 1real - weight);
        let added = part_of(previous, weight);
        assert((kept + 1) as real == kept as real + 1real);
        assert((added + 1) as real == added as real + 1real);
        assert((kept + added) as real == kept as real + added as real);
        assert((kept + added + 2) as real == kept as real + added as real + 2real);
        assert((kept + added) as real <= exact);
        assert(exact < (kept + added + 2) as real);
    }
}

/// Every share of a whole number has a whole part.
pub proof fn lemma_part_exists(number: nat, share: real)
    requires
        share >= 0real,
    ensures
        is_part(number, share, part_of(number, share)),
{
    let exact = (number as real) * share;
    assert(exact >= 0real) by (nonlinear_arith)
        requires
            exact == (number as real) * share,
            number as real >= 0real,
            share >= 0real,
    ;
    let part = exact.floor() as nat;
    assert(is_part(number, share, part));
}

/// A rising price is held back by the share of its rise that the previous price weighs.
pub proof fn law_rises_are_held_back_by_the_weight(weight: real, previous: real, price: real)
    requires
        price >= previous,
    ensures
        price - smoothed(weight, previous, price) == weight * (price - previous),
{
    assert(price - (price * (1real - weight) + previous * weight) == weight * (price - previous)) by (nonlinear_arith);
}

/// Each price is smoothed by the previous price of the same collateral: one that falls stays as it is, and one that
/// rises is held back by the share of its rise that the previous price weighs.
pub proof fn law_each_price_is_smoothed_by_its_own(weight: real, previous: Seq<real>, prices: Seq<real>)
    requires
        previous.len() == prices.len(),
    ensures
        all_smoothed(weight, previous, prices).len() == prices.len(),
        forall|i: int|
            0 <= i < prices.len() ==> prices[i] - #[trigger] all_smoothed(weight, previous, prices)[i] == if prices[i]
                < previous[i] {
                0real
            } else {
                weight * (prices[i] - previous[i])
            },
{
    assert forall|i: int| 0 <= i < prices.len() implies prices[i] - #[trigger] all_smoothed(weight, previous, prices)[i]
        == if prices[i] < previous[i] {
        0real
    } else {
        weight * (prices[i] - previous[i])
    } by {
        if prices[i] >= previous[i] {
            law_rises_are_held_back_by_the_weight(weight, previous[i], prices[i]);
        }
    }
}

/// A whole price that rises is made of what is left of the new price and of the previous one by their weights, each
/// without what is less than one. One that falls stays as it is, and so does every price with a weight that is no
/// share.
pub proof fn law_whole_rises_are_held_back(weight: real, previous: nat, price: nat)
    ensures
        0real <= weight <= 1real && price >= previous ==> whole_smoothed(weight, previous, price) == ((price as real) * (
        1real - weight)).floor() + ((previous as real) * weight).floor(),
        price < previous || weight < 0real || weight > 1real ==> whole_smoothed(weight, previous, price) == price,
{
    if 0real <= weight <= 1real && price >= previous {
        lemma_part_exists(price, 1real - weight);
        lemma_part_exists(previous, weight);
        lemma_floor((price as real) * (1real - weight), part_of(price, 1real - weight));
        lemma_floor((previous as real) * weight, part_of(previous, weight));
    }
}

proof fn lemma_floor(exact: real, part: nat)
    requires
        part as real <= exact < (part + 1) as real,
    ensures
        exact.floor() == part,
{
}

/// Where the collateral of a synthetic has changed, or there is no weight, its prices stay as they are. Otherwise each that
/// falls stays as it is, and each that rises is held back by the share of its rise that the previous price weighs.
pub proof fn law_smoothing_holds_rises_back(
    calculator: &GemaCalculator,
    weight: Option<&Rational>,
    previous: &[Rational],
    prices: Vec<Rational>,
    smooth: Vec<Rational>,
)
    requires
        call_ensures(GemaCalculator::smooth_synthetic_price, (calculator, weight, previous, prices), smooth),
    ensures
        smooth@.len() == prices@.len(),
        forall|i: int|
            0 <= i < prices@.len() ==> prices@[i]@ - (#[trigger] smooth@[i])@ == if weight is Some && previous@.len()
                == prices@.len() && prices@[i]@ >= previous@[i]@ {
                weight->0@ * (prices@[i]@ - previous@[i]@)
            } else {
                0real
            },
{
    let found = views(smooth@);
    let now = views(prices@);
    let before = views(previous@);
    assert(found.len() == smooth@.len() && now.len() == prices@.len());
    if weight is Some && previous@.len() == prices@.len() {
        law_each_price_is_smoothed_by_its_own(weight->0@, before, now);
    }
    assert forall|i: int| 0 <= i < prices@.len() implies prices@[i]@ - (#[trigger] smooth@[i])@ == if weight is Some
        && previous@.len() == prices@.len() && prices@[i]@ >= previous@[i]@ {
        weight->0@ * (prices@[i]@ - previous@[i]@)
    } else {
        0real
    } by {
        assert(found[i] == smooth@[i]@ && now[i] == prices@[i]@);
        if previous@.len() == prices@.len() {
            assert(before[i] == previous@[i]@);
        }
    }
}

} // verus!
