//! What holds of how much prices vary.

use vstd::prelude::*;

use crate::names::lemma_listing_exists;
use crate::price_feed::synthetic::{NamedFeedView, SyntheticFeedView};
use crate::signature_aggregator::price_instrumentation::{
    in_a_row, mean, own_prices, prices_in, squared_distance, squared_distances, total, variance_of,
    variances_by_synthetic, with_prices, InstrumentationView, PriceVarianceView,
};

verus! {

/// The sum of the squares of these numbers.
pub open spec fn sum_of_squares(values: Seq<real>) -> real {
    values.fold_left(0real, |sum: real, value: real| sum + value * value)
}

/// The sum of these numbers.
pub open spec fn sum_of(values: Seq<real>) -> real {
    values.fold_left(0real, |sum: real, value: real| sum + value)
}

proof fn lemma_total(values: Seq<real>)
    ensures
        total(values) == sum_of(values),
    decreases values.len(),
{
    if values.len() > 0 {
        lemma_total(values.drop_last());
    }
}

proof fn lemma_total_of_squared_distances(values: Seq<real>, center: real)
    ensures
        total(squared_distances(values, center)) == sum_of_squares(values) - 2real * (center * sum_of(values)) + (
        values.len() as real) * (center * center),
    decreases values.len(),
{
    if values.len() > 0 {
        let front = values.drop_last();
        let last = values.last();
        lemma_total_of_squared_distances(front, center);
        let all = squared_distances(values, center);
        assert(all.drop_last() =~= squared_distances(front, center));
        assert(all.last() == squared_distance(last, center));
        assert((last - center) * (last - center) == last * last - 2real * (center * last) + center * center)
            by (nonlinear_arith);
        let before = sum_of(front);
        assert(center * (before + last) == center * before + center * last) by (nonlinear_arith);
        let n = front.len() as real;
        let square = center * center;
        assert((n + 1real) * square == n * square + square) by (nonlinear_arith);
        assert(values.len() as real == n + 1real);
    } else {
        assert(squared_distances(values, center) =~= seq![]);
        assert(center * 0real == 0real && 0real * (center * center) == 0real) by (nonlinear_arith);
    }
}

/// The average of numbers, times how many they are, is their sum; and how much they vary, times how many they are, is the
/// sum of their squares without that of as many averages.
pub proof fn law_variance_is_the_mean_square_without_the_square_mean(values: Seq<real>)
    requires
        values.len() > 0,
    ensures
        mean(values) * (values.len() as real) == sum_of(values),
        variance_of(values) * (values.len() as real) == sum_of_squares(values) - (values.len() as real) * (mean(values)
            * mean(values)),
{
    let n = values.len() as real;
    let center = mean(values);
    lemma_total(values);
    let sum = sum_of(values);
    assert((sum / n) * n == sum) by (nonlinear_arith)
        requires
            n > 0real,
    ;
    lemma_total_of_squared_distances(values, center);
    let squares = total(squared_distances(values, center));
    assert((squares / n) * n == squares) by (nonlinear_arith)
        requires
            n > 0real,
    ;
    let square = center * center;
    assert(center * sum == n * square) by (nonlinear_arith)
        requires
            center * n == sum,
            square == center * center,
    ;
}

/// Each price of another node's feed is counted beside those that are known of the same collateral of the same synthetic:
/// it is the numerator over the denominator. Nothing else changes.
pub proof fn law_prices_are_counted_beside_others(
    known: Map<Seq<char>, Seq<Seq<real>>>,
    feeds: Seq<SyntheticFeedView>,
    feed: SyntheticFeedView,
)
    requires
        feed.denominator > 0,
    ensures
        ({
            let before = with_prices(known, feeds);
            let after = with_prices(known, feeds.push(feed));
            &&& after.dom() == before.dom()
            &&& forall|name: Seq<char>|
                name != feed.synthetic && #[trigger] before.contains_key(name) ==> after[name] == before[name]
            &&& before.contains_key(feed.synthetic) ==> {
                let lists = before[feed.synthetic];
                let longer = after[feed.synthetic];
                &&& longer.len() == lists.len()
                &&& forall|i: int|
                    0 <= i < lists.len() && i >= feed.collateral_prices.len() ==> #[trigger] longer[i] == lists[i]
                &&& forall|i: int|
                    0 <= i < lists.len() && i < feed.collateral_prices.len() ==> {
                        &&& (#[trigger] longer[i]).len() == lists[i].len() + 1
                        &&& longer[i].drop_last() == lists[i]
                        &&& longer[i].last() * (feed.denominator as real) == feed.collateral_prices[i] as real
                    }
            }
        }),
{
    let all = feeds.push(feed);
    assert(all.drop_last() =~= feeds);
    assert(all.last() == feed);
    let before = with_prices(known, feeds);
    let after = with_prices(known, all);
    assert(after.dom() =~= before.dom());
    if before.contains_key(feed.synthetic) {
        let lists = before[feed.synthetic];
        let longer = after[feed.synthetic];
        assert forall|i: int| 0 <= i < lists.len() && i < feed.collateral_prices.len() implies {
            &&& (#[trigger] longer[i]).len() == lists[i].len() + 1
            &&& longer[i].drop_last() == lists[i]
            &&& longer[i].last() * (feed.denominator as real) == feed.collateral_prices[i] as real
        } by {
            lemma_price(feed, i);
            assert(longer[i] == lists[i].push(prices_in(feed)[i]));
            assert(longer[i].drop_last() =~= lists[i]);
        }
    }
}

proof fn lemma_price(feed: SyntheticFeedView, i: int)
    requires
        feed.denominator > 0,
        0 <= i < feed.collateral_prices.len(),
    ensures
        prices_in(feed)[i] * (feed.denominator as real) == feed.collateral_prices[i] as real,
{
    let n = feed.collateral_prices[i] as real;
    let d = feed.denominator as real;
    assert((n / d) * d == n) by (nonlinear_arith)
        requires
            d > 0real,
    ;
}

/// A round begins with the node's own prices: of a synthetic with one feed, one price of each collateral, which is the
/// numerator over the denominator.
pub proof fn law_rounds_begin_with_own_prices(feeds: Seq<NamedFeedView>, at: int)
    requires
        0 <= at < feeds.len(),
        feeds[at].feed.denominator > 0,
        forall|j: int|
            0 <= j < feeds.len() && j != at ==> (#[trigger] feeds[j]).feed.synthetic != feeds[at].feed.synthetic,
    ensures
        ({
            let feed = feeds[at].feed;
            let own = own_prices(feeds);
            &&& own.contains_key(feed.synthetic)
            &&& own[feed.synthetic].len() == feed.collateral_prices.len()
            &&& forall|i: int|
                0 <= i < feed.collateral_prices.len() ==> (#[trigger] own[feed.synthetic][i]).len() == 1
                    && own[feed.synthetic][i][0] * (feed.denominator as real) == feed.collateral_prices[i] as real
        }),
    decreases feeds.len(),
{
    let front = feeds.drop_last();
    let feed = feeds[at].feed;
    if at < front.len() {
        assert forall|j: int| 0 <= j < front.len() && j != at implies (#[trigger] front[j]).feed.synthetic
            != front[at].feed.synthetic by {
            assert(front[j] == feeds[j]);
        }
        law_rounds_begin_with_own_prices(front, at);
        assert(feeds[feeds.len() - 1].feed.synthetic != feed.synthetic);
    } else {
        assert(!own_prices(front).contains_key(feed.synthetic)) by {
            assert forall|j: int| 0 <= j < front.len() implies (#[trigger] front[j]).feed.synthetic
                != feed.synthetic by {
                assert(front[j] == feeds[j]);
            }
            lemma_no_own_prices(front, feed.synthetic);
        }
        assert forall|i: int| 0 <= i < feed.collateral_prices.len() implies (
        #[trigger] own_prices(feeds)[feed.synthetic][i]).len() == 1 && own_prices(feeds)[feed.synthetic][i][0] * (
        feed.denominator as real) == feed.collateral_prices[i] as real by {
            lemma_price(feed, i);
        }
    }
}

proof fn lemma_no_own_prices(feeds: Seq<NamedFeedView>, name: Seq<char>)
    requires
        forall|j: int| 0 <= j < feeds.len() ==> (#[trigger] feeds[j]).feed.synthetic != name,
    ensures
        !own_prices(feeds).contains_key(name),
    decreases feeds.len(),
{
    if feeds.len() > 0 {
        let front = feeds.drop_last();
        assert(feeds[feeds.len() - 1].feed.synthetic != name);
        assert forall|j: int| 0 <= j < front.len() implies (#[trigger] front[j]).feed.synthetic != name by {
            assert(front[j] == feeds[j]);
        }
        lemma_no_own_prices(front, name);
    }
}

/// While a round is under way, it is reported of every collateral of every synthetic how much its prices vary, under its
/// own name.
pub proof fn law_every_collateral_is_reported(known: InstrumentationView, synthetic: Seq<char>, at: int)
    requires
        known.round is Some,
        known.all_prices.dom().finite(),
        known.all_prices.contains_key(synthetic),
        0 <= at < known.all_prices[synthetic].len(),
    ensures
        known.variances().contains(
            PriceVarianceView {
                synthetic,
                collateral: known.collateral_names[synthetic][at],
                variance: variance_of(known.all_prices[synthetic][at]),
            },
        ),
{
    let all = variances_by_synthetic(known.collateral_names, known.all_prices);
    assert(all.dom() =~= known.all_prices.dom());
    let (names, lists) = lemma_listing_exists(all);
    assert(all.contains_key(synthetic));
    assert(names.contains(synthetic));
    let k = choose|k: int| 0 <= k < names.len() && names[k] == synthetic;
    assert(all[names[k]] == lists[k]);
    lemma_in_a_row(lists, k, at);
}

proof fn lemma_in_a_row<T>(lists: Seq<Seq<T>>, which: int, at: int)
    requires
        0 <= which < lists.len(),
        0 <= at < lists[which].len(),
    ensures
        in_a_row(lists).contains(lists[which][at]),
    decreases lists.len(),
{
    let front = lists.drop_last();
    let value = lists[which][at];
    if which < front.len() {
        lemma_in_a_row(front, which, at);
        let i = choose|i: int| 0 <= i < in_a_row(front).len() && in_a_row(front)[i] == value;
        assert(in_a_row(lists)[i] == value);
    } else {
        assert(in_a_row(lists)[in_a_row(front).len() + at] == value);
    }
}

} // verus!
