//! What holds of the prices that sources have reported.

use vstd::prelude::*;

use crate::health::OriginView;
use crate::names::lemma_listing_exists;
use crate::price_aggregator::conversions::QuoteView;
use crate::price_aggregator::source_adapter::{
    counts, fresh_quotes, late_tokens, latest_quotes, latest_source_prices, law_old_prices_are_not_used, source_health,
    source_views, SourceAdapter, SourceView,
};
use crate::sources::source::{PriceInfo, SnapshotView};

verus! {

/// Whether something from this moment is at most so old; what is from the future is.
pub open spec fn is_at_most(moment: u128, now: u128, max_age: u128) -> bool {
    now <= moment + max_age
}

/// Whether a quote says what a source has reported: the same of the token, and who reported it, by the source and by who
/// it has it from, if it says so.
pub open spec fn is_quote_of(quote: QuoteView, source: SourceView, price: SnapshotView) -> bool {
    &&& quote.info == price.info
    &&& price.name is None ==> quote.source == source.name
    &&& price.name matches Some(name) ==> quote.source == source.name + " ("@ + name + ")"@
}

/// Every price that is not too old is handed on, and says who reported it.
pub proof fn law_every_fresh_price_is_used(sources: Seq<SourceView>, now: u128, source: int, token: Seq<char>)
    requires
        0 <= source < sources.len(),
        sources[source].prices.dom().finite(),
        sources[source].prices.contains_key(token),
        is_at_most(sources[source].prices[token].as_of, now, sources[source].max_age),
    ensures
        exists|i: int|
            0 <= i < latest_quotes(sources, now).len() && is_quote_of(
                #[trigger] latest_quotes(sources, now)[i],
                sources[source],
                sources[source].prices[token],
            ),
    decreases sources.len(),
{
    let front = sources.drop_last();
    let last = sources.last();
    let earlier = latest_quotes(front, now);
    let all = latest_quotes(sources, now);
    let price = sources[source].prices[token];
    if source < front.len() {
        law_every_fresh_price_is_used(front, now, source, token);
        let i = choose|i: int|
            0 <= i < earlier.len() && is_quote_of(#[trigger] earlier[i], front[source], front[source].prices[token]);
        assert(all[i] == earlier[i]);
    } else {
        let (names, listed) = lemma_listing_exists(last.prices);
        assert(names.contains(token));
        let k = choose|k: int| 0 <= k < names.len() && names[k] == token;
        assert(last.prices[names[k]] == listed[k]);
        let j = lemma_fresh(last, listed, now, k);
        assert(all[earlier.len() + j] == fresh_quotes(last, listed, now)[j]);
    }
}

proof fn lemma_fresh(source: SourceView, prices: Seq<SnapshotView>, now: u128, at: int) -> (r: int)
    requires
        0 <= at < prices.len(),
        is_at_most(prices[at].as_of, now, source.max_age),
    ensures
        0 <= r < fresh_quotes(source, prices, now).len(),
        is_quote_of(fresh_quotes(source, prices, now)[r], source, prices[at]),
    decreases prices.len(),
{
    let rest = fresh_quotes(source, prices.drop_last(), now);
    if at < prices.len() - 1 {
        lemma_fresh(source, prices.drop_last(), now, at)
    } else {
        rest.len() as int
    }
}

/// Every price that is handed on is one that a source has reported, and not too old.
pub proof fn law_only_fresh_prices_are_used(sources: Seq<SourceView>, now: u128, at: int)
    requires
        0 <= at < latest_quotes(sources, now).len(),
        forall|i: int| 0 <= i < sources.len() ==> (#[trigger] sources[i]).prices.dom().finite(),
    ensures
        exists|source: int, token: Seq<char>|
            #![trigger sources[source].prices[token]]
            {
                &&& 0 <= source < sources.len()
                &&& sources[source].prices.contains_key(token)
                &&& is_at_most(sources[source].prices[token].as_of, now, sources[source].max_age)
                &&& is_quote_of(latest_quotes(sources, now)[at], sources[source], sources[source].prices[token])
            },
    decreases sources.len(),
{
    let front = sources.drop_last();
    let last = sources[sources.len() - 1];
    let earlier = latest_quotes(front, now);
    let all = latest_quotes(sources, now);
    if at < earlier.len() {
        assert forall|i: int| 0 <= i < front.len() implies (#[trigger] front[i]).prices.dom().finite() by {
            assert(front[i] == sources[i]);
        }
        law_only_fresh_prices_are_used(front, now, at);
        let (source, token) = choose|source: int, token: Seq<char>|
            #![trigger front[source].prices[token]]
            {
                &&& 0 <= source < front.len()
                &&& front[source].prices.contains_key(token)
                &&& is_at_most(front[source].prices[token].as_of, now, front[source].max_age)
                &&& is_quote_of(earlier[at], front[source], front[source].prices[token])
            };
        assert(sources[source].prices[token] == front[source].prices[token]);
        assert(all[at] == earlier[at]);
    } else {
        let (names, listed) = lemma_listing_exists(last.prices);
        let k = at - earlier.len();
        law_old_prices_are_not_used(last, listed, now, k);
        let quote = fresh_quotes(last, listed, now)[k];
        let i = lemma_fresh_is_listed(last, listed, now, k);
        assert(last.prices[names[i]] == listed[i]);
        assert(names.contains(names[i]));
        assert(all[at] == quote);
        assert(sources[sources.len() - 1].prices[names[i]] == listed[i]);
    }
}

proof fn lemma_fresh_is_listed(source: SourceView, prices: Seq<SnapshotView>, now: u128, at: int) -> (r: int)
    requires
        0 <= at < fresh_quotes(source, prices, now).len(),
    ensures
        0 <= r < prices.len(),
        is_at_most(prices[r].as_of, now, source.max_age),
        is_quote_of(fresh_quotes(source, prices, now)[at], source, prices[r]),
    decreases prices.len(),
{
    let rest = fresh_quotes(source, prices.drop_last(), now);
    if at < rest.len() {
        lemma_fresh_is_listed(source, prices.drop_last(), now, at)
    } else {
        prices.len() - 1
    }
}

/// A source is healthy if, and only if, each of its tokens has had an update, less than the longest time ago that it may
/// go without one.
pub proof fn law_sources_are_healthy_while_updated(source: SourceView, now: u128)
    requires
        source.last_updated.dom().finite(),
        source.max_age > 0,
    ensures
        source_health(source, now).origin == OriginView::Source(source.name),
        source_health(source, now).status is Healthy <==> forall|token: Seq<char>| #[trigger]
            source.last_updated.contains_key(token) ==> (source.last_updated[token] matches Some(updated) && now < updated
                + source.max_age),
{
    let late = late_tokens(source, now);
    assert(late.dom() =~= source.last_updated.dom().intersect(late.dom()));
    let (names, listed) = lemma_listing_exists(late);
    if source_health(source, now).status is Healthy {
        assert forall|token: Seq<char>| #[trigger] source.last_updated.contains_key(token) implies (
        source.last_updated[token] matches Some(updated) && now < updated + source.max_age) by {
            assert(!names.contains(token));
            assert(!late.contains_key(token));
        }
    } else {
        assert(names.contains(names[0]));
        assert(late.contains_key(names[0]));
        assert(source.last_updated.contains_key(names[0]));
    }
}

/// A price counts if, and only if, neither it nor its weight is zero.
pub proof fn law_prices_of_something_count(price: SnapshotView)
    ensures
        counts(price) <==> price.info.value.value() != 0real && price.info.reliability.value() != 0real,
{
    crate::decimal::lemma_ten_to(0, price.info.value.scale);
    crate::decimal::lemma_ten_to(0, price.info.reliability.scale);
    crate::numbers::lemma_fraction_sign(
        price.info.value.mantissa,
        crate::decimal::ten_to(price.info.value.scale) as int,
    );
    crate::numbers::lemma_fraction_sign(
        price.info.reliability.mantissa,
        crate::decimal::ten_to(price.info.reliability.scale) as int,
    );
}

/// The latest prices of sources have every price that a source has reported and that is not too old.
pub proof fn law_latest_prices_have_every_fresh_price(
    sources: &Vec<SourceAdapter>,
    now: u128,
    found: Vec<(String, PriceInfo)>,
    source: int,
    token: Seq<char>,
)
    requires
        call_ensures(latest_source_prices, (sources, now), found),
        0 <= source < sources@.len(),
        sources@[source]@.prices.dom().finite(),
        sources@[source]@.prices.contains_key(token),
        is_at_most(sources@[source]@.prices[token].as_of, now, sources@[source]@.max_age),
    ensures
        exists|i: int|
            0 <= i < found@.len() && (#[trigger] found@[i]).1@ == sources@[source]@.prices[token].info && is_quote_of(
                QuoteView { source: found@[i].0@, info: found@[i].1@ },
                sources@[source]@,
                sources@[source]@.prices[token],
            ),
{
    let all = source_views(sources@);
    law_every_fresh_price_is_used(all, now, source, token);
    let quotes = latest_quotes(all, now);
    let i = choose|i: int|
        0 <= i < quotes.len() && is_quote_of(#[trigger] quotes[i], all[source], all[source].prices[token]);
    assert(quotes[i] == QuoteView { source: found@[i].0@, info: found@[i].1@ });
    assert(found@[i].1@ == sources@[source]@.prices[token].info);
}

/// A price that counts takes the place of the last one of its token, which is then as new as it is; nothing changes for other
/// tokens. A price that does not count changes nothing.
pub proof fn law_last_price_of_a_token_is_kept(source: SourceView, price: SnapshotView, other: Seq<char>)
    ensures
        ({
            let after = source.with_price(price);
            let token = price.info.token;
            &&& after.name == source.name && after.max_age == source.max_age
            &&& price.info.value.value() != 0real && price.info.reliability.value() != 0real ==> after.prices.contains_pair(
                token,
                price,
            ) && after.last_updated.contains_pair(token, Some(price.as_of))
            &&& other != token ==> (after.prices.contains_key(other) <==> source.prices.contains_key(other))
                && after.prices[other] == source.prices[other] && (after.last_updated.contains_key(other)
                <==> source.last_updated.contains_key(other)) && after.last_updated[other] == source.last_updated[other]
            &&& price.info.value.value() == 0real || price.info.reliability.value() == 0real ==> after == source
        }),
{
    law_prices_of_something_count(price);
}

} // verus!
