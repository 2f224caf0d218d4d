//! What holds of the prices that a node is ready to sign.

use vstd::prelude::*;

use crate::price_feed::generic::GenericFeedView;
use crate::price_feed::synthetic::{NamedFeedView, SyntheticFeedView};
use crate::price_feed::{GenericPriceFeed, IntervalBound, SyntheticPriceFeed};
use crate::signature_aggregator::price_comparator::{
    choose_generic_feeds_to_sign, choose_synth_feeds_to_sign, chosen_at, collateral_close, feeds, has_feed, is_close,
    is_last_feed, lemma_collateral_verdict, own_verdict, signable, ComparisonResult, Feed,
};

verus! {

/// Two prices differ by no more than a hundredth of the higher.
pub open spec fn within_a_hundredth(a: real, b: real) -> bool {
    a - b <= a / 100real && b - a <= b / 100real
}

/// Two ends of an interval fit together: both are moments, no more than 61 seconds apart, or they are the same.
pub open spec fn within_61_seconds(a: IntervalBound, b: IntervalBound) -> bool {
    if a.bound_type is Finite && b.bound_type is Finite {
        a.bound_type->Finite_0 <= b.bound_type->Finite_0 + 61_000 && b.bound_type->Finite_0 <= a.bound_type->Finite_0
            + 61_000
    } else {
        a == b
    }
}

/// The leader's price of something is signed if, and only if, it goes by the same name as ours, was made no more than a
/// minute before or after it, and differs from it by no more than a hundredth of the higher.
pub proof fn law_near_prices_are_signed(leader: GenericFeedView, mine: GenericFeedView)
    ensures
        <GenericPriceFeed as Feed>::verdict(leader, mine) is Sign <==> {
            &&& leader.name == mine.name
            &&& leader.timestamp <= mine.timestamp + 60_000
            &&& mine.timestamp <= leader.timestamp + 60_000
            &&& within_a_hundredth(leader.price as real, mine.price as real)
        },
{
    let a = leader.price;
    let b = mine.price;
    assert(is_close(a, b) <==> within_a_hundredth(a as real, b as real));
}

proof fn lemma_collateral_close(leader: SyntheticFeedView, mine: SyntheticFeedView, at: int)
    requires
        leader.denominator > 0,
        mine.denominator > 0,
    ensures
        collateral_close(leader, mine, at) <==> within_a_hundredth(
            (leader.collateral_prices[at] as real) / (leader.denominator as real),
            (mine.collateral_prices[at] as real) / (mine.denominator as real),
        ),
{
    let a = leader.collateral_prices[at];
    let b = mine.collateral_prices[at];
    let d = leader.denominator;
    let e = mine.denominator;
    let x = (a * e) as real;
    let y = (b * d) as real;
    assert((a * e) as real == (a as real) * (e as real) && (b * d) as real == (b as real) * (d as real))
        by (nonlinear_arith);
    let p = (a as real) / (d as real);
    let q = (b as real) / (e as real);
    let common = (d as real) * (e as real);
    lemma_over_common(a as real, d as real, b as real, e as real, p, q, common);
    assert(is_close(a * e, b * d) <==> x - y <= x / 100real && y - x <= y / 100real);
    assert(x == p * common && y == q * common);
    assert((x - y <= x / 100real <==> p - q <= p / 100real) && (y - x <= y / 100real <==> q - p <= q / 100real)) by {
        lemma_scaled(p, q, common);
        lemma_scaled(q, p, common);
    }
}

proof fn lemma_over_common(a: real, d: real, b: real, e: real, p: real, q: real, common: real)
    requires
        d > 0real,
        e > 0real,
        p == a / d,
        q == b / e,
        common == d * e,
    ensures
        common > 0real,
        a * e == p * common,
        b * d == q * common,
{
    assert(p * d == a) by (nonlinear_arith)
        requires
            d > 0real,
            p == a / d,
    ;
    assert(q * e == b) by (nonlinear_arith)
        requires
            e > 0real,
            q == b / e,
    ;
    assert(common > 0real && a * e == p * common && b * d == q * common) by (nonlinear_arith)
        requires
            d > 0real,
            e > 0real,
            p * d == a,
            q * e == b,
            common == d * e,
    ;
}

proof fn lemma_scaled(p: real, q: real, by: real)
    requires
        by > 0real,
    ensures
        p * by - q * by <= p * by / 100real <==> p - q <= p / 100real,
{
    let rest = p / 100real - (p - q);
    assert(p * by / 100real - (p * by - q * by) == rest * by) by (nonlinear_arith)
        requires
            rest == p / 100real - (p - q),
    ;
    assert(rest * by >= 0real <==> rest >= 0real) by (nonlinear_arith)
        requires
            by > 0real,
    ;
}

/// The leader's feed of a synthetic is signed if, and only if, it is of the same synthetic as ours, both ends of its
/// validity are no more than 61 seconds from ours, it has as many prices, and each of them, as a fraction of its
/// denominator, differs from ours of the same collateral by no more than a hundredth of the higher.
pub proof fn law_near_collateral_prices_are_signed(leader: NamedFeedView, mine: NamedFeedView)
    requires
        mine.collateral_names matches Some(names) && mine.feed.collateral_prices.len() <= names.len(),
        leader.feed.denominator > 0,
        mine.feed.denominator > 0,
    ensures
        <SyntheticPriceFeed as Feed>::verdict(leader, mine) is Sign <==> {
            &&& leader.feed.synthetic == mine.feed.synthetic
            &&& within_61_seconds(leader.feed.validity.lower_bound, mine.feed.validity.lower_bound)
            &&& within_61_seconds(leader.feed.validity.upper_bound, mine.feed.validity.upper_bound)
            &&& leader.feed.collateral_prices.len() == mine.feed.collateral_prices.len()
            &&& forall|i: int|
                0 <= i < mine.feed.collateral_prices.len() ==> within_a_hundredth(
                    (#[trigger] leader.feed.collateral_prices[i] as real) / (leader.feed.denominator as real),
                    (mine.feed.collateral_prices[i] as real) / (mine.feed.denominator as real),
                )
        },
{
    lemma_collateral_verdict(leader.feed, mine.feed, mine.collateral_names->0, 0);
    assert forall|i: int| #[trigger] collateral_close(leader.feed, mine.feed, i) <==> within_a_hundredth(
        (leader.feed.collateral_prices[i] as real) / (leader.feed.denominator as real),
        (mine.feed.collateral_prices[i] as real) / (mine.feed.denominator as real),
    ) by {
        lemma_collateral_close(leader.feed, mine.feed, i);
    }
    if forall|i: int|
        0 <= i < mine.feed.collateral_prices.len() ==> within_a_hundredth(
            (#[trigger] leader.feed.collateral_prices[i] as real) / (leader.feed.denominator as real),
            (mine.feed.collateral_prices[i] as real) / (mine.feed.denominator as real),
        ) {
        assert forall|i: int| 0 <= i < mine.feed.collateral_prices.len() implies #[trigger] collateral_close(
            leader.feed,
            mine.feed,
            i,
        ) by {
            let price = leader.feed.collateral_prices[i];
        }
    } else {
        let i = choose|i: int|
            0 <= i < mine.feed.collateral_prices.len() && !within_a_hundredth(
                (#[trigger] leader.feed.collateral_prices[i] as real) / (leader.feed.denominator as real),
                (mine.feed.collateral_prices[i] as real) / (mine.feed.denominator as real),
            );
        assert(!collateral_close(leader.feed, mine.feed, i));
    }
}

/// Of the feeds of a name, the leader's last is compared with our last; a feed that only one of us has is not signed.
pub proof fn law_last_feeds_of_a_name_are_compared<T: Feed>(
    leader: Seq<T::Model>,
    mine: Seq<T::Model>,
    name: Seq<char>,
    theirs: int,
    ours: int,
)
    ensures
        0 <= theirs < leader.len() && T::feed_name(leader[theirs]) == name && (forall|j: int|
            theirs < j < leader.len() ==> T::feed_name(#[trigger] leader[j]) != name) && 0 <= ours < mine.len()
            && T::feed_name(mine[ours]) == name && (forall|j: int|
            ours < j < mine.len() ==> T::feed_name(#[trigger] mine[j]) != name) ==> (signable::<T>(
            leader,
            mine,
        ).contains(name) <==> T::verdict(leader[theirs], mine[ours]) is Sign),
        signable::<T>(leader, mine).contains(name) ==> (exists|i: int|
            0 <= i < leader.len() && T::feed_name(#[trigger] leader[i]) == name) && exists|i: int|
            0 <= i < mine.len() && T::feed_name(#[trigger] mine[i]) == name,
{
    if 0 <= theirs < leader.len() && T::feed_name(leader[theirs]) == name && (forall|j: int|
        theirs < j < leader.len() ==> T::feed_name(#[trigger] leader[j]) != name) {
        assert(is_last_feed::<T>(leader, name, theirs));
        let last = choose|at: int| is_last_feed::<T>(leader, name, at);
        assert(last == theirs) by {
            if last < theirs {
                assert(T::feed_name(leader[theirs]) != name);
            } else if theirs < last {
                assert(T::feed_name(leader[last]) != name);
            }
        }
    }
    if 0 <= ours < mine.len() && T::feed_name(mine[ours]) == name && (forall|j: int|
        ours < j < mine.len() ==> T::feed_name(#[trigger] mine[j]) != name) {
        assert(is_last_feed::<T>(mine, name, ours));
        let last = choose|at: int| is_last_feed::<T>(mine, name, at);
        assert(last == ours) by {
            if last < ours {
                assert(T::feed_name(mine[ours]) != name);
            } else if ours < last {
                assert(T::feed_name(mine[last]) != name);
            }
        }
    }
}

/// The verdict on a synthetic that both nodes have, once each: it is signed if, and only if, both ends of its validity are
/// no more than 61 seconds from ours, it has as many prices, and each of them, as a fraction of its denominator, differs
/// from ours of the same collateral by no more than a hundredth of the higher.
pub proof fn law_chosen_synthetics_are_near(
    leader: &[SyntheticPriceFeed],
    mine: &[SyntheticPriceFeed],
    results: Vec<(&str, ComparisonResult)>,
    theirs: int,
    ours: int,
    at: int,
)
    requires
        call_ensures(choose_synth_feeds_to_sign, (leader, mine), results),
        0 <= theirs < leader@.len(),
        0 <= ours < mine@.len(),
        leader@[theirs].synthetic@ == mine@[ours].synthetic@,
        forall|j: int|
            theirs < j < leader@.len() ==> (#[trigger] leader@[j]).synthetic@ != leader@[theirs].synthetic@,
        forall|j: int| ours < j < mine@.len() ==> (#[trigger] mine@[j]).synthetic@ != mine@[ours].synthetic@,
        mine@[ours].collateral_names matches Some(names) && mine@[ours].collateral_prices@.len() <= names@.len(),
        leader@[theirs]@.denominator > 0,
        mine@[ours]@.denominator > 0,
        0 <= at < results@.len(),
        results@[at].0@ == mine@[ours].synthetic@,
    ensures
        results@[at].1@ is Sign <==> {
            let (a, b) = (leader@[theirs]@, mine@[ours]@);
            &&& within_61_seconds(a.validity.lower_bound, b.validity.lower_bound)
            &&& within_61_seconds(a.validity.upper_bound, b.validity.upper_bound)
            &&& a.collateral_prices.len() == b.collateral_prices.len()
            &&& forall|i: int|
                0 <= i < b.collateral_prices.len() ==> within_a_hundredth(
                    (#[trigger] a.collateral_prices[i] as real) / (a.denominator as real),
                    (b.collateral_prices[i] as real) / (b.denominator as real),
                )
        },
{
    let name = mine@[ours].synthetic@;
    let all = feeds(leader@);
    let own = feeds(mine@);
    let split = choose|split: int| #[trigger] chosen_at::<SyntheticPriceFeed>(results@, all, own, split);
    assert(<SyntheticPriceFeed as Feed>::feed_name(own[ours]) == name);
    assert(<SyntheticPriceFeed as Feed>::feed_name(all[theirs]) == name);
    assert(has_feed::<SyntheticPriceFeed>(own, name));
    assert(has_feed::<SyntheticPriceFeed>(all, name));
    let foreign = |name: Seq<char>| has_feed::<SyntheticPriceFeed>(all, name) && !has_feed::<SyntheticPriceFeed>(own, name);
    if at < split {
        assert(foreign(results@[at].0@));
    }
    assert(results@[at].1@ == own_verdict::<SyntheticPriceFeed>(all, own, name));
    assert forall|j: int| theirs < j < all.len() implies <SyntheticPriceFeed as Feed>::feed_name(#[trigger] all[j])
        != name by {
        assert(leader@[j].synthetic@ != leader@[theirs].synthetic@);
    }
    assert forall|j: int| ours < j < own.len() implies <SyntheticPriceFeed as Feed>::feed_name(#[trigger] own[j])
        != name by {
        assert(mine@[j].synthetic@ != mine@[ours].synthetic@);
    }
    law_last_feeds_of_a_name_are_compared::<SyntheticPriceFeed>(all, own, name, theirs, ours);
    assert(signable::<SyntheticPriceFeed>(all, own).contains(name) <==> own_verdict::<SyntheticPriceFeed>(
        all,
        own,
        name,
    ) is Sign);
    assert(mine@[ours].named().collateral_names->0.len() == mine@[ours].collateral_names->0@.len());
    law_near_collateral_prices_are_signed(leader@[theirs].named(), mine@[ours].named());
}

/// The verdict on a price that both nodes have, once each: it is signed if, and only if, it was made no more than a minute
/// before or after ours, and differs from it by no more than a hundredth of the higher.
pub proof fn law_chosen_prices_are_near(
    leader: &[GenericPriceFeed],
    mine: &[GenericPriceFeed],
    results: Vec<(&str, ComparisonResult)>,
    theirs: int,
    ours: int,
    at: int,
)
    requires
        call_ensures(choose_generic_feeds_to_sign, (leader, mine), results),
        0 <= theirs < leader@.len(),
        0 <= ours < mine@.len(),
        leader@[theirs].name@ == mine@[ours].name@,
        forall|j: int| theirs < j < leader@.len() ==> (#[trigger] leader@[j]).name@ != leader@[theirs].name@,
        forall|j: int| ours < j < mine@.len() ==> (#[trigger] mine@[j]).name@ != mine@[ours].name@,
        0 <= at < results@.len(),
        results@[at].0@ == mine@[ours].name@,
    ensures
        results@[at].1@ is Sign <==> {
            &&& leader@[theirs].timestamp <= mine@[ours].timestamp + 60_000
            &&& mine@[ours].timestamp <= leader@[theirs].timestamp + 60_000
            &&& within_a_hundredth(leader@[theirs].price@ as real, mine@[ours].price@ as real)
        },
{
    let name = mine@[ours].name@;
    let all = feeds(leader@);
    let own = feeds(mine@);
    let split = choose|split: int| #[trigger] chosen_at::<GenericPriceFeed>(results@, all, own, split);
    assert(<GenericPriceFeed as Feed>::feed_name(own[ours]) == name);
    assert(<GenericPriceFeed as Feed>::feed_name(all[theirs]) == name);
    assert(has_feed::<GenericPriceFeed>(own, name));
    assert(has_feed::<GenericPriceFeed>(all, name));
    let foreign = |name: Seq<char>| has_feed::<GenericPriceFeed>(all, name) && !has_feed::<GenericPriceFeed>(own, name);
    if at < split {
        assert(foreign(results@[at].0@));
    }
    assert(results@[at].1@ == own_verdict::<GenericPriceFeed>(all, own, name));
    assert forall|j: int| theirs < j < all.len() implies <GenericPriceFeed as Feed>::feed_name(#[trigger] all[j])
        != name by {
        assert(leader@[j].name@ != leader@[theirs].name@);
    }
    assert forall|j: int| ours < j < own.len() implies <GenericPriceFeed as Feed>::feed_name(#[trigger] own[j])
        != name by {
        assert(mine@[j].name@ != mine@[ours].name@);
    }
    law_last_feeds_of_a_name_are_compared::<GenericPriceFeed>(all, own, name, theirs, ours);
    assert(signable::<GenericPriceFeed>(all, own).contains(name) <==> own_verdict::<GenericPriceFeed>(all, own, name)
        is Sign);
    law_near_prices_are_signed(leader@[theirs]@, mine@[ours]@);
}

/// Every feed that either node has gets a verdict, and one that only one of them has is not signed.
pub proof fn law_every_feed_gets_a_verdict(
    leader: &[GenericPriceFeed],
    mine: &[GenericPriceFeed],
    results: Vec<(&str, ComparisonResult)>,
    name: Seq<char>,
)
    requires
        call_ensures(choose_generic_feeds_to_sign, (leader, mine), results),
    ensures
        ({
            let is_theirs = exists|j: int| 0 <= j < leader@.len() && (#[trigger] leader@[j]).name@ == name;
            let is_ours = exists|j: int| 0 <= j < mine@.len() && (#[trigger] mine@[j]).name@ == name;
            &&& is_theirs || is_ours ==> exists|i: int| 0 <= i < results@.len() && (#[trigger] results@[i]).0@ == name
            &&& forall|i: int|
                0 <= i < results@.len() && (#[trigger] results@[i]).0@ == name && results@[i].1@ is Sign ==> is_theirs
                    && is_ours
        }),
{
    let all = feeds(leader@);
    let own = feeds(mine@);
    let split = choose|split: int| #[trigger] chosen_at::<GenericPriceFeed>(results@, all, own, split);
    let foreign = |name: Seq<char>| has_feed::<GenericPriceFeed>(all, name) && !has_feed::<GenericPriceFeed>(own, name);
    let owned = |name: Seq<char>| has_feed::<GenericPriceFeed>(own, name);
    assert(has_feed::<GenericPriceFeed>(all, name) <==> exists|j: int|
        0 <= j < leader@.len() && (#[trigger] leader@[j]).name@ == name) by {
        assert forall|j: int| 0 <= j < leader@.len() implies <GenericPriceFeed as Feed>::feed_name(#[trigger] all[j])
            == leader@[j].name@ by {}
        if exists|j: int| 0 <= j < leader@.len() && (#[trigger] leader@[j]).name@ == name {
            let j = choose|j: int| 0 <= j < leader@.len() && (#[trigger] leader@[j]).name@ == name;
            assert(<GenericPriceFeed as Feed>::feed_name(all[j]) == name);
        }
    }
    assert(has_feed::<GenericPriceFeed>(own, name) <==> exists|j: int|
        0 <= j < mine@.len() && (#[trigger] mine@[j]).name@ == name) by {
        assert forall|j: int| 0 <= j < mine@.len() implies <GenericPriceFeed as Feed>::feed_name(#[trigger] own[j])
            == mine@[j].name@ by {}
        if exists|j: int| 0 <= j < mine@.len() && (#[trigger] mine@[j]).name@ == name {
            let j = choose|j: int| 0 <= j < mine@.len() && (#[trigger] mine@[j]).name@ == name;
            assert(<GenericPriceFeed as Feed>::feed_name(own[j]) == name);
        }
    }
    if has_feed::<GenericPriceFeed>(own, name) {
        assert(owned(name));
    } else if has_feed::<GenericPriceFeed>(all, name) {
        assert(foreign(name));
    }
    assert forall|i: int|
        0 <= i < results@.len() && (#[trigger] results@[i]).0@ == name && results@[i].1@ is Sign implies has_feed::<
        GenericPriceFeed,
    >(all, name) && has_feed::<GenericPriceFeed>(own, name) by {
        if i < split {
            assert(foreign(results@[i].0@));
        } else {
            assert(owned(results@[i].0@));
        }
    }
}

} // verus!
