//! Which of the leader's prices a node is ready to sign.

use vstd::prelude::*;

use crate::names::{ascending, has_name, index_by_name, is_last, keys_of, lemma_entry, position, precedes, Named};
use crate::numbers::{decimal_digits, u64_to_text, Natural};
use crate::price_feed::generic::GenericFeedView;
use crate::price_feed::synthetic::{texts, NamedFeedView, SyntheticFeedView};
use crate::price_feed::{GenericPriceFeed, IntervalBound, IntervalBoundType, SyntheticPriceFeed, Validity};

pub mod laws;

verus! {

/// Whether to sign a feed, and if not, why.
#[derive(Debug, PartialEq, Eq)]
pub enum ComparisonResult {
    Sign,
    DoNotSign(String),
}

/// Whether to sign a feed, and if not, why.
pub enum Verdict {
    Sign,
    DoNotSign(Seq<char>),
}

impl View for ComparisonResult {
    type V = Verdict;

    open spec fn view(&self) -> Verdict {
        match self {
            ComparisonResult::Sign => Verdict::Sign,
            ComparisonResult::DoNotSign(reason) => Verdict::DoNotSign(reason@),
        }
    }
}

/// How a difference between the leader's value and ours is put into words.
pub open spec fn difference(what: Seq<char>, leader: Seq<char>, mine: Seq<char>) -> Seq<char> {
    what + ": leader has "@ + leader + ", we have "@ + mine
}

fn do_not_sign(what: &str, leader: &str, mine: &str) -> (r: ComparisonResult)
    ensures
        r@ == Verdict::DoNotSign(difference(what@, leader@, mine@)),
{
    let mut reason = what.to_owned();
    reason.append(": leader has ");
    reason.append(leader);
    reason.append(", we have ");
    reason.append(mine);
    ComparisonResult::DoNotSign(reason)
}

/// Two values differ by at most one percent of the larger.
pub open spec fn is_close(a: nat, b: nat) -> bool {
    if a <= b {
        (b - a) * 100 <= b
    } else {
        (a - b) * 100 <= a
    }
}

/// Closeness does not depend on who compares.
pub proof fn law_closeness_is_symmetric(a: nat, b: nat)
    ensures
        is_close(a, b) == is_close(b, a),
        is_close(a, a),
{
}

fn close(a: &Natural, b: &Natural) -> (r: bool)
    ensures
        r == is_close(a@, b@),
{
    let (larger, smaller) = if a.less(b) { (b, a) } else { (a, b) };
    let difference = larger.minus(smaller);
    !larger.less(&difference.times(&Natural::from_u64(100)))
}

/// Two ends of an interval are at most sixty-one seconds apart, or the same.
pub open spec fn bounds_close(leader: IntervalBound, mine: IntervalBound) -> bool {
    match (leader.bound_type, mine.bound_type) {
        (IntervalBoundType::Finite(a), IntervalBoundType::Finite(b)) => -61_000 <= a - b <= 61_000,
        _ => leader == mine,
    }
}

pub fn are_bounds_close_enough(leader_bound: &IntervalBound, my_bound: &IntervalBound) -> (r: bool)
    ensures
        r == bounds_close(*leader_bound, *my_bound),
{
    if let IntervalBoundType::Finite(leader_moment) = leader_bound.bound_type {
        if let IntervalBoundType::Finite(my_moment) = my_bound.bound_type {
            // allow up to 61 seconds difference between bounds
            return if leader_moment < my_moment {
                my_moment - leader_moment <= 61_000
            } else {
                leader_moment - my_moment <= 61_000
            };
        }
    }
    *leader_bound == *my_bound
}

fn is_validity_close_enough(leader_validity: &Validity, my_validity: &Validity) -> (r: bool)
    ensures
        r == validity_close(*leader_validity, *my_validity),
{
    are_bounds_close_enough(&leader_validity.lower_bound, &my_validity.lower_bound) && are_bounds_close_enough(
        &leader_validity.upper_bound,
        &my_validity.upper_bound,
    )
}

/// Both ends of two intervals are close.
pub open spec fn validity_close(leader: Validity, mine: Validity) -> bool {
    bounds_close(leader.lower_bound, mine.lower_bound) && bounds_close(leader.upper_bound, mine.upper_bound)
}

/// An end of an interval in words.
pub open spec fn bound_text(bound: IntervalBound) -> Seq<char> {
    "IntervalBound { bound_type: "@ + (match bound.bound_type {
        IntervalBoundType::NegativeInfinity => "NegativeInfinity"@,
        IntervalBoundType::Finite(moment) => "Finite("@ + decimal_digits(moment as nat) + ")"@,
        IntervalBoundType::PositiveInfinity => "PositiveInfinity"@,
    }) + ", is_inclusive: "@ + (if bound.is_inclusive {
        "true"@
    } else {
        "false"@
    }) + " }"@
}

/// An interval in words.
pub open spec fn validity_text(validity: Validity) -> Seq<char> {
    "Validity { lower_bound: "@ + bound_text(validity.lower_bound) + ", upper_bound: "@ + bound_text(
        validity.upper_bound,
    ) + " }"@
}

fn describe_bound(bound: &IntervalBound) -> (r: String)
    ensures
        r@ == bound_text(*bound),
{
    let mut kind = String::new();
    match bound.bound_type {
        IntervalBoundType::NegativeInfinity => {
            kind.append("NegativeInfinity");
        },
        IntervalBoundType::Finite(moment) => {
            kind.append("Finite(");
            kind.append(u64_to_text(moment).as_str());
            kind.append(")");
        },
        IntervalBoundType::PositiveInfinity => {
            kind.append("PositiveInfinity");
        },
    }
    let mut text = "IntervalBound { bound_type: ".to_owned();
    text.append(kind.as_str());
    text.append(", is_inclusive: ");
    text.append(if bound.is_inclusive { "true" } else { "false" });
    text.append(" }");
    assert(text@ =~= bound_text(*bound));
    text
}

fn describe_validity(validity: &Validity) -> (r: String)
    ensures
        r@ == validity_text(*validity),
{
    let mut text = "Validity { lower_bound: ".to_owned();
    text.append(describe_bound(&validity.lower_bound).as_str());
    text.append(", upper_bound: ");
    text.append(describe_bound(&validity.upper_bound).as_str());
    text.append(" }");
    text
}

/// A feed that can be compared with the leader's feed of the same name.
pub trait Feed: Named {
    /// What there is to a feed.
    type Model;

    spec fn feed(&self) -> Self::Model;

    /// The feed's name.
    spec fn feed_name(feed: Self::Model) -> Seq<char>;

    /// Whether this may be compared as our own feed.
    spec fn is_own(feed: Self::Model) -> bool;

    /// Whether to sign the leader's feed, given ours.
    spec fn verdict(leader: Self::Model, mine: Self::Model) -> Verdict;

    proof fn lemma_feed_name(&self)
        ensures
            Self::feed_name(self.feed()) == self.name(),
    ;

    /// Whether to sign the leader's feed, given ours.
    fn should_sign(leader_feed: &Self, my_feed: &Self) -> (r: ComparisonResult)
        requires
            Self::is_own(my_feed.feed()),
        ensures
            r@ == Self::verdict(leader_feed.feed(), my_feed.feed()),
    ;
}

impl Feed for GenericPriceFeed {
    type Model = GenericFeedView;

    open spec fn feed(&self) -> GenericFeedView {
        self@
    }

    open spec fn feed_name(feed: GenericFeedView) -> Seq<char> {
        feed.name
    }

    open spec fn is_own(feed: GenericFeedView) -> bool {
        true
    }

    proof fn lemma_feed_name(&self) {
    }

    /// The names are the same, the timestamps at most a minute apart and the prices close.
    open spec fn verdict(leader: GenericFeedView, mine: GenericFeedView) -> Verdict {
        if leader.name != mine.name {
            Verdict::DoNotSign(difference("mismatched feeds"@, leader.name, mine.name))
        } else if !(-60_000 <= leader.timestamp - mine.timestamp <= 60_000) {
            Verdict::DoNotSign(
                difference(
                    "mismatched timestamps"@,
                    decimal_digits(leader.timestamp as nat),
                    decimal_digits(mine.timestamp as nat),
                ),
            )
        } else if !is_close(leader.price, mine.price) {
            Verdict::DoNotSign(
                difference(
                    "prices ("@ + leader.name + ") are too distant"@,
                    decimal_digits(leader.price),
                    decimal_digits(mine.price),
                ),
            )
        } else {
            Verdict::Sign
        }
    }

    fn should_sign(leader_feed: &Self, my_feed: &Self) -> (r: ComparisonResult) {
        should_sign_generic_feed(leader_feed, my_feed)
    }
}

fn should_sign_generic_feed(leader_feed: &GenericPriceFeed, my_feed: &GenericPriceFeed) -> (r: ComparisonResult)
    ensures
        r@ == GenericPriceFeed::verdict(leader_feed@, my_feed@),
{
    if leader_feed.name != my_feed.name {
        return do_not_sign("mismatched feeds", leader_feed.name.as_str(), my_feed.name.as_str());
    }
    // let timestamps drift up to 60 seconds
    let drift: u64 = if leader_feed.timestamp < my_feed.timestamp {
        my_feed.timestamp - leader_feed.timestamp
    } else {
        leader_feed.timestamp - my_feed.timestamp
    };
    if drift > 60_000 {
        return do_not_sign(
            "mismatched timestamps",
            u64_to_text(leader_feed.timestamp).as_str(),
            u64_to_text(my_feed.timestamp).as_str(),
        );
    }
    if !close(&leader_feed.price, &my_feed.price) {
        let mut what = "prices (".to_owned();
        what.append(leader_feed.name.as_str());
        what.append(") are too distant");
        return do_not_sign(
            what.as_str(),
            leader_feed.price.to_text().as_str(),
            my_feed.price.to_text().as_str(),
        );
    }
    ComparisonResult::Sign
}

/// The collateral prices at one place are close, as fractions of their feeds' denominators.
pub open spec fn collateral_close(leader: SyntheticFeedView, mine: SyntheticFeedView, at: int) -> bool {
    is_close(leader.collateral_prices[at] * mine.denominator, mine.collateral_prices[at] * leader.denominator)
}

/// What is said of the first of the collaterals from `at` on whose prices are not close.
pub open spec fn collateral_verdict(
    leader: SyntheticFeedView,
    mine: SyntheticFeedView,
    names: Seq<Seq<char>>,
    at: int,
) -> Verdict
    decreases names.len() - at,
{
    if at >= names.len() || at >= mine.collateral_prices.len() {
        Verdict::Sign
    } else if collateral_close(leader, mine, at) {
        collateral_verdict(leader, mine, names, at + 1)
    } else {
        Verdict::DoNotSign(
            difference(
                "collateral prices ("@ + leader.synthetic + " per "@ + names[at] + ") are too distant"@,
                decimal_digits(leader.collateral_prices[at]) + "/"@ + decimal_digits(leader.denominator),
                decimal_digits(mine.collateral_prices[at]) + "/"@ + decimal_digits(mine.denominator),
            ),
        )
    }
}

impl Feed for SyntheticPriceFeed {
    type Model = NamedFeedView;

    open spec fn feed(&self) -> NamedFeedView {
        self.named()
    }

    open spec fn feed_name(feed: NamedFeedView) -> Seq<char> {
        feed.feed.synthetic
    }

    /// Our own feeds always name their collateral.
    open spec fn is_own(feed: NamedFeedView) -> bool {
        feed.collateral_names is Some
    }

    proof fn lemma_feed_name(&self) {
    }

    /// The synthetics are the same, the validities close, and so is each of the same number of
    /// collateral prices.
    open spec fn verdict(leader: NamedFeedView, mine: NamedFeedView) -> Verdict {
        let names = mine.collateral_names->0;
        let leader = leader.feed;
        let mine = mine.feed;
        if leader.synthetic != mine.synthetic {
            Verdict::DoNotSign(difference("mismatched synthetics"@, leader.synthetic, mine.synthetic))
        } else if !validity_close(leader.validity, mine.validity) {
            Verdict::DoNotSign(
                difference("mismatched validity"@, validity_text(leader.validity), validity_text(mine.validity)),
            )
        } else if leader.collateral_prices.len() != mine.collateral_prices.len() {
            Verdict::DoNotSign(
                difference(
                    "wrong number of collateral prices"@,
                    decimal_digits(leader.collateral_prices.len()),
                    decimal_digits(mine.collateral_prices.len()),
                ),
            )
        } else {
            collateral_verdict(leader, mine, names, 0)
        }
    }

    fn should_sign(leader_feed: &Self, my_feed: &Self) -> (r: ComparisonResult) {
        should_sign_synth_feed(leader_feed, my_feed)
    }
}

fn fraction_text(numerator: &Natural, denominator: &Natural) -> (r: String)
    ensures
        r@ == decimal_digits(numerator@) + "/"@ + decimal_digits(denominator@),
{
    let mut text = numerator.to_text();
    text.append("/");
    text.append(denominator.to_text().as_str());
    text
}

pub fn should_sign_synth_feed(leader_feed: &SyntheticPriceFeed, my_feed: &SyntheticPriceFeed) -> (r: ComparisonResult)
    requires
        my_feed.collateral_names is Some,
    ensures
        r@ == SyntheticPriceFeed::verdict(leader_feed.named(), my_feed.named()),
{
    if leader_feed.synthetic != my_feed.synthetic {
        return do_not_sign("mismatched synthetics", leader_feed.synthetic.as_str(), my_feed.synthetic.as_str());
    }
    if !is_validity_close_enough(&leader_feed.validity, &my_feed.validity) {
        return do_not_sign(
            "mismatched validity",
            describe_validity(&leader_feed.validity).as_str(),
            describe_validity(&my_feed.validity).as_str(),
        );
    }
    if leader_feed.collateral_prices.len() != my_feed.collateral_prices.len() {
        return do_not_sign(
            "wrong number of collateral prices",
            u64_to_text(leader_feed.collateral_prices.len() as u64).as_str(),
            u64_to_text(my_feed.collateral_prices.len() as u64).as_str(),
        );
    }
    let names = match &my_feed.collateral_names {
        Some(names) => names,
        None => return ComparisonResult::Sign,
    };
    // If one price is >1% less than the other, they're too distant to trust
    let mut i: usize = 0;
    while i < names.len() && i < my_feed.collateral_prices.len()
        invariant
            i <= names.len(),
            i <= my_feed.collateral_prices.len(),
            leader_feed.collateral_prices.len() == my_feed.collateral_prices.len(),
            collateral_verdict(leader_feed@, my_feed@, texts(names@), 0) == collateral_verdict(
                leader_feed@,
                my_feed@,
                texts(names@),
                i as int,
            ),
            collateral_verdict(leader_feed@, my_feed@, texts(names@), 0) == SyntheticPriceFeed::verdict(
                leader_feed.named(),
                my_feed.named(),
            ),
        decreases names.len() - i,
    {
        let leader_value = leader_feed.collateral_prices[i].times(&my_feed.denominator);
        let my_value = my_feed.collateral_prices[i].times(&leader_feed.denominator);
        if !close(&leader_value, &my_value) {
            let mut what = "collateral prices (".to_owned();
            what.append(leader_feed.synthetic.as_str());
            what.append(" per ");
            what.append(names[i].as_str());
            what.append(") are too distant");
            return do_not_sign(
                what.as_str(),
                fraction_text(&leader_feed.collateral_prices[i], &leader_feed.denominator).as_str(),
                fraction_text(&my_feed.collateral_prices[i], &my_feed.denominator).as_str(),
            );
        }
        i += 1;
    }
    ComparisonResult::Sign
}

/// What is said of a feed that only the leader has.
pub open spec fn only_leader() -> Verdict {
    Verdict::DoNotSign("the leader had a price for this feed, but we did not"@)
}

/// What there is to these feeds.
pub open spec fn feeds<T: Feed>(feeds: Seq<T>) -> Seq<T::Model> {
    Seq::new(feeds.len(), |i: int| feeds[i].feed())
}

/// One of the feeds has this name.
pub open spec fn has_feed<T: Feed>(feeds: Seq<T::Model>, name: Seq<char>) -> bool {
    exists|at: int| 0 <= at < feeds.len() && T::feed_name(#[trigger] feeds[at]) == name
}

/// The last place at which a feed of this name stands.
pub open spec fn is_last_feed<T: Feed>(feeds: Seq<T::Model>, name: Seq<char>, at: int) -> bool {
    &&& 0 <= at < feeds.len()
    &&& T::feed_name(feeds[at]) == name
    &&& forall|j: int| at < j < feeds.len() ==> T::feed_name(#[trigger] feeds[j]) != name
}

/// The feed of this name; of several, the last one counts.
pub open spec fn last_feed<T: Feed>(feeds: Seq<T::Model>, name: Seq<char>) -> T::Model {
    feeds[choose|at: int| is_last_feed::<T>(feeds, name, at)]
}

/// What is said of one of our feeds.
pub open spec fn own_verdict<T: Feed>(leader: Seq<T::Model>, mine: Seq<T::Model>, name: Seq<char>) -> Verdict {
    if has_feed::<T>(leader, name) {
        T::verdict(last_feed::<T>(leader, name), last_feed::<T>(mine, name))
    } else {
        Verdict::DoNotSign("the leader did not have a price for this feed"@)
    }
}

/// The names of the feeds that we would sign.
pub open spec fn signable<T: Feed>(leader: Seq<T::Model>, mine: Seq<T::Model>) -> Set<Seq<char>> {
    Set::new(|name: Seq<char>| has_feed::<T>(mine, name) && own_verdict::<T>(leader, mine, name) is Sign)
}

proof fn lemma_last_feed<T: Feed>(values: Seq<T>, name: Seq<char>, at: int)
    requires
        is_last(values, name, at),
    ensures
        last_feed::<T>(feeds(values), name) == values[at].feed(),
{
    let models = feeds(values);
    assert forall|j: int| 0 <= j < values.len() implies T::feed_name(#[trigger] models[j]) == values[j].name() by {
        values[j].lemma_feed_name();
    }
    assert(is_last_feed::<T>(models, name, at));
    let other = choose|at: int| is_last_feed::<T>(models, name, at);
    if other < at {
        assert(T::feed_name(models[at]) != name);
    } else if at < other {
        assert(T::feed_name(models[other]) != name);
    }
}

proof fn lemma_has_feed<T: Feed>(values: Seq<T>)
    ensures
        forall|name: Seq<char>| #[trigger] has_feed::<T>(feeds(values), name) <==> has_name(values, name),
{
    let models = feeds(values);
    assert forall|j: int| 0 <= j < values.len() implies T::feed_name(#[trigger] models[j]) == values[j].name() by {
        values[j].lemma_feed_name();
    }
    assert forall|name: Seq<char>| #[trigger] has_feed::<T>(models, name) implies has_name(values, name) by {
        let at = choose|at: int| 0 <= at < models.len() && T::feed_name(#[trigger] models[at]) == name;
        assert(values[at].name() == name);
    }
    assert forall|name: Seq<char>| has_name(values, name) implies #[trigger] has_feed::<T>(models, name) by {
        let at = position(values, name);
        assert(T::feed_name(models[at]) == name);
    }
}

/// The results in alphabetical order: first the feeds that only the leader has, then all of ours.
pub open spec fn chosen<T: Feed>(
    results: Seq<(&str, ComparisonResult)>,
    leader: Seq<T::Model>,
    mine: Seq<T::Model>,
) -> bool {
    exists|split: int| #[trigger] chosen_at::<T>(results, leader, mine, split)
}

/// The results, of which the first `split` are of feeds that only the leader has.
pub open spec fn chosen_at<T: Feed>(
    results: Seq<(&str, ComparisonResult)>,
    leader: Seq<T::Model>,
    mine: Seq<T::Model>,
    split: int,
) -> bool {
    let foreign = |name: Seq<char>| has_feed::<T>(leader, name) && !has_feed::<T>(mine, name);
    let own = |name: Seq<char>| has_feed::<T>(mine, name);
    &&& 0 <= split <= results.len()
    &&& lists(results, 0, split, foreign)
    &&& lists(results, split, results.len() as int, own)
    &&& forall|i: int| 0 <= i < split ==> (#[trigger] results[i]).1@ == only_leader()
    &&& forall|i: int|
        split <= i < results.len() ==> (#[trigger] results[i]).1@ == own_verdict::<T>(leader, mine, results[i].0@)
}

/// From `from` up to `to` the results are of exactly the names in question, in alphabetical order.
pub open spec fn lists(
    results: Seq<(&str, ComparisonResult)>,
    from: int,
    to: int,
    wanted: spec_fn(Seq<char>) -> bool,
) -> bool {
    &&& forall|i: int, j: int| from <= i < j < to ==> precedes(#[trigger] results[i].0@, #[trigger] results[j].0@)
    &&& forall|i: int| from <= i < to ==> wanted((#[trigger] results[i]).0@)
    &&& forall|name: Seq<char>| #[trigger] wanted(name) ==> exists|i: int| from <= i < to && (#[trigger] results[i]).0@ == name
}

pub fn choose_feeds_to_sign<'a, T: Feed>(leader_feed: &'a [T], my_feed: &'a [T]) -> (r: Vec<
    (&'a str, ComparisonResult),
>)
    requires
        forall|i: int| 0 <= i < my_feed@.len() ==> T::is_own((#[trigger] my_feed@[i]).feed()),
    ensures
        chosen::<T>(r@, feeds(leader_feed@), feeds(my_feed@)),
{
    let leader_values = index_by_name(leader_feed);
    let my_values = index_by_name(my_feed);
    let leader_entries = leader_values.entries();
    let my_entries = my_values.entries();
    let ghost leader_keys = keys_of(leader_entries@);
    let ghost my_keys = keys_of(my_entries@);
    let ghost foreign = |name: Seq<char>| has_feed::<T>(feeds(leader_feed@), name) && !has_feed::<T>(feeds(my_feed@), name);
    let ghost own = |name: Seq<char>| has_feed::<T>(feeds(my_feed@), name);
    proof {
        lemma_has_feed(leader_feed@);
        lemma_has_feed(my_feed@);
    }
    let mut results: Vec<(&'a str, ComparisonResult)> = Vec::new();
    let mut i: usize = 0;
    while i < leader_entries.len()
        invariant
            i <= leader_entries.len(),
            leader_entries@ == leader_values.listed(),
            my_entries@ == my_values.listed(),
            leader_keys == keys_of(leader_entries@),
            my_keys == keys_of(my_entries@),
            ascending(leader_keys),
            ascending(my_keys),
            forall|name: Seq<char>| #[trigger] leader_values@.contains_key(name) <==> has_name(leader_feed@, name),
            forall|name: Seq<char>| #[trigger]
                leader_values@.contains_key(name) ==> is_last(leader_feed@, name, leader_values@[name] as int),
            forall|name: Seq<char>| #[trigger] my_values@.contains_key(name) <==> has_name(my_feed@, name),
            forall|name: Seq<char>| #[trigger] foreign(name) <==> has_name(leader_feed@, name) && !has_name(my_feed@, name),
            forall|j: int, k: int|
                0 <= j < k < results@.len() ==> precedes(#[trigger] results@[j].0@, #[trigger] results@[k].0@),
            forall|j: int, k: int|
                0 <= j < results@.len() && i <= k < leader_entries@.len() ==> precedes(
                    #[trigger] results@[j].0@,
                    (#[trigger] leader_keys[k])@,
                ),
            forall|j: int|
                0 <= j < results@.len() ==> foreign((#[trigger] results@[j]).0@) && results@[j].1@ == only_leader(),
            forall|k: int|
                0 <= k < i && foreign((#[trigger] leader_keys[k])@) ==> exists|j: int|
                    0 <= j < results@.len() && (#[trigger] results@[j]).0@ == leader_keys[k]@,
        decreases leader_entries.len() - i,
    {
        let ghost before = results@;
        let ghost key = leader_keys[i as int]@;
        proof {
            lemma_entry(leader_entries@, i as int);
            assert(leader_values@.contains_key(key));
        }
        let at: usize = leader_entries[i].1;
        let name: &'a str = leader_feed[at].as_name();
        if my_values.get(name).is_none() {
            results.push((name, ComparisonResult::DoNotSign("the leader had a price for this feed, but we did not".to_owned())));
            assert(results@[before.len() as int].0@ == key);
        }
        i += 1;
        assert forall|j: int, k: int| 0 <= j < results@.len() && i <= k < leader_entries@.len() implies precedes(
            #[trigger] results@[j].0@,
            (#[trigger] leader_keys[k])@,
        ) by {
            if j == before.len() {
                assert(precedes(leader_keys[i - 1].name(), leader_keys[k].name()));
            } else {
                assert(results@[j] == before[j]);
            }
        }
        assert forall|k: int| 0 <= k < i && foreign((#[trigger] leader_keys[k])@) implies exists|j: int|
            0 <= j < results@.len() && (#[trigger] results@[j]).0@ == leader_keys[k]@ by {
            if k < i - 1 {
                let j = choose|j: int| 0 <= j < before.len() && (#[trigger] before[j]).0@ == leader_keys[k]@;
                assert(results@[j] == before[j]);
            }
        }
    }
    let ghost split = results@.len() as int;
    let ghost front = results@;
    proof {
        assert forall|name: Seq<char>| #[trigger] foreign(name) implies exists|j: int|
            0 <= j < results@.len() && (#[trigger] results@[j]).0@ == name by {
            assert(leader_values@.contains_key(name));
            let k = position(leader_keys, name);
            assert(foreign(leader_keys[k]@));
        }
        assert(lists(front, 0, split, foreign));
    }
    let mut i: usize = 0;
    while i < my_entries.len()
        invariant
            i <= my_entries.len(),
            forall|i: int| 0 <= i < my_feed@.len() ==> T::is_own((#[trigger] my_feed@[i]).feed()),
            leader_entries@ == leader_values.listed(),
            my_entries@ == my_values.listed(),
            leader_keys == keys_of(leader_entries@),
            my_keys == keys_of(my_entries@),
            ascending(leader_keys),
            ascending(my_keys),
            forall|name: Seq<char>| #[trigger] leader_values@.contains_key(name) <==> has_name(leader_feed@, name),
            forall|name: Seq<char>| #[trigger]
                leader_values@.contains_key(name) ==> is_last(leader_feed@, name, leader_values@[name] as int),
            forall|name: Seq<char>| #[trigger] my_values@.contains_key(name) <==> has_name(my_feed@, name),
            forall|name: Seq<char>| #[trigger]
                my_values@.contains_key(name) ==> is_last(my_feed@, name, my_values@[name] as int),
            split == front.len(),
            results@.len() == split + i,
            forall|j: int| 0 <= j < split ==> #[trigger] results@[j] == front[j],
            forall|j: int|
                split <= j < results@.len() ==> (#[trigger] results@[j]).0@ == my_keys[j - split]@ && results@[j].1@
                    == own_verdict::<T>(feeds(leader_feed@), feeds(my_feed@), results@[j].0@),
        decreases my_entries.len() - i,
    {
        proof {
            lemma_entry(my_entries@, i as int);
            assert(my_values@.contains_key(my_keys[i as int]@));
        }
        let at: usize = my_entries[i].1;
        let name: &'a str = my_feed[at].as_name();
        proof {
            lemma_last_feed(my_feed@, name@, at as int);
            lemma_has_feed(leader_feed@);
        }
        let result = match leader_values.get(name) {
            Some(leader_at) => {
                proof {
                    lemma_last_feed(leader_feed@, name@, *leader_at as int);
                }
                T::should_sign(&leader_feed[*leader_at], &my_feed[at])
            },
            None => ComparisonResult::DoNotSign("the leader did not have a price for this feed".to_owned()),
        };
        results.push((name, result));
        i += 1;
    }
    proof {
        assert(lists(results@, 0, split, foreign)) by {
            assert forall|name: Seq<char>| #[trigger] foreign(name) implies exists|j: int|
                0 <= j < split && (#[trigger] results@[j]).0@ == name by {
                let j = choose|j: int| 0 <= j < split && (#[trigger] front[j]).0@ == name;
                assert(results@[j] == front[j]);
            }
        }
        assert(lists(results@, split, results@.len() as int, own)) by {
            assert forall|j: int, k: int| split <= j < k < results@.len() implies precedes(
                #[trigger] results@[j].0@,
                #[trigger] results@[k].0@,
            ) by {
                assert(precedes(my_keys[j - split].name(), my_keys[k - split].name()));
            }
            assert forall|j: int| split <= j < results@.len() implies own((#[trigger] results@[j]).0@) by {
                assert(has_name(my_keys, my_keys[j - split].name()));
                assert(my_values@.contains_key(my_keys[j - split].name()));
            }
            assert forall|name: Seq<char>| #[trigger] own(name) implies exists|j: int|
                split <= j < results@.len() && (#[trigger] results@[j]).0@ == name by {
                assert(my_values@.contains_key(name));
                let k = position(my_keys, name);
                assert(results@[k + split].0@ == name);
            }
        }
        assert(chosen_at::<T>(results@, feeds(leader_feed@), feeds(my_feed@), split));
    }
    results
}

pub fn choose_generic_feeds_to_sign<'a>(leader_feed: &'a [GenericPriceFeed], my_feed: &'a [GenericPriceFeed]) -> (r: Vec<
    (&'a str, ComparisonResult),
>)
    ensures
        chosen::<GenericPriceFeed>(r@, feeds(leader_feed@), feeds(my_feed@)),
{
    choose_feeds_to_sign(leader_feed, my_feed)
}

pub fn choose_synth_feeds_to_sign<'a>(
    leader_feed: &'a [SyntheticPriceFeed],
    my_feed: &'a [SyntheticPriceFeed],
) -> (r: Vec<(&'a str, ComparisonResult)>)
    requires
        forall|i: int| 0 <= i < my_feed@.len() ==> (#[trigger] my_feed@[i]).collateral_names is Some,
    ensures
        chosen::<SyntheticPriceFeed>(r@, feeds(leader_feed@), feeds(my_feed@)),
{
    choose_feeds_to_sign(leader_feed, my_feed)
}

/// The names of the feeds that we would sign.
pub fn feeds_to_sign<T: Feed>(leader_feed: &[T], my_feed: &[T]) -> (r: Vec<String>)
    requires
        forall|i: int| 0 <= i < my_feed@.len() ==> T::is_own((#[trigger] my_feed@[i]).feed()),
    ensures
        texts(r@).to_set() == signable::<T>(feeds(leader_feed@), feeds(my_feed@)),
{
    let results = choose_feeds_to_sign(leader_feed, my_feed);
    let ghost leader = feeds(leader_feed@);
    let ghost mine = feeds(my_feed@);
    let mut names: Vec<String> = Vec::new();
    let mut i: usize = 0;
    while i < results.len()
        invariant
            i <= results.len(),
            forall|j: int|
                0 <= j < i && (#[trigger] results@[j]).1@ is Sign ==> texts(names@).contains(results@[j].0@),
            forall|k: int|
                0 <= k < names@.len() ==> exists|j: int|
                    0 <= j < i && (#[trigger] results@[j]).1@ is Sign && results@[j].0@ == (#[trigger] names@[k])@,
        decreases results.len() - i,
    {
        let ghost before = names@;
        if let ComparisonResult::Sign = &results[i].1 {
            names.push(results[i].0.to_owned());
            assert(texts(names@)[before.len() as int] == results@[i as int].0@);
        }
        i += 1;
        proof {
            assert forall|j: int| 0 <= j < i && (#[trigger] results@[j]).1@ is Sign implies texts(names@).contains(
                results@[j].0@,
            ) by {
                if j < i - 1 {
                    let k = choose|k: int| 0 <= k < texts(before).len() && texts(before)[k] == results@[j].0@;
                    assert(texts(names@)[k] == results@[j].0@);
                }
            }
            assert forall|k: int| 0 <= k < names@.len() implies exists|j: int|
                0 <= j < i && (#[trigger] results@[j]).1@ is Sign && results@[j].0@ == (#[trigger] names@[k])@ by {
                if k < before.len() {
                    assert(names@[k] == before[k]);
                } else {
                    assert(results@[i - 1].1@ is Sign);
                }
            }
        }
    }
    proof {
        let split = choose|split: int| chosen_at::<T>(results@, leader, mine, split);
        let own = |name: Seq<char>| has_feed::<T>(mine, name);
        assert forall|name: Seq<char>| texts(names@).to_set().contains(name) == signable::<T>(leader, mine).contains(name) by {
            if texts(names@).to_set().contains(name) {
                let k = choose|k: int| 0 <= k < texts(names@).len() && texts(names@)[k] == name;
                assert(names@[k]@ == name);
                let j = choose|j: int|
                    0 <= j < i && (#[trigger] results@[j]).1@ is Sign && results@[j].0@ == names@[k]@;
                assert(results@[j].1@ is Sign);
                if j < split {
                    assert(results@[j].1@ == only_leader());
                }
                assert(own(results@[j].0@));
            }
            if signable::<T>(leader, mine).contains(name) {
                assert(own(name));
                let j = choose|j: int| split <= j < results@.len() && (#[trigger] results@[j]).0@ == name;
                assert(results@[j].1@ is Sign);
            }
        }
        assert(texts(names@).to_set() =~= signable::<T>(leader, mine));
    }
    names
}

/// All collaterals from `at` on are signed if the prices of each are close.
pub proof fn lemma_collateral_verdict(leader: SyntheticFeedView, mine: SyntheticFeedView, names: Seq<Seq<char>>, at: int)
    requires
        0 <= at,
        mine.collateral_prices.len() <= names.len(),
    ensures
        collateral_verdict(leader, mine, names, at) is Sign <==> forall|i: int|
            at <= i < mine.collateral_prices.len() ==> #[trigger] collateral_close(leader, mine, i),
    decreases names.len() - at,
{
    if at < mine.collateral_prices.len() && collateral_close(leader, mine, at) {
        lemma_collateral_verdict(leader, mine, names, at + 1);
    }
}

/// Of two nodes, either both would sign the other's price of something or neither would; and each signs its own.
pub proof fn law_agreement_is_mutual(a: GenericFeedView, b: GenericFeedView)
    ensures
        <GenericPriceFeed as Feed>::verdict(a, b) is Sign <==> <GenericPriceFeed as Feed>::verdict(b, a) is Sign,
        <GenericPriceFeed as Feed>::verdict(a, a) is Sign,
{
}

/// Of two nodes that name all of their collateral, either both would sign the other's prices of a synthetic or neither
/// would; and each signs its own.
pub proof fn law_synthetic_agreement_is_mutual(a: NamedFeedView, b: NamedFeedView)
    requires
        a.feed.collateral_prices.len() <= a.collateral_names->0.len(),
        b.feed.collateral_prices.len() <= b.collateral_names->0.len(),
    ensures
        <SyntheticPriceFeed as Feed>::verdict(a, b) is Sign <==> <SyntheticPriceFeed as Feed>::verdict(b, a) is Sign,
        <SyntheticPriceFeed as Feed>::verdict(a, a) is Sign,
{
    lemma_collateral_verdict(a.feed, b.feed, b.collateral_names->0, 0);
    lemma_collateral_verdict(b.feed, a.feed, a.collateral_names->0, 0);
    lemma_collateral_verdict(a.feed, a.feed, a.collateral_names->0, 0);
    assert forall|i: int| collateral_close(a.feed, b.feed, i) == #[trigger] collateral_close(b.feed, a.feed, i) by {
        law_closeness_is_symmetric(
            a.feed.collateral_prices[i] * b.feed.denominator,
            b.feed.collateral_prices[i] * a.feed.denominator,
        );
    }
    assert forall|i: int| #[trigger] collateral_close(a.feed, b.feed, i) == collateral_close(b.feed, a.feed, i) by {
        law_closeness_is_symmetric(
            a.feed.collateral_prices[i] * b.feed.denominator,
            b.feed.collateral_prices[i] * a.feed.denominator,
        );
    }
}

} // verus!
