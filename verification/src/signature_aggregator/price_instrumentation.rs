//! How far the nodes' prices lie apart in a round.

use vstd::prelude::*;

use crate::names::{alphabetical, keys_of, lemma_alphabetical, lemma_entries_listed, lemma_entry, names_of};
use crate::names::{str_equal, NameMap};
use crate::numbers::Rational;
use crate::price_feed::synthetic::{clone_names, texts, NamedFeedView, SyntheticFeedView, SyntheticPriceData};
use crate::price_feed::synthetic::SyntheticPriceFeed;
use crate::price_feed::{views, PriceData, PriceDataView};
use crate::signature_aggregator::messages::{MessageDataView, MessageView, SignerMessage, SignerMessageData};
use crate::signature_aggregator::round::EventView;
use crate::signature_aggregator::signer::SignerEvent;

pub mod laws;

verus! {

/// The sum of these numbers.
pub open spec fn total(values: Seq<real>) -> real
    decreases values.len(),
{
    if values.len() == 0 {
        0real
    } else {
        total(values.drop_last()) + values.last()
    }
}

/// The average of these numbers.
pub open spec fn mean(values: Seq<real>) -> real {
    total(values) / (values.len() as real)
}

/// How far a number lies from another, squared.
pub open spec fn squared_distance(value: real, center: real) -> real {
    (value - center) * (value - center)
}

/// How far each number lies from `center`, squared.
pub open spec fn squared_distances(values: Seq<real>, center: real) -> Seq<real> {
    Seq::new(values.len(), |i: int| squared_distance(values[i], center))
}

/// The average of the squared distances from the average.
pub open spec fn variance_of(values: Seq<real>) -> real {
    mean(squared_distances(values, mean(values)))
}

fn sum(values: &[Rational]) -> (r: Rational)
    ensures
        r@ == total(views(values@)),
{
    let mut sum = Rational::from_u64(0);
    let mut i: usize = 0;
    assert(views(values@).take(0) =~= seq![]);
    while i < values.len()
        invariant
            i <= values.len(),
            sum@ == total(views(values@).take(i as int)),
        decreases values.len() - i,
    {
        sum = sum.plus(&values[i]);
        proof {
            let all = views(values@);
            assert(all.take(i + 1).drop_last() =~= all.take(i as int));
            assert(all.take(i + 1).last() == all[i as int]);
        }
        i += 1;
    }
    assert(views(values@).take(i as int) =~= views(values@));
    sum
}

fn average(values: &[Rational]) -> (r: Rational)
    requires
        values@.len() > 0,
    ensures
        r@ == mean(views(values@)),
{
    let count = Rational::from_u64(values.len() as u64);
    assert((values@.len() as int) as real != 0real);
    sum(values).over(&count)
}

/// The average of the squared distances from the average.
pub fn variance(values: &[Rational]) -> (r: Rational)
    requires
        values@.len() > 0,
    ensures
        r@ == variance_of(views(values@)),
{
    let center = average(values);
    let mut distances: Vec<Rational> = Vec::new();
    let mut i: usize = 0;
    while i < values.len()
        invariant
            i <= values.len(),
            distances.len() == i,
            forall|j: int| 0 <= j < i ==> (#[trigger] distances@[j])@ == squared_distance(values@[j]@, center@),
        decreases values.len() - i,
    {
        let distance = values[i].minus(&center);
        distances.push(distance.times(&distance));
        i += 1;
    }
    assert(views(distances@) =~= squared_distances(views(values@), center@));
    average(distances.as_slice())
}

proof fn lemma_total_of_squares(values: Seq<real>, center: real)
    ensures
        total(squared_distances(values, center)) >= 0real,
    decreases values.len(),
{
    let distances = squared_distances(values, center);
    if values.len() > 0 {
        lemma_total_of_squares(values.drop_last(), center);
        assert(distances.drop_last() =~= squared_distances(values.drop_last(), center));
        let distance = values.last() - center;
        assert(distance * distance >= 0real) by (nonlinear_arith);
    }
}

proof fn lemma_total_of_same(values: Seq<real>, value: real)
    requires
        forall|i: int| 0 <= i < values.len() ==> values[i] == value,
    ensures
        total(values) == values.len() as real * value,
    decreases values.len(),
{
    if values.len() == 0 {
        assert(0real * value == 0real) by (nonlinear_arith);
    } else {
        lemma_total_of_same(values.drop_last(), value);
        let fewer = values.drop_last().len();
        assert(values.len() as real == fewer as real + 1real);
        assert((fewer as real + 1real) * value == fewer as real * value + value) by (nonlinear_arith);
    }
}

/// Prices never vary by less than nothing.
pub proof fn law_variance_is_not_negative(values: Seq<real>)
    requires
        values.len() > 0,
    ensures
        variance_of(values) >= 0real,
{
    lemma_total_of_squares(values, mean(values));
    let sum = total(squared_distances(values, mean(values)));
    let count = values.len() as real;
    assert(sum / count >= 0real) by (nonlinear_arith)
        requires
            sum >= 0real,
            count > 0real,
    ;
}

/// Where all nodes have the same price, it does not vary.
pub proof fn law_agreed_prices_do_not_vary(values: Seq<real>)
    requires
        values.len() > 0,
        forall|i: int| 0 <= i < values.len() ==> #[trigger] values[i] == values[0],
    ensures
        variance_of(values) == 0real,
{
    let count = values.len() as real;
    let value = values[0];
    lemma_total_of_same(values, value);
    assert((count * value) / count == value) by (nonlinear_arith)
        requires
            count > 0real,
    ;
    let distances = squared_distances(values, value);
    assert forall|i: int| 0 <= i < distances.len() implies distances[i] == 0real by {
        assert(0real * 0real == 0real) by (nonlinear_arith);
    }
    lemma_total_of_same(distances, 0real);
    assert(count * 0real == 0real) by (nonlinear_arith);
    assert(0real / count == 0real) by (nonlinear_arith)
        requires
            count > 0real,
    ;
}

/// The prices of a feed's collateral.
pub open spec fn prices_in(feed: SyntheticFeedView) -> Seq<real> {
    Seq::new(
        feed.collateral_prices.len(),
        |i: int| feed.collateral_prices[i] as real / feed.denominator as real,
    )
}

/// Whether a feed's prices are numbers.
pub open spec fn has_prices(feed: SyntheticFeedView) -> bool {
    feed.collateral_prices.len() > 0 ==> feed.denominator != 0
}

/// The prices of a feed's collateral.
pub fn extract_prices_from_feed(feed: &SyntheticPriceFeed) -> (r: Vec<Rational>)
    requires
        has_prices(feed@),
    ensures
        views(r@) == prices_in(feed@),
{
    let mut prices: Vec<Rational> = Vec::new();
    let mut i: usize = 0;
    while i < feed.collateral_prices.len()
        invariant
            i <= feed.collateral_prices.len(),
            has_prices(feed@),
            prices.len() == i,
            forall|j: int| 0 <= j < i ==> (#[trigger] prices@[j])@ == prices_in(feed@)[j],
        decreases feed.collateral_prices.len() - i,
    {
        assert(feed@.collateral_prices.len() > 0);
        prices.push(Rational::new(&feed.collateral_prices[i], &feed.denominator));
        i += 1;
    }
    assert(views(prices@) =~= prices_in(feed@));
    prices
}

/// The names of the collateral by synthetic; of several feeds of a synthetic, the last one's.
pub open spec fn names_by_synthetic(feeds: Seq<NamedFeedView>) -> Map<Seq<char>, Seq<Seq<char>>>
    decreases feeds.len(),
{
    if feeds.len() == 0 {
        Map::empty()
    } else {
        let feed = feeds.last();
        names_by_synthetic(feeds.drop_last()).insert(feed.feed.synthetic, feed.collateral_names->0)
    }
}

/// The texts that a map holds.
pub open spec fn texts_by_name(map: Map<Seq<char>, Vec<String>>) -> Map<Seq<char>, Seq<Seq<char>>> {
    Map::new(|name: Seq<char>| map.contains_key(name), |name: Seq<char>| texts(map[name]@))
}

/// The feeds of these synthetics.
pub open spec fn feeds_in(entries: Seq<SyntheticPriceData>) -> Seq<NamedFeedView> {
    Seq::new(entries.len(), |i: int| entries[i].feed.named())
}

/// Whether every feed names its collateral.
pub open spec fn all_named(feeds: Seq<NamedFeedView>) -> bool {
    forall|i: int| 0 <= i < feeds.len() ==> (#[trigger] feeds[i]).collateral_names is Some
}

/// The names of the collateral by synthetic.
pub fn extract_collateral_names(entries: &[SyntheticPriceData]) -> (r: NameMap<String, Vec<String>>)
    requires
        all_named(feeds_in(entries@)),
    ensures
        texts_by_name(r@) == names_by_synthetic(feeds_in(entries@)),
{
    let mut names: NameMap<String, Vec<String>> = NameMap::new();
    let mut i: usize = 0;
    let ghost feeds = feeds_in(entries@);
    assert(texts_by_name(names@) =~= names_by_synthetic(feeds.take(0)));
    while i < entries.len()
        invariant
            i <= entries.len(),
            feeds == feeds_in(entries@),
            all_named(feeds),
            texts_by_name(names@) == names_by_synthetic(feeds.take(i as int)),
        decreases entries.len() - i,
    {
        assert(feeds[i as int].collateral_names is Some);
        let ghost before = names@;
        match &entries[i].feed.collateral_names {
            Some(collateral) => {
                names.insert(entries[i].feed.synthetic.clone(), clone_names(collateral));
            },
            None => {},
        }
        proof {
            assert(feeds.take(i + 1).drop_last() =~= feeds.take(i as int));
            assert(feeds.take(i + 1).last() == feeds[i as int]);
            assert(texts_by_name(names@) =~= texts_by_name(before).insert(
                feeds[i as int].feed.synthetic,
                feeds[i as int].collateral_names->0,
            ));
        }
        i += 1;
    }
    assert(feeds.take(i as int) =~= feeds);
    names
}

/// A node's own prices in place of those that are known.
pub open spec fn replaced(known: Seq<Seq<real>>, prices: Seq<real>) -> Seq<Seq<real>> {
    Seq::new(
        if known.len() > prices.len() {
            known.len()
        } else {
            prices.len()
        },
        |i: int|
            if i < prices.len() {
                seq![prices[i]]
            } else {
                known[i]
            },
    )
}

/// The lists of prices under a name.
pub open spec fn known_under(known: Map<Seq<char>, Seq<Seq<real>>>, name: Seq<char>) -> Seq<Seq<real>> {
    if known.contains_key(name) {
        known[name]
    } else {
        seq![]
    }
}

/// The prices that a node begins a round with, for each collateral of each synthetic.
pub open spec fn own_prices(feeds: Seq<NamedFeedView>) -> Map<Seq<char>, Seq<Seq<real>>>
    decreases feeds.len(),
{
    if feeds.len() == 0 {
        Map::empty()
    } else {
        let known = own_prices(feeds.drop_last());
        let feed = feeds.last().feed;
        known.insert(feed.synthetic, replaced(known_under(known, feed.synthetic), prices_in(feed)))
    }
}

/// Another node's prices beside those that are known.
pub open spec fn extended(known: Seq<Seq<real>>, prices: Seq<real>) -> Seq<Seq<real>> {
    Seq::new(
        known.len(),
        |i: int|
            if i < prices.len() {
                known[i].push(prices[i])
            } else {
                known[i]
            },
    )
}

/// The known prices with another node's beside them. Collateral that this node has no price of is left out.
pub open spec fn with_prices(
    known: Map<Seq<char>, Seq<Seq<real>>>,
    feeds: Seq<SyntheticFeedView>,
) -> Map<Seq<char>, Seq<Seq<real>>>
    decreases feeds.len(),
{
    if feeds.len() == 0 {
        known
    } else {
        let before = with_prices(known, feeds.drop_last());
        let feed = feeds.last();
        if before.contains_key(feed.synthetic) {
            before.insert(feed.synthetic, extended(before[feed.synthetic], prices_in(feed)))
        } else {
            before
        }
    }
}

/// Whether there are names for all collateral that has a price.
pub open spec fn enough_names(feeds: Seq<NamedFeedView>) -> bool {
    forall|i: int, j: int|
        0 <= i < feeds.len() && is_last_feed(feeds, j) && feeds[i].feed.synthetic == feeds[j].feed.synthetic
            ==> #[trigger] names_suffice(feeds, i, j)
}

/// No later feed is of the same synthetic.
pub open spec fn is_last_feed(feeds: Seq<NamedFeedView>, j: int) -> bool {
    &&& 0 <= j < feeds.len()
    &&& forall|k: int| j < k < feeds.len() ==> (#[trigger] feeds[k]).feed.synthetic != feeds[j].feed.synthetic
}

/// Feed `j` has names for all prices of feed `i`.
pub open spec fn names_suffice(feeds: Seq<NamedFeedView>, i: int, j: int) -> bool {
    feeds[i].feed.collateral_prices.len() <= (feeds[j].collateral_names->0).len()
}

proof fn lemma_last_names(feeds: Seq<NamedFeedView>, name: Seq<char>) -> (j: int)
    requires
        names_by_synthetic(feeds).contains_key(name),
    ensures
        is_last_feed(feeds, j),
        feeds[j].feed.synthetic == name,
        names_by_synthetic(feeds)[name] == feeds[j].collateral_names->0,
    decreases feeds.len(),
{
    if feeds.last().feed.synthetic == name {
        feeds.len() - 1
    } else {
        let rest = feeds.drop_last();
        let j = lemma_last_names(rest, name);
        assert forall|k: int| j < k < feeds.len() implies (#[trigger] feeds[k]).feed.synthetic
            != feeds[j].feed.synthetic by {
            if k < rest.len() {
                assert(rest[k].feed.synthetic != rest[j].feed.synthetic);
            }
        }
        j
    }
}

proof fn lemma_same_synthetics(feeds: Seq<NamedFeedView>)
    ensures
        own_prices(feeds).dom() == names_by_synthetic(feeds).dom(),
    decreases feeds.len(),
{
    if feeds.len() > 0 {
        lemma_same_synthetics(feeds.drop_last());
    }
    assert(own_prices(feeds).dom() =~= names_by_synthetic(feeds).dom());
}

proof fn lemma_own_prices(feeds: Seq<NamedFeedView>, name: Seq<char>, bound: nat)
    requires
        forall|i: int|
            0 <= i < feeds.len() && (#[trigger] feeds[i]).feed.synthetic == name ==> feeds[i].feed.collateral_prices.len()
                <= bound,
    ensures
        own_prices(feeds).contains_key(name) ==> own_prices(feeds)[name].len() <= bound,
        own_prices(feeds).contains_key(name) ==> forall|i: int|
            0 <= i < own_prices(feeds)[name].len() ==> (#[trigger] own_prices(feeds)[name][i]).len() > 0,
    decreases feeds.len(),
{
    if feeds.len() > 0 {
        let rest = feeds.drop_last();
        assert forall|i: int|
            0 <= i < rest.len() && (#[trigger] rest[i]).feed.synthetic == name implies rest[i].feed.collateral_prices.len()
            <= bound by {
            assert(rest[i] == feeds[i]);
        }
        lemma_own_prices(rest, name, bound);
        assert(feeds[feeds.len() - 1] == feeds.last());
    }
}

proof fn lemma_prices_have_names(feeds: Seq<NamedFeedView>)
    requires
        enough_names(feeds),
    ensures
        all_prices_have_names(own_prices(feeds), names_by_synthetic(feeds)),
{
    let known = own_prices(feeds);
    let names = names_by_synthetic(feeds);
    assert forall|name: Seq<char>| #[trigger] known.contains_key(name) implies names.contains_key(name)
        && known[name].len() <= names[name].len() && all_filled(known[name]) by {
        lemma_same_synthetics(feeds);
        let j = lemma_last_names(feeds, name);
        let bound = (feeds[j].collateral_names->0).len();
        assert forall|i: int|
            0 <= i < feeds.len() && (#[trigger] feeds[i]).feed.synthetic
                == name implies feeds[i].feed.collateral_prices.len() <= bound by {
            assert(names_suffice(feeds, i, j));
        }
        lemma_own_prices(feeds, name, bound);
    }
}

/// Whether there is a price in each list.
pub open spec fn all_filled(lists: Seq<Seq<real>>) -> bool {
    forall|i: int| 0 <= i < lists.len() ==> (#[trigger] lists[i]).len() > 0
}

/// Whether there are prices and names for all collateral.
pub open spec fn all_prices_have_names(
    known: Map<Seq<char>, Seq<Seq<real>>>,
    names: Map<Seq<char>, Seq<Seq<char>>>,
) -> bool {
    forall|name: Seq<char>| #[trigger]
        known.contains_key(name) ==> names.contains_key(name) && known[name].len() <= names[name].len() && all_filled(
            known[name],
        )
}

/// How much the prices of a collateral vary.
#[derive(Debug)]
pub struct PriceVariance {
    pub synthetic: String,
    pub collateral: String,
    pub variance: Rational,
}

/// How much the prices of a collateral vary.
pub struct PriceVarianceView {
    pub synthetic: Seq<char>,
    pub collateral: Seq<char>,
    pub variance: real,
}

impl View for PriceVariance {
    type V = PriceVarianceView;

    open spec fn view(&self) -> PriceVarianceView {
        PriceVarianceView {
            synthetic: self.synthetic@,
            collateral: self.collateral@,
            variance: self.variance@,
        }
    }
}

/// How much the prices of a synthetic's collateral vary.
pub open spec fn variances_of(
    synthetic: Seq<char>,
    names: Seq<Seq<char>>,
    lists: Seq<Seq<real>>,
) -> Seq<PriceVarianceView> {
    Seq::new(
        lists.len(),
        |i: int| PriceVarianceView { synthetic, collateral: names[i], variance: variance_of(lists[i]) },
    )
}

/// How much the prices vary, by synthetic.
pub open spec fn variances_by_synthetic(
    names: Map<Seq<char>, Seq<Seq<char>>>,
    known: Map<Seq<char>, Seq<Seq<real>>>,
) -> Map<Seq<char>, Seq<PriceVarianceView>> {
    Map::new(
        |synthetic: Seq<char>| known.contains_key(synthetic),
        |synthetic: Seq<char>| variances_of(synthetic, names[synthetic], known[synthetic]),
    )
}

/// These lists one after the other.
pub open spec fn in_a_row<T>(lists: Seq<Seq<T>>) -> Seq<T>
    decreases lists.len(),
{
    if lists.len() == 0 {
        seq![]
    } else {
        in_a_row(lists.drop_last()) + lists.last()
    }
}

/// What is known of the prices in a round.
#[derive(Debug)]
pub struct PriceInstrumentation {
    round: Option<String>,
    collateral_names: NameMap<String, Vec<String>>,
    all_prices: NameMap<String, Vec<Vec<Rational>>>,
}

/// What is known of the prices in a round.
pub struct InstrumentationView {
    pub round: Option<Seq<char>>,
    pub collateral_names: Map<Seq<char>, Seq<Seq<char>>>,
    /// For each synthetic and each of its collateral, the prices that the nodes have.
    pub all_prices: Map<Seq<char>, Seq<Seq<real>>>,
}

/// The numbers in these lists.
pub open spec fn numbers_in(lists: Seq<Vec<Rational>>) -> Seq<Seq<real>> {
    Seq::new(lists.len(), |i: int| views(lists[i]@))
}

/// The numbers that a map holds.
pub open spec fn numbers_by_name(map: Map<Seq<char>, Vec<Vec<Rational>>>) -> Map<Seq<char>, Seq<Seq<real>>> {
    Map::new(|name: Seq<char>| map.contains_key(name), |name: Seq<char>| numbers_in(map[name]@))
}

impl View for PriceInstrumentation {
    type V = InstrumentationView;

    closed spec fn view(&self) -> InstrumentationView {
        InstrumentationView {
            round: match self.round {
                Some(round) => Some(round@),
                None => None,
            },
            collateral_names: texts_by_name(self.collateral_names@),
            all_prices: numbers_by_name(self.all_prices@),
        }
    }
}

impl InstrumentationView {
    /// How much the prices vary in the round that is under way, in alphabetical order of the synthetics.
    pub open spec fn variances(self) -> Seq<PriceVarianceView> {
        match self.round {
            Some(_) => in_a_row(alphabetical(variances_by_synthetic(self.collateral_names, self.all_prices))),
            None => seq![],
        }
    }

    /// A round has begun, with this node's feeds.
    pub open spec fn begun(self, round: Seq<char>, feeds: Seq<NamedFeedView>) -> InstrumentationView {
        InstrumentationView {
            round: Some(round),
            collateral_names: names_by_synthetic(feeds),
            all_prices: own_prices(feeds),
        }
    }

    /// Another node's feeds have come. They count if they are of the round that is under way.
    pub open spec fn extended_by(self, round: Seq<char>, feeds: Seq<SyntheticFeedView>) -> InstrumentationView {
        if self.round == Some(round) {
            InstrumentationView { all_prices: with_prices(self.all_prices, feeds), ..self }
        } else {
            self
        }
    }

    /// The round is over.
    pub open spec fn ended(self) -> InstrumentationView {
        InstrumentationView { round: None, all_prices: Map::empty(), ..self }
    }

    /// What is known after an event; `leads` is whether this node leads when it happens.
    pub open spec fn observed(self, leads: bool, event: EventView, prices: PriceDataView) -> InstrumentationView {
        match event {
            EventView::LeaderChanged(_) => self.ended(),
            EventView::RoundStarted(round) => if leads {
                self.begun(round, prices.feeds())
            } else {
                self
            },
            EventView::Message(_, MessageView { round, data: MessageDataView::Commit(commitment) }) => self.extended_by(
                round,
                plain_feeds(commitment.synthetic_feeds),
            ),
            _ => self,
        }
    }

    /// How much the prices varied in a round that an event ends.
    pub open spec fn reported(self, leads: bool, event: EventView) -> Seq<PriceVarianceView> {
        match event {
            EventView::LeaderChanged(_) => self.variances(),
            EventView::RoundStarted(_) if leads => self.variances(),
            _ => seq![],
        }
    }

    /// Whether the prices that come with an event can be told apart and divided.
    pub open spec fn can_observe(self, leads: bool, event: EventView, prices: PriceDataView) -> bool {
        match event {
            EventView::RoundStarted(_) => leads ==> are_observable(prices.feeds()),
            EventView::Message(_, MessageView { round, data: MessageDataView::Commit(commitment) }) => self.round == Some(
                round,
            ) ==> all_have_prices(plain_feeds(commitment.synthetic_feeds)),
            _ => true,
        }
    }
}

/// The feeds without the names of their collateral.
pub open spec fn plain_feeds(feeds: Seq<NamedFeedView>) -> Seq<SyntheticFeedView> {
    Seq::new(feeds.len(), |i: int| feeds[i].feed)
}

/// Whether the prices of all feeds are numbers.
pub open spec fn all_have_prices(feeds: Seq<SyntheticFeedView>) -> bool {
    forall|i: int| 0 <= i < feeds.len() ==> has_prices(#[trigger] feeds[i])
}

/// Whether a node can begin a round with these feeds: they name their collateral, and their prices are numbers.
pub open spec fn are_observable(feeds: Seq<NamedFeedView>) -> bool {
    all_named(feeds) && enough_names(feeds) && all_have_prices(plain_feeds(feeds))
}

/// Puts a node's own prices in place of those that are known.
fn replace_prices(known: &mut Vec<Vec<Rational>>, prices: Vec<Rational>)
    ensures
        numbers_in(final(known)@) == replaced(numbers_in(old(known)@), views(prices@)),
{
    let ghost before = known@;
    let mut i: usize = 0;
    while i < prices.len()
        invariant
            i <= prices.len(),
            known.len() == if before.len() > i {
                before.len()
            } else {
                i as nat
            },
            forall|j: int| 0 <= j < i ==> views((#[trigger] known@[j])@) == seq![prices@[j]@],
            forall|j: int| i <= j < before.len() ==> known@[j] == before[j],
        decreases prices.len() - i,
    {
        let mut list: Vec<Rational> = Vec::new();
        list.push(prices[i].clone());
        assert(views(list@) =~= seq![prices@[i as int]@]);
        if i < known.len() {
            known.set(i, list);
        } else {
            known.push(list);
        }
        i += 1;
    }
    assert(numbers_in(known@) =~= replaced(numbers_in(before), views(prices@)));
}

/// Puts another node's prices beside those that are known.
fn extend_prices(known: &mut Vec<Vec<Rational>>, prices: Vec<Rational>)
    ensures
        numbers_in(final(known)@) == extended(numbers_in(old(known)@), views(prices@)),
{
    let ghost before = known@;
    let mut i: usize = 0;
    while i < prices.len() && i < known.len()
        invariant
            i <= prices.len(),
            i <= known.len(),
            known.len() == before.len(),
            forall|j: int| 0 <= j < i ==> views((#[trigger] known@[j])@) == views(before[j]@).push(prices@[j]@),
            forall|j: int| i <= j < before.len() ==> known@[j] == before[j],
        decreases prices.len() - i,
    {
        known[i].push(prices[i].clone());
        assert(views(known@[i as int]@) =~= views(before[i as int]@).push(prices@[i as int]@));
        i += 1;
    }
    assert(numbers_in(known@) =~= extended(numbers_in(before), views(prices@)));
}

impl PriceInstrumentation {
    #[verifier::type_invariant]
    spec fn wf(&self) -> bool {
        all_prices_have_names(numbers_by_name(self.all_prices@), texts_by_name(self.collateral_names@))
    }

    /// Nothing is known yet.
    pub fn new() -> (r: Self)
        ensures
            r@.round is None,
            r@.collateral_names == Map::<Seq<char>, Seq<Seq<char>>>::empty(),
            r@.all_prices == Map::<Seq<char>, Seq<Seq<real>>>::empty(),
    {
        let r = PriceInstrumentation { round: None, collateral_names: NameMap::new(), all_prices: NameMap::new() };
        assert(r@.collateral_names =~= Map::<Seq<char>, Seq<Seq<char>>>::empty());
        assert(r@.all_prices =~= Map::<Seq<char>, Seq<Seq<real>>>::empty());
        r
    }

    /// A round begins, with this node's prices. Gives how much the prices varied in the round before, if that one is
    /// still under way.
    pub fn begin_round(&mut self, round: &str, my_prices: &PriceData) -> (r: Vec<PriceVariance>)
        requires
            are_observable(my_prices@.feeds()),
        ensures
            views(r@) == old(self)@.variances(),
            final(self)@ == old(self)@.begun(round@, my_prices@.feeds()),
    {
        let ghost feeds = my_prices@.feeds();
        assert forall|i: int| 0 <= i < feeds.len() implies has_prices((#[trigger] feeds[i]).feed) by {
            assert(has_prices(plain_feeds(feeds)[i]));
        }
        let variances = self.end_round();
        assert(feeds_in(my_prices.synthetics@) =~= feeds);
        let collateral_names = extract_collateral_names(my_prices.synthetics.as_slice());
        let mut all_prices: NameMap<String, Vec<Vec<Rational>>> = NameMap::new();
        let mut i: usize = 0;
        assert(numbers_by_name(all_prices@) =~= own_prices(feeds.take(0)));
        while i < my_prices.synthetics.len()
            invariant
                i <= my_prices.synthetics.len(),
                feeds == my_prices@.feeds(),
                forall|i: int| 0 <= i < feeds.len() ==> has_prices((#[trigger] feeds[i]).feed),
                numbers_by_name(all_prices@) == own_prices(feeds.take(i as int)),
            decreases my_prices.synthetics.len() - i,
        {
            let feed = &my_prices.synthetics[i].feed;
            let ghost before = all_prices@;
            assert(feeds[i as int].feed == feed@);
            let prices = extract_prices_from_feed(feed);
            let mut known = match all_prices.remove(feed.synthetic.as_str()) {
                Some(known) => known,
                None => Vec::new(),
            };
            assert(numbers_in(known@) =~= known_under(numbers_by_name(before), feed.synthetic@));
            replace_prices(&mut known, prices);
            all_prices.insert(feed.synthetic.clone(), known);
            proof {
                assert(feeds.take(i + 1).drop_last() =~= feeds.take(i as int));
                assert(feeds.take(i + 1).last() == feeds[i as int]);
                assert(numbers_by_name(all_prices@) =~= own_prices(feeds.take(i + 1)));
            }
            i += 1;
        }
        proof {
            assert(feeds.take(i as int) =~= feeds);
            lemma_prices_have_names(feeds);
        }
        *self = PriceInstrumentation { round: Some(round.to_owned()), collateral_names, all_prices };
        variances
    }

    /// Another node has these prices. They count if it speaks of the round that is under way.
    pub fn track_prices(&mut self, round: &str, prices: &[SyntheticPriceFeed])
        requires
            old(self)@.round == Some(round@) ==> all_have_prices(views(prices@)),
        ensures
            final(self)@ == old(self)@.extended_by(round@, views(prices@)),
    {
        proof {
            use_type_invariant(&*self);
        }
        let is_current = match &self.round {
            Some(current) => str_equal(current.as_str(), round),
            None => false,
        };
        if !is_current {
            return;
        }
        let ghost feeds = views(prices@);
        assert forall|i: int| 0 <= i < prices@.len() implies has_prices((#[trigger] prices@[i])@) by {
            assert(has_prices(feeds[i]));
        }
        let ghost start = numbers_by_name(self.all_prices@);
        let ghost names = texts_by_name(self.collateral_names@);
        let mut all_prices: NameMap<String, Vec<Vec<Rational>>> = NameMap::new();
        assert(numbers_by_name(all_prices@) =~= Map::empty());
        core::mem::swap(&mut self.all_prices, &mut all_prices);
        let mut i: usize = 0;
        assert(feeds.take(0) =~= seq![]);
        while i < prices.len()
            invariant
                i <= prices.len(),
                feeds == views(prices@),
                forall|i: int| 0 <= i < prices@.len() ==> has_prices((#[trigger] prices@[i])@),
                numbers_by_name(all_prices@) == with_prices(start, feeds.take(i as int)),
                all_prices_have_names(numbers_by_name(all_prices@), names),
            decreases prices.len() - i,
        {
            let feed = &prices[i];
            let ghost before = all_prices@;
            if let Some(known) = all_prices.remove(feed.synthetic.as_str()) {
                let mut known = known;
                extend_prices(&mut known, extract_prices_from_feed(feed));
                all_prices.insert(feed.synthetic.clone(), known);
            }
            proof {
                assert(feeds.take(i + 1).drop_last() =~= feeds.take(i as int));
                assert(feeds.take(i + 1).last() == feeds[i as int]);
                let earlier = numbers_by_name(before);
                let later = with_prices(start, feeds.take(i + 1));
                assert(numbers_by_name(all_prices@) =~= later);
                assert forall|name: Seq<char>| #[trigger] later.contains_key(name) implies names.contains_key(name)
                    && later[name].len() <= names[name].len() && all_filled(later[name]) by {
                    assert(earlier.contains_key(name));
                    assert(all_filled(earlier[name]));
                    assert forall|j: int| 0 <= j < later[name].len() implies (#[trigger] later[name][j]).len() > 0 by {
                        assert(earlier[name][j].len() > 0);
                    }
                }
            }
            i += 1;
        }
        assert(feeds.take(i as int) =~= feeds);
        self.all_prices = all_prices;
    }

    /// The round ends. Gives how much the prices varied.
    pub fn end_round(&mut self) -> (r: Vec<PriceVariance>)
        ensures
            views(r@) == old(self)@.variances(),
            final(self)@ == old(self)@.ended(),
    {
        let variances = match self.round {
            Some(_) => self.price_variances(),
            None => Vec::new(),
        };
        assert(views(variances@) =~= old(self)@.variances());
        let all_prices: NameMap<String, Vec<Vec<Rational>>> = NameMap::new();
        assert(numbers_by_name(all_prices@) =~= Map::<Seq<char>, Seq<Seq<real>>>::empty());
        self.all_prices = all_prices;
        self.round = None;
        variances
    }

    /// How much the prices vary, in alphabetical order of the synthetics.
    fn price_variances(&self) -> (r: Vec<PriceVariance>)
        ensures
            views(r@) == in_a_row(alphabetical(variances_by_synthetic(self@.collateral_names, self@.all_prices))),
    {
        proof {
            use_type_invariant(self);
        }
        let entries = self.all_prices.entries();
        let ghost map = variances_by_synthetic(self@.collateral_names, self@.all_prices);
        let ghost names = names_of(keys_of(entries@));
        let ghost values = Seq::new(entries@.len(), |i: int| map[entries@[i].0@]);
        proof {
            lemma_entries_listed(entries@);
            assert forall|i: int| 0 <= i < entries@.len() implies self@.all_prices.contains_key(
                (#[trigger] entries@[i]).0@,
            ) && self@.all_prices[entries@[i].0@] == numbers_in(entries@[i].1@) by {
                lemma_entry(entries@, i);
            }
            assert forall|name: Seq<char>| #[trigger] map.contains_key(name) <==> names.contains(name) by {
                assert(map.contains_key(name) <==> self.all_prices@.contains_key(name));
            }
            assert(crate::names::lists_map(map, names, values));
            lemma_alphabetical(map, names, values);
        }
        let mut variances: Vec<PriceVariance> = Vec::new();
        let mut i: usize = 0;
        assert(values.take(0) =~= seq![]);
        assert(views(variances@) =~= in_a_row(values.take(0)));
        while i < entries.len()
            invariant
                i <= entries.len(),
                values.len() == entries@.len(),
                map == variances_by_synthetic(self@.collateral_names, self@.all_prices),
                all_prices_have_names(self@.all_prices, self@.collateral_names),
                forall|i: int|
                    0 <= i < entries@.len() ==> self@.all_prices.contains_key((#[trigger] entries@[i]).0@)
                        && self@.all_prices[entries@[i].0@] == numbers_in(entries@[i].1@),
                forall|i: int| 0 <= i < entries@.len() ==> #[trigger] values[i] == map[entries@[i].0@],
                views(variances@) == in_a_row(values.take(i as int)),
            decreases entries.len() - i,
        {
            let (synthetic, lists) = &entries[i];
            assert(self@.all_prices.contains_key(synthetic@));
            let ghost before = views(variances@);
            let ghost listed = values[i as int];
            match self.collateral_names.get(synthetic.as_str()) {
                Some(collateral) => {
                    let mut k: usize = 0;
                    while k < lists.len()
                        invariant
                            k <= lists.len(),
                            lists.len() <= collateral.len(),
                            listed == variances_of(synthetic@, texts(collateral@), numbers_in(lists@)),
                            all_filled(numbers_in(lists@)),
                            views(variances@) == before + listed.take(k as int),
                        decreases lists.len() - k,
                    {
                        assert(numbers_in(lists@)[k as int].len() > 0);
                        let ghost earlier = variances@;
                        variances.push(
                            PriceVariance {
                                synthetic: synthetic.clone(),
                                collateral: collateral[k].clone(),
                                variance: variance(lists[k].as_slice()),
                            },
                        );
                        proof {
                            assert(views(variances@) =~= views(earlier).push(listed[k as int]));
                            assert(listed.take(k + 1) =~= listed.take(k as int).push(listed[k as int]));
                        }
                        k += 1;
                    }
                    assert(listed.take(k as int) =~= listed);
                },
                None => {},
            }
            proof {
                assert(values.take(i + 1).drop_last() =~= values.take(i as int));
                assert(values.take(i + 1).last() == values[i as int]);
            }
            i += 1;
        }
        assert(values.take(i as int) =~= values);
        variances
    }
}

/// Whether the prices of all feeds are numbers.
fn check_prices(feeds: &[SyntheticPriceFeed]) -> (r: bool)
    ensures
        r == all_have_prices(views(feeds@)),
{
    let ghost all = views(feeds@);
    let mut i: usize = 0;
    while i < feeds.len()
        invariant
            i <= feeds.len(),
            all == views(feeds@),
            forall|j: int| 0 <= j < i ==> has_prices(#[trigger] all[j]),
        decreases feeds.len() - i,
    {
        assert(all[i as int] == feeds@[i as int]@);
        if feeds[i].collateral_prices.len() > 0 && feeds[i].denominator.is_zero() {
            assert(!has_prices(all[i as int]));
            return false;
        }
        i += 1;
    }
    true
}

/// Whether the last feed of the same synthetic has names for the prices of feed `at`.
fn check_names(feeds: &[SyntheticPriceFeed], at: usize) -> (r: bool)
    requires
        at < feeds@.len(),
        all_named(named_feeds(feeds@)),
    ensures
        r == forall|j: int|
            is_last_feed(named_feeds(feeds@), j) && named_feeds(feeds@)[at as int].feed.synthetic == named_feeds(
                feeds@,
            )[j].feed.synthetic ==> #[trigger] names_suffice(named_feeds(feeds@), at as int, j),
{
    let ghost all = named_feeds(feeds@);
    let mut last = at;
    let mut j: usize = at;
    while j < feeds.len()
        invariant
            at <= last < feeds.len(),
            at <= j <= feeds.len(),
            last <= j,
            all == named_feeds(feeds@),
            all[last as int].feed.synthetic == all[at as int].feed.synthetic,
            forall|k: int| last < k < j ==> (#[trigger] all[k]).feed.synthetic != all[at as int].feed.synthetic,
        decreases feeds.len() - j,
    {
        if str_equal(feeds[j].synthetic.as_str(), feeds[at].synthetic.as_str()) {
            last = j;
        }
        j += 1;
    }
    assert(is_last_feed(all, last as int));
    assert(all[last as int].collateral_names is Some);
    let suffices = match &feeds[last].collateral_names {
        Some(names) => feeds[at].collateral_prices.len() <= names.len(),
        None => false,
    };
    proof {
        assert(suffices == names_suffice(all, at as int, last as int));
        assert forall|j: int| is_last_feed(all, j) && all[at as int].feed.synthetic == all[j].feed.synthetic implies j
            == last by {
            if j < last {
                assert(all[last as int].feed.synthetic != all[j].feed.synthetic);
            } else if last < j {
                assert(all[j].feed.synthetic != all[last as int].feed.synthetic);
            }
        }
    }
    suffices
}

/// What there is to these feeds, with the names of their collateral.
pub open spec fn named_feeds(feeds: Seq<SyntheticPriceFeed>) -> Seq<NamedFeedView> {
    Seq::new(feeds.len(), |i: int| feeds[i].named())
}

/// Whether a node can begin a round with these feeds.
fn check_feeds(feeds: &[SyntheticPriceFeed]) -> (r: bool)
    ensures
        r == are_observable(named_feeds(feeds@)),
{
    let ghost all = named_feeds(feeds@);
    assert(plain_feeds(all) =~= views(feeds@));
    if !check_prices(feeds) {
        return false;
    }
    let mut i: usize = 0;
    while i < feeds.len()
        invariant
            i <= feeds.len(),
            all == named_feeds(feeds@),
            forall|j: int| 0 <= j < i ==> (#[trigger] all[j]).collateral_names is Some,
        decreases feeds.len() - i,
    {
        assert(all[i as int] == feeds@[i as int].named());
        if feeds[i].collateral_names.is_none() {
            return false;
        }
        i += 1;
    }
    let mut i: usize = 0;
    while i < feeds.len()
        invariant
            i <= feeds.len(),
            all == named_feeds(feeds@),
            all_named(all),
            forall|k: int, j: int|
                0 <= k < i && is_last_feed(all, j) && all[k].feed.synthetic == all[j].feed.synthetic
                    ==> #[trigger] names_suffice(all, k, j),
        decreases feeds.len() - i,
    {
        if !check_names(feeds, i) {
            proof {
                let at = i as int;
                let j = choose|j: int|
                    is_last_feed(all, j) && all[at].feed.synthetic == all[j].feed.synthetic && !(
                    #[trigger] names_suffice(all, at, j));
                assert(!names_suffice(all, at, j));
            }
            return false;
        }
        i += 1;
    }
    true
}

impl PriceInstrumentation {
    /// Takes in what an event of the signing protocol says of prices; `leads` is whether this node leads, and `current`
    /// are its prices. Gives how much the prices varied in a round that ends, or nothing where prices cannot be told
    /// apart or divided.
    pub fn observe(&mut self, leads: bool, event: &SignerEvent, current: &PriceData) -> (r: Option<Vec<PriceVariance>>)
        ensures
            r is Some <==> old(self)@.can_observe(leads, event@, current@),
            r matches Some(variances) ==> views(variances@) == old(self)@.reported(leads, event@) && final(self)@
                == old(self)@.observed(leads, event@, current@),
            r is None ==> final(self)@ == old(self)@,
    {
        match event {
            SignerEvent::LeaderChanged(_) => Some(self.end_round()),
            SignerEvent::RoundStarted(round) => {
                if !leads {
                    return Some(no_variances());
                }
                let my_feeds = current.synthetic_feeds();
                assert(named_feeds(my_feeds@) =~= current@.feeds());
                if !check_feeds(my_feeds.as_slice()) {
                    return None;
                }
                Some(self.begin_round(round.as_str(), current))
            },
            SignerEvent::Message(_, SignerMessage { round, data: SignerMessageData::Commit(commitment) }) => {
                assert(plain_feeds(commitment@.synthetic_feeds) =~= views(commitment.synthetic_feeds@));
                let is_current = match &self.round {
                    Some(current) => str_equal(current.as_str(), round.as_str()),
                    None => false,
                };
                if is_current && !check_prices(commitment.synthetic_feeds.as_slice()) {
                    return None;
                }
                self.track_prices(round.as_str(), commitment.synthetic_feeds.as_slice());
                Some(no_variances())
            },
            _ => Some(no_variances()),
        }
    }
}

fn no_variances() -> (r: Vec<PriceVariance>)
    ensures
        views(r@) == Seq::<PriceVarianceView>::empty(),
{
    let r: Vec<PriceVariance> = Vec::new();
    assert(views(r@) =~= Seq::<PriceVarianceView>::empty());
    r
}

impl Default for PriceInstrumentation {
    fn default() -> (r: Self)
        ensures
            r@.round is None,
            r@.collateral_names == Map::<Seq<char>, Seq<Seq<char>>>::empty(),
            r@.all_prices == Map::<Seq<char>, Seq<Seq<real>>>::empty(),
    {
        PriceInstrumentation::new()
    }
}

} // verus!
