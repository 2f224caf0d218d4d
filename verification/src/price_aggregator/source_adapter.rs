//! The prices that a source has reported, and how it is doing. Times are in nanoseconds.

use vstd::prelude::*;

use crate::health::{HealthInfo, HealthInfoView, HealthStatus, Origin, OriginView, StatusView};
use crate::names::{alphabetical, ascending, keys_of, lemma_alphabetical, lemma_entries_listed, lemma_entry, lists_map};
use crate::names::{lemma_place, map_of, names_ascend, names_of, precedes, NameMap, Named};
use crate::price_aggregator::conversions::{quotes, QuoteView};
use crate::price_feed::synthetic::texts;
use crate::sources::source::{PriceInfo, PriceInfoSnapshot, SnapshotView};
use crate::text::{between, debug_text, join, show_text};

pub mod laws;

verus! {

/// How long ago something was; nothing if it is in the future.
pub open spec fn age(now: u128, then_was: u128) -> u128 {
    if now >= then_was {
        (now - then_was) as u128
    } else {
        0
    }
}

fn find_age(now: u128, then_was: u128) -> (r: u128)
    ensures
        r == age(now, then_was),
{
    if now >= then_was {
        now - then_was
    } else {
        0
    }
}

/// What a source has reported.
pub struct SourceAdapter {
    name: String,
    max_time_without_updates: u128,
    prices: NameMap<String, PriceInfoSnapshot>,
    last_updated: NameMap<String, Option<u128>>,
}

pub struct SourceView {
    pub name: Seq<char>,
    /// After how long without a new price the source is unhealthy, and its price too old.
    pub max_age: u128,
    /// The last price of each token.
    pub prices: Map<Seq<char>, SnapshotView>,
    /// When each token was updated last; nothing for one that is still to come.
    pub last_updated: Map<Seq<char>, Option<u128>>,
}

/// Prices by token.
pub open spec fn snapshots(prices: Map<Seq<char>, PriceInfoSnapshot>) -> Map<Seq<char>, SnapshotView> {
    prices.map_values(|price: PriceInfoSnapshot| price@)
}

impl View for SourceAdapter {
    type V = SourceView;

    closed spec fn view(&self) -> SourceView {
        SourceView {
            name: self.name@,
            max_age: self.max_time_without_updates,
            prices: snapshots(self.prices@),
            last_updated: self.last_updated@,
        }
    }
}

/// Tokens that are still to come.
pub open spec fn awaited(tokens: Seq<Seq<char>>) -> Map<Seq<char>, Option<u128>> {
    Map::new(|token: Seq<char>| tokens.contains(token), |token: Seq<char>| None)
}

/// Whether a price counts: those of nothing, or with no weight, do not.
pub open spec fn counts(price: SnapshotView) -> bool {
    price.info.value.mantissa != 0 && price.info.reliability.mantissa != 0
}

/// Whether a token went without an update for too long.
pub open spec fn is_late(source: SourceView, token: Seq<char>, now: u128) -> bool {
    match source.last_updated[token] {
        Some(updated) => age(now, updated) >= source.max_age,
        None => true,
    }
}

/// Tokens that went without an update for too long.
pub open spec fn late_tokens(source: SourceView, now: u128) -> Map<Seq<char>, Seq<char>> {
    Map::new(
        |token: Seq<char>| source.last_updated.contains_key(token) && is_late(source, token, now),
        |token: Seq<char>| token,
    )
}

/// Names in quotes, as they are shown, with commas between them.
pub open spec fn quoted_names(names: Seq<Seq<char>>) -> Seq<char>
    decreases names.len(),
{
    if names.len() == 0 {
        seq![]
    } else if names.len() == 1 {
        debug_text(names[0])
    } else {
        quoted_names(names.drop_last()) + ", "@ + debug_text(names.last())
    }
}

/// How a source is doing.
pub open spec fn source_health(source: SourceView, now: u128) -> HealthInfoView {
    let late = alphabetical(late_tokens(source, now));
    HealthInfoView {
        origin: OriginView::Source(source.name),
        status: if late.len() == 0 {
            StatusView::Healthy
        } else {
            StatusView::Unhealthy("Went more than 30 seconds without updates for ["@ + quoted_names(late) + "]"@)
        },
    }
}

impl SourceView {
    /// What is known after a price was reported.
    pub open spec fn with_price(self, price: SnapshotView) -> SourceView {
        if counts(price) {
            SourceView {
                prices: self.prices.insert(price.info.token, price),
                last_updated: self.last_updated.insert(price.info.token, Some(price.as_of)),
                ..self
            }
        } else {
            self
        }
    }
}

impl SourceAdapter {
    pub fn new(name: String, tokens: &Vec<String>, max_time_without_updates: u128) -> (r: Self)
        ensures
            r@.name == name@,
            r@.max_age == max_time_without_updates,
            r@.prices == Map::<Seq<char>, SnapshotView>::empty(),
            r@.last_updated == awaited(texts(tokens@)),
    {
        let mut last_updated: NameMap<String, Option<u128>> = NameMap::new();
        let ghost all = texts(tokens@);
        let mut i: usize = 0;
        while i < tokens.len()
            invariant
                i <= tokens.len(),
                all == texts(tokens@),
                forall|token: Seq<char>| #[trigger]
                    last_updated@.contains_key(token) <==> all.take(i as int).contains(token),
                forall|token: Seq<char>| #[trigger]
                    last_updated@.contains_key(token) ==> last_updated@[token] is None,
            decreases tokens.len() - i,
        {
            let ghost before = last_updated@;
            last_updated.insert(tokens[i].clone(), None);
            proof {
                let new = tokens@[i as int]@;
                let front = all.take(i as int);
                let now = all.take(i + 1);
                assert(now =~= front.push(new));
                assert forall|token: Seq<char>| #[trigger] last_updated@.contains_key(token) <==> now.contains(token) by {
                    assert(before.contains_key(token) <==> front.contains(token));
                    if token == new {
                        assert(now[i as int] == token);
                    } else if front.contains(token) {
                        let k = choose|k: int| 0 <= k < front.len() && front[k] == token;
                        assert(now[k] == token);
                    } else if now.contains(token) {
                        let k = choose|k: int| 0 <= k < now.len() && now[k] == token;
                        assert(front[k] == token);
                    }
                }
            }
            i += 1;
        }
        assert(all.take(i as int) =~= all);
        let r = SourceAdapter { name, max_time_without_updates, prices: NameMap::new(), last_updated };
        assert(r@.prices =~= Map::<Seq<char>, SnapshotView>::empty());
        assert(r@.last_updated =~= awaited(all));
        r
    }

    /// Takes note of a price, if it counts.
    pub fn receive(&mut self, price: PriceInfoSnapshot)
        ensures
            final(self)@ == old(self)@.with_price(price@),
            final(self)@ == if counts(price@) {
                SourceView {
                    prices: old(self)@.prices.insert(price@.info.token, price@),
                    last_updated: old(self)@.last_updated.insert(price@.info.token, Some(price.as_of)),
                    ..old(self)@
                }
            } else {
                old(self)@
            },
    {
        let ghost before = self@;
        if price.info.value.is_zero() || price.info.reliability.is_zero() {
            return;
        }
        let ghost new = price@;
        self.last_updated.insert(price.info.token.clone(), Some(price.as_of));
        self.prices.insert(price.info.token.clone(), price);
        assert(self@.prices =~= before.prices.insert(new.info.token, new));
    }

    /// Tokens that went without an update for too long, in alphabetical order.
    fn find_late_tokens(&self, now: u128) -> (r: Vec<String>)
        ensures
            texts(r@) == alphabetical(late_tokens(self@, now)),
    {
        let entries = self.last_updated.entries();
        let ghost model = late_tokens(self@, now);
        let mut late: Vec<String> = Vec::new();
        let mut i: usize = 0;
        while i < entries.len()
            invariant
                i <= entries.len(),
                entries@ == self.last_updated.listed(),
                self.last_updated@ == map_of(entries@),
                ascending(keys_of(entries@)),
                model == late_tokens(self@, now),
                names_ascend(texts(late@)),
                forall|j: int, k: int|
                    0 <= j < late@.len() && i <= k < entries@.len() ==> precedes(
                        (#[trigger] late@[j])@,
                        (#[trigger] entries@[k]).0@,
                    ),
                forall|j: int| 0 <= j < late@.len() ==> model.contains_key((#[trigger] late@[j])@),
                forall|k: int|
                    0 <= k < i && model.contains_key((#[trigger] entries@[k]).0@) ==> texts(late@).contains(
                        entries@[k].0@,
                    ),
            decreases entries.len() - i,
        {
            let (token, updated) = &entries[i];
            let ghost before = late@;
            proof {
                lemma_entry(entries@, i as int);
                assert forall|k: int| i < k < entries@.len() implies precedes(token@, (#[trigger] entries@[k]).0@) by {
                    assert(keys_of(entries@)[i as int].name() == token@);
                    assert(keys_of(entries@)[k].name() == entries@[k].0@);
                }
            }
            let too_long_without_update = match updated {
                Some(updated) => find_age(now, *updated) >= self.max_time_without_updates,
                None => true,
            };
            if too_long_without_update {
                late.push(token.clone());
                proof {
                    assert(texts(late@) =~= texts(before).push(token@));
                    assert(texts(late@)[before.len() as int] == token@);
                    assert forall|k: int| 0 <= k < i && model.contains_key((#[trigger] entries@[k]).0@) implies texts(
                        late@,
                    ).contains(entries@[k].0@) by {
                        let at = choose|at: int| 0 <= at < before.len() && texts(before)[at] == entries@[k].0@;
                        assert(texts(late@)[at] == entries@[k].0@);
                    }
                    assert forall|a: int, b: int| 0 <= a < b < texts(late@).len() implies precedes(
                        #[trigger] texts(late@)[a],
                        #[trigger] texts(late@)[b],
                    ) by {
                        if b < before.len() {
                            assert(texts(before)[a] == texts(late@)[a]);
                            assert(texts(before)[b] == texts(late@)[b]);
                        } else {
                            assert(late@[a] == before[a]);
                            assert(precedes(before[a]@, entries@[i as int].0@));
                        }
                    }
                }
            }
            i += 1;
        }
        proof {
            let names = texts(late@);
            assert forall|name: Seq<char>| #[trigger] model.contains_key(name) <==> names.contains(name) by {
                if model.contains_key(name) {
                    let at = lemma_place(entries@, name);
                    assert(model.contains_key(entries@[at].0@));
                }
                if names.contains(name) {
                    let at = choose|at: int| 0 <= at < names.len() && names[at] == name;
                    assert(model.contains_key(late@[at]@));
                }
            }
            assert(lists_map(model, names, names));
            lemma_alphabetical(model, names, names);
        }
        late
    }

    /// How the source is doing.
    pub fn health(&self, now: u128) -> (r: HealthInfo)
        ensures
            r@ == source_health(self@, now),
    {
        let late = self.find_late_tokens(now);
        let status = if late.len() == 0 {
            HealthStatus::Healthy
        } else {
            let names = quote_names(&late);
            HealthStatus::Unhealthy(between("Went more than 30 seconds without updates for [", names.as_str(), "]"))
        };
        HealthInfo { origin: Origin::Source(self.name.clone()), status }
    }
}

/// Names in quotes, as they are shown, with commas between them.
fn quote_names(names: &Vec<String>) -> (r: String)
    ensures
        r@ == quoted_names(texts(names@)),
{
    let ghost all = texts(names@);
    let mut text = String::new();
    let mut i: usize = 0;
    assert(all.take(0) =~= seq![]);
    assert(text@ =~= quoted_names(all.take(0)));
    while i < names.len()
        invariant
            i <= names.len(),
            all == texts(names@),
            text@ == quoted_names(all.take(i as int)),
        decreases names.len() - i,
    {
        proof {
            assert(all.take(i + 1).drop_last() =~= all.take(i as int));
            assert(all.take(i + 1).last() == names@[i as int]@);
        }
        let name = show_text(names[i].as_str());
        if i == 0 {
            text = name;
        } else {
            text = between(text.as_str(), ", ", name.as_str());
        }
        i += 1;
    }
    assert(all.take(i as int) =~= all);
    text
}

/// Who reported a price.
pub open spec fn reporter(source: Seq<char>, name: Option<Seq<char>>) -> Seq<char> {
    match name {
        Some(name) => source + " ("@ + name + ")"@,
        None => source,
    }
}

/// Prices that are not too old.
pub open spec fn fresh_quotes(source: SourceView, prices: Seq<SnapshotView>, now: u128) -> Seq<QuoteView>
    decreases prices.len(),
{
    if prices.len() == 0 {
        seq![]
    } else {
        let rest = fresh_quotes(source, prices.drop_last(), now);
        if age(now, prices.last().as_of) > source.max_age {
            rest
        } else {
            rest.push(QuoteView { source: reporter(source.name, prices.last().name), info: prices.last().info })
        }
    }
}

/// The prices of all sources that are not too old: one source after the other, and of each the tokens in
/// alphabetical order.
pub open spec fn latest_quotes(sources: Seq<SourceView>, now: u128) -> Seq<QuoteView>
    decreases sources.len(),
{
    if sources.len() == 0 {
        seq![]
    } else {
        latest_quotes(sources.drop_last(), now) + fresh_quotes(
            sources.last(),
            alphabetical(sources.last().prices),
            now,
        )
    }
}

impl SourceAdapter {
    /// Adds the prices that are not too old.
    fn add_fresh(&self, now: u128, found: &mut Vec<(String, PriceInfo)>)
        ensures
            quotes(final(found)@) == quotes(old(found)@) + fresh_quotes(self@, alphabetical(self@.prices), now),
    {
        let ghost start = quotes(found@);
        let entries = self.prices.entries();
        let ghost listed = Seq::new(entries@.len(), |i: int| entries@[i].1@);
        proof {
            let model = self@.prices;
            let names = names_of(keys_of(entries@));
            lemma_entries_listed(entries@);
            assert forall|i: int| 0 <= i < names.len() implies model[#[trigger] names[i]] == listed[i] by {
                lemma_entry(entries@, i);
            }
            assert forall|name: Seq<char>| #[trigger] model.contains_key(name) <==> names.contains(name) by {
                assert(self.prices@.contains_key(name) <==> names.contains(name));
            }
            assert(lists_map(model, names, listed));
            lemma_alphabetical(model, names, listed);
        }
        let mut i: usize = 0;
        assert(listed.take(0) =~= seq![]);
        assert(start =~= start + fresh_quotes(self@, listed.take(0), now));
        while i < entries.len()
            invariant
                i <= entries.len(),
                listed == Seq::new(entries@.len(), |i: int| entries@[i].1@),
                quotes(found@) == start + fresh_quotes(self@, listed.take(i as int), now),
            decreases entries.len() - i,
        {
            let price = &entries[i].1;
            let ghost before = found@;
            let ghost earlier = fresh_quotes(self@, listed.take(i as int), now);
            proof {
                assert(listed.take(i + 1).drop_last() =~= listed.take(i as int));
                assert(listed.take(i + 1).last() == price@);
            }
            if find_age(now, price.as_of) <= self.max_time_without_updates {
                let source_name = match &price.name {
                    Some(name) => join(between(self.name.as_str(), " (", name.as_str()).as_str(), ")"),
                    None => self.name.clone(),
                };
                let ghost quote = QuoteView { source: source_name@, info: price@.info };
                found.push((source_name, price.info.copied()));
                proof {
                    assert(quotes(found@) =~= quotes(before).push(quote));
                    assert(start + earlier.push(quote) =~= (start + earlier).push(quote));
                }
            }
            i += 1;
        }
        assert(listed.take(i as int) =~= listed);
    }
}

/// What is known of these sources.
pub open spec fn source_views(sources: Seq<SourceAdapter>) -> Seq<SourceView> {
    Seq::new(sources.len(), |i: int| sources[i]@)
}

/// The prices of all sources that are not too old.
pub fn latest_source_prices(sources: &Vec<SourceAdapter>, now: u128) -> (r: Vec<(String, PriceInfo)>)
    ensures
        quotes(r@) == latest_quotes(source_views(sources@), now),
{
    let ghost all = source_views(sources@);
    let mut found: Vec<(String, PriceInfo)> = Vec::new();
    let mut i: usize = 0;
    assert(all.take(0) =~= seq![]);
    assert(quotes(found@) =~= latest_quotes(all.take(0), now));
    while i < sources.len()
        invariant
            i <= sources.len(),
            all == source_views(sources@),
            quotes(found@) == latest_quotes(all.take(i as int), now),
        decreases sources.len() - i,
    {
        sources[i].add_fresh(now, &mut found);
        proof {
            assert(all.take(i + 1).drop_last() =~= all.take(i as int));
            assert(all.take(i + 1).last() == sources@[i as int]@);
        }
        i += 1;
    }
    assert(all.take(i as int) =~= all);
    found
}

/// A price that does not count changes nothing.
pub proof fn law_worthless_prices_are_ignored(price: SnapshotView)
    requires
        price.info.value.value() == 0real || price.info.reliability.value() == 0real,
    ensures
        !counts(price),
{
    crate::decimal::lemma_ten_to(0, price.info.value.scale);
    crate::decimal::lemma_ten_to(0, price.info.reliability.scale);
    crate::numbers::lemma_fraction_sign(
        price.info.value.mantissa,
        crate::decimal::ten_to(price.info.value.scale) as int,
    );
    crate::numbers::lemma_fraction_sign(
        price.info.reliability.mantissa,
        crate::decimal::ten_to(price.info.reliability.scale) as int,
    );
}

/// No price that is too old is handed on.
pub proof fn law_old_prices_are_not_used(source: SourceView, prices: Seq<SnapshotView>, now: u128, at: int)
    requires
        0 <= at < fresh_quotes(source, prices, now).len(),
    ensures
        exists|i: int|
            #![trigger prices[i]]
            {
                &&& 0 <= i < prices.len()
                &&& age(now, prices[i].as_of) <= source.max_age
                &&& fresh_quotes(source, prices, now)[at] == (QuoteView {
                    source: reporter(source.name, prices[i].name),
                    info: prices[i].info,
                })
            },
    decreases prices.len(),
{
    let rest = prices.drop_last();
    let quotes = fresh_quotes(source, rest, now);
    if at < quotes.len() {
        law_old_prices_are_not_used(source, rest, now, at);
        let i = choose|i: int|
            #![trigger rest[i]]
            {
                &&& 0 <= i < rest.len()
                &&& age(now, rest[i].as_of) <= source.max_age
                &&& quotes[at] == (QuoteView { source: reporter(source.name, rest[i].name), info: rest[i].info })
            };
        assert(rest[i] == prices[i]);
    } else {
        assert(prices.last() == prices[prices.len() - 1]);
    }
}

} // verus!
