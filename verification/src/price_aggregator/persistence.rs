//! The prices that are kept for when a source has none.

use vstd::prelude::*;

use crate::names::{alphabetical, ascending, keys_of, lemma_alphabetical, lemma_entries_listed, lemma_entry, lemma_place};
use crate::names::{lemma_pushed_name, lists_map, map_of, names_of, NameMap};
use crate::numbers::Rational;
use crate::price_aggregator::conversions::{valuation, ConverterView, Evaluation, TokenPrice, TokenPriceConverter};
use crate::price_aggregator::conversions::{TokenPriceSource, TokenPriceSourceView, TokenPriceView, Valuation};
use crate::price_feed::synthetic::texts;
use crate::price_feed::views;

pub mod laws;

verus! {

/// The prices that are kept.
#[derive(Debug)]
pub struct TokenPricePersistence {
    currencies: Vec<String>,
    prices: NameMap<String, Rational>,
}

/// The prices that are kept, of these currencies.
pub struct PersistenceView {
    pub currencies: Seq<Seq<char>>,
    pub prices: Map<Seq<char>, real>,
}

impl View for TokenPricePersistence {
    type V = PersistenceView;

    closed spec fn view(&self) -> PersistenceView {
        PersistenceView {
            currencies: texts(self.currencies@),
            prices: self.prices@.map_values(|price: Rational| price@),
        }
    }
}

/// Prices by token; of several prices of a token, the last.
pub open spec fn loaded(data: Seq<(String, Rational)>) -> Map<Seq<char>, real>
    decreases data.len(),
{
    if data.len() == 0 {
        Map::empty()
    } else {
        loaded(data.drop_last()).insert(data.last().0@, data.last().1@)
    }
}

/// Prices of different tokens are loaded as they are.
proof fn lemma_loaded(entries: Seq<(String, Rational)>)
    requires
        ascending(keys_of(entries)),
    ensures
        loaded(entries) == map_of(entries).map_values(|price: Rational| price@),
    decreases entries.len(),
{
    let listed = map_of(entries).map_values(|price: Rational| price@);
    if entries.len() == 0 {
        assert(loaded(entries) =~= listed);
    } else {
        let rest = entries.drop_last();
        let last = entries.len() - 1;
        assert(keys_of(rest) =~= keys_of(entries).drop_last());
        lemma_loaded(rest);
        lemma_entry(entries, last);
        let before = map_of(rest).map_values(|price: Rational| price@);
        let after = before.insert(entries[last].0@, entries[last].1@);
        assert forall|name: Seq<char>| #[trigger] after.contains_key(name) <==> listed.contains_key(name) by {
            assert(keys_of(entries) =~= keys_of(rest).push(entries[last].0));
            lemma_pushed_name(keys_of(rest), entries[last].0, name);
        }
        assert forall|name: Seq<char>| #[trigger] after.contains_key(name) implies after[name] == listed[name] by {
            if name != entries[last].0@ {
                let at = lemma_place(rest, name);
                lemma_entry(rest, at);
                lemma_entry(entries, at);
            }
        }
        assert(after =~= listed);
        assert(loaded(entries) =~= after);
    }
}

/// The prices of those currencies that have one.
pub open spec fn known_prices(converter: ConverterView, currencies: Seq<Seq<char>>) -> Map<Seq<char>, real>
    decreases currencies.len(),
{
    if currencies.len() == 0 {
        Map::empty()
    } else {
        let rest = known_prices(converter, currencies.drop_last());
        match valuation(converter, currencies.last()) {
            Valuation::Value(price) => rest.insert(currencies.last(), price),
            _ => rest,
        }
    }
}

/// Whether each of these currencies has a price, or is known to have none.
pub open spec fn are_defined(converter: ConverterView, currencies: Seq<Seq<char>>) -> bool {
    forall|i: int| 0 <= i < currencies.len() ==> valuation(converter, #[trigger] currencies[i]) !is Undefined
}

/// A price that was kept, as a price of a token.
pub open spec fn saved_price(token: Seq<char>, price: real) -> TokenPriceView {
    TokenPriceView {
        token,
        unit: "USD"@,
        value: price,
        sources: seq![TokenPriceSourceView { name: "Loaded from disk"@, value: price, reliability: 1real }],
    }
}

/// The prices that were kept, as prices of tokens.
pub open spec fn saved(prices: Map<Seq<char>, real>) -> Map<Seq<char>, TokenPriceView> {
    Map::new(|token: Seq<char>| prices.contains_key(token), |token: Seq<char>| saved_price(token, prices[token]))
}

impl TokenPricePersistence {
    /// The prices that were kept, and the currencies whose prices are to be kept.
    pub fn new(currencies: Vec<String>, data: Vec<(String, Rational)>) -> (r: Self)
        ensures
            r@.currencies == texts(currencies@),
            r@.prices == loaded(data@),
    {
        let mut prices: NameMap<String, Rational> = NameMap::new();
        let mut i: usize = 0;
        assert(data@.take(0) =~= seq![]);
        assert(prices@.map_values(|price: Rational| price@) =~= loaded(data@.take(0)));
        while i < data.len()
            invariant
                i <= data.len(),
                prices@.map_values(|price: Rational| price@) == loaded(data@.take(i as int)),
            decreases data.len() - i,
        {
            let (token, price) = &data[i];
            let ghost before = prices@;
            prices.insert(token.clone(), price.clone());
            proof {
                assert(data@.take(i + 1).drop_last() =~= data@.take(i as int));
                assert(data@.take(i + 1).last() == data@[i as int]);
                assert(prices@.map_values(|price: Rational| price@) =~= before.map_values(
                    |price: Rational| price@,
                ).insert(token@, price@));
            }
            i += 1;
        }
        assert(data@.take(i as int) =~= data@);
        TokenPricePersistence { currencies, prices }
    }

    /// Keeps the prices that are known now, and says whether all of them are defined; if not, the old ones are kept.
    pub fn save_prices(&mut self, converter: &TokenPriceConverter) -> (r: bool)
        ensures
            final(self)@.currencies == old(self)@.currencies,
            r == are_defined(converter@, old(self)@.currencies),
            final(self)@.prices == if r {
                known_prices(converter@, old(self)@.currencies)
            } else {
                old(self)@.prices
            },
    {
        let ghost all = texts(self.currencies@);
        let mut prices: NameMap<String, Rational> = NameMap::new();
        let mut i: usize = 0;
        assert(all.take(0) =~= seq![]);
        assert(prices@.map_values(|price: Rational| price@) =~= known_prices(converter@, all.take(0)));
        while i < self.currencies.len()
            invariant
                i <= self.currencies.len(),
                self@ == old(self)@,
                all == texts(self.currencies@),
                prices@.map_values(|price: Rational| price@) == known_prices(converter@, all.take(i as int)),
                forall|j: int| 0 <= j < i ==> valuation(converter@, #[trigger] all[j]) !is Undefined,
            decreases self.currencies.len() - i,
        {
            let token = &self.currencies[i];
            let ghost before = prices@;
            proof {
                assert(all.take(i + 1).drop_last() =~= all.take(i as int));
                assert(all.take(i + 1).last() == token@);
                assert(all[i as int] == token@);
            }
            match converter.evaluate(token.as_str()) {
                Evaluation::Value(price) => {
                    let ghost value = price@;
                    prices.insert(token.clone(), price);
                    assert(prices@.map_values(|price: Rational| price@) =~= before.map_values(
                        |price: Rational| price@,
                    ).insert(token@, value));
                },
                Evaluation::Nothing => {},
                Evaluation::Undefined => {
                    return false;
                },
            }
            i += 1;
        }
        assert(all.take(i as int) =~= all);
        self.prices = prices;
        true
    }

    /// The prices that are kept, in alphabetical order of the tokens. Loaded again, they are the same.
    pub fn prices(&self) -> (r: &Vec<(String, Rational)>)
        ensures
            ascending(keys_of(r@)),
            map_of(r@).map_values(|price: Rational| price@) == self@.prices,
            loaded(r@) == self@.prices,
    {
        let r = self.prices.entries();
        proof {
            lemma_loaded(r@);
        }
        r
    }

    /// The prices that are kept, as prices of tokens.
    pub fn saved_prices(&self) -> (r: Vec<TokenPrice>)
        ensures
            views(r@) == alphabetical(saved(self@.prices)),
    {
        let entries = self.prices.entries();
        let mut found: Vec<TokenPrice> = Vec::new();
        let mut i: usize = 0;
        while i < entries.len()
            invariant
                i <= entries.len(),
                found.len() == i,
                forall|j: int| 0 <= j < i ==> (#[trigger] found@[j])@ == saved_price(entries@[j].0@, entries@[j].1@),
            decreases entries.len() - i,
        {
            let (token, value) = &entries[i];
            let source = TokenPriceSource {
                name: "Loaded from disk".to_owned(),
                value: value.clone(),
                reliability: Rational::from_u64(1),
            };
            let mut sources: Vec<TokenPriceSource> = Vec::new();
            sources.push(source);
            let price = TokenPrice {
                token: token.clone(),
                unit: "USD".to_owned(),
                value: value.clone(),
                sources,
            };
            assert(price@.sources =~= saved_price(token@, value@).sources);
            found.push(price);
            i += 1;
        }
        proof {
            let model = saved(self@.prices);
            let names = names_of(keys_of(entries@));
            let listed = views(found@);
            lemma_entries_listed(entries@);
            assert forall|name: Seq<char>| #[trigger] model.contains_key(name) <==> names.contains(name) by {
                assert(self.prices@.contains_key(name) <==> names.contains(name));
            }
            assert forall|i: int| 0 <= i < names.len() implies model[#[trigger] names[i]] == listed[i] by {
                lemma_entry(entries@, i);
                assert(listed[i] == found@[i]@);
            }
            assert(lists_map(model, names, listed));
            lemma_alphabetical(model, names, listed);
        }
        found
    }
}

} // verus!
