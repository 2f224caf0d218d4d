//! The latest signed feeds, and whether a leader still keeps them up to date.

use vstd::prelude::*;

use crate::names::{alphabetical, ascending, keys_of, lemma_ascending_unique, lemma_entry, lemma_place, NameMap, Named};
use crate::network::NodeId;
use crate::numbers::Rational;
use crate::price_feed::generic::GenericFeedView;
use crate::price_feed::synthetic::{texts, SyntheticFeedView};
use crate::price_feed::{views, Copied, EntriesView, GenericPriceFeed, IntervalBoundType};
use crate::price_feed::{PlutusCompatible, Signed, SignedEntries, SignedView, SyntheticEntry, SyntheticEntryView};
use crate::price_feed::SyntheticPriceFeed;
use crate::signature_aggregator::signer::{entries_by_name, list_values};

pub mod laws;

verus! {

/// How often in a row a synthetic may fail before the leader should step down.
pub const MAX_FAILURES: usize = 5;

/// A year, in nanoseconds.
pub const YEAR: u128 = 31_536_000_000_000_000;

/// The latest signed feed of a synthetic.
#[derive(Debug)]
pub struct SyntheticPayloadEntry {
    pub timestamp: u128,
    pub synthetic: String,
    pub price: Rational,
    pub payload: Signed<SyntheticPriceFeed>,
}

/// The latest signed feed of a currency.
#[derive(Debug)]
pub struct GenericPayloadEntry {
    pub timestamp: u128,
    pub name: String,
    pub payload: Signed<GenericPriceFeed>,
}

/// The latest signed feeds, and who published last.
#[derive(Debug)]
pub struct Payload {
    pub publisher: NodeId,
    pub timestamp: u128,
    pub synthetics: Vec<SyntheticPayloadEntry>,
    pub generics: Vec<GenericPayloadEntry>,
}

pub struct SyntheticPayloadView {
    pub timestamp: u128,
    pub synthetic: Seq<char>,
    pub price: real,
    pub payload: SignedView<SyntheticFeedView>,
}

pub struct GenericPayloadView {
    pub timestamp: u128,
    pub name: Seq<char>,
    pub payload: SignedView<GenericFeedView>,
}

pub struct PayloadView {
    pub publisher: Seq<char>,
    pub timestamp: u128,
    pub synthetics: Seq<SyntheticPayloadView>,
    pub generics: Seq<GenericPayloadView>,
}

impl View for SyntheticPayloadEntry {
    type V = SyntheticPayloadView;

    open spec fn view(&self) -> SyntheticPayloadView {
        SyntheticPayloadView {
            timestamp: self.timestamp,
            synthetic: self.synthetic@,
            price: self.price@,
            payload: self.payload.model(),
        }
    }
}

impl View for GenericPayloadEntry {
    type V = GenericPayloadView;

    open spec fn view(&self) -> GenericPayloadView {
        GenericPayloadView { timestamp: self.timestamp, name: self.name@, payload: self.payload.model() }
    }
}

impl View for Payload {
    type V = PayloadView;

    open spec fn view(&self) -> PayloadView {
        PayloadView {
            publisher: self.publisher@,
            timestamp: self.timestamp,
            synthetics: views(self.synthetics@),
            generics: views(self.generics@),
        }
    }
}

impl Copied for SyntheticPayloadEntry {
    fn copied(&self) -> (r: Self) {
        SyntheticPayloadEntry {
            timestamp: self.timestamp,
            synthetic: self.synthetic.clone(),
            price: self.price.clone(),
            payload: Signed {
                data: self.payload.data.clone(),
                signature: crate::frost::copy_bytes(&self.payload.signature),
            },
        }
    }
}

impl Copied for GenericPayloadEntry {
    fn copied(&self) -> (r: Self) {
        GenericPayloadEntry {
            timestamp: self.timestamp,
            name: self.name.clone(),
            payload: Signed {
                data: self.payload.data.clone(),
                signature: crate::frost::copy_bytes(&self.payload.signature),
            },
        }
    }
}

/// When a signed feed was made: where it does not say so, with its payload.
pub open spec fn made_at(entry: SyntheticEntryView, payload: EntriesView) -> u128 {
    match entry.timestamp {
        Some(timestamp) => timestamp,
        None => payload.timestamp,
    }
}

/// The latest feed of a synthetic.
pub open spec fn synthetic_latest(entry: SyntheticEntryView, payload: EntriesView) -> SyntheticPayloadView {
    SyntheticPayloadView {
        timestamp: made_at(entry, payload),
        synthetic: entry.feed.data.synthetic,
        price: entry.price,
        payload: entry.feed,
    }
}

/// Whether a feed is newer than the latest one of its name.
pub open spec fn is_new_synthetic(
    known: Map<Seq<char>, SyntheticPayloadView>,
    entry: SyntheticEntryView,
    payload: EntriesView,
) -> bool {
    let name = entry.feed.data.synthetic;
    !(known.contains_key(name) && known[name].timestamp >= made_at(entry, payload))
}

/// The latest feeds of synthetics after the first `count` of a payload, and the names of those that
/// were new.
pub open spec fn absorbed(
    known: Map<Seq<char>, SyntheticPayloadView>,
    payload: EntriesView,
    count: int,
) -> (Map<Seq<char>, SyntheticPayloadView>, Set<Seq<char>>)
    decreases count,
{
    if count <= 0 {
        (known, Set::empty())
    } else {
        let (latest, updated) = absorbed(known, payload, count - 1);
        let entry = payload.synthetics[count - 1];
        let name = entry.feed.data.synthetic;
        if is_new_synthetic(latest, entry, payload) {
            (latest.insert(name, synthetic_latest(entry, payload)), updated.insert(name))
        } else {
            (latest, updated)
        }
    }
}

/// When each synthetic's feed was made and until when it can be used, after the first `count` feeds of a
/// payload.
pub open spec fn aged(
    known: Map<Seq<char>, SyntheticPayloadView>,
    ages: Map<Seq<char>, (u128, u128)>,
    payload: EntriesView,
    now: u128,
    count: int,
) -> Map<Seq<char>, (u128, u128)>
    decreases count,
{
    if count <= 0 {
        ages
    } else {
        let before = aged(known, ages, payload, now, count - 1);
        let entry = payload.synthetics[count - 1];
        if is_new_synthetic(absorbed(known, payload, count - 1).0, entry, payload) {
            before.insert(entry.feed.data.synthetic, (made_at(entry, payload), end_of_validity(entry, now) as u128))
        } else {
            before
        }
    }
}

/// The latest feeds of currencies after the first `count` of a payload.
pub open spec fn absorbed_generics(
    known: Map<Seq<char>, GenericPayloadView>,
    payload: EntriesView,
    count: int,
) -> Map<Seq<char>, GenericPayloadView>
    decreases count,
{
    if count <= 0 {
        known
    } else {
        let latest = absorbed_generics(known, payload, count - 1);
        let entry = payload.generics[count - 1];
        let name = entry.feed.data.name;
        if latest.contains_key(name) && latest[name].timestamp >= entry.timestamp {
            latest
        } else {
            latest.insert(name, GenericPayloadView { timestamp: entry.timestamp, name, payload: entry.feed })
        }
    }
}

/// How often in a row each synthetic has failed, after a payload. Only our own failures count: where
/// someone else published, the count starts again.
pub open spec fn counted(
    failures: Map<Seq<char>, usize>,
    updated: Set<Seq<char>>,
    is_ours: bool,
) -> Map<Seq<char>, usize> {
    failures.map_entries(
        |name: Seq<char>, count: usize| if is_ours && !updated.contains(name) { (count + 1) as usize } else { 0 },
    )
}

/// Some synthetic has failed too often in a row.
pub open spec fn failed_too_often(failures: Map<Seq<char>, usize>) -> bool {
    exists|name: Seq<char>| #[trigger] failures.contains_key(name) && failures[name] >= MAX_FAILURES
}

/// When a feed's validity ends.
pub open spec fn end_of_validity(entry: SyntheticEntryView, now: u128) -> int {
    match entry.feed.data.validity.upper_bound.bound_type {
        IntervalBoundType::NegativeInfinity => 0,
        IntervalBoundType::PositiveInfinity => now + YEAR,
        IntervalBoundType::Finite(timestamp) => timestamp * 1_000_000,
    }
}

/// The moment from which on a signed feed can no longer be used; a feed without an end counts for a
/// year.
pub fn find_end_of_entry_validity(entry: &SyntheticEntry, now: u128) -> (r: u128)
    requires
        now + YEAR <= u128::MAX,
    ensures
        r == end_of_validity(entry@, now),
{
    match entry.feed.data.validity.upper_bound.bound_type {
        IntervalBoundType::NegativeInfinity => 0,
        IntervalBoundType::PositiveInfinity => now + YEAR,
        IntervalBoundType::Finite(timestamp) => timestamp as u128 * 1_000_000,
    }
}

/// Follows what is published.
pub struct PayloadTracker {
    id: NodeId,
    latest: NameMap<String, SyntheticPayloadEntry>,
    latest_generics: NameMap<String, GenericPayloadEntry>,
    failures: NameMap<String, usize>,
    /// When each synthetic's feed was made, and until when it can be used.
    ages: NameMap<String, (u128, u128)>,
}

/// What a node knows of what was published.
pub struct TrackerView {
    pub id: Seq<char>,
    pub latest: Map<Seq<char>, SyntheticPayloadView>,
    pub latest_generics: Map<Seq<char>, GenericPayloadView>,
    pub failures: Map<Seq<char>, usize>,
    pub ages: Map<Seq<char>, (u128, u128)>,
}

impl View for PayloadTracker {
    type V = TrackerView;

    closed spec fn view(&self) -> TrackerView {
        TrackerView {
            id: self.id@,
            latest: entries_by_name(self.latest@),
            latest_generics: entries_by_name(self.latest_generics@),
            failures: self.failures@,
            ages: self.ages@,
        }
    }
}

/// What follows from a payload.
pub struct Published {
    pub payload: Payload,
    /// We are no longer fit to be leader.
    pub should_abdicate: bool,
}

impl TrackerView {
    /// What a node knows after a payload.
    pub open spec fn followed(self, publisher: Seq<char>, payload: EntriesView, now: u128) -> TrackerView {
        let (latest, updated) = absorbed(self.latest, payload, payload.synthetics.len() as int);
        TrackerView {
            id: self.id,
            latest,
            ages: aged(self.latest, self.ages, payload, now, payload.synthetics.len() as int),
            latest_generics: absorbed_generics(self.latest_generics, payload, payload.generics.len() as int),
            failures: counted(self.failures, updated, publisher == self.id),
        }
    }

    /// The latest feeds in alphabetical order.
    pub open spec fn as_payload(self, publisher: Seq<char>, timestamp: u128) -> PayloadView {
        PayloadView {
            publisher,
            timestamp,
            synthetics: alphabetical(self.latest),
            generics: alphabetical(self.latest_generics),
        }
    }
}

/// A synthetic that is not known yet counts as made at the start, and as usable for a minute.
pub open spec fn initial_ages(names: Seq<Seq<char>>, now: u128) -> Map<Seq<char>, (u128, u128)> {
    Map::new(|name: Seq<char>| names.contains(name), |name: Seq<char>| (now, (now + 60_000_000_000) as u128))
}

impl PayloadTracker {
    /// Follows these synthetics from now on.
    pub fn new(id: NodeId, synthetics: &Vec<String>, now: u128) -> (r: Self)
        requires
            now + 60_000_000_000 <= u128::MAX,
        ensures
            r@.id == id@,
            r@.latest == Map::<Seq<char>, SyntheticPayloadView>::empty(),
            r@.latest_generics == Map::<Seq<char>, GenericPayloadView>::empty(),
            r@.failures == Map::new(|name: Seq<char>| texts(synthetics@).contains(name), |name: Seq<char>| 0usize),
            r@.ages == initial_ages(texts(synthetics@), now),
    {
        let ghost names = texts(synthetics@);
        let mut failures: NameMap<String, usize> = NameMap::new();
        let mut ages: NameMap<String, (u128, u128)> = NameMap::new();
        let mut i: usize = 0;
        while i < synthetics.len()
            invariant
                i <= synthetics.len(),
                names == texts(synthetics@),
                now + 60_000_000_000 <= u128::MAX,
                forall|name: Seq<char>| #[trigger] failures@.contains_key(name) <==> names.take(i as int).contains(name),
                forall|name: Seq<char>| #[trigger] failures@.contains_key(name) ==> failures@[name] == 0,
                forall|name: Seq<char>| #[trigger] ages@.contains_key(name) <==> names.take(i as int).contains(name),
                forall|name: Seq<char>| #[trigger]
                    ages@.contains_key(name) ==> ages@[name] == (now, (now + 60_000_000_000) as u128),
            decreases synthetics.len() - i,
        {
            failures.insert(synthetics[i].clone(), 0);
            ages.insert(synthetics[i].clone(), (now, now + 60_000_000_000));
            proof {
                let done = names.take(i as int);
                let name = names[i as int];
                assert(names.take(i + 1) =~= done.push(name));
                assert forall|n: Seq<char>| #[trigger] failures@.contains_key(n) <==> names.take(i + 1).contains(n) by {
                    lemma_push_contains(done, name, n);
                }
                assert forall|n: Seq<char>| #[trigger] ages@.contains_key(n) <==> names.take(i + 1).contains(n) by {
                    lemma_push_contains(done, name, n);
                }
            }
            i += 1;
        }
        let r = PayloadTracker { id, latest: NameMap::new(), latest_generics: NameMap::new(), failures, ages };
        proof {
            assert(names.take(i as int) =~= names);
            assert(r@.failures =~= Map::new(|name: Seq<char>| names.contains(name), |name: Seq<char>| 0usize));
            assert(r@.ages =~= initial_ages(names, now));
            assert(r@.latest =~= Map::<Seq<char>, SyntheticPayloadView>::empty());
            assert(r@.latest_generics =~= Map::<Seq<char>, GenericPayloadView>::empty());
        }
        r
    }

    /// Takes in the synthetics of a payload, and says which of them were new.
    fn absorb_synthetics(&mut self, payload: &SignedEntries, now: u128) -> (updated: NameMap<String, ()>)
        requires
            now + YEAR <= u128::MAX,
        ensures
            ({
                let after = absorbed(old(self)@.latest, payload@, payload@.synthetics.len() as int);
                &&& final(self)@.latest == after.0
                &&& updated@.dom() == after.1
            }),
            final(self)@ == (TrackerView {
                latest: final(self)@.latest,
                ages: aged(old(self)@.latest, old(self)@.ages, payload@, now, payload@.synthetics.len() as int),
                ..old(self)@
            }),
    {
        let ghost start = self@;
        let mut updated: NameMap<String, ()> = NameMap::new();
        let mut i: usize = 0;
        assert(updated@.dom() =~= Set::empty());
        while i < payload.synthetics.len()
            invariant
                i <= payload.synthetics.len(),
                now + YEAR <= u128::MAX,
                absorbed(start.latest, payload@, i as int) == (self@.latest, updated@.dom()),
                self@ == (TrackerView {
                    latest: self@.latest,
                    ages: aged(start.latest, start.ages, payload@, now, i as int),
                    ..start
                }),
            decreases payload.synthetics.len() - i,
        {
            let entry = &payload.synthetics[i];
            let ghost before = self@;
            let ghost names = updated@.dom();
            assert(payload@.synthetics[i as int] == entry@);
            let synthetic = &entry.feed.data.synthetic;
            let last_updated: u128 = match entry.timestamp {
                Some(timestamp) => timestamp,
                None => payload.timestamp,
            };
            let is_old = match self.latest.get(synthetic.as_str()) {
                Some(known) => known.timestamp >= last_updated,
                None => false,
            };
            assert(is_old == !is_new_synthetic(before.latest, entry@, payload@));
            if !is_old {
                updated.insert(synthetic.clone(), ());
                let valid_until = find_end_of_entry_validity(entry, now);
                let latest = SyntheticPayloadEntry {
                    timestamp: last_updated,
                    synthetic: synthetic.clone(),
                    price: entry.price.clone(),
                    payload: Signed {
                        data: entry.feed.data.clone(),
                        signature: crate::frost::copy_bytes(&entry.feed.signature),
                    },
                };
                assert(latest@ == synthetic_latest(entry@, payload@));
                self.latest.insert(synthetic.clone(), latest);
                self.ages.insert(synthetic.clone(), (last_updated, valid_until));
                proof {
                    assert(self@.latest =~= before.latest.insert(synthetic@, latest@));
                    assert(updated@.dom() =~= names.insert(synthetic@));
                }
            }
            i += 1;
        }
        updated
    }

    /// Takes in the currencies of a payload.
    fn absorb_generics(&mut self, payload: &SignedEntries)
        ensures
            final(self)@ == (TrackerView {
                latest_generics: absorbed_generics(
                    old(self)@.latest_generics,
                    payload@,
                    payload@.generics.len() as int,
                ),
                ..old(self)@
            }),
    {
        let ghost start = self@;
        let mut i: usize = 0;
        while i < payload.generics.len()
            invariant
                i <= payload.generics.len(),
                self@ == (TrackerView {
                    latest_generics: absorbed_generics(start.latest_generics, payload@, i as int),
                    ..start
                }),
            decreases payload.generics.len() - i,
        {
            let entry = &payload.generics[i];
            let ghost before = self@;
            assert(payload@.generics[i as int] == entry@);
            let name = &entry.feed.data.name;
            let is_old = match self.latest_generics.get(name.as_str()) {
                Some(known) => known.timestamp >= entry.timestamp,
                None => false,
            };
            assert(is_old == (before.latest_generics.contains_key(name@) && before.latest_generics[name@].timestamp
                >= entry.timestamp));
            if !is_old {
                let latest = GenericPayloadEntry {
                    timestamp: entry.timestamp,
                    name: name.clone(),
                    payload: Signed {
                        data: entry.feed.data.clone(),
                        signature: crate::frost::copy_bytes(&entry.feed.signature),
                    },
                };
                self.latest_generics.insert(name.clone(), latest);
                assert(self@.latest_generics =~= before.latest_generics.insert(name@, latest@));
            }
            i += 1;
        }
    }

    /// Counts how often in a row each synthetic has failed, and says whether one has too often.
    fn count_failures(&mut self, updated: &NameMap<String, ()>, is_ours: bool) -> (r: bool)
        requires
            is_ours ==> forall|name: Seq<char>| #[trigger]
                old(self)@.failures.contains_key(name) ==> old(self)@.failures[name] < usize::MAX,
        ensures
            final(self)@ == (TrackerView {
                failures: counted(old(self)@.failures, updated@.dom(), is_ours),
                ..old(self)@
            }),
            r == failed_too_often(final(self)@.failures),
    {
        let ghost start = self@;
        let ghost all = counted(start.failures, updated@.dom(), is_ours);
        let mut next: NameMap<String, usize> = NameMap::new();
        let mut too_often = false;
        let entries = self.failures.entries();
        let mut i: usize = 0;
        while i < entries.len()
            invariant
                i <= entries.len(),
                entries@ == self.failures.listed(),
                ascending(keys_of(entries@)),
                start == self@,
                all == counted(start.failures, updated@.dom(), is_ours),
                is_ours ==> forall|name: Seq<char>| #[trigger]
                    start.failures.contains_key(name) ==> start.failures[name] < usize::MAX,
                forall|name: Seq<char>| #[trigger]
                    next@.contains_key(name) <==> exists|j: int| 0 <= j < i && (#[trigger] entries@[j]).0@ == name,
                forall|name: Seq<char>| #[trigger]
                    next@.contains_key(name) ==> all.contains_key(name) && next@[name] == all[name],
                too_often == exists|name: Seq<char>| #[trigger] next@.contains_key(name) && next@[name] >= MAX_FAILURES,
            decreases entries.len() - i,
        {
            let ghost before = next@;
            let name = &entries[i].0;
            proof {
                lemma_entry(entries@, i as int);
                assert(start.failures.contains_key(name@));
                assert(start.failures[name@] == entries@[i as int].1);
                let keys = keys_of(entries@);
                if before.contains_key(name@) {
                    let j = choose|j: int| 0 <= j < i && (#[trigger] entries@[j]).0@ == name@;
                    assert(Named::name(&keys[j]) == Named::name(&keys[i as int]));
                    lemma_ascending_unique(keys, j, i as int);
                }
            }
            let count: usize = if is_ours && !updated.contains(name.as_str()) { entries[i].1 + 1 } else { 0 };
            if count >= MAX_FAILURES {
                too_often = true;
            }
            next.insert(name.clone(), count);
            i += 1;
            proof {
                assert forall|n: Seq<char>| #[trigger]
                    next@.contains_key(n) <==> exists|j: int| 0 <= j < i && (#[trigger] entries@[j]).0@ == n by {
                    if n == name@ {
                        assert(entries@[i - 1].0@ == n);
                    } else if before.contains_key(n) {
                        let j = choose|j: int| 0 <= j < i - 1 && (#[trigger] entries@[j]).0@ == n;
                        assert(entries@[j].0@ == n);
                    }
                }
                if exists|n: Seq<char>| #[trigger] before.contains_key(n) && before[n] >= MAX_FAILURES {
                    let n = choose|n: Seq<char>| #[trigger] before.contains_key(n) && before[n] >= MAX_FAILURES;
                    assert(next@.contains_key(n) && next@[n] >= MAX_FAILURES);
                }
                if count >= MAX_FAILURES {
                    assert(next@.contains_key(name@) && next@[name@] >= MAX_FAILURES);
                }
                if exists|n: Seq<char>| #[trigger] next@.contains_key(n) && next@[n] >= MAX_FAILURES {
                    let n = choose|n: Seq<char>| #[trigger] next@.contains_key(n) && next@[n] >= MAX_FAILURES;
                    if n != name@ {
                        assert(before.contains_key(n));
                    }
                }
            }
        }
        proof {
            assert forall|n: Seq<char>| all.contains_key(n) implies next@.contains_key(n) by {
                assert(self.failures@.contains_key(n));
                let j = lemma_place(entries@, n);
                assert(entries@[j].0@ == n);
            }
            assert(next@ =~= all);
        }
        self.failures = next;
        too_often
    }

    /// Takes in what `publisher` published.
    pub fn publish(&mut self, publisher: NodeId, payload: &SignedEntries, now: u128) -> (r: Published)
        requires
            now + YEAR <= u128::MAX,
            publisher@ == old(self)@.id ==> forall|name: Seq<char>| #[trigger]
                old(self)@.failures.contains_key(name) ==> old(self)@.failures[name] < usize::MAX,
        ensures
            final(self)@ == old(self)@.followed(publisher@, payload@, now),
            r.payload@ == final(self)@.as_payload(publisher@, payload@.timestamp),
            r.should_abdicate == (publisher@ == old(self)@.id && failed_too_often(final(self)@.failures)),
    {
        let updated = self.absorb_synthetics(payload, now);
        self.absorb_generics(payload);
        let is_ours = publisher == self.id;
        let too_often = self.count_failures(&updated, is_ours);
        Published {
            payload: Payload {
                publisher,
                timestamp: payload.timestamp,
                synthetics: list_values(&self.latest),
                generics: list_values(&self.latest_generics),
            },
            should_abdicate: is_ours && too_often,
        }
    }

    /// How old a synthetic's feed is, in milliseconds, and whether it can still be used. Nothing where
    /// it is not known, or was made after `now`.
    pub fn feed_age(&self, synthetic: &str, now: u128) -> (r: Option<(u128, bool)>)
        ensures
            r == (if self@.ages.contains_key(synthetic@) && self@.ages[synthetic@].0 <= now {
                Some((((now - self@.ages[synthetic@].0) / 1_000_000) as u128, now < self@.ages[synthetic@].1))
            } else {
                None
            }),
    {
        match self.ages.get(synthetic) {
            Some(age) => {
                let (made, until) = *age;
                if made <= now {
                    Some(((now - made) / 1_000_000, now < until))
                } else {
                    None
                }
            },
            None => None,
        }
    }
}

proof fn lemma_push_contains(names: Seq<Seq<char>>, name: Seq<char>, n: Seq<char>)
    ensures
        names.push(name).contains(n) <==> names.contains(n) || n == name,
{
    let longer = names.push(name);
    if names.contains(n) {
        let k = choose|k: int| 0 <= k < names.len() && names[k] == n;
        assert(longer[k] == n);
    }
    if n == name {
        assert(longer[names.len() as int] == n);
    }
    if longer.contains(n) {
        let k = choose|k: int| 0 <= k < longer.len() && longer[k] == n;
        if k < names.len() {
            assert(names[k] == n);
        }
    }
}

/// A feed never gives way to an older one: after a payload each synthetic's latest feed is at least as
/// new as it was, and as any of its feeds in the payload.
pub proof fn law_latest_feeds_are_newest(
    known: Map<Seq<char>, SyntheticPayloadView>,
    payload: EntriesView,
    count: int,
    name: Seq<char>,
)
    requires
        0 <= count <= payload.synthetics.len(),
    ensures
        ({
            let latest = absorbed(known, payload, count).0;
            &&& known.contains_key(name) ==> latest.contains_key(name) && latest[name].timestamp >= known[name].timestamp
            &&& forall|i: int|
                0 <= i < count && (#[trigger] payload.synthetics[i]).feed.data.synthetic == name ==> latest.contains_key(name)
                    && latest[name].timestamp >= made_at(payload.synthetics[i], payload)
        }),
    decreases count,
{
    if count > 0 {
        law_latest_feeds_are_newest(known, payload, count - 1, name);
    }
}

/// Where someone else publishes, we are not held to account: all counts of failures are zero.
pub proof fn law_others_reset_failures(tracker: TrackerView, publisher: Seq<char>, payload: EntriesView, now: u128, name: Seq<char>)
    requires
        publisher != tracker.id,
        tracker.failures.contains_key(name),
    ensures
        tracker.followed(publisher, payload, now).failures[name] == 0,
        !failed_too_often(tracker.followed(publisher, payload, now).failures),
{
    let after = tracker.followed(publisher, payload, now).failures;
    assert forall|n: Seq<char>| #[trigger] after.contains_key(n) implies after[n] < MAX_FAILURES by {
        assert(after[n] == 0);
    }
}

impl TrackerView {
    /// What a node knows after payloads of its own, each with the moment at which it comes.
    pub open spec fn followed_own(self, payloads: Seq<(EntriesView, u128)>) -> TrackerView
        decreases payloads.len(),
    {
        if payloads.len() == 0 {
            self
        } else {
            let (payload, now) = payloads.last();
            self.followed_own(payloads.drop_last()).followed(self.id, payload, now)
        }
    }

    /// Each of these payloads lacks a new feed of the synthetic.
    pub open spec fn misses(self, payloads: Seq<(EntriesView, u128)>, name: Seq<char>) -> bool
        decreases payloads.len(),
    {
        if payloads.len() == 0 {
            true
        } else {
            let (payload, _) = payloads.last();
            let before = self.followed_own(payloads.drop_last());
            self.misses(payloads.drop_last(), name) && !absorbed(
                before.latest,
                payload,
                payload.synthetics.len() as int,
            ).1.contains(name)
        }
    }
}

/// A leader that fails to publish a synthetic this many times in a row is no longer fit to lead, and not before:
/// the count of failures is the number of payloads without a new feed.
pub proof fn law_failures_in_a_row_add_up(
    tracker: TrackerView,
    payloads: Seq<(EntriesView, u128)>,
    name: Seq<char>,
)
    requires
        tracker.failures.contains_key(name),
        tracker.failures[name] == 0,
        tracker.misses(payloads, name),
        payloads.len() <= usize::MAX,
    ensures
        tracker.followed_own(payloads).id == tracker.id,
        tracker.followed_own(payloads).failures.contains_key(name),
        tracker.followed_own(payloads).failures[name] == payloads.len(),
        payloads.len() >= MAX_FAILURES ==> failed_too_often(tracker.followed_own(payloads).failures),
    decreases payloads.len(),
{
    if payloads.len() > 0 {
        law_failures_in_a_row_add_up(tracker, payloads.drop_last(), name);
    }
}

/// Something that was published: by whom, and when it came.
pub struct PublicationView {
    pub publisher: Seq<char>,
    pub payload: EntriesView,
    pub now: u128,
}

impl TrackerView {
    /// What a node knows after all of this was published.
    pub open spec fn followed_all(self, published: Seq<PublicationView>) -> TrackerView
        decreases published.len(),
    {
        if published.len() == 0 {
            self
        } else {
            let last = published.last();
            self.followed_all(published.drop_last()).followed(last.publisher, last.payload, last.now)
        }
    }

    /// Whether the publication at a place has a new feed of the synthetic.
    pub open spec fn is_updated(self, published: Seq<PublicationView>, at: int, name: Seq<char>) -> bool {
        let before = self.followed_all(published.take(at));
        let payload = published[at].payload;
        absorbed(before.latest, payload, payload.synthetics.len() as int).1.contains(name)
    }

    /// Whether the publication at a place is ours, and has no new feed of the synthetic.
    pub open spec fn is_our_failure(self, published: Seq<PublicationView>, at: int, name: Seq<char>) -> bool {
        published[at].publisher == self.id && !self.is_updated(published, at, name)
    }

    /// How many publications in a row, up to the last one, are ours and have no new feed of the synthetic.
    spec fn failures_in_a_row(self, published: Seq<PublicationView>, count: nat, name: Seq<char>) -> nat
        decreases count,
    {
        if count == 0 || !self.is_our_failure(published, count - 1, name) {
            0
        } else {
            self.failures_in_a_row(published, (count - 1) as nat, name) + 1
        }
    }
}

/// What is counted are failures in a row.
proof fn lemma_failures_are_in_a_row(tracker: TrackerView, published: Seq<PublicationView>, count: nat, name: Seq<char>)
    requires
        count <= published.len() <= usize::MAX,
        tracker.failures.contains_key(name),
        tracker.failures[name] == 0,
    ensures
        tracker.followed_all(published.take(count as int)).id == tracker.id,
        tracker.followed_all(published.take(count as int)).failures.dom() == tracker.failures.dom(),
        tracker.followed_all(published.take(count as int)).failures[name] == tracker.failures_in_a_row(
            published,
            count,
            name,
        ),
        tracker.failures_in_a_row(published, count, name) <= count,
    decreases count,
{
    if count > 0 {
        lemma_failures_are_in_a_row(tracker, published, (count - 1) as nat, name);
        let now = published.take(count as int);
        let before = tracker.followed_all(published.take(count - 1));
        assert(now.drop_last() =~= published.take(count - 1));
        assert(now.last() == published[count - 1]);
        assert(before.failures.contains_key(name));
        assert(tracker.followed_all(now).failures.dom() =~= before.failures.dom());
    }
}

/// There are so many failures in a row where each of the last ones is one.
proof fn lemma_failures_in_a_row(
    tracker: TrackerView,
    published: Seq<PublicationView>,
    count: nat,
    name: Seq<char>,
    many: nat,
)
    ensures
        tracker.failures_in_a_row(published, count, name) >= many <==> count >= many && forall|at: int|
            count - many <= at < count ==> #[trigger] tracker.is_our_failure(published, at, name),
    decreases count,
{
    if many > 0 && count > 0 {
        lemma_failures_in_a_row(tracker, published, (count - 1) as nat, name, (many - 1) as nat);
        let last = count - 1;
        if !tracker.is_our_failure(published, last, name) {
            assert(!(forall|at: int|
                count - many <= at < count ==> #[trigger] tracker.is_our_failure(published, at, name)));
        }
    }
}

/// A node steps down just when the last five publications are its own and one of its synthetics had no new feed in any
/// of them. `tracker` is what it knew when it began.
pub proof fn law_leadership_ends_after_failures_in_a_row(tracker: TrackerView, published: Seq<PublicationView>)
    requires
        forall|name: Seq<char>| #[trigger] tracker.failures.contains_key(name) ==> tracker.failures[name] == 0,
        0 < published.len() <= usize::MAX,
    ensures
        published.last().publisher == tracker.id && failed_too_often(tracker.followed_all(published).failures) <==> {
            &&& published.len() >= MAX_FAILURES
            &&& exists|name: Seq<char>| #[trigger]
                tracker.failures.contains_key(name) && forall|at: int|
                    published.len() - MAX_FAILURES <= at < published.len() ==> #[trigger] tracker.is_our_failure(
                        published,
                        at,
                        name,
                    )
        },
{
    let count = published.len();
    let failures = tracker.followed_all(published).failures;
    assert(published.take(count as int) =~= published);
    assert forall|name: Seq<char>| tracker.failures.contains_key(name) implies (failures[name] >= MAX_FAILURES <==> count
        >= MAX_FAILURES && forall|at: int|
        count - MAX_FAILURES <= at < count ==> #[trigger] tracker.is_our_failure(published, at, name)) by {
        lemma_failures_are_in_a_row(tracker, published, count, name);
        lemma_failures_in_a_row(tracker, published, count, name, MAX_FAILURES as nat);
    }
    assert(failures.dom() == tracker.failures.dom()) by {
        lemma_tracked_names(tracker, published);
    }
    let last = count - 1;
    if failed_too_often(failures) {
        let name = choose|name: Seq<char>| #[trigger] failures.contains_key(name) && failures[name] >= MAX_FAILURES;
        assert(tracker.failures.contains_key(name));
        assert(tracker.is_our_failure(published, last, name));
    }
    if count >= MAX_FAILURES && exists|name: Seq<char>| #[trigger]
        tracker.failures.contains_key(name) && forall|at: int|
            count - MAX_FAILURES <= at < count ==> #[trigger] tracker.is_our_failure(published, at, name) {
        let name = choose|name: Seq<char>| #[trigger]
            tracker.failures.contains_key(name) && forall|at: int|
                count - MAX_FAILURES <= at < count ==> #[trigger] tracker.is_our_failure(published, at, name);
        assert(tracker.is_our_failure(published, last, name));
        assert(failures.contains_key(name) && failures[name] >= MAX_FAILURES);
    }
}

/// The synthetics that are followed stay the same.
proof fn lemma_tracked_names(tracker: TrackerView, published: Seq<PublicationView>)
    ensures
        tracker.followed_all(published).failures.dom() == tracker.failures.dom(),
    decreases published.len(),
{
    if published.len() > 0 {
        lemma_tracked_names(tracker, published.drop_last());
        assert(tracker.followed_all(published).failures.dom() =~= tracker.followed_all(
            published.drop_last(),
        ).failures.dom());
    }
}

} // verus!
