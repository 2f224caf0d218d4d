//! What holds of what a node knows of published feeds.

use vstd::prelude::*;

use crate::names::{alphabetical, lemma_listing_exists};
use crate::price_feed::{EntriesView, IntervalBoundType, SyntheticEntryView};
use crate::signature_aggregator::payload::{
    absorbed, absorbed_generics, aged, end_of_validity, failed_too_often, initial_ages, GenericPayloadView, PayloadTracker,
    SyntheticPayloadView, TrackerView,
};

verus! {

/// When an entry of a payload was made: when it says so, and with the payload otherwise.
pub open spec fn moment_of(entry: SyntheticEntryView, payload: EntriesView) -> u128 {
    if entry.timestamp is Some {
        entry.timestamp->0
    } else {
        payload.timestamp
    }
}

/// Whether this is what is known of a synthetic from an entry of a payload: its name, its price, its signed feed, and when
/// it was made.
pub open spec fn is_known_from(latest: SyntheticPayloadView, entry: SyntheticEntryView, payload: EntriesView) -> bool {
    &&& latest.timestamp == moment_of(entry, payload)
    &&& latest.synthetic == entry.feed.data.synthetic
    &&& latest.price == entry.price
    &&& latest.payload == entry.feed
}

/// What is known of a synthetic after a payload is what was known, unless one of the entries is newer; then it is what the
/// newest of them says. A synthetic counts as updated if, and only if, an entry is newer than what was known.
pub proof fn law_newest_entry_is_known(
    known: Map<Seq<char>, SyntheticPayloadView>,
    payload: EntriesView,
    count: int,
    name: Seq<char>,
)
    requires
        0 <= count <= payload.synthetics.len(),
    ensures
        ({
            let (latest, updated) = absorbed(known, payload, count);
            &&& !updated.contains(name) ==> (latest.contains_key(name) <==> known.contains_key(name)) && (
            known.contains_key(name) ==> latest[name] == known[name])
            &&& updated.contains(name) ==> latest.contains_key(name) && exists|i: int|
                0 <= i < count && (#[trigger] payload.synthetics[i]).feed.data.synthetic == name && is_known_from(
                    latest[name],
                    payload.synthetics[i],
                    payload,
                )
            &&& updated.contains(name) <==> exists|i: int|
                0 <= i < count && (#[trigger] payload.synthetics[i]).feed.data.synthetic == name && (
                known.contains_key(name) ==> moment_of(payload.synthetics[i], payload) > known[name].timestamp)
            &&& forall|i: int|
                0 <= i < count && (#[trigger] payload.synthetics[i]).feed.data.synthetic == name ==> moment_of(
                    payload.synthetics[i],
                    payload,
                ) <= latest[name].timestamp
        }),
    decreases count,
{
    if count > 0 {
        law_newest_entry_is_known(known, payload, count - 1, name);
        let (before, names) = absorbed(known, payload, count - 1);
        let (latest, updated) = absorbed(known, payload, count);
        let entry = payload.synthetics[count - 1];
        if entry.feed.data.synthetic == name {
            if before.contains_key(name) && before[name].timestamp >= moment_of(entry, payload) {
                assert(latest == before && updated == names);
            } else {
                assert(is_known_from(latest[name], entry, payload));
                assert(updated.contains(name));
                if names.contains(name) {
                    let i = choose|i: int|
                        0 <= i < count - 1 && (#[trigger] payload.synthetics[i]).feed.data.synthetic == name && (
                        known.contains_key(name) ==> moment_of(payload.synthetics[i], payload) > known[name].timestamp);
                    assert(payload.synthetics[i].feed.data.synthetic == name);
                } else {
                    assert(payload.synthetics[count - 1].feed.data.synthetic == name);
                }
            }
        } else {
            assert(latest.contains_key(name) == before.contains_key(name));
            assert(latest.contains_key(name) ==> latest[name] == before[name]);
            assert(updated.contains(name) == names.contains(name));
            if !latest.contains_key(name) {
                assert forall|i: int| 0 <= i < count && (#[trigger] payload.synthetics[i]).feed.data.synthetic
                    == name implies moment_of(payload.synthetics[i], payload) <= latest[name].timestamp by {
                    assert(!names.contains(name));
                    assert(!known.contains_key(name));
                    assert(i < count - 1);
                    assert(names.contains(name));
                }
            }
        }
    }
}

/// What is known of a feed after a payload is what was known, unless an entry is newer; then it is what the newest says.
pub proof fn law_newest_feed_is_known(
    known: Map<Seq<char>, GenericPayloadView>,
    payload: EntriesView,
    count: int,
    name: Seq<char>,
)
    requires
        0 <= count <= payload.generics.len(),
    ensures
        ({
            let latest = absorbed_generics(known, payload, count);
            &&& latest.contains_key(name) <==> known.contains_key(name) || exists|i: int|
                0 <= i < count && (#[trigger] payload.generics[i]).feed.data.name == name
            &&& latest.contains_key(name) ==> {
                ||| known.contains_key(name) && latest[name] == known[name]
                ||| exists|i: int|
                    0 <= i < count && (#[trigger] payload.generics[i]).feed.data.name == name && latest[name].timestamp
                        == payload.generics[i].timestamp && latest[name].name == name && latest[name].payload
                        == payload.generics[i].feed && (known.contains_key(name) ==> payload.generics[i].timestamp
                        > known[name].timestamp)
            }
            &&& known.contains_key(name) ==> latest[name].timestamp >= known[name].timestamp
            &&& forall|i: int|
                0 <= i < count && (#[trigger] payload.generics[i]).feed.data.name == name ==> payload.generics[i].timestamp
                    <= latest[name].timestamp
        }),
    decreases count,
{
    if count > 0 {
        law_newest_feed_is_known(known, payload, count - 1, name);
        let before = absorbed_generics(known, payload, count - 1);
        let latest = absorbed_generics(known, payload, count);
        let entry = payload.generics[count - 1];
        if entry.feed.data.name == name {
            assert(payload.generics[count - 1].feed.data.name == name);
        } else {
            assert(latest.contains_key(name) == before.contains_key(name));
            assert(latest.contains_key(name) ==> latest[name] == before[name]);
        }
    }
}

/// Someone's payload names them as its publisher, and has all that is known of synthetics and feeds.
pub proof fn law_all_that_is_known_is_passed_on(
    tracker: TrackerView,
    publisher: Seq<char>,
    timestamp: u128,
    name: Seq<char>,
)
    requires
        tracker.latest.dom().finite(),
        tracker.latest_generics.dom().finite(),
    ensures
        tracker.as_payload(publisher, timestamp).publisher == publisher,
        tracker.as_payload(publisher, timestamp).timestamp == timestamp,
        tracker.latest.contains_key(name) ==> tracker.as_payload(publisher, timestamp).synthetics.contains(
            tracker.latest[name],
        ),
        tracker.latest_generics.contains_key(name) ==> tracker.as_payload(publisher, timestamp).generics.contains(
            tracker.latest_generics[name],
        ),
        forall|i: int|
            0 <= i < tracker.as_payload(publisher, timestamp).synthetics.len() ==> tracker.latest.contains_value(
                #[trigger] tracker.as_payload(publisher, timestamp).synthetics[i],
            ),
        forall|i: int|
            0 <= i < tracker.as_payload(publisher, timestamp).generics.len() ==> tracker.latest_generics.contains_value(
                #[trigger] tracker.as_payload(publisher, timestamp).generics[i],
            ),
{
    lemma_listed(tracker.latest, name);
    lemma_listed(tracker.latest_generics, name);
}

proof fn lemma_listed<V>(map: Map<Seq<char>, V>, name: Seq<char>)
    requires
        map.dom().finite(),
    ensures
        map.contains_key(name) ==> alphabetical(map).contains(map[name]),
        forall|i: int| 0 <= i < alphabetical(map).len() ==> map.contains_value(#[trigger] alphabetical(map)[i]),
{
    let (names, values) = lemma_listing_exists(map);
    if map.contains_key(name) {
        assert(names.contains(name));
        let i = choose|i: int| 0 <= i < names.len() && names[i] == name;
        assert(map[names[i]] == values[i]);
    }
    assert forall|i: int| 0 <= i < values.len() implies map.contains_value(#[trigger] values[i]) by {
        assert(names.contains(names[i]));
        assert(map.contains_key(names[i]));
        assert(map[names[i]] == values[i]);
    }
}

/// A leader has failed too often if, and only if, some synthetic has had no new feed in five publications in a row.
pub proof fn law_five_failures_are_too_many(failures: Map<Seq<char>, usize>)
    ensures
        failed_too_often(failures) <==> exists|name: Seq<char>| #[trigger]
            failures.contains_key(name) && failures[name] >= 5,
{
}

/// A failure is counted for each synthetic without a new feed in a payload of ours, on top of those before. A new feed, or
/// a payload of someone else, ends the row.
pub proof fn law_failures_are_counted(
    tracker: TrackerView,
    publisher: Seq<char>,
    payload: EntriesView,
    now: u128,
    name: Seq<char>,
)
    requires
        tracker.failures.contains_key(name),
        tracker.failures[name] < usize::MAX,
    ensures
        ({
            let after = tracker.followed(publisher, payload, now).failures;
            let is_updated = exists|i: int|
                0 <= i < payload.synthetics.len() && (#[trigger] payload.synthetics[i]).feed.data.synthetic == name && (
                tracker.latest.contains_key(name) ==> moment_of(payload.synthetics[i], payload)
                    > tracker.latest[name].timestamp);
            &&& after.contains_key(name)
            &&& after[name] == if publisher == tracker.id && !is_updated {
                tracker.failures[name] + 1
            } else {
                0
            }
        }),
{
    law_newest_entry_is_known(tracker.latest, payload, payload.synthetics.len() as int, name);
}

/// A feed can be used until its validity ends, in nanoseconds; one that is valid forever counts for 365 days, and one that
/// was never valid not at all.
pub proof fn law_feeds_are_used_until_they_expire(entry: SyntheticEntryView, now: u128)
    ensures
        match entry.feed.data.validity.upper_bound.bound_type {
            IntervalBoundType::Finite(millis) => end_of_validity(entry, now) == millis * 1_000_000,
            IntervalBoundType::PositiveInfinity => end_of_validity(entry, now) - now == 365 * 24 * 3600 * 1_000_000_000,
            IntervalBoundType::NegativeInfinity => end_of_validity(entry, now) == 0,
        },
{
}

/// The age of a synthetic is that of the feed that is known of it: when it was made, and when it expires.
pub proof fn law_ages_are_of_known_feeds(
    known: Map<Seq<char>, SyntheticPayloadView>,
    ages: Map<Seq<char>, (u128, u128)>,
    payload: EntriesView,
    now: u128,
    count: int,
    name: Seq<char>,
)
    requires
        0 <= count <= payload.synthetics.len(),
    ensures
        ({
            let (latest, updated) = absorbed(known, payload, count);
            let after = aged(known, ages, payload, now, count);
            &&& !updated.contains(name) ==> (after.contains_key(name) <==> ages.contains_key(name)) && (
            ages.contains_key(name) ==> after[name] == ages[name])
            &&& updated.contains(name) ==> after.contains_key(name) && after[name].0 == latest[name].timestamp
                && exists|i: int|
                0 <= i < count && (#[trigger] payload.synthetics[i]).feed.data.synthetic == name && is_known_from(
                    latest[name],
                    payload.synthetics[i],
                    payload,
                ) && after[name].1 == end_of_validity(payload.synthetics[i], now) as u128
        }),
    decreases count,
{
    if count > 0 {
        law_ages_are_of_known_feeds(known, ages, payload, now, count - 1, name);
        let (before, names) = absorbed(known, payload, count - 1);
        let (latest, updated) = absorbed(known, payload, count);
        let entry = payload.synthetics[count - 1];
        if entry.feed.data.synthetic == name && updated.contains(name) {
            if before.contains_key(name) && before[name].timestamp >= moment_of(entry, payload) {
                assert(latest == before && updated == names);
            } else {
                assert(is_known_from(latest[name], payload.synthetics[count - 1], payload));
            }
        }
    }
}

/// The age of a feed is told in whole milliseconds since it was made; and it can be used until it expires, not at that moment.
/// Nothing is told of a feed that is not known, or that is from the future.
pub proof fn law_age_is_told_in_milliseconds(
    tracker: &PayloadTracker,
    synthetic: &str,
    now: u128,
    told: Option<(u128, bool)>,
)
    requires
        call_ensures(PayloadTracker::feed_age, (tracker, synthetic, now), told),
    ensures
        told is Some <==> tracker@.ages.contains_key(synthetic@) && tracker@.ages[synthetic@].0 <= now,
        told matches Some((age, is_valid)) ==> {
            let (made, until) = tracker@.ages[synthetic@];
            &&& made + age * 1_000_000 <= now < made + (age + 1) * 1_000_000
            &&& is_valid <==> now < until
        },
{
}

/// A synthetic that nothing is known of yet counts as made when the node starts, and as usable for a minute.
pub proof fn law_unknown_synthetics_have_a_minute(names: Seq<Seq<char>>, now: u128, name: Seq<char>)
    requires
        now + 60_000_000_000 <= u128::MAX,
    ensures
        initial_ages(names, now).contains_key(name) <==> names.contains(name),
        names.contains(name) ==> initial_ages(names, now)[name].0 == now && initial_ages(names, now)[name].1 - now
            == 60 * 1_000_000_000,
{
}

} // verus!
