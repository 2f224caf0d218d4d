//! What holds of what is published.

use vstd::prelude::*;
use vstd::utf8::encode_utf8;

use crate::encoding::{hex_bytes, is_hex, law_hex_round_trip};
use crate::plutus::{cbor_bytes, Plutus};
use crate::price_feed::codec::listed_alone;
use crate::price_feed::generic::GenericPriceFeed;
use crate::price_feed::synthetic::SyntheticPriceFeed;
use crate::price_feed::{PlutusCompatible, Signed};
use crate::publisher::{
    butane_entry, feed_entry, is_unreserved, new_generics, new_synthetics, percent_encoded, percent_encoded_byte,
    publication, upper_hex_digit, url_of_feed, ButaneEntryView, FeedEntryView, Publication, Publisher,
};
use crate::signature_aggregator::payload::{GenericPayloadView, Payload, PayloadView, SyntheticPayloadView};

verus! {

/// Whether these hexadecimal digits are those of a list, in CBOR, of this alone.
pub open spec fn shows_list_of(text: Seq<char>, tree: Plutus) -> bool {
    &&& is_hex(text)
    &&& hex_bytes(text) == cbor_bytes(Plutus::Array { indefinite: true, items: seq![tree] })
}

/// Whether a synthetic is published as it stands in a payload: under its name, with its price and its signed feed.
pub open spec fn is_made_of_synthetic(published: ButaneEntryView, entry: SyntheticPayloadView) -> bool {
    &&& published.synthetic == entry.synthetic
    &&& published.price == entry.price
    &&& shows_list_of(published.payload, Signed::<SyntheticPriceFeed>::written(entry.payload))
}

/// Whether a feed is published as it stands in a payload: under its name, with its signature.
pub open spec fn is_made_of_feed(published: FeedEntryView, entry: GenericPayloadView) -> bool {
    &&& published.feed == entry.name
    &&& shows_list_of(published.payload, Signed::<GenericPriceFeed>::written(entry.payload))
}

proof fn lemma_filter_contains<A>(values: Seq<A>, wanted: spec_fn(A) -> bool, value: A)
    requires
        values.contains(value),
        wanted(value),
    ensures
        values.filter(wanted).contains(value),
    decreases values.len(),
{
    reveal(Seq::filter);
    let front = values.drop_last();
    if values.last() == value {
        let found = front.filter(wanted).push(value);
        assert(found[found.len() - 1] == value);
    } else {
        let i = choose|i: int| 0 <= i < values.len() && values[i] == value;
        assert(front[i] == value);
        lemma_filter_contains(front, wanted, value);
        let j = choose|j: int| 0 <= j < front.filter(wanted).len() && front.filter(wanted)[j] == value;
        assert(values.filter(wanted)[j] == value);
    }
}

/// Every synthetic of a payload that was made at the payload's own moment is published: there are as many as there are
/// such entries, and each is made of one, in their order.
pub proof fn law_every_new_synthetic_is_published(id: Seq<char>, payload: PayloadView)
    ensures
        ({
            let new = payload.synthetics.filter(|entry: SyntheticPayloadView| entry.timestamp == payload.timestamp);
            let published = publication(id, payload).synthetics;
            &&& published.len() == new.len()
            &&& forall|i: int| 0 <= i < new.len() ==> is_made_of_synthetic(#[trigger] published[i], new[i])
        }),
        forall|i: int|
            0 <= i < payload.synthetics.len() && (#[trigger] payload.synthetics[i]).timestamp == payload.timestamp ==> exists|
                j: int,
            |
                0 <= j < publication(id, payload).synthetics.len() && is_made_of_synthetic(
                    #[trigger] publication(id, payload).synthetics[j],
                    payload.synthetics[i],
                ),
{
    let is_new = |entry: SyntheticPayloadView| entry.timestamp == payload.timestamp;
    let new = payload.synthetics.filter(is_new);
    let published = publication(id, payload).synthetics;
    lemma_new_synthetics(payload.synthetics, payload.timestamp);
    assert forall|i: int| 0 <= i < new.len() implies is_made_of_synthetic(#[trigger] published[i], new[i]) by {
        assert(published[i] == butane_entry(new[i]));
        law_hex_round_trip(
            cbor_bytes(listed_alone(Signed::<SyntheticPriceFeed>::written(new[i].payload))),
        );
    }
    assert forall|i: int|
        0 <= i < payload.synthetics.len() && (#[trigger] payload.synthetics[i]).timestamp == payload.timestamp implies exists|
        j: int,
    |
        0 <= j < published.len() && is_made_of_synthetic(#[trigger] published[j], payload.synthetics[i]) by {
        let entry = payload.synthetics[i];
        assert(payload.synthetics.contains(entry));
        lemma_filter_contains(payload.synthetics, is_new, entry);
        let j = choose|j: int| 0 <= j < new.len() && new[j] == entry;
        assert(is_made_of_synthetic(published[j], entry));
    }
}

proof fn lemma_new_synthetics(entries: Seq<SyntheticPayloadView>, timestamp: u128)
    ensures
        new_synthetics(entries, timestamp) == entries.filter(
            |entry: SyntheticPayloadView| entry.timestamp == timestamp,
        ).map_values(|entry: SyntheticPayloadView| butane_entry(entry)),
    decreases entries.len(),
{
    reveal(Seq::filter);
    let is_new = |entry: SyntheticPayloadView| entry.timestamp == timestamp;
    let made = |entry: SyntheticPayloadView| butane_entry(entry);
    if entries.len() == 0 {
        assert(entries.filter(is_new).map_values(made) =~= seq![]);
    } else {
        let rest = entries.drop_last().filter(is_new);
        lemma_new_synthetics(entries.drop_last(), timestamp);
        if entries.last().timestamp == timestamp {
            assert(entries.filter(is_new) == rest.push(entries.last()));
            assert(rest.push(entries.last()).map_values(made) =~= rest.map_values(made).push(
                butane_entry(entries.last()),
            ));
        }
    }
}

/// Every feed of a payload that was made at the payload's own moment is published: there are as many as there are such
/// entries, and each is made of one, in their order.
pub proof fn law_every_new_feed_is_published(id: Seq<char>, payload: PayloadView)
    ensures
        ({
            let new = payload.generics.filter(|entry: GenericPayloadView| entry.timestamp == payload.timestamp);
            let published = publication(id, payload).feeds;
            &&& published.len() == new.len()
            &&& forall|i: int| 0 <= i < new.len() ==> is_made_of_feed(#[trigger] published[i], new[i])
        }),
        forall|i: int|
            0 <= i < payload.generics.len() && (#[trigger] payload.generics[i]).timestamp == payload.timestamp ==> exists|
                j: int,
            |
                0 <= j < publication(id, payload).feeds.len() && is_made_of_feed(
                    #[trigger] publication(id, payload).feeds[j],
                    payload.generics[i],
                ),
{
    let is_new = |entry: GenericPayloadView| entry.timestamp == payload.timestamp;
    let new = payload.generics.filter(is_new);
    let published = publication(id, payload).feeds;
    lemma_new_generics(payload.generics, payload.timestamp);
    assert forall|i: int| 0 <= i < new.len() implies is_made_of_feed(#[trigger] published[i], new[i]) by {
        assert(published[i] == feed_entry(new[i]));
        law_hex_round_trip(
            cbor_bytes(listed_alone(Signed::<GenericPriceFeed>::written(new[i].payload))),
        );
    }
    assert forall|i: int|
        0 <= i < payload.generics.len() && (#[trigger] payload.generics[i]).timestamp == payload.timestamp implies exists|
        j: int,
    |
        0 <= j < published.len() && is_made_of_feed(#[trigger] published[j], payload.generics[i]) by {
        let entry = payload.generics[i];
        assert(payload.generics.contains(entry));
        lemma_filter_contains(payload.generics, is_new, entry);
        let j = choose|j: int| 0 <= j < new.len() && new[j] == entry;
        assert(is_made_of_feed(published[j], entry));
    }
}

proof fn lemma_new_generics(entries: Seq<GenericPayloadView>, timestamp: u128)
    ensures
        new_generics(entries, timestamp) == entries.filter(
            |entry: GenericPayloadView| entry.timestamp == timestamp,
        ).map_values(|entry: GenericPayloadView| feed_entry(entry)),
    decreases entries.len(),
{
    reveal(Seq::filter);
    let is_new = |entry: GenericPayloadView| entry.timestamp == timestamp;
    let made = |entry: GenericPayloadView| feed_entry(entry);
    if entries.len() == 0 {
        assert(entries.filter(is_new).map_values(made) =~= seq![]);
    } else {
        let rest = entries.drop_last().filter(is_new);
        lemma_new_generics(entries.drop_last(), timestamp);
        if entries.last().timestamp == timestamp {
            assert(entries.filter(is_new) == rest.push(entries.last()));
            assert(rest.push(entries.last()).map_values(made) =~= rest.map_values(made).push(
                feed_entry(entries.last()),
            ));
        }
    }
}

/// The node that is named as the publisher of a payload publishes it, and no other.
pub proof fn law_publisher_of_a_payload_publishes_it(id: Seq<char>, payload: PayloadView)
    ensures
        publication(id, payload).is_ours <==> id == payload.publisher,
{
}

/// A feed goes to a place right below the base, whatever its name.
pub proof fn law_feeds_go_right_below_the_base(base: Seq<char>, name: Seq<char>)
    ensures
        ({
            let url = url_of_feed(base, name);
            &&& url.len() >= base.len() + 1
            &&& url.take(base.len() as int) == base
            &&& url[base.len() as int] == '/'
            &&& forall|i: int| base.len() < i < url.len() ==> #[trigger] url[i] != '/'
        }),
{
    reveal_strlit("/");
    let url = url_of_feed(base, name);
    let rest = percent_encoded(encode_utf8(name));
    assert(url.take(base.len() as int) =~= base);
    lemma_no_slashes(encode_utf8(name));
    assert forall|i: int| base.len() < i < url.len() implies #[trigger] url[i] != '/' by {
        assert(url[i] == rest[i - base.len() - 1]);
    }
}

proof fn lemma_no_slashes(bytes: Seq<u8>)
    ensures
        forall|i: int| 0 <= i < percent_encoded(bytes).len() ==> #[trigger] percent_encoded(bytes)[i] != '/',
    decreases bytes.len(),
{
    if bytes.len() > 0 {
        let byte = bytes.first();
        lemma_no_slashes(bytes.drop_first());
        assert('/' as int == 47);
        assert('%' as int == 37);
        assert(is_unreserved(byte) ==> (byte as char) as int == byte);
        let high = (byte / 16) as nat;
        let low = (byte % 16) as nat;
        assert(high < 16 && low < 16);
        assert(upper_hex_digit(high) as int != 47 && upper_hex_digit(low) as int != 47);
        let first = percent_encoded_byte(byte);
        let rest = percent_encoded(bytes.drop_first());
        assert forall|i: int| 0 <= i < percent_encoded(bytes).len() implies #[trigger] percent_encoded(bytes)[i]
            != '/' by {
            if i < first.len() {
                assert(percent_encoded(bytes)[i] == first[i]);
            } else {
                assert(percent_encoded(bytes)[i] == rest[i - first.len()]);
            }
        }
    }
}

/// What a publisher prepares of a payload has, of the feeds that were made at the payload's own moment, all and no others,
/// and it is for the node to publish them if, and only if, it is named as the payload's publisher.
pub proof fn law_all_new_feeds_are_prepared(publisher: &Publisher, payload: &Payload, prepared: Publication)
    requires
        call_ensures(Publisher::prepare, (publisher, payload), prepared),
    ensures
        ({
            let synthetics = payload@.synthetics.filter(
                |entry: SyntheticPayloadView| entry.timestamp == payload@.timestamp,
            );
            let feeds = payload@.generics.filter(|entry: GenericPayloadView| entry.timestamp == payload@.timestamp);
            &&& prepared@.is_ours <==> publisher.id@ == payload@.publisher
            &&& prepared@.synthetics.len() == synthetics.len()
            &&& forall|i: int|
                0 <= i < synthetics.len() ==> is_made_of_synthetic(#[trigger] prepared@.synthetics[i], synthetics[i])
            &&& prepared@.feeds.len() == feeds.len()
            &&& forall|i: int| 0 <= i < feeds.len() ==> is_made_of_feed(#[trigger] prepared@.feeds[i], feeds[i])
        }),
{
    law_every_new_synthetic_is_published(publisher.id@, payload@);
    law_every_new_feed_is_published(publisher.id@, payload@);
}

} // verus!
