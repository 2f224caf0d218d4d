//! What the node publishes, and where to.

use vstd::prelude::*;
use vstd::utf8::{encode_utf8, encode_utf8_decode_utf8};

use crate::config::OracleConfig;
use crate::encoding::hex_digits;
use crate::network::NodeId;
use crate::numbers::Rational;
use crate::plutus::cbor_bytes;
use crate::price_feed::codec::listed_alone;
use crate::price_feed::generic::GenericPriceFeed;
use crate::price_feed::synthetic::SyntheticPriceFeed;
use crate::price_feed::{cbor_encode_in_list, views, PlutusCompatible, Signed};
use crate::signature_aggregator::payload::{GenericPayloadView, Payload, PayloadView, SyntheticPayloadView};
use crate::text::join;

pub mod laws;

verus! {

/// Whether a byte stands for itself in a URL.
pub open spec fn is_unreserved(byte: u8) -> bool {
    ||| 48 <= byte <= 57
    ||| 65 <= byte <= 90
    ||| 97 <= byte <= 122
    ||| byte == 45
    ||| byte == 46
    ||| byte == 95
    ||| byte == 126
}

/// The hexadecimal digit, in upper case, of a number below sixteen.
pub open spec fn upper_hex_digit(value: nat) -> char {
    if value < 10 {
        (48 + value) as char
    } else {
        (55 + value) as char
    }
}

/// A byte as it stands in a URL.
pub open spec fn percent_encoded_byte(byte: u8) -> Seq<char> {
    if is_unreserved(byte) {
        seq![byte as char]
    } else {
        seq!['%', upper_hex_digit((byte / 16) as nat), upper_hex_digit((byte % 16) as nat)]
    }
}

/// Bytes as they stand in a URL.
pub open spec fn percent_encoded(bytes: Seq<u8>) -> Seq<char>
    decreases bytes.len(),
{
    if bytes.len() == 0 {
        seq![]
    } else {
        percent_encoded_byte(bytes.first()) + percent_encoded(bytes.drop_first())
    }
}

/// `urlencoding::encode`: letters, digits, `-`, `.`, `_` and `~` stand for themselves; of everything else, each byte in
/// UTF-8 becomes `%` and two hexadecimal digits in upper case.
#[verifier::external_body]
fn percent_encode(text: &str) -> (r: String)
    ensures
        r@ == percent_encoded(encode_utf8(text@)),
{
    urlencoding::encode(text).into_owned()
}

/// A synthetic's feed as it is published.
#[derive(Debug)]
pub struct ButaneEntry {
    pub synthetic: String,
    pub price: Rational,
    /// The signed feed: a list of one in CBOR, in hexadecimal digits.
    pub payload: String,
}

pub struct ButaneEntryView {
    pub synthetic: Seq<char>,
    pub price: real,
    pub payload: Seq<char>,
}

impl View for ButaneEntry {
    type V = ButaneEntryView;

    open spec fn view(&self) -> ButaneEntryView {
        ButaneEntryView { synthetic: self.synthetic@, price: self.price@, payload: self.payload@ }
    }
}

/// A currency's feed as it is published.
#[derive(Debug)]
pub struct FeedEntry {
    pub feed: String,
    /// The signed feed: a list of one in CBOR, in hexadecimal digits.
    pub payload: String,
}

pub struct FeedEntryView {
    pub feed: Seq<char>,
    pub payload: Seq<char>,
}

impl View for FeedEntry {
    type V = FeedEntryView;

    open spec fn view(&self) -> FeedEntryView {
        FeedEntryView { feed: self.feed@, payload: self.payload@ }
    }
}

/// A synthetic's feed as it is published.
pub open spec fn butane_entry(entry: SyntheticPayloadView) -> ButaneEntryView {
    ButaneEntryView {
        synthetic: entry.synthetic,
        price: entry.price,
        payload: hex_digits(cbor_bytes(listed_alone(Signed::<SyntheticPriceFeed>::written(entry.payload)))),
    }
}

/// A currency's feed as it is published.
pub open spec fn feed_entry(entry: GenericPayloadView) -> FeedEntryView {
    FeedEntryView {
        feed: entry.name,
        payload: hex_digits(cbor_bytes(listed_alone(Signed::<GenericPriceFeed>::written(entry.payload)))),
    }
}

/// The synthetics' feeds that were made at this moment.
pub open spec fn new_synthetics(entries: Seq<SyntheticPayloadView>, timestamp: u128) -> Seq<ButaneEntryView>
    decreases entries.len(),
{
    if entries.len() == 0 {
        seq![]
    } else {
        let before = new_synthetics(entries.drop_last(), timestamp);
        if entries.last().timestamp == timestamp {
            before.push(butane_entry(entries.last()))
        } else {
            before
        }
    }
}

/// The currencies' feeds that were made at this moment.
pub open spec fn new_generics(entries: Seq<GenericPayloadView>, timestamp: u128) -> Seq<FeedEntryView>
    decreases entries.len(),
{
    if entries.len() == 0 {
        seq![]
    } else {
        let before = new_generics(entries.drop_last(), timestamp);
        if entries.last().timestamp == timestamp {
            before.push(feed_entry(entries.last()))
        } else {
            before
        }
    }
}

/// The feeds of a payload that are as new as the payload itself.
#[derive(Debug)]
pub struct Publication {
    /// Whether this node is the one to publish them.
    pub is_ours: bool,
    pub synthetics: Vec<ButaneEntry>,
    pub feeds: Vec<FeedEntry>,
}

pub struct PublicationView {
    pub is_ours: bool,
    pub synthetics: Seq<ButaneEntryView>,
    pub feeds: Seq<FeedEntryView>,
}

impl View for Publication {
    type V = PublicationView;

    open spec fn view(&self) -> PublicationView {
        PublicationView { is_ours: self.is_ours, synthetics: views(self.synthetics@), feeds: views(self.feeds@) }
    }
}

/// What node `id` makes of a payload.
pub open spec fn publication(id: Seq<char>, payload: PayloadView) -> PublicationView {
    PublicationView {
        is_ours: payload.publisher == id,
        synthetics: new_synthetics(payload.synthetics, payload.timestamp),
        feeds: new_generics(payload.generics, payload.timestamp),
    }
}

/// Publishes what this node leads the signing of.
#[derive(Debug)]
pub struct Publisher {
    pub id: NodeId,
    pub publish_synthetic_url: Option<String>,
    pub publish_feed_base_url: Option<String>,
}

/// Where the feed of a currency goes.
pub open spec fn url_of_feed(base: Seq<char>, name: Seq<char>) -> Seq<char> {
    base + "/"@ + percent_encoded(encode_utf8(name))
}

impl Publisher {
    pub fn new(config: &OracleConfig) -> (r: Self)
        ensures
            r.id@ == config.id@,
            r.publish_synthetic_url == config.publish_url,
            r.publish_feed_base_url == config.publish_feed_base_url,
    {
        Publisher {
            id: config.id.clone(),
            publish_synthetic_url: config.publish_url.clone(),
            publish_feed_base_url: config.publish_feed_base_url.clone(),
        }
    }

    /// The feeds to publish of a payload, and whether it is for this node to do so.
    pub fn prepare(&self, latest: &Payload) -> (r: Publication)
        ensures
            r@ == publication(self.id@, latest@),
    {
        let mut synthetics: Vec<ButaneEntry> = Vec::new();
        let mut i: usize = 0;
        let ghost all = latest@.synthetics;
        assert(all.take(0) =~= seq![]);
        assert(views(synthetics@) =~= seq![]);
        while i < latest.synthetics.len()
            invariant
                i <= latest.synthetics.len(),
                all == latest@.synthetics,
                views(synthetics@) == new_synthetics(all.take(i as int), latest.timestamp),
            decreases latest.synthetics.len() - i,
        {
            let entry = &latest.synthetics[i];
            let ghost before = synthetics@;
            if entry.timestamp == latest.timestamp {
                synthetics.push(
                    ButaneEntry {
                        synthetic: entry.synthetic.clone(),
                        price: entry.price.clone(),
                        payload: cbor_encode_in_list(&entry.payload),
                    },
                );
                assert(views(synthetics@) =~= views(before).push(butane_entry(entry@)));
            }
            proof {
                assert(all.take(i + 1).drop_last() =~= all.take(i as int));
                assert(all.take(i + 1).last() == entry@);
            }
            i += 1;
        }
        assert(all.take(i as int) =~= all);
        let mut feeds: Vec<FeedEntry> = Vec::new();
        let mut k: usize = 0;
        let ghost generics = latest@.generics;
        assert(generics.take(0) =~= seq![]);
        assert(views(feeds@) =~= seq![]);
        while k < latest.generics.len()
            invariant
                k <= latest.generics.len(),
                generics == latest@.generics,
                views(feeds@) == new_generics(generics.take(k as int), latest.timestamp),
            decreases latest.generics.len() - k,
        {
            let entry = &latest.generics[k];
            let ghost before = feeds@;
            if entry.timestamp == latest.timestamp {
                feeds.push(FeedEntry { feed: entry.name.clone(), payload: cbor_encode_in_list(&entry.payload) });
                assert(views(feeds@) =~= views(before).push(feed_entry(entry@)));
            }
            proof {
                assert(generics.take(k + 1).drop_last() =~= generics.take(k as int));
                assert(generics.take(k + 1).last() == entry@);
            }
            k += 1;
        }
        assert(generics.take(k as int) =~= generics);
        Publication { is_ours: latest.publisher == self.id, synthetics, feeds }
    }

    /// Where a currency's feed is published, if it is.
    pub fn feed_url(&self, feed: &str) -> (r: Option<String>)
        ensures
            match (self.publish_feed_base_url, r) {
                (Some(base), Some(url)) => url@ == url_of_feed(base@, feed@),
                (None, None) => true,
                _ => false,
            },
    {
        match &self.publish_feed_base_url {
            Some(base) => Some(join(join(base.as_str(), "/").as_str(), percent_encode(feed).as_str())),
            None => None,
        }
    }
}

/// At most one node publishes a payload.
pub proof fn law_one_node_publishes(payload: PayloadView, a: Seq<char>, b: Seq<char>)
    requires
        publication(a, payload).is_ours,
        publication(b, payload).is_ours,
    ensures
        a == b,
{
}

/// Feeds that were published before are not published again: each published synthetic stands in the payload with
/// the payload's own moment.
pub proof fn law_only_new_feeds_are_published(entries: Seq<SyntheticPayloadView>, timestamp: u128, i: int)
    requires
        0 <= i < new_synthetics(entries, timestamp).len(),
    ensures
        exists|k: int|
            0 <= k < entries.len() && (#[trigger] entries[k]).timestamp == timestamp && new_synthetics(
                entries,
                timestamp,
            )[i] == butane_entry(entries[k]),
    decreases entries.len(),
{
    let before = new_synthetics(entries.drop_last(), timestamp);
    if i < before.len() {
        law_only_new_feeds_are_published(entries.drop_last(), timestamp, i);
        let k = choose|k: int|
            0 <= k < entries.drop_last().len() && (#[trigger] entries.drop_last()[k]).timestamp == timestamp
                && before[i] == butane_entry(entries.drop_last()[k]);
        assert(entries[k].timestamp == timestamp);
    } else {
        assert(entries[entries.len() - 1].timestamp == timestamp);
    }
}

proof fn lemma_upper_hex_digits(a: nat, b: nat)
    requires
        a < 16,
        b < 16,
        upper_hex_digit(a) == upper_hex_digit(b),
    ensures
        a == b,
{
    assert(upper_hex_digit(a) as int == if a < 10 { 48 + a } else { 55 + a });
    assert(upper_hex_digit(b) as int == if b < 10 { 48 + b } else { 55 + b });
}

proof fn lemma_percent_encoding_is_unique(a: Seq<u8>, b: Seq<u8>)
    requires
        percent_encoded(a) == percent_encoded(b),
    ensures
        a == b,
    decreases a.len(),
{
    let text = percent_encoded(a);
    if a.len() == 0 || b.len() == 0 {
        assert(a.len() > 0 ==> text[0] == percent_encoded_byte(a.first())[0]);
        assert(text.len() == 0);
        assert(a =~= b);
    } else {
        let (x, y) = (a.first(), b.first());
        let (from_x, from_y) = (percent_encoded_byte(x), percent_encoded_byte(y));
        assert(text[0] == from_x[0] && text[0] == from_y[0]);
        assert(is_unreserved(x) ==> from_x[0] as int == x);
        assert(is_unreserved(y) ==> from_y[0] as int == y);
        assert('%' as int == 37);
        assert(is_unreserved(x) == is_unreserved(y));
        if !is_unreserved(x) {
            assert(text[1] == from_x[1] && text[1] == from_y[1]);
            assert(text[2] == from_x[2] && text[2] == from_y[2]);
            lemma_upper_hex_digits((x / 16) as nat, (y / 16) as nat);
            lemma_upper_hex_digits((x % 16) as nat, (y % 16) as nat);
            assert(x == y);
        }
        assert(x == y);
        let n = from_x.len() as int;
        assert(percent_encoded(a.drop_first()) =~= text.skip(n));
        assert(percent_encoded(b.drop_first()) =~= text.skip(n));
        lemma_percent_encoding_is_unique(a.drop_first(), b.drop_first());
        assert(a =~= seq![x] + a.drop_first());
        assert(b =~= seq![y] + b.drop_first());
    }
}

/// No two feeds go to the same place.
pub proof fn law_feeds_go_to_different_places(base: Seq<char>, a: Seq<char>, b: Seq<char>)
    requires
        url_of_feed(base, a) == url_of_feed(base, b),
    ensures
        a == b,
{
    let start = base + "/"@;
    assert(percent_encoded(encode_utf8(a)) =~= url_of_feed(base, a).skip(start.len() as int));
    assert(percent_encoded(encode_utf8(b)) =~= url_of_feed(base, b).skip(start.len() as int));
    lemma_percent_encoding_is_unique(encode_utf8(a), encode_utf8(b));
    encode_utf8_decode_utf8(a);
    encode_utf8_decode_utf8(b);
}

} // verus!
