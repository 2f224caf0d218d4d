//! Signing without others: what a node does that signs alone.

use pallas_crypto::key::ed25519::SecretKey;
use vstd::prelude::*;

use crate::keys::KEY_LENGTH;
use crate::names::str_equal;
use crate::plutus::cbor_bytes;
use crate::price_feed::generic::GenericFeedView;
use crate::price_feed::synthetic::SyntheticDataView;
use crate::price_feed::{serialize, EntriesView, GenericEntry, GenericEntryView, GenericPriceFeed, PriceData};
use crate::price_feed::{PlutusCompatible, Signed, SignedEntries, SignedView, SyntheticEntry, SyntheticEntryView};
use crate::price_feed::{SyntheticPriceData, SyntheticPriceFeed};
use crate::raft::RaftLeader;

verus! {

/// What a secret key signs a message with.
pub uninterp spec fn single_signature(key: Seq<u8>, message: Seq<u8>) -> Seq<u8>;

/// `SecretKey::sign`, of `pallas_crypto`. The signature depends on the key and the message alone.
#[verifier::external_body]
fn sign_alone(key: &[u8], message: &[u8]) -> (r: Vec<u8>)
    requires
        key@.len() == KEY_LENGTH,
    ensures
        r@ == single_signature(key@, message@),
{
    let key: [u8; 32] = key.try_into().unwrap();
    SecretKey::from(key).sign(message).as_ref().to_vec()
}

/// The prefix and the bytes that a text in the characters of Bech32 stands for; nothing where its checksum is wrong.
pub uninterp spec fn bech32_parts(text: Seq<char>) -> Option<(Seq<char>, Seq<u8>)>;

/// `bech32::decode`. The prefix comes as it stands in the text, and both parts depend on the text alone.
#[verifier::external_body]
fn decode_bech32(text: &str) -> (r: Option<(String, Vec<u8>)>)
    ensures
        r is Some <==> bech32_parts(text@) is Some,
        r is Some ==> bech32_parts(text@) == Some(((r->0).0@, (r->0).1@)),
{
    let (prefix, bytes) = bech32::decode(text).ok()?;
    Some((prefix.as_str().to_owned(), bytes))
}

/// Why a text is no key.
#[derive(Debug, Clone, Copy, PartialEq, Eq, Structural)]
pub enum SingleKeyError {
    /// It is not in the characters of Bech32.
    Bech32,
    /// It is something else than a secret key.
    Prefix,
    /// It has another length.
    Length,
}

/// The secret key that a text stands for.
pub open spec fn single_key(text: Seq<char>) -> Result<Seq<u8>, SingleKeyError> {
    match bech32_parts(text) {
        None => Err(SingleKeyError::Bech32),
        Some((prefix, bytes)) => if prefix != "ed25519_sk"@ {
            Err(SingleKeyError::Prefix)
        } else if bytes.len() != KEY_LENGTH {
            Err(SingleKeyError::Length)
        } else {
            Ok(bytes)
        },
    }
}

/// The secret key that a text stands for.
pub fn decode_key(raw_key: &str) -> (r: Result<Vec<u8>, SingleKeyError>)
    ensures
        match r {
            Ok(key) => single_key(raw_key@) == Ok::<Seq<u8>, SingleKeyError>(key@),
            Err(error) => single_key(raw_key@) == Err::<Seq<u8>, SingleKeyError>(error),
        },
{
    match decode_bech32(raw_key) {
        None => Err(SingleKeyError::Bech32),
        Some((prefix, key)) => if !str_equal(prefix.as_str(), "ed25519_sk") {
            Err(SingleKeyError::Prefix)
        } else if key.len() != KEY_LENGTH {
            Err(SingleKeyError::Length)
        } else {
            Ok(key)
        },
    }
}

/// Signs prices alone.
pub struct SingleSignatureAggregator {
    key: Vec<u8>,
}

impl View for SingleSignatureAggregator {
    type V = Seq<u8>;

    closed spec fn view(&self) -> Seq<u8> {
        self.key@
    }
}

/// A synthetic's feed, signed.
pub open spec fn signed_synthetic(key: Seq<u8>, data: SyntheticDataView, now: u128) -> SyntheticEntryView {
    SyntheticEntryView {
        price: data.price,
        feed: SignedView {
            data: data.feed.feed,
            signature: single_signature(key, cbor_bytes(SyntheticPriceFeed::written(data.feed.feed))),
        },
        timestamp: Some(now),
    }
}

/// A currency's feed, signed.
pub open spec fn signed_generic(key: Seq<u8>, feed: GenericFeedView, now: u128) -> GenericEntryView {
    GenericEntryView {
        feed: SignedView {
            data: feed,
            signature: single_signature(key, cbor_bytes(GenericPriceFeed::written(feed))),
        },
        timestamp: now,
    }
}

impl SingleSignatureAggregator {
    #[verifier::type_invariant]
    spec fn wf(&self) -> bool {
        self.key@.len() == KEY_LENGTH
    }

    pub fn new(key: Vec<u8>) -> (r: Self)
        requires
            key@.len() == KEY_LENGTH,
        ensures
            r@ == key@,
    {
        SingleSignatureAggregator { key }
    }

    /// A synthetic's feed, signed.
    pub fn sign_price_feed(&self, data: &SyntheticPriceData, timestamp: u128) -> (r: SyntheticEntry)
        ensures
            r@ == signed_synthetic(self@, data@, timestamp),
    {
        proof {
            use_type_invariant(self);
        }
        let price_feed_bytes = serialize(&data.feed);
        let signature = sign_alone(self.key.as_slice(), price_feed_bytes.as_slice());
        SyntheticEntry {
            price: data.price.clone(),
            feed: Signed { data: data.feed.clone(), signature },
            timestamp: Some(timestamp),
        }
    }

    /// A currency's feed, signed.
    pub fn sign_generic_feed(&self, feed: &GenericPriceFeed, timestamp: u128) -> (r: GenericEntry)
        ensures
            r@ == signed_generic(self@, feed@, timestamp),
    {
        proof {
            use_type_invariant(self);
        }
        let price_feed_bytes = serialize(feed);
        let signature = sign_alone(self.key.as_slice(), price_feed_bytes.as_slice());
        GenericEntry { feed: Signed { data: feed.clone(), signature }, timestamp }
    }

    /// All prices, signed, if this node leads.
    pub fn sign_prices(&self, leader: &RaftLeader, prices: &PriceData, now: u128) -> (r: Option<SignedEntries>)
        ensures
            r is Some <==> leader is Myself,
            r matches Some(entries) ==> entries@ == (EntriesView {
                timestamp: now,
                synthetics: Seq::new(
                    prices@.synthetics.len(),
                    |i: int| signed_synthetic(self@, prices@.synthetics[i], now),
                ),
                generics: Seq::new(prices@.generics.len(), |i: int| signed_generic(self@, prices@.generics[i], now)),
            }),
    {
        match leader {
            RaftLeader::Myself => {},
            _ => {
                return None;
            },
        }
        let mut synthetics: Vec<SyntheticEntry> = Vec::new();
        let mut i: usize = 0;
        while i < prices.synthetics.len()
            invariant
                i <= prices.synthetics.len(),
                synthetics.len() == i,
                forall|j: int|
                    0 <= j < i ==> (#[trigger] synthetics@[j])@ == signed_synthetic(self@, prices@.synthetics[j], now),
            decreases prices.synthetics.len() - i,
        {
            synthetics.push(self.sign_price_feed(&prices.synthetics[i], now));
            i += 1;
        }
        let mut generics: Vec<GenericEntry> = Vec::new();
        let mut k: usize = 0;
        while k < prices.generics.len()
            invariant
                k <= prices.generics.len(),
                generics.len() == k,
                forall|j: int|
                    0 <= j < k ==> (#[trigger] generics@[j])@ == signed_generic(self@, prices@.generics[j], now),
            decreases prices.generics.len() - k,
        {
            generics.push(self.sign_generic_feed(&prices.generics[k], now));
            k += 1;
        }
        let entries = SignedEntries { timestamp: now, synthetics, generics };
        proof {
            assert(entries@.synthetics =~= Seq::new(
                prices@.synthetics.len(),
                |i: int| signed_synthetic(self@, prices@.synthetics[i], now),
            ));
            assert(entries@.generics =~= Seq::new(
                prices@.generics.len(),
                |i: int| signed_generic(self@, prices@.generics[i], now),
            ));
        }
        Some(entries)
    }
}

/// Signing changes nothing of a synthetic: its price and its feed stay as they are, it is made now, and the signature is of
/// the bytes of this feed.
pub proof fn law_signing_alone_changes_no_synthetic(key: Seq<u8>, data: SyntheticDataView, now: u128)
    ensures
        ({
            let entry = signed_synthetic(key, data, now);
            &&& entry.price == data.price
            &&& entry.feed.data == data.feed.feed
            &&& entry.feed.signature == single_signature(
                key,
                cbor_bytes(SyntheticPriceFeed::written(entry.feed.data)),
            )
            &&& entry.timestamp == Some(now)
        }),
{
}

/// Signing changes nothing of a feed: it stays as it is, is made now, and the signature is of its bytes.
pub proof fn law_signing_alone_changes_no_feed(key: Seq<u8>, feed: GenericFeedView, now: u128)
    ensures
        ({
            let entry = signed_generic(key, feed, now);
            &&& entry.feed.data == feed
            &&& entry.feed.signature == single_signature(key, cbor_bytes(GenericPriceFeed::written(entry.feed.data)))
            &&& entry.timestamp == now
        }),
{
}

/// A text is a secret key if, and only if, it is in Bech32, has the prefix of secret keys, and stands for 32 bytes; these
/// are the key.
pub proof fn law_secret_keys_have_32_bytes(text: Seq<char>)
    ensures
        match single_key(text) {
            Ok(key) => bech32_parts(text) == Some(("ed25519_sk"@, key)) && key.len() == 32,
            Err(SingleKeyError::Bech32) => bech32_parts(text) is None,
            Err(SingleKeyError::Prefix) => bech32_parts(text) matches Some((prefix, _)) && prefix != "ed25519_sk"@,
            Err(SingleKeyError::Length) => bech32_parts(text) matches Some((_, bytes)) && bytes.len() != 32,
        },
{
}

/// A node that leads signs every price that it has, each in its place, and makes them all now; one that does not signs none.
pub proof fn law_leaders_sign_every_price_alone(
    signer: &SingleSignatureAggregator,
    leader: &RaftLeader,
    prices: &PriceData,
    now: u128,
    signed: Option<SignedEntries>,
)
    requires
        call_ensures(SingleSignatureAggregator::sign_prices, (signer, leader, prices, now), signed),
    ensures
        leader is Myself <==> signed is Some,
        signed matches Some(entries) ==> {
            &&& entries@.timestamp == now
            &&& entries@.synthetics.len() == prices@.synthetics.len()
            &&& entries@.generics.len() == prices@.generics.len()
            &&& forall|i: int|
                0 <= i < prices@.synthetics.len() ==> {
                    let entry = #[trigger] entries@.synthetics[i];
                    &&& entry.feed.data == prices@.synthetics[i].feed.feed
                    &&& entry.price == prices@.synthetics[i].price
                    &&& entry.feed.signature == single_signature(
                        signer@,
                        cbor_bytes(SyntheticPriceFeed::written(entry.feed.data)),
                    )
                }
            &&& forall|i: int|
                0 <= i < prices@.generics.len() ==> {
                    let entry = #[trigger] entries@.generics[i];
                    &&& entry.feed.data == prices@.generics[i]
                    &&& entry.feed.signature == single_signature(
                        signer@,
                        cbor_bytes(GenericPriceFeed::written(entry.feed.data)),
                    )
                }
        },
{
}

} // verus!
