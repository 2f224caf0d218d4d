//! The feeds of prices that nodes sign. Moments are counted in nanoseconds since 1970.

use vstd::prelude::*;

use crate::numbers::Rational;
use crate::plutus::{is_readable, Plutus, PlutusData};

pub mod codec;
pub mod generic;
pub mod laws;
pub mod synthetic;

pub use codec::{decode_enum, decode_struct, encode_enum, encode_struct};
pub use codec::{cbor_encode_in_list, deserialize, serialize, DecodeError, PlutusCompatible};
pub use generic::GenericPriceFeed;
pub use synthetic::{IntervalBound, IntervalBoundType, SyntheticPriceData, SyntheticPriceFeed, Validity};

verus! {

/// The prices that a node has found.
#[derive(Debug)]
pub struct PriceData {
    pub synthetics: Vec<SyntheticPriceData>,
    pub generics: Vec<GenericPriceFeed>,
}

/// The feeds that a round signed.
#[derive(Debug)]
pub struct SignedEntries {
    pub timestamp: u128,
    pub synthetics: Vec<SyntheticEntry>,
    pub generics: Vec<GenericEntry>,
}

/// A signed feed of a synthetic.
#[derive(Debug)]
pub struct SyntheticEntry {
    pub price: Rational,
    pub feed: Signed<SyntheticPriceFeed>,
    pub timestamp: Option<u128>,
}

/// A signed feed of a currency.
#[derive(Debug)]
pub struct GenericEntry {
    pub feed: Signed<GenericPriceFeed>,
    pub timestamp: u128,
}

/// A value and its signature.
#[derive(Debug, PartialEq, Eq)]
pub struct Signed<T> {
    pub data: T,
    pub signature: Vec<u8>,
}

/// What there is to a signed value.
pub struct SignedView<M> {
    pub data: M,
    pub signature: Seq<u8>,
}

impl<T: PlutusCompatible> PlutusCompatible for Signed<T> {
    type Model = SignedView<T::Model>;

    open spec fn model(&self) -> SignedView<T::Model> {
        SignedView { data: self.data.model(), signature: self.signature@ }
    }

    open spec fn written(model: SignedView<T::Model>) -> Plutus {
        codec::struct_written(seq![T::written(model.data), Plutus::BoundedBytes(model.signature)])
    }

    open spec fn read(data: Plutus) -> Result<SignedView<T::Model>, DecodeError> {
        match codec::struct_read(data, 2) {
            Ok(fields) => match T::read(fields[0]) {
                Ok(data) => match fields[1] {
                    Plutus::BoundedBytes(signature) => Ok(SignedView { data, signature }),
                    _ => Err(DecodeError::UnexpectedSignature),
                },
                Err(error) => Err(error),
            },
            Err(error) => Err(error),
        }
    }

    proof fn lemma_written_is_readable(&self) {
        self.data.lemma_written_is_readable();
        let fields = Self::written(self.model())->Constr_fields;
        assert forall|i: int| 0 <= i < fields.len() implies is_readable(#[trigger] fields[i]) by {}
    }

    proof fn lemma_round_trip(&self) {
        self.data.lemma_round_trip();
    }

    fn to_plutus(&self) -> (r: PlutusData) {
        let mut fields: Vec<PlutusData> = Vec::new();
        fields.push(self.data.to_plutus());
        let signature = self.signature.clone();
        assert(signature@ =~= self.signature@);
        fields.push(PlutusData::BoundedBytes(signature));
        assert(codec::trees(fields@) =~= Self::written(self.model())->Constr_fields);
        encode_struct(fields)
    }

    fn from_plutus(data: PlutusData) -> (r: Result<Self, DecodeError>) {
        let mut fields = match decode_struct(data, 2) {
            Ok(fields) => fields,
            Err(error) => return Err(error),
        };
        let signature = fields.remove(1);
        let data = fields.remove(0);
        match T::from_plutus(data) {
            Ok(data) => match signature {
                PlutusData::BoundedBytes(signature) => Ok(Signed { data, signature }),
                _ => Err(DecodeError::UnexpectedSignature),
            },
            Err(error) => Err(error),
        }
    }
}

/// A value that there is something to, which copies keep.
pub trait Copied: Sized + View {
    fn copied(&self) -> (r: Self)
        ensures
            r@ == self@,
    ;
}

/// What there is to these values.
pub open spec fn views<T: View>(values: Seq<T>) -> Seq<T::V> {
    Seq::new(values.len(), |i: int| values[i]@)
}

/// A copy of each value.
pub fn copy_all<T: Copied>(values: &Vec<T>) -> (r: Vec<T>)
    ensures
        views(r@) == views(values@),
{
    let mut copies: Vec<T> = Vec::new();
    let mut i: usize = 0;
    while i < values.len()
        invariant
            i <= values.len(),
            copies.len() == i,
            forall|j: int| 0 <= j < i ==> (#[trigger] copies@[j])@ == values@[j]@,
        decreases values.len() - i,
    {
        copies.push(values[i].copied());
        i += 1;
    }
    assert(views(copies@) =~= views(values@));
    copies
}

impl Copied for SyntheticPriceData {
    fn copied(&self) -> (r: Self) {
        self.clone()
    }
}

impl Copied for GenericPriceFeed {
    fn copied(&self) -> (r: Self) {
        self.clone()
    }
}

/// What there is to a node's prices.
pub struct PriceDataView {
    pub synthetics: Seq<synthetic::SyntheticDataView>,
    pub generics: Seq<generic::GenericFeedView>,
}

impl View for PriceData {
    type V = PriceDataView;

    open spec fn view(&self) -> PriceDataView {
        PriceDataView { synthetics: views(self.synthetics@), generics: views(self.generics@) }
    }
}

impl PriceDataView {
    /// The feeds of the synthetics.
    pub open spec fn feeds(self) -> Seq<synthetic::NamedFeedView> {
        Seq::new(self.synthetics.len(), |i: int| self.synthetics[i].feed)
    }

    /// Every synthetic names its collateral.
    pub open spec fn names_collateral(self) -> bool {
        forall|i: int| 0 <= i < self.synthetics.len() ==> (#[trigger] self.synthetics[i]).feed.collateral_names is Some
    }
}

impl Clone for PriceData {
    fn clone(&self) -> (r: Self)
        ensures
            r@ == self@,
    {
        PriceData { synthetics: copy_all(&self.synthetics), generics: copy_all(&self.generics) }
    }
}

impl PriceData {
    /// The feeds of the synthetics.
    pub fn synthetic_feeds(&self) -> (r: Vec<SyntheticPriceFeed>)
        ensures
            Seq::new(r@.len(), |i: int| r@[i].named()) == self@.feeds(),
    {
        let mut feeds: Vec<SyntheticPriceFeed> = Vec::new();
        let mut i: usize = 0;
        while i < self.synthetics.len()
            invariant
                i <= self.synthetics.len(),
                feeds.len() == i,
                forall|j: int| 0 <= j < i ==> (#[trigger] feeds@[j]).named() == self.synthetics@[j].feed.named(),
            decreases self.synthetics.len() - i,
        {
            feeds.push(self.synthetics[i].feed.clone());
            i += 1;
        }
        assert(Seq::new(feeds@.len(), |i: int| feeds@[i].named()) =~= self@.feeds());
        feeds
    }
}

/// What there is to a synthetic's signed feed.
pub struct SyntheticEntryView {
    pub price: real,
    pub feed: SignedView<synthetic::SyntheticFeedView>,
    pub timestamp: Option<u128>,
}

impl View for SyntheticEntry {
    type V = SyntheticEntryView;

    open spec fn view(&self) -> SyntheticEntryView {
        SyntheticEntryView { price: self.price@, feed: self.feed.model(), timestamp: self.timestamp }
    }
}

impl Copied for SyntheticEntry {
    fn copied(&self) -> (r: Self) {
        SyntheticEntry {
            price: self.price.clone(),
            feed: Signed { data: self.feed.data.clone(), signature: crate::frost::copy_bytes(&self.feed.signature) },
            timestamp: self.timestamp,
        }
    }
}

/// What there is to a currency's signed feed.
pub struct GenericEntryView {
    pub feed: SignedView<generic::GenericFeedView>,
    pub timestamp: u128,
}

impl View for GenericEntry {
    type V = GenericEntryView;

    open spec fn view(&self) -> GenericEntryView {
        GenericEntryView { feed: self.feed.model(), timestamp: self.timestamp }
    }
}

impl Copied for GenericEntry {
    fn copied(&self) -> (r: Self) {
        GenericEntry {
            feed: Signed { data: self.feed.data.clone(), signature: crate::frost::copy_bytes(&self.feed.signature) },
            timestamp: self.timestamp,
        }
    }
}

/// What there is to a round's signed feeds.
pub struct EntriesView {
    pub timestamp: u128,
    pub synthetics: Seq<SyntheticEntryView>,
    pub generics: Seq<GenericEntryView>,
}

impl View for SignedEntries {
    type V = EntriesView;

    open spec fn view(&self) -> EntriesView {
        EntriesView {
            timestamp: self.timestamp,
            synthetics: views(self.synthetics@),
            generics: views(self.generics@),
        }
    }
}

impl Clone for SignedEntries {
    fn clone(&self) -> (r: Self)
        ensures
            r@ == self@,
    {
        SignedEntries {
            timestamp: self.timestamp,
            synthetics: copy_all(&self.synthetics),
            generics: copy_all(&self.generics),
        }
    }
}

} // verus!
