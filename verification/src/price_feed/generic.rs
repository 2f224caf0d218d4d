//! The price of one currency in another.

use vstd::prelude::*;

use crate::names::Named;
use crate::numbers::Natural;
use crate::plutus::{is_readable, Plutus, PlutusData};
use crate::price_feed::codec::{decode_struct, encode_struct, struct_read, struct_written, trees};
use crate::price_feed::codec::{DecodeError, PlutusCompatible};

verus! {

#[derive(Debug, PartialEq, Eq)]
pub struct GenericPriceFeed {
    pub price: Natural,
    pub name: String,
    pub timestamp: u64,
}

/// What there is to a feed.
pub struct GenericFeedView {
    pub price: nat,
    pub name: Seq<char>,
    pub timestamp: u64,
}

impl View for GenericPriceFeed {
    type V = GenericFeedView;

    open spec fn view(&self) -> GenericFeedView {
        GenericFeedView { price: self.price@, name: self.name@, timestamp: self.timestamp }
    }
}

impl Clone for GenericPriceFeed {
    fn clone(&self) -> (r: Self)
        ensures
            r@ == self@,
    {
        GenericPriceFeed { price: self.price.clone(), name: self.name.clone(), timestamp: self.timestamp }
    }
}

impl Named for GenericPriceFeed {
    open spec fn name(&self) -> Seq<char> {
        self.name@
    }

    fn as_name(&self) -> (r: &str) {
        self.name.as_str()
    }
}

impl PlutusCompatible for GenericPriceFeed {
    type Model = GenericFeedView;

    open spec fn model(&self) -> GenericFeedView {
        self@
    }

    open spec fn written(model: GenericFeedView) -> Plutus {
        struct_written(
            seq![Natural::written(model.price), String::written(model.name), u64::written(model.timestamp)],
        )
    }

    open spec fn read(data: Plutus) -> Result<GenericFeedView, DecodeError> {
        match struct_read(data, 3) {
            Ok(fields) => match Natural::read(fields[0]) {
                Ok(price) => match String::read(fields[1]) {
                    Ok(name) => match u64::read(fields[2]) {
                        Ok(timestamp) => Ok(GenericFeedView { price, name, timestamp }),
                        Err(error) => Err(error),
                    },
                    Err(error) => Err(error),
                },
                Err(error) => Err(error),
            },
            Err(error) => Err(error),
        }
    }

    proof fn lemma_written_is_readable(&self) {
        self.price.lemma_written_is_readable();
        self.name.lemma_written_is_readable();
        self.timestamp.lemma_written_is_readable();
        let fields = Self::written(self@)->Constr_fields;
        assert forall|i: int| 0 <= i < fields.len() implies is_readable(#[trigger] fields[i]) by {}
    }

    proof fn lemma_round_trip(&self) {
        self.price.lemma_round_trip();
        self.name.lemma_round_trip();
        self.timestamp.lemma_round_trip();
    }

    fn to_plutus(&self) -> (r: PlutusData) {
        let mut fields: Vec<PlutusData> = Vec::new();
        fields.push(self.price.to_plutus());
        fields.push(self.name.to_plutus());
        fields.push(self.timestamp.to_plutus());
        assert(trees(fields@) =~= Self::written(self@)->Constr_fields);
        encode_struct(fields)
    }

    fn from_plutus(data: PlutusData) -> (r: Result<Self, DecodeError>) {
        let mut fields = match decode_struct(data, 3) {
            Ok(fields) => fields,
            Err(error) => return Err(error),
        };
        let timestamp = fields.remove(2);
        let name = fields.remove(1);
        let price = fields.remove(0);
        match Natural::from_plutus(price) {
            Ok(price) => match String::from_plutus(name) {
                Ok(name) => match u64::from_plutus(timestamp) {
                    Ok(timestamp) => Ok(GenericPriceFeed { price, name, timestamp }),
                    Err(error) => Err(error),
                },
                Err(error) => Err(error),
            },
            Err(error) => Err(error),
        }
    }
}

} // verus!
