//! The prices of a synthetic's collateral, and the time during which they hold.

use vstd::prelude::*;

use crate::names::Named;
use crate::numbers::{Natural, Rational};
use crate::plutus::{is_readable, Plutus, PlutusData};
use crate::price_feed::codec::{decode_enum, encode_enum, enum_read, enum_written};
use crate::price_feed::codec::{decode_struct, encode_struct, models, struct_read, struct_written, trees};
use crate::price_feed::codec::{DecodeError, PlutusCompatible};

verus! {

/// Where an interval of time ends; finite ends are in milliseconds since 1970.
#[derive(Debug, Clone, Copy, PartialEq, Eq, Structural)]
pub enum IntervalBoundType {
    NegativeInfinity,
    Finite(u64),
    PositiveInfinity,
}

/// One end of an interval of time.
#[derive(Debug, Clone, Copy, PartialEq, Eq, Structural)]
pub struct IntervalBound {
    pub bound_type: IntervalBoundType,
    pub is_inclusive: bool,
}

/// The time during which a price may be used.
#[derive(Debug, Clone, Copy, PartialEq, Eq, Structural)]
pub struct Validity {
    pub lower_bound: IntervalBound,
    pub upper_bound: IntervalBound,
}

impl IntervalBound {
    /// A bound at a moment, in milliseconds since 1970.
    pub fn unix_timestamp(timestamp: u64, is_inclusive: bool) -> (r: Self)
        ensures
            r == (IntervalBound { bound_type: IntervalBoundType::Finite(timestamp), is_inclusive }),
    {
        IntervalBound { bound_type: IntervalBoundType::Finite(timestamp), is_inclusive }
    }

    /// A bound at a moment, in nanoseconds since 1970; what is less than a millisecond is dropped.
    pub fn moment(moment: u128, is_inclusive: bool) -> (r: Self)
        requires
            moment / 1_000_000 <= u64::MAX,
        ensures
            r == (IntervalBound {
                bound_type: IntervalBoundType::Finite((moment / 1_000_000) as u64),
                is_inclusive,
            }),
    {
        IntervalBound::unix_timestamp((moment / 1_000_000) as u64, is_inclusive)
    }
}

impl Default for Validity {
    /// All of time.
    fn default() -> (r: Self)
        ensures
            r.lower_bound == (IntervalBound { bound_type: IntervalBoundType::NegativeInfinity, is_inclusive: true }),
            r.upper_bound == (IntervalBound { bound_type: IntervalBoundType::PositiveInfinity, is_inclusive: true }),
    {
        Validity {
            lower_bound: IntervalBound { bound_type: IntervalBoundType::NegativeInfinity, is_inclusive: true },
            upper_bound: IntervalBound { bound_type: IntervalBoundType::PositiveInfinity, is_inclusive: true },
        }
    }
}

impl PlutusCompatible for IntervalBoundType {
    type Model = IntervalBoundType;

    open spec fn model(&self) -> IntervalBoundType {
        *self
    }

    open spec fn written(model: IntervalBoundType) -> Plutus {
        match model {
            IntervalBoundType::NegativeInfinity => enum_written(0, None),
            IntervalBoundType::Finite(moment) => enum_written(1, Some(u64::written(moment))),
            IntervalBoundType::PositiveInfinity => enum_written(2, None),
        }
    }

    open spec fn read(data: Plutus) -> Result<IntervalBoundType, DecodeError> {
        match enum_read(data) {
            Ok((0, None)) => Ok(IntervalBoundType::NegativeInfinity),
            Ok((1, Some(moment))) => match u64::read(moment) {
                Ok(moment) => Ok(IntervalBoundType::Finite(moment)),
                Err(error) => Err(error),
            },
            Ok((2, None)) => Ok(IntervalBoundType::PositiveInfinity),
            Ok((variant, _)) => Err(DecodeError::UnexpectedVariant(variant)),
            Err(error) => Err(error),
        }
    }

    proof fn lemma_written_is_readable(&self) {
        if let IntervalBoundType::Finite(moment) = *self {
            moment.lemma_written_is_readable();
        }
    }

    proof fn lemma_round_trip(&self) {
        if let IntervalBoundType::Finite(moment) = *self {
            moment.lemma_round_trip();
        }
    }

    fn to_plutus(&self) -> (r: PlutusData) {
        match self {
            IntervalBoundType::NegativeInfinity => encode_enum(0, None),
            IntervalBoundType::Finite(moment) => encode_enum(1, Some(moment.to_plutus())),
            IntervalBoundType::PositiveInfinity => encode_enum(2, None),
        }
    }

    fn from_plutus(data: PlutusData) -> (r: Result<Self, DecodeError>) {
        match decode_enum(data) {
            Ok((0, None)) => Ok(IntervalBoundType::NegativeInfinity),
            Ok((1, Some(moment))) => match u64::from_plutus(moment) {
                Ok(moment) => Ok(IntervalBoundType::Finite(moment)),
                Err(error) => Err(error),
            },
            Ok((2, None)) => Ok(IntervalBoundType::PositiveInfinity),
            Ok((variant, _)) => Err(DecodeError::UnexpectedVariant(variant)),
            Err(error) => Err(error),
        }
    }
}

impl PlutusCompatible for IntervalBound {
    type Model = IntervalBound;

    open spec fn model(&self) -> IntervalBound {
        *self
    }

    open spec fn written(model: IntervalBound) -> Plutus {
        struct_written(seq![IntervalBoundType::written(model.bound_type), bool::written(model.is_inclusive)])
    }

    open spec fn read(data: Plutus) -> Result<IntervalBound, DecodeError> {
        match struct_read(data, 2) {
            Ok(fields) => match IntervalBoundType::read(fields[0]) {
                Ok(bound_type) => match bool::read(fields[1]) {
                    Ok(is_inclusive) => Ok(IntervalBound { bound_type, is_inclusive }),
                    Err(error) => Err(error),
                },
                Err(error) => Err(error),
            },
            Err(error) => Err(error),
        }
    }

    proof fn lemma_written_is_readable(&self) {
        self.bound_type.lemma_written_is_readable();
        self.is_inclusive.lemma_written_is_readable();
        let fields = Self::written(*self)->Constr_fields;
        assert forall|i: int| 0 <= i < fields.len() implies is_readable(#[trigger] fields[i]) by {}
    }

    proof fn lemma_round_trip(&self) {
        self.bound_type.lemma_round_trip();
        self.is_inclusive.lemma_round_trip();
    }

    fn to_plutus(&self) -> (r: PlutusData) {
        let mut fields: Vec<PlutusData> = Vec::new();
        fields.push(self.bound_type.to_plutus());
        fields.push(self.is_inclusive.to_plutus());
        assert(trees(fields@) =~= Self::written(*self)->Constr_fields);
        encode_struct(fields)
    }

    fn from_plutus(data: PlutusData) -> (r: Result<Self, DecodeError>) {
        let mut fields = match decode_struct(data, 2) {
            Ok(fields) => fields,
            Err(error) => return Err(error),
        };
        let is_inclusive = fields.remove(1);
        let bound_type = fields.remove(0);
        match IntervalBoundType::from_plutus(bound_type) {
            Ok(bound_type) => match bool::from_plutus(is_inclusive) {
                Ok(is_inclusive) => Ok(IntervalBound { bound_type, is_inclusive }),
                Err(error) => Err(error),
            },
            Err(error) => Err(error),
        }
    }
}

impl PlutusCompatible for Validity {
    type Model = Validity;

    open spec fn model(&self) -> Validity {
        *self
    }

    open spec fn written(model: Validity) -> Plutus {
        struct_written(seq![IntervalBound::written(model.lower_bound), IntervalBound::written(model.upper_bound)])
    }

    open spec fn read(data: Plutus) -> Result<Validity, DecodeError> {
        match struct_read(data, 2) {
            Ok(fields) => match IntervalBound::read(fields[0]) {
                Ok(lower_bound) => match IntervalBound::read(fields[1]) {
                    Ok(upper_bound) => Ok(Validity { lower_bound, upper_bound }),
                    Err(error) => Err(error),
                },
                Err(error) => Err(error),
            },
            Err(error) => Err(error),
        }
    }

    proof fn lemma_written_is_readable(&self) {
        self.lower_bound.lemma_written_is_readable();
        self.upper_bound.lemma_written_is_readable();
        let fields = Self::written(*self)->Constr_fields;
        assert forall|i: int| 0 <= i < fields.len() implies is_readable(#[trigger] fields[i]) by {}
    }

    proof fn lemma_round_trip(&self) {
        self.lower_bound.lemma_round_trip();
        self.upper_bound.lemma_round_trip();
    }

    fn to_plutus(&self) -> (r: PlutusData) {
        let mut fields: Vec<PlutusData> = Vec::new();
        fields.push(self.lower_bound.to_plutus());
        fields.push(self.upper_bound.to_plutus());
        assert(trees(fields@) =~= Self::written(*self)->Constr_fields);
        encode_struct(fields)
    }

    fn from_plutus(data: PlutusData) -> (r: Result<Self, DecodeError>) {
        let mut fields = match decode_struct(data, 2) {
            Ok(fields) => fields,
            Err(error) => return Err(error),
        };
        let upper_bound = fields.remove(1);
        let lower_bound = fields.remove(0);
        match IntervalBound::from_plutus(lower_bound) {
            Ok(lower_bound) => match IntervalBound::from_plutus(upper_bound) {
                Ok(upper_bound) => Ok(Validity { lower_bound, upper_bound }),
                Err(error) => Err(error),
            },
            Err(error) => Err(error),
        }
    }
}

/// The prices of a synthetic's collateral, as numerators over one denominator.
#[derive(Debug, PartialEq, Eq)]
pub struct SyntheticPriceFeed {
    /// The collateral that the prices are of. This is not part of what is signed.
    pub collateral_names: Option<Vec<String>>,
    pub collateral_prices: Vec<Natural>,
    pub synthetic: String,
    pub denominator: Natural,
    pub validity: Validity,
}

/// What is signed of a feed.
pub struct SyntheticFeedView {
    pub collateral_prices: Seq<nat>,
    pub synthetic: Seq<char>,
    pub denominator: nat,
    pub validity: Validity,
}

impl View for SyntheticPriceFeed {
    type V = SyntheticFeedView;

    open spec fn view(&self) -> SyntheticFeedView {
        SyntheticFeedView {
            collateral_prices: models(self.collateral_prices@),
            synthetic: self.synthetic@,
            denominator: self.denominator@,
            validity: self.validity,
        }
    }
}

/// The numbers of these naturals.
pub fn clone_naturals(values: &Vec<Natural>) -> (r: Vec<Natural>)
    ensures
        models(r@) == models(values@),
{
    let mut copy: Vec<Natural> = Vec::new();
    let mut i: usize = 0;
    while i < values.len()
        invariant
            i <= values.len(),
            copy.len() == i,
            forall|j: int| 0 <= j < i ==> (#[trigger] copy@[j])@ == values@[j]@,
        decreases values.len() - i,
    {
        copy.push(values[i].clone());
        i += 1;
    }
    assert(models(copy@) =~= models(values@));
    copy
}

/// A copy of the names.
pub fn clone_names(names: &Vec<String>) -> (r: Vec<String>)
    ensures
        r@ == names@,
{
    let mut copy: Vec<String> = Vec::new();
    let mut i: usize = 0;
    while i < names.len()
        invariant
            i <= names.len(),
            copy@ == names@.take(i as int),
        decreases names.len() - i,
    {
        copy.push(names[i].clone());
        i += 1;
        assert(names@.take(i as int) =~= names@.take(i - 1).push(names@[i - 1]));
    }
    assert(names@.take(i as int) =~= names@);
    copy
}

/// The texts of these strings.
pub open spec fn texts(strings: Seq<String>) -> Seq<Seq<char>> {
    Seq::new(strings.len(), |i: int| strings[i]@)
}

/// The collateral's names, where there are any.
pub open spec fn names_in(names: Option<Vec<String>>) -> Option<Seq<Seq<char>>> {
    match names {
        Some(names) => Some(texts(names@)),
        None => None,
    }
}

/// A feed together with the names of its collateral.
pub struct NamedFeedView {
    pub feed: SyntheticFeedView,
    pub collateral_names: Option<Seq<Seq<char>>>,
}

impl SyntheticPriceFeed {
    /// The feed together with the names of its collateral.
    pub open spec fn named(&self) -> NamedFeedView {
        NamedFeedView { feed: self@, collateral_names: names_in(self.collateral_names) }
    }
}

impl Clone for SyntheticPriceFeed {
    fn clone(&self) -> (r: Self)
        ensures
            r@ == self@,
            r.named() == self.named(),
    {
        SyntheticPriceFeed {
            collateral_names: match &self.collateral_names {
                Some(names) => Some(clone_names(names)),
                None => None,
            },
            collateral_prices: clone_naturals(&self.collateral_prices),
            synthetic: self.synthetic.clone(),
            denominator: self.denominator.clone(),
            validity: self.validity,
        }
    }
}

impl Named for SyntheticPriceFeed {
    open spec fn name(&self) -> Seq<char> {
        self.synthetic@
    }

    fn as_name(&self) -> (r: &str) {
        self.synthetic.as_str()
    }
}

impl PlutusCompatible for SyntheticPriceFeed {
    type Model = SyntheticFeedView;

    open spec fn model(&self) -> SyntheticFeedView {
        self@
    }

    open spec fn written(model: SyntheticFeedView) -> Plutus {
        struct_written(
            seq![
                Vec::<Natural>::written(model.collateral_prices),
                String::written(model.synthetic),
                Natural::written(model.denominator),
                Validity::written(model.validity),
            ],
        )
    }

    open spec fn read(data: Plutus) -> Result<SyntheticFeedView, DecodeError> {
        match struct_read(data, 4) {
            Ok(fields) => match Vec::<Natural>::read(fields[0]) {
                Ok(collateral_prices) => match String::read(fields[1]) {
                    Ok(synthetic) => match Natural::read(fields[2]) {
                        Ok(denominator) => match Validity::read(fields[3]) {
                            Ok(validity) => Ok(
                                SyntheticFeedView { collateral_prices, synthetic, denominator, validity },
                            ),
                            Err(error) => Err(error),
                        },
                        Err(error) => Err(error),
                    },
                    Err(error) => Err(error),
                },
                Err(error) => Err(error),
            },
            Err(error) => Err(error),
        }
    }

    proof fn lemma_written_is_readable(&self) {
        self.collateral_prices.lemma_written_is_readable();
        self.synthetic.lemma_written_is_readable();
        self.denominator.lemma_written_is_readable();
        self.validity.lemma_written_is_readable();
        let fields = Self::written(self@)->Constr_fields;
        assert forall|i: int| 0 <= i < fields.len() implies is_readable(#[trigger] fields[i]) by {}
    }

    proof fn lemma_round_trip(&self) {
        self.collateral_prices.lemma_round_trip();
        self.synthetic.lemma_round_trip();
        self.denominator.lemma_round_trip();
        self.validity.lemma_round_trip();
    }

    fn to_plutus(&self) -> (r: PlutusData) {
        let mut fields: Vec<PlutusData> = Vec::new();
        fields.push(self.collateral_prices.to_plutus());
        fields.push(self.synthetic.to_plutus());
        fields.push(self.denominator.to_plutus());
        fields.push(self.validity.to_plutus());
        assert(trees(fields@) =~= Self::written(self@)->Constr_fields);
        encode_struct(fields)
    }

    /// The names of the collateral are not read: they are not written.
    fn from_plutus(data: PlutusData) -> (r: Result<Self, DecodeError>)
        ensures
            r is Ok ==> r->Ok_0.collateral_names is None,
    {
        let mut fields = match decode_struct(data, 4) {
            Ok(fields) => fields,
            Err(error) => return Err(error),
        };
        let validity = fields.remove(3);
        let denominator = fields.remove(2);
        let synthetic = fields.remove(1);
        let collateral_prices = fields.remove(0);
        match Vec::<Natural>::from_plutus(collateral_prices) {
            Ok(collateral_prices) => match String::from_plutus(synthetic) {
                Ok(synthetic) => match Natural::from_plutus(denominator) {
                    Ok(denominator) => match Validity::from_plutus(validity) {
                        Ok(validity) => Ok(
                            SyntheticPriceFeed {
                                collateral_names: None,
                                collateral_prices,
                                synthetic,
                                denominator,
                                validity,
                            },
                        ),
                        Err(error) => Err(error),
                    },
                    Err(error) => Err(error),
                },
                Err(error) => Err(error),
            },
            Err(error) => Err(error),
        }
    }
}

/// A feed together with the synthetic's own price in dollars.
#[derive(Debug, PartialEq, Eq)]
pub struct SyntheticPriceData {
    pub price: Rational,
    pub feed: SyntheticPriceFeed,
}

/// What there is to a synthetic's price.
pub struct SyntheticDataView {
    pub price: real,
    pub feed: NamedFeedView,
}

impl View for SyntheticPriceData {
    type V = SyntheticDataView;

    open spec fn view(&self) -> SyntheticDataView {
        SyntheticDataView { price: self.price@, feed: self.feed.named() }
    }
}

impl Clone for SyntheticPriceData {
    fn clone(&self) -> (r: Self)
        ensures
            r@ == self@,
    {
        SyntheticPriceData { price: self.price.clone(), feed: self.feed.clone() }
    }
}

} // verus!
