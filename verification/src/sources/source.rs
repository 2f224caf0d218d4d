//! What a source reports.

use vstd::prelude::*;

use crate::decimal::{decimal_quotient, parsed_decimal, Decimal, DecimalView};
use crate::keys::text_in;

verus! {

#[derive(Clone, Copy, Debug, Eq, Hash, Ord, PartialEq, PartialOrd, Structural)]
pub enum Origin {
    Binance,
    ByBit,
    Coinbase,
    Maestro,
    SundaeSwap,
}

/// The price of a token, in a unit, and how much weight it has.
#[derive(Clone, Debug)]
pub struct PriceInfo {
    pub token: String,
    pub unit: String,
    pub value: Decimal,
    pub reliability: Decimal,
}

pub struct PriceInfoView {
    pub token: Seq<char>,
    pub unit: Seq<char>,
    pub value: DecimalView,
    pub reliability: DecimalView,
}

impl View for PriceInfo {
    type V = PriceInfoView;

    open spec fn view(&self) -> PriceInfoView {
        PriceInfoView {
            token: self.token@,
            unit: self.unit@,
            value: self.value@,
            reliability: self.reliability@,
        }
    }
}

/// A price, when it was reported, and by whom if the source has several.
#[derive(Debug)]
pub struct PriceInfoSnapshot {
    pub info: PriceInfo,
    pub name: Option<String>,
    pub as_of: u128,
}

pub struct SnapshotView {
    pub info: PriceInfoView,
    pub name: Option<Seq<char>>,
    pub as_of: u128,
}

impl View for PriceInfoSnapshot {
    type V = SnapshotView;

    open spec fn view(&self) -> SnapshotView {
        SnapshotView { info: self.info@, name: text_in(self.name), as_of: self.as_of }
    }
}

impl PriceInfo {
    /// A copy of it.
    pub fn copied(&self) -> (r: Self)
        ensures
            r@ == self@,
    {
        PriceInfo {
            token: self.token.clone(),
            unit: self.unit.clone(),
            value: self.value,
            reliability: self.reliability,
        }
    }
}

/// What is wrong with what a source said.
#[derive(Debug)]
pub enum SourceError {
    /// The name of a stream makes no sense.
    MalformedStream(String),
    /// A price is no number.
    BadPrice,
    /// There is no such price: it is the inverse of zero, or too large.
    Undefined,
    /// A price is of something that was not asked for.
    Unrecognized(String),
    /// The source refused to send prices.
    Subscription(String),
    /// The source sent something else.
    Unexpected,
}

pub enum SourceErrorView {
    MalformedStream(Seq<char>),
    BadPrice,
    Undefined,
    Unrecognized(Seq<char>),
    Subscription(Seq<char>),
    Unexpected,
}

impl View for SourceError {
    type V = SourceErrorView;

    open spec fn view(&self) -> SourceErrorView {
        match self {
            SourceError::MalformedStream(stream) => SourceErrorView::MalformedStream(stream@),
            SourceError::BadPrice => SourceErrorView::BadPrice,
            SourceError::Undefined => SourceErrorView::Undefined,
            SourceError::Unrecognized(name) => SourceErrorView::Unrecognized(name@),
            SourceError::Subscription(message) => SourceErrorView::Subscription(message@),
            SourceError::Unexpected => SourceErrorView::Unexpected,
        }
    }
}

/// A price or what is wrong with it.
pub open spec fn price_in(outcome: Result<PriceInfo, SourceError>) -> Result<PriceInfoView, SourceErrorView> {
    match outcome {
        Ok(price) => Ok(price@),
        Err(error) => Err(error@),
    }
}

/// One.
pub open spec fn unity() -> DecimalView {
    DecimalView { mantissa: 1, scale: 0 }
}

/// The price of a token in dollars that counts as much as any other.
pub open spec fn dollar_price(token: Seq<char>, value: DecimalView) -> PriceInfoView {
    PriceInfoView { token, unit: "USD"@, value, reliability: unity() }
}

/// What a token that the oracle knows by another name is called, and whether it has the inverse of the price.
pub struct Listing {
    pub token: Seq<char>,
    pub invert: bool,
}

/// The price that a text shows of a listing.
pub open spec fn listed_price(
    text: Seq<char>,
    listing: Option<Listing>,
    name: Seq<char>,
) -> Result<PriceInfoView, SourceErrorView> {
    match parsed_decimal(text) {
        None => Err(SourceErrorView::BadPrice),
        Some(value) => match listing {
            None => Err(SourceErrorView::Unrecognized(name)),
            Some(listing) => if !listing.invert {
                Ok(dollar_price(listing.token, value))
            } else {
                match decimal_quotient(unity(), value) {
                    Some(inverse) => Ok(dollar_price(listing.token, inverse)),
                    None => Err(SourceErrorView::Undefined),
                }
            },
        },
    }
}

/// The listing, if there is one.
pub open spec fn listing_in(listing: Option<(&str, bool)>) -> Option<Listing> {
    match listing {
        Some((token, invert)) => Some(Listing { token: token@, invert }),
        None => None,
    }
}

/// The price that a text shows of a listing.
pub fn read_price(text: &str, listing: Option<(&str, bool)>, name: &str) -> (r: Result<PriceInfo, SourceError>)
    ensures
        price_in(r) == listed_price(text@, listing_in(listing), name@),
{
    let value = match Decimal::parse(text) {
        Some(value) => value,
        None => {
            return Err(SourceError::BadPrice);
        },
    };
    let (token, invert) = match listing {
        Some(listing) => listing,
        None => {
            return Err(SourceError::Unrecognized(name.to_owned()));
        },
    };
    let value = if invert {
        match Decimal::one().over(&value) {
            Some(inverse) => inverse,
            None => {
                return Err(SourceError::Undefined);
            },
        }
    } else {
        value
    };
    Ok(PriceInfo { token: token.to_owned(), unit: "USD".to_owned(), value, reliability: Decimal::one() })
}

} // verus!
