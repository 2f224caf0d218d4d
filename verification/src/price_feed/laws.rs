//! What feeds look like to those who read them on chain.

use vstd::prelude::*;
use vstd::utf8::encode_utf8;

use crate::numbers::{be_value, Natural};
use crate::plutus::Plutus;
use crate::price_feed::codec::lemma_be_bytes_value;
use crate::price_feed::generic::{GenericFeedView, GenericPriceFeed};
use crate::price_feed::synthetic::{IntervalBound, IntervalBoundType, SyntheticFeedView, SyntheticPriceFeed, Validity};
use crate::price_feed::{PlutusCompatible, Signed, SignedView};

verus! {

/// Whether a tree is a struct with these fields: the first variant, which has the tag 121, with a list that does not say how
/// long it is.
pub open spec fn is_struct(tree: Plutus, fields: Seq<Plutus>) -> bool {
    tree == (Plutus::Constr { tag: 121, any_constructor: None, indefinite: true, fields })
}

/// Whether a tree is a whole number: an integer where it fits in 63 bits, and its bytes where it does not, the most
/// significant first.
pub open spec fn is_number(tree: Plutus, number: nat) -> bool {
    if number < 0x8000_0000_0000_0000 {
        tree == Plutus::Int(number as int)
    } else {
        tree matches Plutus::BigUInt(bytes) && be_value(bytes) == number
    }
}

/// Whether a tree is a variant without fields: the tags go up from 121.
pub open spec fn is_bare_variant(tree: Plutus, variant: int) -> bool {
    tree == (Plutus::Constr {
        tag: (121 + variant) as u64,
        any_constructor: None,
        indefinite: false,
        fields: seq![],
    })
}

/// Whole numbers are integers, or bytes where they are too large.
pub proof fn law_numbers_are_written_out(number: nat)
    ensures
        is_number(Natural::written(number), number),
{
    lemma_be_bytes_value(number);
}

/// A feed of a currency is its price, its name and when it was made.
pub proof fn law_feed_is_price_name_and_time(feed: GenericFeedView)
    ensures
        ({
            let fields = GenericPriceFeed::written(feed)->Constr_fields;
            &&& is_struct(GenericPriceFeed::written(feed), fields)
            &&& fields.len() == 3
            &&& is_number(fields[0], feed.price)
            &&& fields[1] == Plutus::BoundedBytes(encode_utf8(feed.name))
            &&& is_number(fields[2], feed.timestamp as nat)
        }),
{
    law_numbers_are_written_out(feed.price);
    law_numbers_are_written_out(feed.timestamp as nat);
}

/// A feed of a synthetic is the prices of its collateral in their order, its name, the denominator of the prices, and its
/// validity.
pub proof fn law_synthetic_is_prices_name_denominator_and_validity(feed: SyntheticFeedView)
    ensures
        ({
            let fields = SyntheticPriceFeed::written(feed)->Constr_fields;
            &&& is_struct(SyntheticPriceFeed::written(feed), fields)
            &&& fields.len() == 4
            &&& fields[0] matches Plutus::Array { indefinite, items } && indefinite && items.len()
                == feed.collateral_prices.len() && forall|i: int|
                0 <= i < items.len() ==> is_number(#[trigger] items[i], feed.collateral_prices[i])
            &&& fields[1] == Plutus::BoundedBytes(encode_utf8(feed.synthetic))
            &&& is_number(fields[2], feed.denominator)
            &&& fields[3] == Validity::written(feed.validity)
        }),
{
    let items = SyntheticPriceFeed::written(feed)->Constr_fields[0]->Array_items;
    assert forall|i: int| 0 <= i < items.len() implies is_number(#[trigger] items[i], feed.collateral_prices[i]) by {
        law_numbers_are_written_out(feed.collateral_prices[i]);
    }
    law_numbers_are_written_out(feed.denominator);
}

/// A validity is its lower bound and its upper bound. A bound is where it lies, and whether that belongs to it; and it lies
/// before all time, at a moment in milliseconds, or after all time.
pub proof fn law_validity_is_two_bounds(validity: Validity, bound: IntervalBound)
    ensures
        is_struct(
            Validity::written(validity),
            seq![IntervalBound::written(validity.lower_bound), IntervalBound::written(validity.upper_bound)],
        ),
        ({
            let fields = IntervalBound::written(bound)->Constr_fields;
            &&& is_struct(IntervalBound::written(bound), fields)
            &&& fields.len() == 2
            &&& match bound.bound_type {
                IntervalBoundType::NegativeInfinity => is_bare_variant(fields[0], 0),
                IntervalBoundType::Finite(moment) => {
                    &&& fields[0] matches Plutus::Constr { tag, any_constructor, indefinite, fields: inner } && tag == 122
                        && any_constructor is None && indefinite && inner.len() == 1 && is_number(
                        inner[0],
                        moment as nat,
                    )
                },
                IntervalBoundType::PositiveInfinity => is_bare_variant(fields[0], 2),
            }
            &&& is_bare_variant(
                fields[1],
                if bound.is_inclusive {
                    1
                } else {
                    0
                },
            )
        }),
{
    if let IntervalBoundType::Finite(moment) = bound.bound_type {
        law_numbers_are_written_out(moment as nat);
    }
}

/// A signed feed is the feed and its signature.
pub proof fn law_signed_feed_is_feed_and_signature<T: PlutusCompatible>(signed: SignedView<T::Model>)
    ensures
        is_struct(
            Signed::<T>::written(signed),
            seq![T::written(signed.data), Plutus::BoundedBytes(signed.signature)],
        ),
{
}

} // verus!
