//! Prices from the pools of SundaeSwap, as its API reports them.

use std::str::FromStr;

use vstd::prelude::*;
use vstd::utf8::{decode_utf8, encode_utf8, valid_utf8};

use crate::config::Pool;
use crate::decimal::{decimal_quotient, is_decimal, Decimal, DecimalView};
use crate::keys::text_in;
use crate::price_feed::codec::string_from_utf8;
use crate::sources::source::{PriceInfo, PriceInfoView, SourceError, SourceErrorView};
use crate::text::shown_number;

verus! {

/// What stands in a text from a byte on; nothing where there is no such byte, or it is within a character.
pub open spec fn text_from(text: Seq<char>, at: nat) -> Option<Seq<char>> {
    let bytes = encode_utf8(text);
    if at <= bytes.len() && valid_utf8(bytes.skip(at as int)) {
        Some(decode_utf8(bytes.skip(at as int)))
    } else {
        None
    }
}

fn find_text_from(text: &str, at: usize) -> (r: Option<String>)
    ensures
        text_in(r) == text_from(text@, at as nat),
{
    let bytes = text.as_bytes();
    if at > bytes.len() {
        return None;
    }
    let mut rest: Vec<u8> = Vec::new();
    let mut i: usize = at;
    while i < bytes.len()
        invariant
            at <= i <= bytes@.len(),
            rest@ == bytes@.subrange(at as int, i as int),
        decreases bytes@.len() - i,
    {
        rest.push(bytes[i]);
        i += 1;
        assert(bytes@.subrange(at as int, i as int) =~= bytes@.subrange(at as int, i - 1).push(bytes@[i - 1]));
    }
    assert(rest@ =~= bytes@.skip(at as int));
    string_from_utf8(rest)
}

/// The whole number that a text shows; nothing for a text that shows none, or one that is too large.
pub open spec fn parsed_number(text: Seq<char>) -> Option<i128> {
    match shown_number(text) {
        Some(number) => if i128::MIN <= number <= i128::MAX {
            Some(number as i128)
        } else {
            None
        },
        None => None,
    }
}

/// `i128::from_str`: decimal digits, behind a sign or not, of a number that is not too large.
#[verifier::external_body]
fn parse_number(text: &str) -> (r: Option<i128>)
    ensures
        r == parsed_number(text@),
{
    i128::from_str(text).ok()
}

/// How many bytes of a pool's asset stand before its id: the policy, a point, and a prefix of two bytes in
/// hexadecimal digits.
pub open spec fn prefix_length(policy_id: Seq<char>) -> nat {
    encode_utf8(policy_id).len() + 5
}

/// The id by which the API knows a pool: the name of its asset without the prefix. There is none where the asset is
/// shorter than that.
pub fn pool_id(policy_id: &str, pool: &Pool) -> (r: Option<String>)
    ensures
        text_in(r) == text_from(pool.asset_id@, prefix_length(policy_id@)),
{
    let policy_length: usize = policy_id.as_bytes().len();
    match policy_length.checked_add(5) {
        Some(start) => find_text_from(pool.asset_id.as_str(), start),
        None => {
            let length: usize = pool.asset_id.as_str().as_bytes().len();
            assert(length == encode_utf8(pool.asset_id@).len());
            None
        },
    }
}

/// What the API says of a token in a pool.
#[derive(Debug)]
pub struct Asset {
    pub ticker: Option<String>,
    pub decimals: u32,
    /// How much of it the pool holds.
    pub quantity: String,
}

/// A number with a point.
pub open spec fn scaled_number(text: Seq<char>, decimals: u32) -> Result<DecimalView, SourceErrorView> {
    match parsed_number(text) {
        None => Err(SourceErrorView::BadPrice),
        Some(number) => if is_decimal(number as int, decimals as nat) {
            Ok(DecimalView { mantissa: number as int, scale: decimals as nat })
        } else {
            Err(SourceErrorView::Undefined)
        },
    }
}

fn read_scaled(text: &str, decimals: u32) -> (r: Result<Decimal, SourceError>)
    ensures
        match r {
            Ok(number) => scaled_number(text@, decimals) == Ok::<DecimalView, SourceErrorView>(number@),
            Err(error) => scaled_number(text@, decimals) == Err::<DecimalView, SourceErrorView>(error@),
        },
{
    match parse_number(text) {
        None => Err(SourceError::BadPrice),
        Some(number) => match Decimal::from_i128_with_scale(number, decimals) {
            Some(number) => Ok(number),
            None => Err(SourceError::Undefined),
        },
    }
}

/// The price of a pool's second token in its first, which is ADA; nothing for a token without a name. It counts by the
/// amount of ADA.
pub open spec fn api_price(a: Asset, b: Asset) -> Result<Option<PriceInfoView>, SourceErrorView> {
    match b.ticker {
        None => Ok(None),
        Some(token) => match scaled_number(a.quantity@, a.decimals) {
            Err(error) => Err(error),
            Ok(numerator) => match scaled_number(b.quantity@, b.decimals) {
                Err(error) => Err(error),
                Ok(denominator) => match decimal_quotient(numerator, denominator) {
                    None => Err(SourceErrorView::Undefined),
                    Some(value) => Ok(
                        Some(PriceInfoView { token: token@, unit: "ADA"@, value, reliability: numerator }),
                    ),
                },
            },
        },
    }
}

/// The price of a pool's second token in its first.
pub fn read_pool(a: &Asset, b: &Asset) -> (r: Result<Option<PriceInfo>, SourceError>)
    ensures
        match r {
            Ok(Some(price)) => api_price(*a, *b) == Ok::<Option<PriceInfoView>, SourceErrorView>(Some(price@)),
            Ok(None) => api_price(*a, *b) == Ok::<Option<PriceInfoView>, SourceErrorView>(None),
            Err(error) => api_price(*a, *b) == Err::<Option<PriceInfoView>, SourceErrorView>(error@),
        },
{
    let token = match &b.ticker {
        Some(token) => token.clone(),
        None => {
            return Ok(None);
        },
    };
    let numerator = match read_scaled(a.quantity.as_str(), a.decimals) {
        Ok(number) => number,
        Err(error) => {
            return Err(error);
        },
    };
    let denominator = match read_scaled(b.quantity.as_str(), b.decimals) {
        Ok(number) => number,
        Err(error) => {
            return Err(error);
        },
    };
    match numerator.over(&denominator) {
        Some(value) => Ok(Some(PriceInfo { token, unit: "ADA".to_owned(), value, reliability: numerator })),
        None => Err(SourceError::Undefined),
    }
}

} // verus!
