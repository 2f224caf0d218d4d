//! Prices from pools of two tokens on chain.

use vstd::prelude::*;

use crate::config::HydratedPool;
use crate::decimal::{decimal_quotient, Decimal, DecimalView, MAX_SCALE};
use crate::keys::text_in;
use crate::names::NameMap;
use crate::sources::source::{PriceInfo, PriceInfoView};
use crate::text::{between, join};

verus! {

/// What an output on chain holds: lovelace, and other tokens by what they are called on chain.
#[derive(Debug)]
pub struct ChainValue {
    pub coins: u64,
    pub assets: NameMap<String, u64>,
}

/// An output on chain, and the hash of its datum if it has one.
#[derive(Debug)]
pub struct Match {
    pub value: ChainValue,
    pub datum: Option<String>,
}

/// Why a pool has no price.
#[derive(Debug, Clone, Copy, PartialEq, Eq, Structural)]
pub enum PoolError {
    NotFound,
    Ambiguous,
    /// The output has no datum.
    NoDatum,
    DatumNotFound,
    /// The datum is not in hexadecimal digits.
    MalformedDatum,
    /// The datum is no CBOR.
    InvalidDatum,
    /// The datum is not what it should be.
    UnexpectedDatum,
    /// The datum has no fee.
    MissingFee,
    /// The fee is more than there can be, or less than nothing.
    FeeOutOfRange,
    /// The pool does not hold one of its tokens, or less than the fee.
    MissingAmount,
    /// The pool holds none of the unit.
    Zero,
    /// The pool holds none of the token.
    Infinite,
    /// The price, or the value of the pool, is more than there can be.
    OutOfRange,
}

/// What is said of a pool without a price.
pub open spec fn pool_error_text(error: PoolError, source: Seq<char>, token: Seq<char>) -> Seq<char> {
    match error {
        PoolError::NotFound => "pool not found for "@ + token,
        PoolError::Ambiguous => "more than one pool found for "@ + token,
        PoolError::NoDatum => "no datum attached to result"@,
        PoolError::DatumNotFound => "could not get datum for sundae token"@,
        PoolError::MalformedDatum => "datum is not hexadecimal"@,
        PoolError::InvalidDatum => "datum is not CBOR"@,
        PoolError::UnexpectedDatum => "datum in unexpected format"@,
        PoolError::MissingFee => "datum missing ada cost"@,
        PoolError::FeeOutOfRange => "ada cost is too high"@,
        PoolError::MissingAmount => "pool is missing assets for "@ + token,
        PoolError::Zero => source + " reported value of "@ + token + " as zero, ignoring"@,
        PoolError::Infinite => source + " reported value of "@ + token + " as infinite, ignoring"@,
        PoolError::OutOfRange => "price is out of range for "@ + token,
    }
}

/// What is said of a pool without a price.
pub fn describe_pool_error(error: PoolError, source: &str, token: &str) -> (r: String)
    ensures
        r@ == pool_error_text(error, source@, token@),
{
    match error {
        PoolError::NotFound => join("pool not found for ", token),
        PoolError::Ambiguous => join("more than one pool found for ", token),
        PoolError::NoDatum => "no datum attached to result".to_owned(),
        PoolError::DatumNotFound => "could not get datum for sundae token".to_owned(),
        PoolError::MalformedDatum => "datum is not hexadecimal".to_owned(),
        PoolError::InvalidDatum => "datum is not CBOR".to_owned(),
        PoolError::UnexpectedDatum => "datum in unexpected format".to_owned(),
        PoolError::MissingFee => "datum missing ada cost".to_owned(),
        PoolError::FeeOutOfRange => "ada cost is too high".to_owned(),
        PoolError::MissingAmount => join("pool is missing assets for ", token),
        PoolError::Zero => join(
            between(source, " reported value of ", token).as_str(),
            " as zero, ignoring",
        ),
        PoolError::Infinite => join(
            between(source, " reported value of ", token).as_str(),
            " as infinite, ignoring",
        ),
        PoolError::OutOfRange => join("price is out of range for ", token),
    }
}

/// How much of a token an output holds. Of lovelace, what the fee takes does not count.
pub open spec fn amount(asset_id: Option<Seq<char>>, value: ChainValue, fee: u64) -> Result<u64, PoolError> {
    match asset_id {
        Some(id) => if value.assets@.contains_key(id) {
            Ok(value.assets@[id])
        } else {
            Err(PoolError::MissingAmount)
        },
        None => if value.coins >= fee {
            Ok((value.coins - fee) as u64)
        } else {
            Err(PoolError::MissingAmount)
        },
    }
}

fn find_amount(asset_id: &Option<String>, value: &ChainValue, fee: u64) -> (r: Result<u64, PoolError>)
    ensures
        r == amount(text_in(*asset_id), *value, fee),
{
    match asset_id {
        Some(id) => match value.assets.get(id.as_str()) {
            Some(amount) => Ok(*amount),
            None => Err(PoolError::MissingAmount),
        },
        None => if value.coins >= fee {
            Ok(value.coins - fee)
        } else {
            Err(PoolError::MissingAmount)
        },
    }
}

/// The price of a pool that holds these amounts: how much of the unit there is for the token. It counts by twice the
/// amount of the token.
pub open spec fn pool_price(
    token: Seq<char>,
    unit: Seq<char>,
    token_digits: u32,
    unit_digits: u32,
    token_value: u64,
    unit_value: u64,
) -> Result<PriceInfoView, PoolError> {
    if unit_value == 0 {
        Err(PoolError::Zero)
    } else if token_value == 0 {
        Err(PoolError::Infinite)
    } else if unit_digits > MAX_SCALE || token_digits > MAX_SCALE {
        Err(PoolError::OutOfRange)
    } else {
        match decimal_quotient(
            DecimalView { mantissa: (unit_value as i64) as int, scale: unit_digits as nat },
            DecimalView { mantissa: (token_value as i64) as int, scale: token_digits as nat },
        ) {
            None => Err(PoolError::OutOfRange),
            Some(value) => if i64::MIN <= (token_value as i64) * 2 <= i64::MAX {
                Ok(
                    PriceInfoView {
                        token,
                        unit,
                        value,
                        reliability: DecimalView { mantissa: (token_value as i64) * 2, scale: 0 },
                    },
                )
            } else {
                Err(PoolError::OutOfRange)
            },
        }
    }
}

/// A price or why there is none.
pub open spec fn pool_price_in(outcome: Result<PriceInfo, PoolError>) -> Result<PriceInfoView, PoolError> {
    match outcome {
        Ok(price) => Ok(price@),
        Err(error) => Err(error),
    }
}

/// The price of a pool that holds these amounts.
pub fn compute_pool_price(pool: &HydratedPool, token_value: u64, unit_value: u64) -> (r: Result<PriceInfo, PoolError>)
    ensures
        pool_price_in(r) == pool_price(
            pool.pool.token@,
            pool.pool.unit@,
            pool.token_digits,
            pool.unit_digits,
            token_value,
            unit_value,
        ),
{
    if unit_value == 0 {
        return Err(PoolError::Zero);
    }
    if token_value == 0 {
        return Err(PoolError::Infinite);
    }
    if pool.unit_digits > MAX_SCALE || pool.token_digits > MAX_SCALE {
        return Err(PoolError::OutOfRange);
    }
    let units: i64 = #[verifier::truncate] (unit_value as i64);
    let tokens: i64 = #[verifier::truncate] (token_value as i64);
    let value = match Decimal::new(units, pool.unit_digits).over(&Decimal::new(tokens, pool.token_digits)) {
        Some(value) => value,
        None => {
            return Err(PoolError::OutOfRange);
        },
    };
    match tokens.checked_mul(2) {
        Some(tvl) => Ok(
            PriceInfo {
                token: pool.pool.token.clone(),
                unit: pool.pool.unit.clone(),
                value,
                reliability: Decimal::new(tvl, 0),
            },
        ),
        None => Err(PoolError::OutOfRange),
    }
}

/// The only output that was found.
pub open spec fn only_match(matches: Seq<Match>) -> Result<Match, PoolError> {
    if matches.len() == 0 {
        Err(PoolError::NotFound)
    } else if matches.len() > 1 {
        Err(PoolError::Ambiguous)
    } else {
        Ok(matches[0])
    }
}

/// The only output that was found.
pub fn find_only_match(matches: &Vec<Match>) -> (r: Result<&Match, PoolError>)
    ensures
        match r {
            Ok(found) => only_match(matches@) == Ok::<Match, PoolError>(*found),
            Err(error) => only_match(matches@) == Err::<Match, PoolError>(error),
        },
{
    if matches.len() == 0 {
        return Err(PoolError::NotFound);
    }
    if matches.len() > 1 {
        return Err(PoolError::Ambiguous);
    }
    Ok(&matches[0])
}

/// The price of a pool, by what its output holds.
pub open spec fn price_of_value(pool: HydratedPool, value: ChainValue, fee: u64) -> Result<PriceInfoView, PoolError> {
    match amount(text_in(pool.token_asset_id), value, fee) {
        Err(error) => Err(error),
        Ok(token_value) => match amount(text_in(pool.unit_asset_id), value, fee) {
            Err(error) => Err(error),
            Ok(unit_value) => pool_price(
                pool.pool.token@,
                pool.pool.unit@,
                pool.token_digits,
                pool.unit_digits,
                token_value,
                unit_value,
            ),
        },
    }
}

/// The price of a pool, by what its output holds.
pub fn price_value(pool: &HydratedPool, value: &ChainValue, fee: u64) -> (r: Result<PriceInfo, PoolError>)
    ensures
        pool_price_in(r) == price_of_value(*pool, *value, fee),
{
    let token_value: u64 = match find_amount(&pool.token_asset_id, value, fee) {
        Ok(amount) => amount,
        Err(error) => {
            return Err(error);
        },
    };
    let unit_value: u64 = match find_amount(&pool.unit_asset_id, value, fee) {
        Ok(amount) => amount,
        Err(error) => {
            return Err(error);
        },
    };
    compute_pool_price(pool, token_value, unit_value)
}

} // verus!
