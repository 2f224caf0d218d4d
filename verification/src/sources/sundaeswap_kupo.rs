//! Prices from the pools of SundaeSwap, as they stand on chain.

use vstd::prelude::*;

use crate::config::HydratedPool;
use crate::encoding::{hex_bytes, hex_decode, is_hex};
use crate::numbers::{be_value, Natural};
use crate::plutus::{cbor_tree, Plutus, PlutusData};
use crate::price_feed::codec::trees;
use crate::sources::pools::{find_only_match, only_match, pool_price_in, price_of_value, price_value, Match, PoolError};
use crate::sources::source::{PriceInfo, PriceInfoView};

verus! {

/// Which field of a pool's datum has the fee, in lovelace.
const TX_FEE_FIELD_INDEX: usize = 7;

/// The fee that a pool's datum has. Numbers of any size count without their sign.
pub open spec fn fee_in(datum: Plutus) -> Result<u64, PoolError> {
    match datum {
        Plutus::Constr { fields, .. } => if fields.len() <= 7 {
            Err(PoolError::MissingFee)
        } else {
            match fields[7] {
                Plutus::Int(value) => if 0 <= value <= u64::MAX {
                    Ok(value as u64)
                } else {
                    Err(PoolError::FeeOutOfRange)
                },
                Plutus::BigUInt(bytes) => whole_fee(bytes),
                Plutus::BigNInt(bytes) => whole_fee(bytes),
                _ => Err(PoolError::MissingFee),
            }
        },
        _ => Err(PoolError::UnexpectedDatum),
    }
}

/// The fee that these bytes stand for.
pub open spec fn whole_fee(bytes: Seq<u8>) -> Result<u64, PoolError> {
    if be_value(bytes) <= u64::MAX {
        Ok(be_value(bytes) as u64)
    } else {
        Err(PoolError::FeeOutOfRange)
    }
}

/// The fee that a pool's datum has, in hexadecimal digits.
pub open spec fn tx_fee(data: Seq<char>) -> Result<u64, PoolError> {
    if !is_hex(data) {
        Err(PoolError::MalformedDatum)
    } else {
        match cbor_tree(hex_bytes(data)) {
            None => Err(PoolError::InvalidDatum),
            Some(datum) => fee_in(datum),
        }
    }
}

fn read_fee(bytes: &Vec<u8>) -> (r: Result<u64, PoolError>)
    ensures
        r == whole_fee(bytes@),
{
    match Natural::from_bytes_be(bytes.as_slice()).to_u64() {
        Some(fee) => Ok(fee),
        None => Err(PoolError::FeeOutOfRange),
    }
}

/// The fee that a pool's datum has.
pub fn extract_tx_fee(data: &str) -> (r: Result<u64, PoolError>)
    ensures
        r == tx_fee(data@),
{
    let bytes = match hex_decode(data) {
        Some(bytes) => bytes,
        None => {
            return Err(PoolError::MalformedDatum);
        },
    };
    let decoded = match crate::plutus::decode(bytes.as_slice()) {
        Some(decoded) => decoded,
        None => {
            return Err(PoolError::InvalidDatum);
        },
    };
    match &decoded {
        PlutusData::Constr { fields, .. } => {
            assert(decoded@->Constr_fields =~= trees(fields@));
            if fields.len() <= TX_FEE_FIELD_INDEX {
                return Err(PoolError::MissingFee);
            }
            assert(decoded@->Constr_fields[7] == fields@[7]@);
            match &fields[TX_FEE_FIELD_INDEX] {
                PlutusData::Int(value) => if 0 <= *value && *value <= u64::MAX as i128 {
                    Ok(*value as u64)
                } else {
                    Err(PoolError::FeeOutOfRange)
                },
                PlutusData::BigUInt(bytes) => read_fee(bytes),
                PlutusData::BigNInt(bytes) => read_fee(bytes),
                _ => Err(PoolError::MissingFee),
            }
        },
        _ => Err(PoolError::UnexpectedDatum),
    }
}

/// Which datum to ask for next, when these outputs were found for a pool.
pub open spec fn datum_of_pool(matches: Seq<Match>) -> Result<Seq<char>, PoolError> {
    match only_match(matches) {
        Err(error) => Err(error),
        Ok(found) => match found.datum {
            Some(hash) => Ok(hash@),
            None => Err(PoolError::NoDatum),
        },
    }
}

/// Which datum to ask for next, when these outputs were found for a pool.
pub fn receive_matches(matches: &Vec<Match>) -> (r: Result<String, PoolError>)
    ensures
        match r {
            Ok(hash) => datum_of_pool(matches@) == Ok::<Seq<char>, PoolError>(hash@),
            Err(error) => datum_of_pool(matches@) == Err::<Seq<char>, PoolError>(error),
        },
{
    match find_only_match(matches) {
        Ok(found) => match &found.datum {
            Some(hash) => Ok(hash.clone()),
            None => Err(PoolError::NoDatum),
        },
        Err(error) => Err(error),
    }
}

/// The price of a pool, by its output and its datum.
pub open spec fn sundaeswap_price(
    pool: HydratedPool,
    found: Match,
    datum: Option<Seq<char>>,
) -> Result<PriceInfoView, PoolError> {
    match datum {
        None => Err(PoolError::DatumNotFound),
        Some(datum) => match tx_fee(datum) {
            Err(error) => Err(error),
            Ok(fee) => price_of_value(pool, found.value, fee),
        },
    }
}

/// The price of a pool, by its output and its datum. The fee is not part of what the pool holds.
pub fn receive_datum(pool: &HydratedPool, found: &Match, datum: Option<&str>) -> (r: Result<PriceInfo, PoolError>)
    ensures
        pool_price_in(r) == sundaeswap_price(
            *pool,
            *found,
            match datum {
                Some(datum) => Some(datum@),
                None => None,
            },
        ),
{
    let datum = match datum {
        Some(datum) => datum,
        None => {
            return Err(PoolError::DatumNotFound);
        },
    };
    match extract_tx_fee(datum) {
        Ok(fee) => price_value(pool, &found.value, fee),
        Err(error) => Err(error),
    }
}

} // verus!
