//! Prices from the pools of Minswap.

use vstd::prelude::*;

use crate::config::HydratedPool;
use crate::sources::pools::{find_only_match, only_match, pool_price_in, price_of_value, price_value, Match, PoolError};
use crate::sources::source::{PriceInfo, PriceInfoView};

verus! {

/// The price of a pool, by the outputs that were found for it.
pub open spec fn minswap_price(pool: HydratedPool, matches: Seq<Match>) -> Result<PriceInfoView, PoolError> {
    match only_match(matches) {
        Err(error) => Err(error),
        Ok(found) => price_of_value(pool, found.value, 0),
    }
}

/// The price of a pool, by the outputs that were found for it.
pub fn receive_matches(pool: &HydratedPool, matches: &Vec<Match>) -> (r: Result<PriceInfo, PoolError>)
    ensures
        pool_price_in(r) == minswap_price(*pool, matches@),
{
    match find_only_match(matches) {
        Ok(found) => price_value(pool, &found.value, 0),
        Err(error) => Err(error),
    }
}

} // verus!
