//! Prices of tokens on Minswap, from Maestro.

use vstd::prelude::*;

use crate::text::join;

verus! {

/// Where the prices of a token in ADA are found.
pub fn ohlc_url(cnt: &str) -> (r: String)
    ensures
        r@ == "https://mainnet.gomaestro-api.org/v1/markets/dexs/ohlc/minswap/ADA-"@ + cnt@,
{
    join("https://mainnet.gomaestro-api.org/v1/markets/dexs/ohlc/minswap/ADA-", cnt)
}

/// The tokens that are asked for.
pub fn tokens() -> (r: Vec<String>)
    ensures
        r@.len() == 6,
        r@[0]@ == "LENFI"@,
        r@[1]@ == "iUSD"@,
        r@[2]@ == "MIN"@,
        r@[3]@ == "SNEK"@,
        r@[4]@ == "ENCS"@,
        r@[5]@ == "DJED"@,
{
    let mut tokens: Vec<String> = Vec::new();
    tokens.push("LENFI".to_owned());
    tokens.push("iUSD".to_owned());
    tokens.push("MIN".to_owned());
    tokens.push("SNEK".to_owned());
    tokens.push("ENCS".to_owned());
    tokens.push("DJED".to_owned());
    tokens
}

} // verus!
