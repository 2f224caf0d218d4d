//! Mark prices from ByBit.

use vstd::prelude::*;

use crate::names::str_equal;
use crate::sources::source::{listed_price, read_price, Listing, PriceInfo, PriceInfoView};
use crate::sources::source::{SourceError, SourceErrorView};

verus! {

/// How long to wait between heartbeats, in nanoseconds.
pub const HEARTBEAT_INTERVAL: u128 = 20_000_000_000;

#[derive(Default)]
pub struct ByBitSource;

/// What ByBit answers.
#[derive(Debug)]
pub enum ByBitResponse {
    StatusResponse { success: bool, ret_msg: String },
    TickerResponse { symbol: String, mark_price: Option<String> },
}

/// What the oracle calls a symbol.
pub open spec fn bybit_listing(symbol: Seq<char>) -> Option<Listing> {
    if symbol == "ADAUSDT"@ {
        Some(Listing { token: "ADA"@, invert: false })
    } else if symbol == "BTCUSDT"@ {
        Some(Listing { token: "BTCb"@, invert: false })
    } else if symbol == "MATICUSDT"@ {
        Some(Listing { token: "MATICb"@, invert: false })
    } else if symbol == "SOLUSDT"@ {
        Some(Listing { token: "SOLp"@, invert: true })
    } else {
        None
    }
}

/// The price in an answer, if it has one. A refusal is an error, and so is a price that makes no sense.
pub open spec fn bybit_price(response: ByBitResponse) -> Result<Option<PriceInfoView>, SourceErrorView> {
    match response {
        ByBitResponse::StatusResponse { success, ret_msg } => if success {
            Ok(None)
        } else {
            Err(SourceErrorView::Subscription(ret_msg@))
        },
        ByBitResponse::TickerResponse { symbol, mark_price } => match mark_price {
            None => Ok(None),
            Some(price) => match listed_price(price@, bybit_listing(symbol@), symbol@) {
                Ok(info) => Ok(Some(info)),
                Err(error) => Err(error),
            },
        },
    }
}

/// What came of an answer.
pub open spec fn update_in(
    outcome: Result<Option<PriceInfo>, SourceError>,
) -> Result<Option<PriceInfoView>, SourceErrorView> {
    match outcome {
        Ok(Some(price)) => Ok(Some(price@)),
        Ok(None) => Ok(None),
        Err(error) => Err(error@),
    }
}

impl ByBitSource {
    pub fn new() -> (r: Self)
        ensures
            r == ByBitSource,
    {
        ByBitSource
    }

    pub fn name(&self) -> (r: String)
        ensures
            r@ == "ByBit"@,
    {
        "ByBit".to_owned()
    }

    /// The tokens that it has prices of.
    pub fn tokens(&self) -> (r: Vec<String>)
        ensures
            r@.len() == 4,
            r@[0]@ == "ADA"@,
            r@[1]@ == "BTCb"@,
            r@[2]@ == "SOLp"@,
            r@[3]@ == "MATICb"@,
    {
        let mut tokens: Vec<String> = Vec::new();
        tokens.push("ADA".to_owned());
        tokens.push("BTCb".to_owned());
        tokens.push("SOLp".to_owned());
        tokens.push("MATICb".to_owned());
        tokens
    }

    /// What to subscribe to.
    pub fn subscriptions(&self) -> (r: Vec<String>)
        ensures
            r@.len() == 4,
            r@[0]@ == "tickers.ADAUSDT"@,
            r@[1]@ == "tickers.BTCUSDT"@,
            r@[2]@ == "tickers.MATICUSDT"@,
            r@[3]@ == "tickers.SOLUSDT"@,
    {
        let mut args: Vec<String> = Vec::new();
        args.push("tickers.ADAUSDT".to_owned());
        args.push("tickers.BTCUSDT".to_owned());
        args.push("tickers.MATICUSDT".to_owned());
        args.push("tickers.SOLUSDT".to_owned());
        args
    }

    /// The price in an answer, if it has one.
    pub fn process_response(&self, response: &ByBitResponse) -> (r: Result<Option<PriceInfo>, SourceError>)
        ensures
            update_in(r) == bybit_price(*response),
    {
        let (symbol, mark_price) = match response {
            ByBitResponse::StatusResponse { success, ret_msg } => {
                if !*success {
                    return Err(SourceError::Subscription(ret_msg.clone()));
                }
                return Ok(None);
            },
            ByBitResponse::TickerResponse { symbol, mark_price } => (symbol, mark_price),
        };
        let mark_price = match mark_price {
            Some(mark_price) => mark_price,
            None => {
                return Ok(None);
            },
        };
        let name = symbol.as_str();
        let listing = if str_equal(name, "ADAUSDT") {
            Some(("ADA", false))
        } else if str_equal(name, "BTCUSDT") {
            Some(("BTCb", false))
        } else if str_equal(name, "MATICUSDT") {
            Some(("MATICb", false))
        } else if str_equal(name, "SOLUSDT") {
            Some(("SOLp", true))
        } else {
            None
        };
        match read_price(mark_price.as_str(), listing, name) {
            Ok(price) => Ok(Some(price)),
            Err(error) => Err(error),
        }
    }
}

} // verus!
