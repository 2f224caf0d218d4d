//! Prices from Coinbase.

use vstd::prelude::*;

use crate::names::str_equal;
use crate::sources::source::{listed_price, price_in, read_price, Listing, Origin, PriceInfo};
use crate::sources::source::{PriceInfoView, SourceError, SourceErrorView};

verus! {

#[derive(Default)]
pub struct CoinbaseSource;

/// What Coinbase answers.
#[derive(Debug)]
pub enum CoinbaseResponse {
    Error { message: String },
    Subscriptions,
    Ticker { product_id: String, price: String },
}

/// What the oracle calls a product.
pub open spec fn coinbase_listing(product: Seq<char>) -> Option<Listing> {
    if product == "ADA-USD"@ {
        Some(Listing { token: "ADA"@, invert: false })
    } else if product == "BTC-USD"@ {
        Some(Listing { token: "BTCb"@, invert: false })
    } else if product == "MATIC-USD"@ {
        Some(Listing { token: "MATICb"@, invert: false })
    } else if product == "SOL-USD"@ {
        Some(Listing { token: "SOLp"@, invert: true })
    } else {
        None
    }
}

/// The price in an answer.
pub open spec fn coinbase_price(response: CoinbaseResponse) -> Result<PriceInfoView, SourceErrorView> {
    match response {
        CoinbaseResponse::Ticker { product_id, price } => listed_price(
            price@,
            coinbase_listing(product_id@),
            product_id@,
        ),
        _ => Err(SourceErrorView::Unexpected),
    }
}

impl CoinbaseSource {
    pub fn new() -> (r: Self)
        ensures
            r == CoinbaseSource,
    {
        CoinbaseSource
    }

    pub fn origin(&self) -> (r: Origin)
        ensures
            r == Origin::Coinbase,
    {
        Origin::Coinbase
    }

    /// What to subscribe to.
    pub fn product_ids(&self) -> (r: Vec<String>)
        ensures
            r@.len() == 4,
            r@[0]@ == "ADA-USD"@,
            r@[1]@ == "BTC-USD"@,
            r@[2]@ == "MATIC-USD"@,
            r@[3]@ == "SOL-USD"@,
    {
        let mut products: Vec<String> = Vec::new();
        products.push("ADA-USD".to_owned());
        products.push("BTC-USD".to_owned());
        products.push("MATIC-USD".to_owned());
        products.push("SOL-USD".to_owned());
        products
    }

    /// Whether the first answer is what it should be: that we are subscribed.
    pub fn accepts_first_response(&self, response: &CoinbaseResponse) -> (r: bool)
        ensures
            r == (response is Subscriptions),
    {
        match response {
            CoinbaseResponse::Subscriptions => true,
            _ => false,
        }
    }

    /// The price in an answer.
    pub fn parse_message(&self, response: &CoinbaseResponse) -> (r: Result<PriceInfo, SourceError>)
        ensures
            price_in(r) == coinbase_price(*response),
    {
        let (product_id, price) = match response {
            CoinbaseResponse::Ticker { product_id, price } => (product_id, price),
            _ => {
                return Err(SourceError::Unexpected);
            },
        };
        let name = product_id.as_str();
        let listing = if str_equal(name, "ADA-USD") {
            Some(("ADA", false))
        } else if str_equal(name, "BTC-USD") {
            Some(("BTCb", false))
        } else if str_equal(name, "MATIC-USD") {
            Some(("MATICb", false))
        } else if str_equal(name, "SOL-USD") {
            Some(("SOLp", true))
        } else {
            None
        };
        read_price(price.as_str(), listing, name)
    }
}

} // verus!
