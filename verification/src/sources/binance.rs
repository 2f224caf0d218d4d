//! Mark prices from Binance.

use vstd::prelude::*;

use crate::names::str_equal;
use crate::sources::source::{listed_price, price_in, read_price, Listing, PriceInfo, PriceInfoView};
use crate::sources::source::{SourceError, SourceErrorView};

verus! {

#[derive(Default)]
pub struct BinanceSource;

/// Whether one text stands in another, from this place on.
pub open spec fn occurs_at(text: Seq<char>, part: Seq<char>, at: int) -> bool {
    0 <= at && at + part.len() <= text.len() && text.subrange(at, at + part.len()) == part
}

/// Where a text stands in another first.
pub open spec fn is_first_place(text: Seq<char>, part: Seq<char>, at: int) -> bool {
    occurs_at(text, part, at) && forall|i: int| 0 <= i < at ==> !#[trigger] occurs_at(text, part, i)
}

/// What stands before another text.
pub open spec fn text_before(text: Seq<char>, part: Seq<char>) -> Option<Seq<char>> {
    if exists|at: int| occurs_at(text, part, at) {
        Some(text.take(choose|at: int| is_first_place(text, part, at)))
    } else {
        None
    }
}

/// `str::split_once`: what stands before and behind the first place at which another text stands.
#[verifier::external_body]
fn split_once(text: &str, part: &str) -> (r: Option<(String, String)>)
    ensures
        r is None <==> forall|at: int| !#[trigger] occurs_at(text@, part@, at),
        r matches Some((before, after)) ==> text@ == before@ + part@ + after@ && is_first_place(
            text@,
            part@,
            before@.len() as int,
        ),
{
    let (before, after) = text.split_once(part)?;
    Some((before.to_owned(), after.to_owned()))
}

/// What the oracle calls a currency.
pub open spec fn binance_listing(currency: Seq<char>) -> Option<Listing> {
    if currency == "btc"@ {
        Some(Listing { token: "BTCb"@, invert: false })
    } else if currency == "ada"@ {
        Some(Listing { token: "ADA"@, invert: false })
    } else if currency == "sol"@ {
        Some(Listing { token: "SOLp"@, invert: true })
    } else if currency == "matic"@ {
        Some(Listing { token: "MATICb"@, invert: false })
    } else {
        None
    }
}

/// The price in a message: what stands in the stream's name before `usdt` is what it is of.
pub open spec fn binance_price(stream: Seq<char>, price: Seq<char>) -> Result<PriceInfoView, SourceErrorView> {
    match text_before(stream, "usdt"@) {
        None => Err(SourceErrorView::MalformedStream(stream)),
        Some(currency) => listed_price(price, binance_listing(currency), stream),
    }
}

impl BinanceSource {
    pub fn new() -> (r: Self)
        ensures
            r == BinanceSource,
    {
        BinanceSource
    }
}

/// The price in a message.
pub fn process_binance_message(stream: &str, price: &str) -> (r: Result<PriceInfo, SourceError>)
    ensures
        price_in(r) == binance_price(stream@, price@),
{
    let (currency, _) = match split_once(stream, "usdt") {
        Some(parts) => parts,
        None => {
            return Err(SourceError::MalformedStream(stream.to_owned()));
        },
    };
    proof {
        let at = currency@.len() as int;
        let chosen = choose|at: int| is_first_place(stream@, "usdt"@, at);
        assert(is_first_place(stream@, "usdt"@, at));
        assert(is_first_place(stream@, "usdt"@, chosen));
        if chosen < at {
            assert(!occurs_at(stream@, "usdt"@, chosen));
        } else if at < chosen {
            assert(!occurs_at(stream@, "usdt"@, at));
        }
        assert(currency@ =~= stream@.take(at));
        assert(occurs_at(stream@, "usdt"@, at));
    }
    let name = currency.as_str();
    let listing = if str_equal(name, "btc") {
        Some(("BTCb", false))
    } else if str_equal(name, "ada") {
        Some(("ADA", false))
    } else if str_equal(name, "sol") {
        Some(("SOLp", true))
    } else if str_equal(name, "matic") {
        Some(("MATICb", false))
    } else {
        None
    };
    read_price(price, listing, stream)
}

} // verus!
