//! What the node answers to those who ask for prices.

use vstd::prelude::*;

use crate::names::laws::law_first_value_goes_by_a_name;
use crate::names::{find_named, first_named, has_name, Named};
use crate::network::NodeId;
use crate::price_aggregator::conversions::TokenPrice;
use crate::price_feed::{copy_all, views, Copied};
use crate::signature_aggregator::payload::{GenericPayloadEntry, Payload, SyntheticPayloadEntry};

verus! {

impl Named for SyntheticPayloadEntry {
    open spec fn name(&self) -> Seq<char> {
        self.synthetic@
    }

    fn as_name(&self) -> (r: &str) {
        self.synthetic.as_str()
    }
}

impl Named for GenericPayloadEntry {
    open spec fn name(&self) -> Seq<char> {
        self.name@
    }

    fn as_name(&self) -> (r: &str) {
        self.name.as_str()
    }
}

/// The answer to the question for one feed.
pub enum Response {
    Synthetic(SyntheticPayloadEntry),
    Generic(GenericPayloadEntry),
    NotFound,
}

impl Response {
    /// The status code of the answer.
    pub fn status_code(&self) -> (r: u16)
        ensures
            r == (if self is NotFound { 404u16 } else { 200u16 }),
    {
        match self {
            Response::NotFound => 404,
            _ => 200,
        }
    }
}

/// The latest feed of that name: a synthetic's if there is one, otherwise a currency's.
pub fn report_payload(feed: &str, payload: &Payload) -> (r: Response)
    ensures
        match r {
            Response::Synthetic(entry) => has_name(payload.synthetics@, feed@) && entry@ == first_named(
                payload.synthetics@,
                feed@,
            )@,
            Response::Generic(entry) => !has_name(payload.synthetics@, feed@) && has_name(payload.generics@, feed@)
                && entry@ == first_named(payload.generics@, feed@)@,
            Response::NotFound => !has_name(payload.synthetics@, feed@) && !has_name(payload.generics@, feed@),
        },
{
    if let Some(entry) = find_named(payload.synthetics.as_slice(), feed) {
        return Response::Synthetic(entry.copied());
    }
    if let Some(entry) = find_named(payload.generics.as_slice(), feed) {
        return Response::Generic(entry.copied());
    }
    Response::NotFound
}

/// Which node answers.
#[derive(Debug)]
pub struct OracleIdentifiers {
    pub id: NodeId,
    pub name: String,
}

/// The answer to the question for all prices.
#[derive(Debug)]
pub struct AllPricesResponse {
    pub oracle: OracleIdentifiers,
    pub prices: Vec<TokenPrice>,
}

/// All prices that the node knows.
pub fn report_all_prices(oracle: &OracleIdentifiers, prices: &Vec<TokenPrice>) -> (r: AllPricesResponse)
    ensures
        r.oracle.id@ == oracle.id@,
        r.oracle.name@ == oracle.name@,
        views(r.prices@) == views(prices@),
{
    AllPricesResponse {
        oracle: OracleIdentifiers { id: oracle.id.clone(), name: oracle.name.clone() },
        prices: copy_all(prices),
    }
}

/// Whoever asks for a feed gets the first synthetic of that name, if there is one; if not, the first feed of that name of a
/// currency; and if there is none either, nothing.
pub proof fn law_synthetics_are_answered_first(feed: &str, payload: &Payload, answer: Response, at: int)
    requires
        call_ensures(report_payload, (feed, payload), answer),
    ensures
        0 <= at < payload.synthetics@.len() && payload.synthetics@[at].synthetic@ == feed@ && (forall|j: int|
            0 <= j < at ==> (#[trigger] payload.synthetics@[j]).synthetic@ != feed@) ==> (
        answer matches Response::Synthetic(entry) && entry@ == payload.synthetics@[at]@),
        0 <= at < payload.generics@.len() && payload.generics@[at].name@ == feed@ && (forall|j: int|
            0 <= j < at ==> (#[trigger] payload.generics@[j]).name@ != feed@) && (forall|j: int|
            0 <= j < payload.synthetics@.len() ==> (#[trigger] payload.synthetics@[j]).synthetic@ != feed@) ==> (
        answer matches Response::Generic(entry) && entry@ == payload.generics@[at]@),
        (forall|j: int| 0 <= j < payload.generics@.len() ==> (#[trigger] payload.generics@[j]).name@ != feed@) && (
        forall|j: int| 0 <= j < payload.synthetics@.len() ==> (#[trigger] payload.synthetics@[j]).synthetic@ != feed@)
            ==> answer is NotFound,
{
    let synthetics = payload.synthetics@;
    let generics = payload.generics@;
    assert forall|j: int| 0 <= j < synthetics.len() implies (#[trigger] synthetics[j]).name() == synthetics[j].synthetic@ by {}
    assert forall|j: int| 0 <= j < generics.len() implies (#[trigger] generics[j]).name() == generics[j].name@ by {}
    if 0 <= at < synthetics.len() && synthetics[at].synthetic@ == feed@ && (forall|j: int|
        0 <= j < at ==> (#[trigger] synthetics[j]).synthetic@ != feed@) {
        law_first_value_goes_by_a_name(synthetics, at);
        assert(synthetics[at].name() == feed@);
        assert(has_name(synthetics, feed@));
    }
    if 0 <= at < generics.len() && generics[at].name@ == feed@ && (forall|j: int|
        0 <= j < at ==> (#[trigger] generics[j]).name@ != feed@) {
        law_first_value_goes_by_a_name(generics, at);
        assert(generics[at].name() == feed@);
        assert(has_name(generics, feed@));
    }
}

} // verus!
