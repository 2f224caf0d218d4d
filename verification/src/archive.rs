//! Published payloads, as they are kept for later.

use vstd::prelude::*;

use crate::encoding::{hex_bytes, hex_decode, hex_digits, is_hex, law_hex_round_trip};

verus! {

/// A price as a fraction, in decimal digits.
#[derive(Debug)]
pub struct SyntheticPrice {
    pub numerator: String,
    pub denominator: String,
}

/// The time during which a payload can be used, in milliseconds since 1970.
#[derive(Debug, Clone, Copy)]
pub struct PayloadValidity {
    pub lower_bound: u64,
    pub upper_bound: u64,
}

/// A payload as the oracle publishes it.
#[derive(Debug)]
pub struct OraclePayload {
    pub synthetic: String,
    pub synthetic_price: SyntheticPrice,
    pub validity: PayloadValidity,
    /// The signed feed, in hexadecimal digits.
    pub payload: String,
}

/// A payload as it is kept.
#[derive(Debug)]
pub struct ArchivedPayload {
    pub id: Option<u64>,
    /// When it was fetched, in nanoseconds since 1970.
    pub timestamp: u128,
    pub source: Option<String>,
    pub synthetic: Option<String>,
    pub synthetic_numerator: Option<String>,
    pub synthetic_denominator: Option<String>,
    pub validity_lower: Option<u64>,
    pub validity_upper: Option<u64>,
    pub payload: Option<Vec<u8>>,
    pub error_text: Option<String>,
}

/// Whether this is what is kept of a payload that was fetched now.
pub open spec fn is_archived(archived: ArchivedPayload, source: Seq<char>, payload: OraclePayload, now: u128) -> bool {
    &&& archived.id is None
    &&& archived.timestamp == now
    &&& archived.source matches Some(s) && s@ == source
    &&& archived.synthetic matches Some(s) && s@ == payload.synthetic@
    &&& archived.synthetic_numerator matches Some(n) && n@ == payload.synthetic_price.numerator@
    &&& archived.synthetic_denominator matches Some(d) && d@ == payload.synthetic_price.denominator@
    &&& archived.validity_lower == Some(payload.validity.lower_bound)
    &&& archived.validity_upper == Some(payload.validity.upper_bound)
    &&& archived.payload matches Some(bytes) && bytes@ == hex_bytes(payload.payload@)
    &&& archived.error_text is None
}

/// What is kept of a payload that was fetched now; nothing where its digits are none.
pub fn to_payload(source: &str, payload: &OraclePayload, now: u128) -> (r: Option<ArchivedPayload>)
    ensures
        r is Some <==> is_hex(payload.payload@),
        r is Some ==> is_archived(r->0, source@, *payload, now),
{
    let bytes = match hex_decode(payload.payload.as_str()) {
        Some(bytes) => bytes,
        None => {
            return None;
        },
    };
    Some(
        ArchivedPayload {
            id: None,
            timestamp: now,
            source: Some(source.to_owned()),
            synthetic: Some(payload.synthetic.clone()),
            synthetic_numerator: Some(payload.synthetic_price.numerator.clone()),
            synthetic_denominator: Some(payload.synthetic_price.denominator.clone()),
            validity_lower: Some(payload.validity.lower_bound),
            validity_upper: Some(payload.validity.upper_bound),
            payload: Some(bytes),
            error_text: None,
        },
    )
}

/// What is kept of payloads that were fetched now; nothing where the digits of one are none.
pub fn to_payloads(source: &str, payloads: &Vec<OraclePayload>, now: u128) -> (r: Option<Vec<ArchivedPayload>>)
    ensures
        r is Some <==> forall|i: int| 0 <= i < payloads@.len() ==> is_hex((#[trigger] payloads@[i]).payload@),
        r matches Some(archived) ==> archived@.len() == payloads@.len() && forall|i: int|
            0 <= i < archived@.len() ==> is_archived(#[trigger] archived@[i], source@, payloads@[i], now),
{
    let mut archived: Vec<ArchivedPayload> = Vec::new();
    let mut i: usize = 0;
    while i < payloads.len()
        invariant
            i <= payloads.len(),
            archived.len() == i,
            forall|j: int| 0 <= j < i ==> is_hex((#[trigger] payloads@[j]).payload@),
            forall|j: int| 0 <= j < i ==> is_archived(#[trigger] archived@[j], source@, payloads@[j], now),
        decreases payloads.len() - i,
    {
        match to_payload(source, &payloads[i], now) {
            Some(payload) => {
                archived.push(payload);
            },
            None => {
                return None;
            },
        }
        i += 1;
    }
    Some(archived)
}

/// Every payload that was fetched is kept, in its place, with the bytes that its digits stand for.
pub proof fn law_every_payload_is_kept(
    source: &str,
    payloads: &Vec<OraclePayload>,
    now: u128,
    kept: Option<Vec<ArchivedPayload>>,
    at: int,
    bytes: Seq<u8>,
)
    requires
        call_ensures(to_payloads, (source, payloads, now), kept),
        0 <= at < payloads@.len(),
        payloads@[at].payload@ == hex_digits(bytes),
    ensures
        kept matches Some(archived) ==> {
            &&& archived@.len() == payloads@.len()
            &&& archived@[at].payload matches Some(found) && found@ == bytes
            &&& archived@[at].synthetic matches Some(name) && name@ == payloads@[at].synthetic@
            &&& archived@[at].source matches Some(name) && name@ == source@
            &&& archived@[at].timestamp == now
        },
{
    law_hex_round_trip(bytes);
    if let Some(archived) = kept {
        assert(is_archived(archived@[at], source@, payloads@[at], now));
    }
}

} // verus!
