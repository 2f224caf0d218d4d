//! How nodes agree on prices and sign them together.

use vstd::prelude::*;

pub mod consensus_aggregator;
pub mod laws;
pub mod messages;
pub mod payload;
pub mod price_comparator;
pub mod price_instrumentation;
pub mod round;
pub mod signer;
pub mod single_aggregator;

verus! {
}
