//! Price oracle nodes: how they elect a leader, agree on prices and sign them together.

use vstd::prelude::*;

pub mod aggregator;
pub mod api;
pub mod archive;
pub mod config;
pub mod decimal;
pub mod dkg;
pub mod encoding;
pub mod frost;
pub mod health;
pub mod keys;
pub mod names;
pub mod network;
pub mod networking;
pub mod numbers;
pub mod plutus;
pub mod price_aggregator;
pub mod price_feed;
pub mod publisher;
pub mod raft;
pub mod signature_aggregator;
pub mod sources;
pub mod text;

verus! {
}
