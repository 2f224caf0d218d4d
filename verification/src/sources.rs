//! Where prices come from.

pub mod binance;
pub mod bybit;
pub mod coinbase;
pub mod kupo;
pub mod laws;
pub mod maestro;
pub mod minswap;
pub mod pools;
pub mod source;
pub mod sundaeswap;
pub mod sundaeswap_kupo;
