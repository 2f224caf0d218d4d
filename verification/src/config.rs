//! What an oracle node is told about itself, its peers, and the currencies that it prices.

use std::str::FromStr;

use vstd::prelude::*;

use crate::decimal::Decimal;
use crate::encoding::hex_digits;
use crate::keys::{compute_node_id, parse_public_key, public_key_in, public_key_of, text_in};
use crate::keys::{KeyError, PrivateKey, KEY_LENGTH};
use crate::names::{has_name, index_by_name, is_last, str_equal, NameMap, Named};
use crate::network::NodeId;
use crate::text::{join, lowered, shown_number};

pub mod laws;

verus! {

#[derive(Debug)]
pub struct KeygenConfig {
    pub enabled: bool,
    pub min_signers: Option<u16>,
}

#[derive(Debug, Clone)]
pub struct RawPeerConfig {
    pub label: Option<String>,
    pub address: String,
    pub public_key: String,
}

/// A synthetic, which has the value of the currencies that back it, or the inverse of it.
#[derive(Debug)]
pub struct SyntheticConfig {
    pub name: String,
    pub backing_currencies: Vec<String>,
    pub invert: bool,
    pub digits: u32,
    pub collateral: CollateralConfig,
}

impl Named for SyntheticConfig {
    open spec fn name(&self) -> Seq<char> {
        self.name@
    }

    fn as_name(&self) -> (r: &str) {
        self.name.as_str()
    }
}

/// What a synthetic can be borrowed against: what a list says, or what is found with an NFT.
#[derive(Debug, Clone)]
pub enum CollateralConfig {
    List(Vec<String>),
    Nft(String),
}

#[derive(Debug)]
pub struct CurrencyConfig {
    pub name: String,
    pub asset_id: Option<String>,
    pub digits: u32,
    pub min_tvl: Decimal,
}

impl Named for CurrencyConfig {
    open spec fn name(&self) -> Seq<char> {
        self.name@
    }

    fn as_name(&self) -> (r: &str) {
        self.name.as_str()
    }
}

#[derive(Debug)]
pub struct FeedConfig {
    pub currencies: Vec<String>,
}

#[derive(Debug, Clone)]
pub struct RawKupoConfig {
    pub kupo_address: Option<String>,
    pub retries: Option<usize>,
    pub timeout_ms: Option<u64>,
}

/// Where the chain index is asked. Times are in nanoseconds.
#[derive(Debug)]
pub struct KupoConfig {
    pub address: String,
    pub retries: Option<usize>,
    pub timeout: Option<u128>,
}

#[derive(Debug)]
pub struct BinanceConfig {
    pub tokens: Vec<BinanceTokenConfig>,
}

#[derive(Clone, Debug)]
pub struct BinanceTokenConfig {
    pub token: String,
    pub unit: String,
    pub stream: String,
}

#[derive(Debug)]
pub struct ByBitConfig {
    pub tokens: Vec<ByBitTokenConfig>,
}

#[derive(Debug)]
pub struct ByBitTokenConfig {
    pub token: String,
    pub unit: String,
    pub stream: String,
}

#[derive(Debug)]
pub struct CoinbaseConfig {
    pub tokens: Vec<CoinbaseTokenConfig>,
}

#[derive(Clone, Debug)]
pub struct CoinbaseTokenConfig {
    pub token: String,
    pub unit: String,
    pub product_id: String,
}

#[derive(Debug)]
pub struct CryptoComConfig {
    pub tokens: Vec<CryptoComTokenConfig>,
}

#[derive(Debug, Clone)]
pub struct CryptoComTokenConfig {
    pub token: String,
    pub unit: String,
    pub stream: String,
}

#[derive(Debug)]
pub struct FxRatesApiConfig {
    pub cron: String,
    pub currencies: Vec<String>,
    pub base: String,
}

#[derive(Debug)]
pub struct KucoinConfig {
    pub tokens: Vec<KucoinTokenConfig>,
}

#[derive(Debug, Clone)]
pub struct KucoinTokenConfig {
    pub token: String,
    pub unit: String,
    pub symbol: String,
}

#[derive(Debug)]
pub struct MaestroConfig {
    pub tokens: Vec<MaestroTokenConfig>,
}

#[derive(Clone, Debug)]
pub struct MaestroTokenConfig {
    pub token: String,
    pub unit: String,
    pub dex: String,
}

#[derive(Debug)]
pub struct OkxConfig {
    pub tokens: Vec<OkxTokenConfig>,
}

#[derive(Clone, Debug)]
pub struct OkxTokenConfig {
    pub token: String,
    pub unit: String,
    pub index: String,
}

#[derive(Debug, Clone)]
pub struct SundaeSwapConfig {
    pub use_api: bool,
    pub kupo: RawKupoConfig,
    pub policy_id: String,
    pub pools: Vec<Pool>,
    pub max_concurrency: usize,
}

#[derive(Debug, Clone)]
pub struct MinswapConfig {
    pub kupo: RawKupoConfig,
    pub pools: Vec<Pool>,
    pub max_concurrency: usize,
}

#[derive(Debug, Clone)]
pub struct SplashConfig {
    pub kupo: RawKupoConfig,
    pub pools: Vec<Pool>,
    pub max_concurrency: usize,
}

#[derive(Debug, Clone)]
pub struct CSwapConfig {
    pub kupo: RawKupoConfig,
    pub pools: Vec<Pool>,
    pub max_concurrency: usize,
}

#[derive(Debug, Clone)]
pub struct VyFiConfig {
    pub kupo: RawKupoConfig,
    pub pools: Vec<Pool>,
    pub max_concurrency: usize,
}

#[derive(Debug, Clone)]
pub struct WingRidersConfig {
    pub kupo: RawKupoConfig,
    pub pools: Vec<Pool>,
    pub max_concurrency: usize,
}

/// A pool of a token and the unit that it is traded for.
#[derive(Debug, Clone)]
pub struct Pool {
    pub token: String,
    pub unit: String,
    pub credential: Option<String>,
    pub asset_id: String,
}

/// What is configured, before it is put to use.
pub struct RawOracleConfig {
    /// The port by its former name; `network_port` goes by it where it is there.
    pub port: Option<u16>,
    pub network_port: u16,
    pub health_port: u16,
    pub api_port: u16,
    pub network_timeout_ms: u64,
    pub consensus: bool,
    pub peers: Vec<RawPeerConfig>,
    pub heartbeat_ms: u64,
    pub timeout_ms: u64,
    pub round_duration_ms: u64,
    pub gema_periods: usize,
    pub price_precision: u64,
    pub max_source_price_age_ms: u64,
    pub use_persisted_prices: bool,
    pub max_price_divergence: Decimal,
    pub publish_url: Option<String>,
    pub publish_feed_base_url: Option<String>,
    pub logs: RawLogConfig,
    pub frost_address: Option<String>,
    pub keygen: KeygenConfig,
    pub enable_synthetics: bool,
    pub synthetics: Vec<SyntheticConfig>,
    pub currencies: Vec<CurrencyConfig>,
    pub feeds: FeedConfig,
    pub kupo: RawKupoConfig,
    pub binance: BinanceConfig,
    pub bybit: ByBitConfig,
    pub coinbase: CoinbaseConfig,
    pub crypto_com: CryptoComConfig,
    pub fxratesapi: FxRatesApiConfig,
    pub kucoin: KucoinConfig,
    pub maestro: MaestroConfig,
    pub okx: OkxConfig,
    pub sundaeswap: Option<SundaeSwapConfig>,
    pub minswap: Option<MinswapConfig>,
    pub splash: Option<SplashConfig>,
    pub cswap: Option<CSwapConfig>,
    pub vyfi: Option<VyFiConfig>,
    pub wingriders: Option<WingRidersConfig>,
}

/// What an oracle node goes by. Times are in nanoseconds.
pub struct OracleConfig {
    pub id: NodeId,
    pub label: String,
    pub network: NetworkConfig,
    pub health_port: u16,
    pub api_port: u16,
    pub consensus: bool,
    pub heartbeat: u128,
    pub timeout: u128,
    pub round_duration: u128,
    pub gema_periods: usize,
    pub price_precision: u64,
    pub max_source_price_age: u128,
    pub use_persisted_prices: bool,
    pub max_price_divergence: Decimal,
    pub publish_url: Option<String>,
    pub publish_feed_base_url: Option<String>,
    pub logs: LogConfig,
    pub frost_address: Option<String>,
    pub keygen: KeygenConfig,
    pub enable_synthetics: bool,
    pub synthetics: Vec<SyntheticConfig>,
    pub currencies: Vec<CurrencyConfig>,
    pub feeds: FeedConfig,
    pub kupo: KupoConfig,
    pub bybit: ByBitConfig,
    pub binance: BinanceConfig,
    pub coinbase: CoinbaseConfig,
    pub crypto_com: CryptoComConfig,
    pub fxratesapi: FxRatesApiConfig,
    pub kucoin: KucoinConfig,
    pub maestro: MaestroConfig,
    pub okx: OkxConfig,
    pub sundaeswap: Option<SundaeSwapConfig>,
    pub minswap: Option<MinswapConfig>,
    pub splash: Option<SplashConfig>,
    pub cswap: Option<CSwapConfig>,
    pub vyfi: Option<VyFiConfig>,
    pub wingriders: Option<WingRidersConfig>,
}

/// How a node reaches its peers. Times are in nanoseconds.
pub struct NetworkConfig {
    pub id: NodeId,
    pub private_key: PrivateKey,
    pub port: u16,
    pub peers: Vec<Peer>,
    pub timeout: u128,
}

#[derive(Debug)]
pub struct RawLogConfig {
    pub json: bool,
    pub level: String,
    pub otlp_endpoint: Option<String>,
    pub uptrace_dsn: Option<String>,
}

#[derive(Debug)]
pub struct LogConfig {
    pub id: NodeId,
    pub label: String,
    pub json: bool,
    /// The level, by its name in capitals.
    pub level: String,
    pub otlp_endpoint: Option<String>,
    pub uptrace_dsn: Option<String>,
}

/// Another node.
#[derive(Debug)]
pub struct Peer {
    pub id: NodeId,
    pub public_key: Vec<u8>,
    pub label: String,
    pub address: String,
}

/// A pool, with what its tokens are called on chain (nothing for ADA) and how many digits they have.
#[derive(Debug)]
pub struct HydratedPool {
    pub pool: Pool,
    pub token_asset_id: Option<String>,
    pub token_digits: u32,
    pub unit_asset_id: Option<String>,
    pub unit_digits: u32,
}

/// What is wrong with a configuration.
#[derive(Debug, Clone, Copy, PartialEq, Eq, Structural)]
pub enum ConfigError {
    /// A peer's public key makes no sense.
    PeerKey(KeyError),
    /// There is no such level of logs.
    LogLevel,
    /// The chain index has no address.
    KupoAddressRequired,
}

/// The name of the level of logs that has a number.
pub open spec fn numbered_level(number: int) -> Option<Seq<char>> {
    if number == 1 {
        Some("ERROR"@)
    } else if number == 2 {
        Some("WARN"@)
    } else if number == 3 {
        Some("INFO"@)
    } else if number == 4 {
        Some("DEBUG"@)
    } else if number == 5 {
        Some("TRACE"@)
    } else {
        None
    }
}

/// The name of a level of logs, in capitals: by its number, or by its name in capitals or not. There is none for a text
/// that is neither.
pub open spec fn level_name(text: Seq<char>) -> Option<Seq<char>> {
    if shown_number(text) is Some && numbered_level(shown_number(text)->0) is Some {
        numbered_level(shown_number(text)->0)
    } else if lowered(text) == "error"@ {
        Some("ERROR"@)
    } else if lowered(text) == "warn"@ {
        Some("WARN"@)
    } else if lowered(text) == "info"@ {
        Some("INFO"@)
    } else if lowered(text) == "debug"@ {
        Some("DEBUG"@)
    } else if lowered(text) == "trace"@ {
        Some("TRACE"@)
    } else {
        None
    }
}

/// `tracing::Level::from_str` and `Level::as_str`: a number from 1 to 5, or a name in capitals or not.
#[verifier::external_body]
fn parse_level(text: &str) -> (r: Option<String>)
    ensures
        text_in(r) == level_name(text@),
{
    Some(tracing::Level::from_str(text).ok()?.as_str().to_owned())
}

/// `str::strip_suffix`: what stands before the suffix.
#[verifier::external_body]
fn strip_suffix(text: &str, suffix: &str) -> (r: Option<String>)
    ensures
        r is Some <==> ends_with(text@, suffix@),
        r is Some ==> r->0@ + suffix@ == text@,
{
    Some(text.strip_suffix(suffix)?.to_owned())
}

/// Whether a text ends with another.
pub open spec fn ends_with(text: Seq<char>, suffix: Seq<char>) -> bool {
    text.len() >= suffix.len() && text.skip(text.len() - suffix.len()) == suffix
}

/// Whether a peer is what is configured.
pub open spec fn is_peer(raw: RawPeerConfig, peer: Peer) -> bool {
    &&& public_key_in(raw.public_key@) == Ok::<Seq<u8>, KeyError>(peer.public_key@)
    &&& peer.id@ == hex_digits(peer.public_key@)
    &&& peer.label@ == match raw.label {
        Some(label) => label@,
        None => raw.address@,
    }
    &&& peer.address@ == raw.address@
}

/// The name of a node, by its public key.
pub open spec fn id_in(raw: RawPeerConfig) -> Seq<char> {
    hex_digits(public_key_in(raw.public_key@)->Ok_0)
}

impl Peer {
    /// A peer as it is configured. It goes by its label, or else by its address.
    pub fn try_from(raw: RawPeerConfig) -> (r: Result<Self, KeyError>)
        ensures
            match r {
                Ok(peer) => is_peer(raw, peer) && peer.public_key@.len() == KEY_LENGTH,
                Err(error) => public_key_in(raw.public_key@) == Err::<Seq<u8>, KeyError>(error),
            },
    {
        let public_key = match parse_public_key(raw.public_key.as_str()) {
            Ok(public_key) => public_key,
            Err(error) => {
                return Err(error);
            },
        };
        let id = compute_node_id(public_key.as_slice());
        let label = match raw.label {
            Some(label) => label,
            None => raw.address.clone(),
        };
        Ok(Peer { id, public_key, label, address: raw.address })
    }
}

/// The first peer whose key makes no sense.
pub open spec fn first_bad_peer(peers: Seq<RawPeerConfig>) -> Option<KeyError>
    decreases peers.len(),
{
    if peers.len() == 0 {
        None
    } else {
        match first_bad_peer(peers.drop_last()) {
            Some(error) => Some(error),
            None => match public_key_in(peers.last().public_key@) {
                Err(error) => Some(error),
                Ok(_) => None,
            },
        }
    }
}

/// The peers other than this node.
pub open spec fn others(peers: Seq<RawPeerConfig>, id: Seq<char>) -> Seq<RawPeerConfig>
    decreases peers.len(),
{
    if peers.len() == 0 {
        seq![]
    } else if id_in(peers.last()) == id {
        others(peers.drop_last(), id)
    } else {
        others(peers.drop_last(), id).push(peers.last())
    }
}

/// The label of this node: what it is called among the peers, or else its name.
pub open spec fn own_label(peers: Seq<RawPeerConfig>, id: Seq<char>) -> Seq<char>
    decreases peers.len(),
{
    if peers.len() == 0 {
        id
    } else if id_in(peers.last()) == id {
        match peers.last().label {
            Some(label) => label@,
            None => peers.last().address@,
        }
    } else {
        own_label(peers.drop_last(), id)
    }
}

/// Milliseconds, in nanoseconds.
pub open spec fn millis(ms: u64) -> u128 {
    (ms * 1_000_000) as u128
}

fn from_millis(ms: u64) -> (r: u128)
    ensures
        r == millis(ms),
{
    ms as u128 * 1_000_000
}

/// Where feeds are published: where that is said, or else beside where prices are published.
pub open spec fn feed_url(publish_feed_base_url: Option<String>, publish_url: Option<String>) -> Option<Seq<char>> {
    match publish_feed_base_url {
        Some(url) => Some(url@),
        None => match publish_url {
            Some(url) => if ends_with(url@, "/oraclePrices"@) {
                Some(url@.take(url@.len() - "/oraclePrices"@.len()) + "/oracles"@)
            } else {
                None
            },
            None => None,
        },
    }
}

/// Milliseconds, in nanoseconds, if there are any.
pub open spec fn millis_in(ms: Option<u64>) -> Option<u128> {
    match ms {
        Some(ms) => Some(millis(ms)),
        None => None,
    }
}

/// What is wrong with a configuration, if anything is.
pub open spec fn config_error(raw: RawOracleConfig) -> Option<ConfigError> {
    match first_bad_peer(raw.peers@) {
        Some(error) => Some(ConfigError::PeerKey(error)),
        None => if level_name(raw.logs.level@) is None {
            Some(ConfigError::LogLevel)
        } else if raw.kupo.kupo_address is None {
            Some(ConfigError::KupoAddressRequired)
        } else {
            None
        },
    }
}

/// Sorts this node out of its peers.
pub(crate) fn split_peers(raw: Vec<RawPeerConfig>, id: &NodeId) -> (r: Result<(String, Vec<Peer>), KeyError>)
    ensures
        match r {
            Ok((label, peers)) => {
                &&& first_bad_peer(raw@) is None
                &&& label@ == own_label(raw@, id@)
                &&& peers@.len() == others(raw@, id@).len()
                &&& forall|i: int| 0 <= i < peers@.len() ==> is_peer(others(raw@, id@)[i], #[trigger] peers@[i])
            },
            Err(error) => first_bad_peer(raw@) == Some(error),
        },
{
    let ghost all = raw@;
    let mut rest = raw;
    let mut label = id.as_str().to_owned();
    let mut peers: Vec<Peer> = Vec::new();
    let ghost mut n: int = 0;
    assert(all.take(0) =~= seq![]);
    assert(all.skip(0) =~= all);
    while rest.len() > 0
        invariant
            all == raw@,
            0 <= n <= all.len(),
            rest@ == all.skip(n),
            first_bad_peer(all.take(n)) is None,
            label@ == own_label(all.take(n), id@),
            peers@.len() == others(all.take(n), id@).len(),
            forall|i: int| 0 <= i < peers@.len() ==> is_peer(others(all.take(n), id@)[i], #[trigger] peers@[i]),
        decreases rest.len(),
    {
        let ghost before = rest@;
        let ghost found = peers@;
        let next = rest.remove(0);
        proof {
            assert(next == all[n]);
            assert(rest@ =~= all.skip(n + 1));
            assert(all.take(n + 1).drop_last() =~= all.take(n));
            assert(all.take(n + 1).last() == next);
        }
        match Peer::try_from(next) {
            Ok(node) => {
                if node.id == *id {
                    label = node.label;
                } else {
                    peers.push(node);
                    assert forall|i: int| 0 <= i < peers@.len() implies is_peer(
                        others(all.take(n + 1), id@)[i],
                        #[trigger] peers@[i],
                    ) by {
                        if i < found.len() {
                            assert(peers@[i] == found[i]);
                        }
                    }
                }
            },
            Err(error) => {
                proof {
                    lemma_first_bad_peer(all, n + 1);
                }
                return Err(error);
            },
        }
        proof {
            n = n + 1;
        }
    }
    assert(all.take(n) =~= all);
    Ok((label, peers))
}

proof fn lemma_first_bad_peer(peers: Seq<RawPeerConfig>, n: int)
    requires
        0 <= n <= peers.len(),
        first_bad_peer(peers.take(n)) is Some,
    ensures
        first_bad_peer(peers) == first_bad_peer(peers.take(n)),
    decreases peers.len(),
{
    if n == peers.len() {
        assert(peers.take(n) =~= peers);
    } else {
        assert(peers.drop_last().take(n) =~= peers.take(n));
        lemma_first_bad_peer(peers.drop_last(), n);
    }
}

/// Where feeds are published.
fn find_feed_url(publish_feed_base_url: Option<String>, publish_url: &Option<String>) -> (r: Option<String>)
    ensures
        text_in(r) == feed_url(publish_feed_base_url, *publish_url),
{
    match publish_feed_base_url {
        Some(url) => Some(url),
        None => match publish_url {
            Some(url) => match strip_suffix(url.as_str(), "/oraclePrices") {
                Some(base_url) => {
                    assert(base_url@ =~= url@.take(url@.len() - "/oraclePrices"@.len()));
                    Some(join(base_url.as_str(), "/oracles"))
                },
                None => None,
            },
            None => None,
        },
    }
}

impl OracleConfig {
    /// What a node goes by: what is configured, with the node's own key.
    pub fn try_from(raw: RawOracleConfig, private_key: PrivateKey) -> (r: Result<Self, ConfigError>)
        ensures
            match r {
                Err(error) => config_error(raw) == Some(error),
                Ok(config) => {
                    let id = hex_digits(public_key_of(private_key@));
                    &&& config_error(raw) is None
                    &&& config.id@ == id
                    &&& config.label@ == own_label(raw.peers@, id)
                    &&& config.network.id@ == id
                    &&& config.network.private_key == private_key
                    &&& config.network.port == (match raw.port {
                        Some(port) => port,
                        None => raw.network_port,
                    })
                    &&& config.network.peers@.len() == others(raw.peers@, id).len()
                    &&& forall|i: int|
                        0 <= i < config.network.peers@.len() ==> is_peer(
                            others(raw.peers@, id)[i],
                            #[trigger] config.network.peers@[i],
                        )
                    &&& config.network.timeout == millis(raw.network_timeout_ms)
                    &&& config.health_port == raw.health_port
                    &&& config.api_port == raw.api_port
                    &&& config.consensus == raw.consensus
                    &&& config.heartbeat == millis(raw.heartbeat_ms)
                    &&& config.timeout == millis(raw.timeout_ms)
                    &&& config.round_duration == millis(raw.round_duration_ms)
                    &&& config.gema_periods == raw.gema_periods
                    &&& config.price_precision == raw.price_precision
                    &&& config.max_source_price_age == millis(raw.max_source_price_age_ms)
                    &&& config.use_persisted_prices == raw.use_persisted_prices
                    &&& config.max_price_divergence == raw.max_price_divergence
                    &&& config.publish_url == raw.publish_url
                    &&& text_in(config.publish_feed_base_url) == feed_url(raw.publish_feed_base_url, raw.publish_url)
                    &&& config.logs.id@ == id
                    &&& config.logs.label@ == config.label@
                    &&& config.logs.json == raw.logs.json
                    &&& level_name(raw.logs.level@) == Some(config.logs.level@)
                    &&& config.logs.otlp_endpoint == raw.logs.otlp_endpoint
                    &&& config.logs.uptrace_dsn == raw.logs.uptrace_dsn
                    &&& config.frost_address == raw.frost_address
                    &&& config.keygen == raw.keygen
                    &&& config.enable_synthetics == raw.enable_synthetics
                    &&& config.synthetics == raw.synthetics
                    &&& config.currencies == raw.currencies
                    &&& config.feeds == raw.feeds
                    &&& raw.kupo.kupo_address == Some(config.kupo.address)
                    &&& config.kupo.retries == raw.kupo.retries
                    &&& config.kupo.timeout == millis_in(raw.kupo.timeout_ms)
                    &&& config.binance == raw.binance
                    &&& config.bybit == raw.bybit
                    &&& config.coinbase == raw.coinbase
                    &&& config.crypto_com == raw.crypto_com
                    &&& config.fxratesapi == raw.fxratesapi
                    &&& config.kucoin == raw.kucoin
                    &&& config.maestro == raw.maestro
                    &&& config.okx == raw.okx
                    &&& config.sundaeswap == raw.sundaeswap
                    &&& config.minswap == raw.minswap
                    &&& config.splash == raw.splash
                    &&& config.cswap == raw.cswap
                    &&& config.vyfi == raw.vyfi
                    &&& config.wingriders == raw.wingriders
                },
            },
    {
        let id = compute_node_id(private_key.public_key().as_slice());
        let (label, peers) = match split_peers(raw.peers, &id) {
            Ok(found) => found,
            Err(error) => {
                return Err(ConfigError::PeerKey(error));
            },
        };
        let network = NetworkConfig {
            id: id.clone(),
            private_key,
            port: match raw.port {
                Some(port) => port,
                None => raw.network_port,
            },
            peers,
            timeout: from_millis(raw.network_timeout_ms),
        };
        let level = match parse_level(raw.logs.level.as_str()) {
            Some(level) => level,
            None => {
                return Err(ConfigError::LogLevel);
            },
        };
        let logs = LogConfig {
            id: id.clone(),
            label: label.clone(),
            json: raw.logs.json,
            level,
            otlp_endpoint: raw.logs.otlp_endpoint,
            uptrace_dsn: raw.logs.uptrace_dsn,
        };
        let publish_feed_base_url = find_feed_url(raw.publish_feed_base_url, &raw.publish_url);
        let kupo = KupoConfig {
            address: match raw.kupo.kupo_address {
                Some(address) => address,
                None => {
                    return Err(ConfigError::KupoAddressRequired);
                },
            },
            retries: raw.kupo.retries,
            timeout: match raw.kupo.timeout_ms {
                Some(ms) => Some(from_millis(ms)),
                None => None,
            },
        };
        Ok(
            OracleConfig {
                id,
                label,
                network,
                health_port: raw.health_port,
                api_port: raw.api_port,
                consensus: raw.consensus,
                heartbeat: from_millis(raw.heartbeat_ms),
                timeout: from_millis(raw.timeout_ms),
                round_duration: from_millis(raw.round_duration_ms),
                gema_periods: raw.gema_periods,
                price_precision: raw.price_precision,
                max_source_price_age: from_millis(raw.max_source_price_age_ms),
                use_persisted_prices: raw.use_persisted_prices,
                max_price_divergence: raw.max_price_divergence,
                publish_url: raw.publish_url,
                publish_feed_base_url,
                logs,
                frost_address: raw.frost_address,
                keygen: raw.keygen,
                enable_synthetics: raw.enable_synthetics,
                synthetics: raw.synthetics,
                currencies: raw.currencies,
                feeds: raw.feeds,
                kupo,
                bybit: raw.bybit,
                binance: raw.binance,
                coinbase: raw.coinbase,
                crypto_com: raw.crypto_com,
                fxratesapi: raw.fxratesapi,
                kucoin: raw.kucoin,
                maestro: raw.maestro,
                okx: raw.okx,
                sundaeswap: raw.sundaeswap,
                minswap: raw.minswap,
                splash: raw.splash,
                cswap: raw.cswap,
                vyfi: raw.vyfi,
                wingriders: raw.wingriders,
            },
        )
    }
}

/// The last currency of a name.
pub open spec fn currency_named(currencies: Seq<CurrencyConfig>, name: Seq<char>) -> CurrencyConfig {
    currencies[choose|at: int| is_last(currencies, name, at)]
}

/// What a currency is called on chain; ADA goes without.
pub open spec fn chain_id(currency: CurrencyConfig) -> Option<Seq<char>> {
    if currency.name@ == "ADA"@ {
        None
    } else {
        text_in(currency.asset_id)
    }
}

/// Whether a currency is known, and what it is called on chain.
pub open spec fn is_tradable(currencies: Seq<CurrencyConfig>, name: Seq<char>) -> bool {
    &&& has_name(currencies, name)
    &&& name == "ADA"@ || currency_named(currencies, name).asset_id is Some
}

/// Whether a pool has what is known of its tokens.
pub open spec fn is_hydrated(currencies: Seq<CurrencyConfig>, pool: Pool, hydrated: HydratedPool) -> bool {
    &&& hydrated.pool.token@ == pool.token@
    &&& hydrated.pool.unit@ == pool.unit@
    &&& text_in(hydrated.pool.credential) == text_in(pool.credential)
    &&& hydrated.pool.asset_id@ == pool.asset_id@
    &&& text_in(hydrated.token_asset_id) == chain_id(currency_named(currencies, pool.token@))
    &&& hydrated.token_digits == currency_named(currencies, pool.token@).digits
    &&& text_in(hydrated.unit_asset_id) == chain_id(currency_named(currencies, pool.unit@))
    &&& hydrated.unit_digits == currency_named(currencies, pool.unit@).digits
}

/// A copy of an optional text.
fn copy_text(text: &Option<String>) -> (r: Option<String>)
    ensures
        text_in(r) == text_in(*text),
{
    match text {
        Some(text) => Some(text.clone()),
        None => None,
    }
}

impl Pool {
    /// A copy of it.
    fn copied(&self) -> (r: Self)
        ensures
            r.token@ == self.token@,
            r.unit@ == self.unit@,
            text_in(r.credential) == text_in(self.credential),
            r.asset_id@ == self.asset_id@,
    {
        Pool {
            token: self.token.clone(),
            unit: self.unit.clone(),
            credential: copy_text(&self.credential),
            asset_id: self.asset_id.clone(),
        }
    }

    /// What to ask the chain index for: the output that holds the pool's asset.
    pub fn kupo_query(&self) -> (r: KupoQuery)
        ensures
            text_in(r.credential) == text_in(self.credential),
            r.asset_id@ == self.asset_id@,
            r.only_unspent,
    {
        KupoQuery { credential: copy_text(&self.credential), asset_id: self.asset_id.clone(), only_unspent: true }
    }
}

/// What the chain index is asked for.
#[derive(Debug)]
pub struct KupoQuery {
    pub credential: Option<String>,
    pub asset_id: String,
    pub only_unspent: bool,
}

/// The last currency of a name.
fn find_currency<'a>(
    currencies: &'a Vec<CurrencyConfig>,
    places: &NameMap<String, usize>,
    name: &str,
) -> (r: &'a CurrencyConfig)
    requires
        has_name(currencies@, name@),
        forall|name: Seq<char>| #[trigger] places@.contains_key(name) <==> has_name(currencies@, name),
        forall|name: Seq<char>| #[trigger]
            places@.contains_key(name) ==> is_last(currencies@, name, places@[name] as int),
    ensures
        *r == currency_named(currencies@, name@),
        r.name@ == name@,
{
    assert(places@.contains_key(name@));
    let at: usize = match places.get(name) {
        Some(at) => *at,
        None => 0,
    };
    proof {
        let chosen = choose|at: int| is_last(currencies@, name@, at);
        assert(is_last(currencies@, name@, at as int));
        assert(is_last(currencies@, name@, chosen));
        if chosen < at as int {
            assert(currencies@[at as int].name() != name@);
        } else if chosen > at as int {
            assert(currencies@[chosen].name() != name@);
        }
        assert(currencies@[at as int].name() == name@);
    }
    &currencies[at]
}

impl OracleConfig {
    /// These pools, with what is known of their tokens.
    pub fn hydrate_pools(&self, pools: &Vec<Pool>) -> (r: Vec<HydratedPool>)
        requires
            forall|i: int|
                0 <= i < pools@.len() ==> is_tradable(self.currencies@, (#[trigger] pools@[i]).token@) && is_tradable(
                    self.currencies@,
                    pools@[i].unit@,
                ),
        ensures
            r@.len() == pools@.len(),
            forall|i: int| 0 <= i < r@.len() ==> is_hydrated(self.currencies@, pools@[i], #[trigger] r@[i]),
    {
        let places = index_by_name(self.currencies.as_slice());
        let mut hydrated: Vec<HydratedPool> = Vec::new();
        let mut i: usize = 0;
        while i < pools.len()
            invariant
                i <= pools.len(),
                forall|i: int|
                    0 <= i < pools@.len() ==> is_tradable(self.currencies@, (#[trigger] pools@[i]).token@)
                        && is_tradable(self.currencies@, pools@[i].unit@),
                forall|name: Seq<char>| #[trigger] places@.contains_key(name) <==> has_name(self.currencies@, name),
                forall|name: Seq<char>| #[trigger]
                    places@.contains_key(name) ==> is_last(self.currencies@, name, places@[name] as int),
                hydrated@.len() == i,
                forall|j: int| 0 <= j < i ==> is_hydrated(self.currencies@, pools@[j], #[trigger] hydrated@[j]),
            decreases pools.len() - i,
        {
            let pool = &pools[i];
            assert(is_tradable(self.currencies@, pools@[i as int].token@));
            let token_asset = find_currency(&self.currencies, &places, pool.token.as_str());
            let unit_asset = find_currency(&self.currencies, &places, pool.unit.as_str());
            hydrated.push(
                HydratedPool {
                    pool: pool.copied(),
                    token_asset_id: Self::find_asset_id(token_asset),
                    token_digits: token_asset.digits,
                    unit_asset_id: Self::find_asset_id(unit_asset),
                    unit_digits: unit_asset.digits,
                },
            );
            i += 1;
        }
        hydrated
    }

    /// What a currency is called on chain.
    fn find_asset_id(asset: &CurrencyConfig) -> (r: Option<String>)
        requires
            asset.name@ == "ADA"@ || asset.asset_id is Some,
        ensures
            text_in(r) == chain_id(*asset),
    {
        if str_equal(asset.name.as_str(), "ADA") {
            return None;
        }
        copy_text(&asset.asset_id)
    }

    /// How to ask the chain index, with what a source has otherwise.
    pub fn kupo_with_overrides(&self, raw: &RawKupoConfig) -> (r: KupoConfig)
        ensures
            r.address@ == match raw.kupo_address {
                Some(address) => address@,
                None => self.kupo.address@,
            },
            r.retries == if raw.retries is Some {
                raw.retries
            } else {
                self.kupo.retries
            },
            r.timeout == match raw.timeout_ms {
                Some(ms) => Some(millis(ms)),
                None => self.kupo.timeout,
            },
    {
        KupoConfig {
            address: match &raw.kupo_address {
                Some(address) => address.clone(),
                None => self.kupo.address.clone(),
            },
            retries: match raw.retries {
                Some(retries) => Some(retries),
                None => self.kupo.retries,
            },
            timeout: match raw.timeout_ms {
                Some(ms) => Some(from_millis(ms)),
                None => self.kupo.timeout,
            },
        }
    }
}

} // verus!
