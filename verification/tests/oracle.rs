use oracles::api::{report_all_prices, report_payload, OracleIdentifiers, Response};
use oracles::config::{
    BinanceConfig, ByBitConfig, CoinbaseConfig, CollateralConfig, ConfigError, CryptoComConfig, CurrencyConfig,
    FeedConfig, FxRatesApiConfig, KeygenConfig, KucoinConfig, MaestroConfig, MinswapConfig, OkxConfig, OracleConfig,
    Peer, Pool, RawKupoConfig, RawLogConfig, RawOracleConfig, RawPeerConfig, SundaeSwapConfig, SyntheticConfig,
};
use oracles::decimal::Decimal;
use oracles::dkg::signers;
use oracles::health::{HealthInfo, HealthStatus, Origin};
use oracles::keys::{KeyError, PrivateKey};
use oracles::names::NameMap;
use oracles::network::{IncomingMessage, NodeId};
use oracles::numbers::{Natural, Rational};
use oracles::plutus::{encode, PlutusData};
use oracles::price_aggregator::conversions::TokenPriceConverter;
use oracles::price_aggregator::persistence::TokenPricePersistence;
use oracles::price_aggregator::synth_config_source::{receive_matches, SyntheticConfigSource, REFRESH_INTERVAL};
use oracles::price_aggregator::{
    choose_sources, CurrencyFeeds, PayloadError, PriceAggregator, Report, SourceKind, Weights,
};
use oracles::price_feed::{
    GenericPriceFeed, IntervalBound, PriceData, Signed, SyntheticPriceFeed, Validity,
};
use oracles::publisher::Publisher;
use oracles::raft::{Raft, RaftCommand, RaftEvent, RaftLeader, RaftMessage};
use oracles::signature_aggregator::consensus_aggregator::{load_keys_from, RoundClock};
use oracles::signature_aggregator::payload::{GenericPayloadEntry, Payload, SyntheticPayloadEntry};
use oracles::signature_aggregator::signer::SignerEvent;
use oracles::sources::source::PriceInfo;

const NOW: u128 = 1_700_000_000_000_000_000;
const SECRET: &str = "9d61b19deffd5a60ba844af492ec2cc44449c5697b326919703bac031cae7f60";
const OUR_KEY: &str = "MCowBQYDK2VwAyEA11qYAYKxCrfVS/7TyWQHOg7hcvPapiMlrwIaaPcHURo=";
const OUR_ID: &str = "d75a980182b10ab7d54bfed3c964073a0ee172f3daa62325af021a68f707511a";
const THEIR_KEY: &str = "MCowBQYDK2VwAyEAPUAXw+hDiVqStwqnTRt+vJyYLM8uxJaMwM1V8Sr0Zgw=";
const THEIR_ID: &str = "3d4017c3e843895a92b70aa74d1b7ebc9c982ccf2ec4968cc0cd55f12af4660c";

fn text(text: &str) -> String {
    text.to_string()
}

fn node(name: &str) -> NodeId {
    NodeId::new(text(name))
}

fn raw_peer(label: Option<&str>, body: &str) -> RawPeerConfig {
    RawPeerConfig {
        label: label.map(text),
        address: text("localhost:31415"),
        public_key: format!("-----BEGIN PUBLIC KEY-----\n{body}\n-----END PUBLIC KEY-----\n"),
    }
}

fn currency(name: &str, asset_id: Option<&str>, digits: u32) -> CurrencyConfig {
    CurrencyConfig { name: text(name), asset_id: asset_id.map(text), digits, min_tvl: Decimal::zero() }
}

fn synthetic(name: &str, collateral: CollateralConfig) -> SyntheticConfig {
    SyntheticConfig { name: text(name), backing_currencies: vec![text("USD")], invert: false, digits: 6, collateral }
}

fn no_kupo() -> RawKupoConfig {
    RawKupoConfig { kupo_address: None, retries: None, timeout_ms: None }
}

fn raw_config() -> RawOracleConfig {
    RawOracleConfig {
        port: None,
        network_port: 31415,
        health_port: 31416,
        api_port: 31417,
        network_timeout_ms: 1000,
        consensus: true,
        peers: vec![raw_peer(Some("me"), OUR_KEY), raw_peer(Some("them"), THEIR_KEY)],
        heartbeat_ms: 200,
        timeout_ms: 500,
        round_duration_ms: 5000,
        gema_periods: 14,
        price_precision: 64,
        max_source_price_age_ms: 60000,
        use_persisted_prices: false,
        max_price_divergence: Decimal::new(5, 2),
        publish_url: Some(text("https://infra.butane.dev/oraclePrices")),
        publish_feed_base_url: None,
        logs: RawLogConfig { json: false, level: text("info"), otlp_endpoint: None, uptrace_dsn: None },
        frost_address: None,
        keygen: KeygenConfig { enabled: true, min_signers: Some(2) },
        enable_synthetics: true,
        synthetics: vec![synthetic("USDb", CollateralConfig::List(vec![text("ADA"), text("LENFI")]))],
        currencies: vec![
            currency("ADA", None, 6),
            currency("LENFI", Some("8fef.41414441"), 6),
            currency("BTN", Some("016b.42544e"), 6),
        ],
        feeds: FeedConfig { currencies: vec![text("ADA")] },
        kupo: RawKupoConfig { kupo_address: Some(text("http://localhost:1442")), retries: Some(3), timeout_ms: Some(250) },
        binance: BinanceConfig { tokens: vec![] },
        bybit: ByBitConfig { tokens: vec![] },
        coinbase: CoinbaseConfig { tokens: vec![] },
        crypto_com: CryptoComConfig { tokens: vec![] },
        fxratesapi: FxRatesApiConfig { cron: text("0 0 * * * *"), currencies: vec![], base: text("USD") },
        kucoin: KucoinConfig { tokens: vec![] },
        maestro: MaestroConfig { tokens: vec![] },
        okx: OkxConfig { tokens: vec![] },
        sundaeswap: None,
        minswap: None,
        splash: None,
        cswap: None,
        vyfi: None,
        wingriders: None,
    }
}

fn load(raw: RawOracleConfig) -> Result<OracleConfig, ConfigError> {
    OracleConfig::try_from(raw, PrivateKey::from_bytes(hex::decode(SECRET).unwrap()).unwrap())
}

fn config() -> OracleConfig {
    load(raw_config()).unwrap()
}

#[test]
fn peers_go_by_their_keys() {
    let peer = Peer::try_from(raw_peer(Some("them"), THEIR_KEY)).unwrap();
    assert_eq!(peer.id, node(THEIR_ID));
    assert_eq!(hex::encode(&peer.public_key), THEIR_ID);
    assert_eq!(peer.label, "them");
    let nameless = Peer::try_from(raw_peer(None, THEIR_KEY)).unwrap();
    assert_eq!(nameless.label, "localhost:31415");
    assert_eq!(Peer::try_from(raw_peer(None, "AAAA")).err(), Some(KeyError::Pem));
}

#[test]
fn nodes_know_themselves_from_their_peers() {
    let config = config();
    assert_eq!(config.id, node(OUR_ID));
    assert_eq!(config.label, "me");
    assert_eq!(config.logs.label, "me");
    assert_eq!(config.network.peers.len(), 1);
    assert_eq!(config.network.peers[0].id, node(THEIR_ID));
    assert_eq!(config.network.port, 31415);
    assert_eq!(config.network.timeout, 1_000_000_000);
    assert_eq!(config.heartbeat, 200_000_000);
    assert_eq!(config.timeout, 500_000_000);
    assert_eq!(config.round_duration, 5_000_000_000);
    assert_eq!(config.max_source_price_age, 60_000_000_000);
    assert_eq!(config.logs.level, "INFO");
    assert_eq!(config.kupo.timeout, Some(250_000_000));
}

#[test]
fn ports_can_be_set_otherwise() {
    let mut raw = raw_config();
    raw.port = Some(8000);
    assert_eq!(load(raw).unwrap().network.port, 8000);
}

#[test]
fn feeds_are_published_next_to_prices() {
    assert_eq!(config().publish_feed_base_url, Some(text("https://infra.butane.dev/oracles")));
    let mut raw = raw_config();
    raw.publish_feed_base_url = Some(text("https://elsewhere"));
    assert_eq!(load(raw).unwrap().publish_feed_base_url, Some(text("https://elsewhere")));
    let mut raw = raw_config();
    raw.publish_url = Some(text("https://infra.butane.dev/prices"));
    assert_eq!(load(raw).unwrap().publish_feed_base_url, None);
    let mut raw = raw_config();
    raw.publish_url = None;
    assert_eq!(load(raw).unwrap().publish_feed_base_url, None);
}

#[test]
fn bad_configs_are_refused() {
    let mut raw = raw_config();
    raw.peers.push(raw_peer(None, "AAAA"));
    assert_eq!(load(raw).err(), Some(ConfigError::PeerKey(KeyError::Pem)));
    let mut raw = raw_config();
    raw.logs.level = text("loud");
    assert_eq!(load(raw).err(), Some(ConfigError::LogLevel));
    for (level, name) in [("3", "INFO"), ("+1", "ERROR"), ("tRaCe", "TRACE"), ("WARN", "WARN")] {
        let mut raw = raw_config();
        raw.logs.level = text(level);
        assert_eq!(load(raw).unwrap().logs.level, name);
    }
    for level in ["6", "-1", "", "0", " info"] {
        let mut raw = raw_config();
        raw.logs.level = text(level);
        assert_eq!(load(raw).err(), Some(ConfigError::LogLevel));
    }
    let mut raw = raw_config();
    raw.kupo.kupo_address = None;
    assert_eq!(load(raw).err(), Some(ConfigError::KupoAddressRequired));
}

#[test]
fn pools_are_hydrated() {
    let pool = Pool { token: text("LENFI"), unit: text("ADA"), credential: Some(text("cred")), asset_id: text("lp") };
    let hydrated = config().hydrate_pools(&vec![pool]);
    assert_eq!(hydrated.len(), 1);
    assert_eq!(hydrated[0].token_asset_id, Some(text("8fef.41414441")));
    assert_eq!(hydrated[0].token_digits, 6);
    assert_eq!(hydrated[0].unit_asset_id, None);
    assert_eq!(hydrated[0].pool.asset_id, "lp");
    let query = hydrated[0].pool.kupo_query();
    assert_eq!(query.credential, Some(text("cred")));
    assert_eq!(query.asset_id, "lp");
    assert!(query.only_unspent);
}

#[test]
fn sources_can_have_their_own_index() {
    let config = config();
    let same = config.kupo_with_overrides(&no_kupo());
    assert_eq!(same.address, "http://localhost:1442");
    assert_eq!(same.retries, Some(3));
    assert_eq!(same.timeout, Some(250_000_000));
    let raw = RawKupoConfig { kupo_address: Some(text("http://other")), retries: Some(1), timeout_ms: Some(1) };
    let other = config.kupo_with_overrides(&raw);
    assert_eq!(other.address, "http://other");
    assert_eq!(other.retries, Some(1));
    assert_eq!(other.timeout, Some(1_000_000));
}

#[test]
fn sources_are_chosen_by_config() {
    let mut config = config();
    let exchanges = vec![
        SourceKind::Binance,
        SourceKind::ByBit,
        SourceKind::Coinbase,
        SourceKind::CryptoCom,
        SourceKind::Kucoin,
        SourceKind::Okx,
    ];
    assert_eq!(choose_sources(&config, false, false), exchanges);
    config.minswap = Some(MinswapConfig { kupo: no_kupo(), pools: vec![], max_concurrency: 10 });
    config.sundaeswap = Some(SundaeSwapConfig {
        use_api: true,
        kupo: no_kupo(),
        policy_id: text("policy"),
        pools: vec![],
        max_concurrency: 10,
    });
    let more = vec![SourceKind::Minswap, SourceKind::Maestro, SourceKind::FxRatesApi, SourceKind::SundaeSwap];
    assert_eq!(choose_sources(&config, true, true), [exchanges.clone(), more].concat());
    config.sundaeswap.as_mut().unwrap().use_api = false;
    let chain = vec![SourceKind::Minswap, SourceKind::SundaeSwapKupo];
    assert_eq!(choose_sources(&config, false, false), [exchanges, chain].concat());
}

#[test]
fn keys_are_named_by_config() {
    let mut config = config();
    assert_eq!(
        load_keys_from(&config),
        Err(text("No frost_address found in config. Please generate frost keys."))
    );
    config.frost_address = Some(text("addr1abc"));
    assert_eq!(load_keys_from(&config), Ok(text("addr1abc")));
}

#[test]
fn key_generation_goes_by_config() {
    let mut config = config();
    assert_eq!(signers(&config), Some((2, 2)));
    config.keygen.min_signers = None;
    assert_eq!(signers(&config), None);
}

#[test]
fn rounds_start_and_end_in_turn() {
    let mut clock = RoundClock::new();
    assert!(clock.tick(&RaftLeader::Unknown, text("a")).is_none());
    let started = clock.tick(&RaftLeader::Myself, text("b"));
    assert!(matches!(started, Some(SignerEvent::RoundStarted(round)) if round == "b"));
    let ended = clock.tick(&RaftLeader::Myself, text("c"));
    assert!(matches!(ended, Some(SignerEvent::RoundGracePeriodEnded(round)) if round == "b"));
    let started = clock.tick(&RaftLeader::Myself, text("d"));
    assert!(matches!(started, Some(SignerEvent::RoundStarted(round)) if round == "d"));
    assert!(clock.tick(&RaftLeader::Other(node("x")), text("e")).is_none());
    let started = clock.tick(&RaftLeader::Myself, text("f"));
    assert!(matches!(started, Some(SignerEvent::RoundStarted(round)) if round == "f"));
}

#[test]
fn elections_need_a_majority() {
    let mut raft = Raft::new(&config(), node(OUR_ID), NOW);
    assert_eq!(raft.state.quorum, 2);
    assert_eq!(raft.expected_payloads, 1);
    assert_eq!(raft.state.leader, RaftLeader::Unknown);

    let them = |data| RaftEvent::Message(IncomingMessage { from: node(THEIR_ID), data });
    raft.handle(them(RaftMessage::Connect), NOW);
    raft.handle(RaftEvent::Prices(PriceData { synthetics: vec![], generics: vec![] }), NOW);
    assert_eq!(raft.state.missing_payloads, 1);

    let asked = raft.handle(RaftEvent::Command(RaftCommand::ForceElection(7)), NOW);
    assert_eq!(asked, [(node(THEIR_ID), RaftMessage::RequestVote { term: 7 })]);
    let told = raft.handle(them(RaftMessage::RequestVoteResponse { term: 7, vote: true }), NOW);
    assert_eq!(told, [(node(THEIR_ID), RaftMessage::Heartbeat { term: 7 })]);
    assert_eq!(raft.state.leader, RaftLeader::Myself);

    assert!(raft.handle(RaftEvent::Tick, NOW + 1).is_empty());
    let beat = raft.handle(RaftEvent::Tick, NOW + 200_000_001);
    assert_eq!(beat, [(node(THEIR_ID), RaftMessage::Heartbeat { term: 7 })]);
    raft.handle(RaftEvent::Command(RaftCommand::Abdicate), NOW);
    assert!(raft.handle(RaftEvent::Tick, NOW + 400_000_003).is_empty());
}

#[test]
fn leaders_are_announced_when_they_change() {
    let mut raft = Raft::new(&config(), node(OUR_ID), NOW);
    assert_eq!(raft.announcement(&RaftLeader::Unknown), None);
    let them = |data| RaftEvent::Message(IncomingMessage { from: node(THEIR_ID), data });
    raft.handle(them(RaftMessage::Connect), NOW);
    assert_eq!(raft.announcement(&RaftLeader::Unknown), None);
    raft.handle(them(RaftMessage::Heartbeat { term: 3 }), NOW);
    let leader = RaftLeader::Other(node(THEIR_ID));
    assert_eq!(raft.announcement(&RaftLeader::Unknown), Some(leader.clone()));
    assert_eq!(raft.announcement(&leader), None);
    raft.handle(them(RaftMessage::Heartbeat { term: 4 }), NOW);
    assert_eq!(raft.announcement(&leader), None);
}

fn payload(timestamp: u128) -> Payload {
    let old = timestamp - 1;
    let feed = |name: &str| SyntheticPriceFeed {
        collateral_names: None,
        collateral_prices: vec![Natural::from_u64(3), Natural::from_u64(4)],
        synthetic: text(name),
        denominator: Natural::from_u64(2),
        validity: Validity::default(),
    };
    let entry = |name: &str, timestamp| SyntheticPayloadEntry {
        timestamp,
        synthetic: text(name),
        price: Rational::from_i128(3, 2),
        payload: Signed { data: feed(name), signature: vec![7; 64] },
    };
    let generic = |name: &str, timestamp| GenericPayloadEntry {
        timestamp,
        name: text(name),
        payload: Signed {
            data: GenericPriceFeed { price: Natural::from_u64(6500000), name: text(name), timestamp: 1337 },
            signature: vec![8; 64],
        },
    };
    Payload {
        publisher: node(OUR_ID),
        timestamp,
        synthetics: vec![entry("USDb", timestamp), entry("BTCb", old)],
        generics: vec![generic("ADA/USD#RAW", timestamp), generic("USD/ADA#RAW", old)],
    }
}

#[test]
fn payloads_are_served_by_name() {
    let payload = payload(NOW);
    let found = report_payload("BTCb", &payload);
    assert_eq!(found.status_code(), 200);
    assert!(matches!(found, Response::Synthetic(entry) if entry.synthetic == "BTCb" && entry.timestamp == NOW - 1));
    let found = report_payload("ADA/USD#RAW", &payload);
    assert_eq!(found.status_code(), 200);
    assert!(matches!(found, Response::Generic(entry) if entry.name == "ADA/USD#RAW"));
    let missing = report_payload("SOLp", &payload);
    assert!(matches!(missing, Response::NotFound));
    assert_eq!(missing.status_code(), 404);
}

#[test]
fn only_what_is_new_is_published() {
    let publisher = Publisher::new(&config());
    let publication = publisher.prepare(&payload(NOW));
    assert!(publication.is_ours);
    assert_eq!(publication.synthetics.len(), 1);
    assert_eq!(publication.synthetics[0].synthetic, "USDb");
    assert_eq!(publication.synthetics[0].price, Rational::from_i128(3, 2));
    assert_eq!(publication.feeds.len(), 1);
    assert_eq!(publication.feeds[0].feed, "ADA/USD#RAW");
    let bytes = hex::decode(&publication.feeds[0].payload).unwrap();
    assert!(bytes.windows(11).any(|part| part == b"ADA/USD#RAW"));
    assert!(bytes.windows(64).any(|part| part == [8; 64]));
    let mut theirs = payload(NOW);
    theirs.publisher = node(THEIR_ID);
    assert!(!publisher.prepare(&theirs).is_ours);
}

#[test]
fn feeds_have_urls() {
    let publisher = Publisher::new(&config());
    assert_eq!(
        publisher.feed_url("ADA/USD#RAW"),
        Some(text("https://infra.butane.dev/oracles/ADA%2FUSD%23RAW"))
    );
    let mut config = config();
    config.publish_feed_base_url = None;
    assert_eq!(Publisher::new(&config).feed_url("ADA"), None);
}

fn quote(source: &str, token: &str, unit: &str, value: Decimal) -> (String, PriceInfo) {
    (text(source), PriceInfo { token: text(token), unit: text(unit), value, reliability: Decimal::one() })
}

fn quotes() -> Vec<(String, PriceInfo)> {
    vec![
        quote("Binance", "ADA", "USD", Decimal::new(5, 1)),
        quote("Minswap", "LENFI", "ADA", Decimal::new(4, 0)),
    ]
}

fn no_weights() -> Weights {
    Weights { synthetics: NameMap::new(), generics: NameMap::new() }
}

fn config_source(config: &OracleConfig) -> SyntheticConfigSource {
    SyntheticConfigSource::new(&config.currencies, &config.synthetics, NOW)
}

fn report(config: &OracleConfig, quotes: &Vec<(String, PriceInfo)>) -> Option<Report> {
    let mut persistence = TokenPricePersistence::new(vec![text("ADA")], vec![]);
    let source = config_source(config);
    PriceAggregator::new(config).report(config, quotes, &mut persistence, Some(&source), &no_weights(), NOW)
}

fn is_healthy(info: &HealthInfo, name: &str) -> bool {
    matches!(&info.origin, Origin::Currency(currency) if currency == name)
        && matches!(info.status, HealthStatus::Healthy)
}

fn has_problem(info: &HealthInfo, name: &str, problem: &str) -> bool {
    matches!(&info.origin, Origin::Currency(currency) if currency == name)
        && matches!(&info.status, HealthStatus::Unhealthy(reason) if reason == problem)
}

#[test]
fn prices_are_computed() {
    let config = config();
    let report = report(&config, &quotes()).unwrap();
    assert_eq!(report.data.synthetics.len(), 1);
    let data = &report.data.synthetics[0];
    assert_eq!(data.price, Rational::from_u64(1));
    assert_eq!(data.feed.synthetic, "USDb");
    assert_eq!(data.feed.collateral_names, Some(vec![text("ADA"), text("LENFI")]));
    assert_eq!(data.feed.collateral_prices, [Natural::from_u64(1), Natural::from_u64(4)]);
    assert_eq!(data.feed.denominator, Natural::from_u64(2));
    assert_eq!(data.feed.validity.lower_bound, IntervalBound::unix_timestamp(1_699_999_940_000, true));
    assert_eq!(data.feed.validity.upper_bound, IntervalBound::unix_timestamp(1_700_000_300_000, false));
    assert!(is_healthy(&report.health[0], "USDb"));
    assert!(is_healthy(&report.health[1], "ADA"));
}

#[test]
fn feeds_go_both_ways() {
    let report = report(&config(), &quotes()).unwrap();
    let feeds: Vec<(String, Natural, u64)> =
        report.data.generics.into_iter().map(|feed| (feed.name, feed.price, feed.timestamp)).collect();
    let feed = |name: &str, price| (text(name), Natural::from_u64(price), 1_700_000_000_000);
    assert_eq!(
        feeds,
        [
            feed("ADA/USD#RAW", 5_000_000),
            feed("USD/ADA#RAW", 20_000_000),
            feed("ADA/USD#GEMA", 5_000_000),
            feed("USD/ADA#GEMA", 20_000_000),
        ]
    );
}

#[test]
fn missing_prices_are_reported() {
    let config = config();
    let some = report(&config, &vec![quote("Binance", "ADA", "USD", Decimal::new(5, 1))]).unwrap();
    assert!(some.data.synthetics.is_empty());
    assert!(has_problem(&some.health[0], "USDb", "could not compute price for collateral LENFI"));
    let none = report(&config, &vec![]).unwrap();
    assert!(none.data.generics.is_empty());
    assert!(has_problem(&none.health[1], "ADA", "could not compute price"));
}

#[test]
fn synthetics_need_a_config() {
    let mut config = config();
    let quotes = quotes();
    let prices = TokenPriceConverter::new(&quotes, &[], &[], Rational::from_i128(1, 20));
    let aggregator = PriceAggregator::new(&config);
    let compute = |config: &OracleConfig, name: &str, source: Option<&SyntheticConfigSource>| {
        aggregator.do_compute_synthetic_payload(config, name, &prices, source, NOW, None).unwrap_err()
    };
    let source = config_source(&config);
    let error = compute(&config, "USDb", Some(&source));
    assert!(matches!(error, PayloadError::NoSyntheticPrice));
    assert_eq!(error.describe(), "could not compute synthetic price");
    let error = compute(&config, "ADA", None);
    assert!(matches!(error, PayloadError::SyntheticsDisabled));
    assert_eq!(error.describe(), "synthetics are not enabled");
    let error = compute(&config, "ADA", Some(&source));
    assert!(matches!(error, PayloadError::NoSyntheticConfig));
    assert_eq!(error.describe(), "could not retrieve synthetic config");
    assert!(matches!(compute(&config, "XYZ", Some(&source)), PayloadError::Undefined));
    config.synthetics[0].name = text("ADA");
    config.synthetics[0].collateral = CollateralConfig::List(vec![text("XYZ")]);
    let source = config_source(&config);
    assert!(matches!(compute(&config, "ADA", Some(&source)), PayloadError::Undefined));
}

#[test]
fn prices_without_a_denominator_are_not_remembered() {
    let mut aggregator = PriceAggregator::new(&config());
    let mut undivided = payload(NOW);
    undivided.synthetics[0].payload.data.denominator = Natural::from_u64(0);
    assert!(!aggregator.can_remember(&undivided));
    undivided.synthetics[0].payload.data.collateral_prices.clear();
    assert!(aggregator.can_remember(&undivided));
    aggregator.update_previous_prices(&undivided);
    assert_eq!(aggregator.synthetic_elapsed("USDb", NOW), Some(0));

    let mut old = payload(NOW - 10);
    old.synthetics[0].payload.data.denominator = Natural::from_u64(0);
    assert!(aggregator.can_remember(&old));
}

#[test]
fn remembered_prices_smooth_new_ones() {
    let config = config();
    let mut aggregator = PriceAggregator::new(&config);
    aggregator.update_previous_prices(&payload(NOW - 5_000_000_000));
    assert_eq!(aggregator.synthetic_elapsed("USDb", NOW), Some(5_000_000_000));
    assert_eq!(aggregator.feed_elapsed("ADA/USD#RAW", NOW), Some(5_000_000_000));
    assert_eq!(aggregator.feed_elapsed("ADA/USD#GEMA", NOW), None);
    assert_eq!(aggregator.synthetic_elapsed("SOLp", NOW), None);

    let half = Rational::from_i128(1, 2);
    let prices = vec![Rational::from_u64(2), Rational::from_u64(1)];
    let smooth = aggregator.apply_synth_gema("USDb", prices.clone(), NOW, Some(&half));
    assert_eq!(smooth, [Rational::from_i128(7, 4), Rational::from_u64(1)]);
    assert_eq!(aggregator.apply_synth_gema("USDb", prices.clone(), NOW, None), prices);
    assert_eq!(aggregator.apply_synth_gema("SOLp", prices.clone(), NOW, Some(&half)), prices);
    let price = aggregator.apply_gema("ADA/USD#RAW", Natural::from_u64(7_500_000), NOW, Some(&half));
    assert_eq!(price, Natural::from_u64(7_000_000));
}

#[test]
fn prices_without_value_have_no_feeds() {
    let config = config();
    let aggregator = PriceAggregator::new(&config);
    let weights = NameMap::new();
    let quotes = vec![quote("Binance", "ADA", "USD", Decimal::zero())];
    let prices = TokenPriceConverter::new(&quotes, &[], &[], Rational::from_i128(1, 20));
    assert!(matches!(aggregator.compute_generic_payload("ADA", &prices, NOW, &weights), CurrencyFeeds::Undefined));
    assert!(matches!(aggregator.compute_generic_payload("LENFI", &prices, NOW, &weights), CurrencyFeeds::Nothing));
}

#[test]
fn known_prices_are_kept() {
    let mut config = config();
    config.use_persisted_prices = true;
    config.synthetics.clear();
    let source = config_source(&config);
    let aggregator = PriceAggregator::new(&config);
    let mut persistence = TokenPricePersistence::new(vec![text("ADA"), text("BTN")], vec![]);
    aggregator.report(&config, &quotes(), &mut persistence, Some(&source), &no_weights(), NOW).unwrap();
    assert_eq!(persistence.prices(), &[(text("ADA"), Rational::from_i128(1, 2))]);

    let again = TokenPricePersistence::new(vec![text("ADA")], persistence.prices().clone());
    assert_eq!(again.prices(), persistence.prices());

    let saved = persistence.saved_prices();
    assert_eq!(saved.len(), 1);
    assert_eq!(saved[0].token, "ADA");
    assert_eq!(saved[0].unit, "USD");
    assert_eq!(saved[0].sources[0].name, "Loaded from disk");

    let report = aggregator.report(&config, &vec![], &mut persistence, Some(&source), &no_weights(), NOW).unwrap();
    assert_eq!(report.data.generics[0].price, Natural::from_u64(5_000_000));
    let served = report_all_prices(&OracleIdentifiers { id: node(OUR_ID), name: text("me") }, &report.audit);
    assert_eq!(served.oracle.name, "me");
    assert_eq!(served.prices, report.audit);
}

fn structure(fields: Vec<PlutusData>) -> PlutusData {
    PlutusData::Constr { tag: 121, any_constructor: None, indefinite: true, fields }
}

fn asset(policy_id: &[u8], asset_name: &[u8]) -> PlutusData {
    structure(vec![PlutusData::BoundedBytes(policy_id.to_vec()), PlutusData::BoundedBytes(asset_name.to_vec())])
}

fn collateral_datum(items: Vec<PlutusData>) -> String {
    let list = PlutusData::Array { indefinite: true, items };
    hex::encode(encode(&structure(vec![structure(vec![structure(vec![list])])])))
}

#[test]
fn lookups_are_in_order() {
    let mut config = config();
    let nft = |name: &str| CollateralConfig::Nft(text(name));
    config.synthetics = vec![synthetic("USDb", nft("1")), synthetic("BTCb", nft("2")), synthetic("USDb", nft("3"))];
    assert_eq!(config_source(&config).lookups(), [(text("BTCb"), text("2")), (text("USDb"), text("3"))]);
}

#[test]
fn collateral_is_looked_up() {
    let mut config = config();
    config.synthetics[0].collateral = CollateralConfig::Nft(text("nft"));
    let mut source = config_source(&config);
    assert_eq!(source.lookups(), [(text("USDb"), text("nft"))]);
    assert_eq!(source.synthetic_collateral("USDb"), None);
    assert_eq!(receive_matches("nft", Ok(vec![Some(text("hash"))])).unwrap(), "hash");

    let datum = collateral_datum(vec![asset(&[], &[]), asset(&[0x8f, 0xef], b"AADA")]);
    let found = source.receive_datum("nft", Ok(Some(datum)));
    let health = source.apply("USDb", found);
    assert!(matches!(health.origin, Origin::SyntheticConfig(name) if name == "USDb"));
    assert!(matches!(health.status, HealthStatus::Healthy));
    assert_eq!(source.synthetic_collateral("USDb"), Some(vec![text("ADA"), text("LENFI")]));

    let failed = source.receive_datum("nft", Err(text("refused")));
    let health = source.apply("USDb", failed);
    assert!(
        matches!(health.status, HealthStatus::Unhealthy(reason) if reason == "could not fetch datum for NFT nft: refused")
    );
    assert_eq!(source.synthetic_collateral("USDb"), Some(vec![text("ADA"), text("LENFI")]));

    let gone = source.receive_datum("nft", Ok(None));
    source.apply("USDb", gone);
    assert_eq!(source.synthetic_collateral("USDb"), None);
}

#[test]
fn odd_owners_are_errors() {
    let told = |reply| {
        let error = receive_matches("nft", reply).unwrap_err();
        (error.message, error.clear)
    };
    assert_eq!(told(Err(text("refused"))), (text("could not fetch owner for NFT nft: refused"), false));
    assert_eq!(told(Ok(vec![])), (text("no UTxO found for NFT nft"), true));
    assert_eq!(told(Ok(vec![None, None])), (text("found 2 UTxOs for NFT nft, expected 1"), true));
    assert_eq!(told(Ok(vec![None])), (text("no datum associated with NFT nft"), true));
}

#[test]
fn odd_datums_are_errors() {
    let source = config_source(&config());
    let told = |datum: String| {
        let error = source.receive_datum("nft", Ok(Some(datum))).unwrap_err();
        assert!(error.clear);
        error.message
    };
    assert_eq!(told(text("zz")), "malformed datum for NFT nft");
    assert_eq!(told(text("ff")), "invalid CBOR for NFT nft");
    assert_eq!(told(text("00")), "could not parse datum for NFT nft: datum is not a struct");
    assert_eq!(
        told(text("d87980")),
        "could not parse datum for NFT nft: too few elements (expected at least 1, got 0)"
    );
    assert_eq!(
        told(text("d87a80")),
        "could not parse datum for NFT nft: datum has unexpected variant (expected 121, got 122)"
    );
    assert_eq!(
        told(hex::encode(encode(&structure(vec![structure(vec![structure(vec![PlutusData::Int(1)])])])))),
        "could not parse datum for NFT nft: datum has invalid collateral assets"
    );
    let nameless = structure(vec![PlutusData::BoundedBytes(vec![1]), PlutusData::Int(1)]);
    assert_eq!(
        told(collateral_datum(vec![asset(&[], &[]), nameless])),
        "could not parse datum for NFT nft: asset 1 has invalid asset name"
    );
    let unowned = structure(vec![PlutusData::Int(1), PlutusData::BoundedBytes(vec![1])]);
    assert_eq!(
        told(collateral_datum(vec![unowned])),
        "could not parse datum for NFT nft: asset 0 has invalid policy id"
    );
    assert_eq!(told(collateral_datum(vec![asset(&[1], &[2])])), "unrecognized asset id 01.02");
}

#[test]
fn collateral_is_refreshed_now_and_again() {
    let mut source = config_source(&config());
    assert!(source.is_due(NOW));
    source.refreshed(NOW);
    assert!(!source.is_due(NOW + 1));
    assert!(source.is_due(NOW + REFRESH_INTERVAL));
}
