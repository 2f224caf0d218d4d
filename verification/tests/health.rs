use oracles::decimal::Decimal;
use oracles::health::{HealthInfo, HealthState, HealthStatus, Origin, PeerConnectionStatus, PeerInfo};
use oracles::network::NodeId;
use oracles::price_aggregator::source_adapter::{latest_source_prices, SourceAdapter};
use oracles::sources::source::{PriceInfo, PriceInfoSnapshot};

fn node(name: &str) -> NodeId {
    NodeId::new(name.to_string())
}

fn peer(id: &str, label: &str) -> PeerInfo {
    PeerInfo { id: node(id), label: label.to_string(), address: format!("{label}:31415") }
}

fn healthy(origin: Origin) -> HealthInfo {
    HealthInfo { origin, status: HealthStatus::Healthy }
}

fn unhealthy(origin: Origin, reason: &str) -> HealthInfo {
    HealthInfo { origin, status: HealthStatus::Unhealthy(reason.to_string()) }
}

#[test]
fn peers_are_unhealthy_at_first() {
    let state = HealthState::new(node("m"), &vec![peer("z", "zoe"), peer("a", "abe")]);
    let report = state.report();
    assert!(!report.healthy);
    assert_eq!(report.status_code(), 503);
    assert_eq!(report.id, node("m"));
    let names: Vec<&str> = report.peers.iter().map(|peer| peer.name.as_str()).collect();
    assert_eq!(names, ["abe", "zoe"]);
    assert_eq!(report.peers[0].address, "abe:31415");
    assert_eq!(report.peers[0].connection, PeerConnectionStatus::WaitingForIncomingConnection);
    assert_eq!(report.peers[1].connection, PeerConnectionStatus::TryingToConnect);
    assert_eq!(report.errors.get("abe"), Some(&"Not yet connected".to_string()));
    assert_eq!(report.errors.get("zoe"), Some(&"Not yet connected".to_string()));
    assert_eq!(report.errors.len(), 2);
}

#[test]
fn nodes_are_healthy_when_everything_is() {
    let mut state = HealthState::new(node("m"), &vec![peer("z", "zoe")]);
    state.update(healthy(Origin::Peer(node("z"))));
    state.update(healthy(Origin::Source("Binance".to_string())));
    let report = state.report();
    assert!(report.healthy);
    assert_eq!(report.status_code(), 200);
    assert_eq!(report.peers[0].connection, PeerConnectionStatus::Connected);
    assert_eq!(report.errors.len(), 0);
}

#[test]
fn every_problem_is_told() {
    let mut state = HealthState::new(node("m"), &vec![]);
    state.update(unhealthy(Origin::Source("Binance".to_string()), "too slow"));
    state.update(unhealthy(Origin::Currency("ADA".to_string()), "no price"));
    state.update(unhealthy(Origin::SyntheticConfig("USDb".to_string()), "no datum"));
    state.update(unhealthy(Origin::Peer(node("x")), "lost"));
    let report = state.report();
    assert!(!report.healthy);
    assert_eq!(report.errors.get("Binance").unwrap(), "too slow");
    assert_eq!(report.errors.get("ADA").unwrap(), "no price");
    assert_eq!(report.errors.get("USDb").unwrap(), "no datum");
    assert_eq!(report.errors.get("x").unwrap(), "lost");
    state.update(healthy(Origin::Source("Binance".to_string())));
    assert!(state.report().errors.get("Binance").is_none());
}

const SECOND: u128 = 1_000_000_000;

fn snapshot(token: &str, name: Option<&str>, value: i64, reliability: i64, as_of: u128) -> PriceInfoSnapshot {
    PriceInfoSnapshot {
        info: PriceInfo {
            token: token.to_string(),
            unit: "USD".to_string(),
            value: Decimal::new(value, 0),
            reliability: Decimal::new(reliability, 0),
        },
        name: name.map(|n| n.to_string()),
        as_of,
    }
}

fn source() -> SourceAdapter {
    SourceAdapter::new("Binance".to_string(), &vec!["BTCb".to_string(), "ADA".to_string()], 30 * SECOND)
}

fn told(info: HealthInfo) -> Option<String> {
    assert!(matches!(info.origin, Origin::Source(name) if name == "Binance"));
    match info.status {
        HealthStatus::Healthy => None,
        HealthStatus::Unhealthy(reason) => Some(reason),
    }
}

#[test]
fn odd_names_are_escaped() {
    let source = SourceAdapter::new("Binance".to_string(), &vec!["a\"b\\c\n".to_string()], 30 * SECOND);
    assert_eq!(
        told(source.health(0)),
        Some("Went more than 30 seconds without updates for [\"a\\\"b\\\\c\\n\"]".to_string())
    );
}

#[test]
fn sources_should_have_all_their_prices() {
    let mut source = source();
    assert_eq!(
        told(source.health(0)),
        Some("Went more than 30 seconds without updates for [\"ADA\", \"BTCb\"]".to_string())
    );
    source.receive(snapshot("ADA", None, 1, 1, 0));
    assert_eq!(
        told(source.health(SECOND)),
        Some("Went more than 30 seconds without updates for [\"BTCb\"]".to_string())
    );
    source.receive(snapshot("BTCb", None, 1, 1, 0));
    assert_eq!(told(source.health(29 * SECOND)), None);
    assert!(told(source.health(30 * SECOND)).is_some());
}

#[test]
fn worthless_prices_do_not_count() {
    let mut source = source();
    source.receive(snapshot("ADA", None, 0, 1, 0));
    source.receive(snapshot("BTCb", None, 1, 0, 0));
    assert!(told(source.health(0)).is_some());
    assert!(latest_source_prices(&vec![source], 0).is_empty());
}

#[test]
fn old_prices_are_left_out() {
    let mut source = source();
    source.receive(snapshot("BTCb", Some("spot"), 9, 1, 10 * SECOND));
    source.receive(snapshot("ADA", None, 2, 1, 0));
    let sources = vec![source];
    let prices = latest_source_prices(&sources, 30 * SECOND);
    assert_eq!(prices.len(), 2);
    assert!(prices.iter().any(|(name, info)| name == "Binance (spot)" && info.token == "BTCb"));
    assert!(prices.iter().any(|(name, info)| name == "Binance" && info.token == "ADA"));
    let prices = latest_source_prices(&sources, 31 * SECOND);
    assert_eq!(prices.len(), 1);
    assert_eq!(prices[0].1.token, "BTCb");
    assert!(latest_source_prices(&sources, 41 * SECOND).is_empty());
}
