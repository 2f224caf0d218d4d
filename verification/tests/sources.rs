use oracles::config::{HydratedPool, Pool};
use oracles::decimal::Decimal;
use oracles::names::NameMap;
use oracles::plutus::{encode, PlutusData};
use oracles::sources::binance::process_binance_message;
use oracles::sources::bybit::{ByBitResponse, ByBitSource};
use oracles::sources::coinbase::{CoinbaseResponse, CoinbaseSource};
use oracles::sources::kupo::{KupoStatus, MaxConcurrencyFutureSet, SyncStep, SyncWait, SECOND};
use oracles::sources::maestro::{ohlc_url, tokens};
use oracles::sources::minswap;
use oracles::sources::pools::{describe_pool_error, ChainValue, Match, PoolError};
use oracles::sources::source::{Origin, PriceInfo, SourceError};
use oracles::sources::sundaeswap::{pool_id, read_pool, Asset};
use oracles::sources::sundaeswap_kupo;

fn is(value: Decimal, mantissa: i128, scale: u32) -> bool {
    value.mantissa() * 10i128.pow(scale) == mantissa * 10i128.pow(value.scale())
}

fn is_dollar_price(price: &PriceInfo, token: &str, mantissa: i128, scale: u32) -> bool {
    price.token == token && price.unit == "USD" && is(price.value, mantissa, scale)
}

#[test]
fn binance_prices_are_read() {
    let price = process_binance_message("adausdt@markPrice", "0.65").unwrap();
    assert!(is_dollar_price(&price, "ADA", 65, 2));
    assert!(is(price.reliability, 1, 0));
    let price = process_binance_message("btcusdt@markPrice", "58262.62").unwrap();
    assert!(is_dollar_price(&price, "BTCb", 5826262, 2));
    let price = process_binance_message("maticusdt@markPrice", "0.5").unwrap();
    assert!(is_dollar_price(&price, "MATICb", 5, 1));
}

#[test]
fn solana_is_quoted_the_other_way_round() {
    let price = process_binance_message("solusdt@markPrice", "8").unwrap();
    assert!(is_dollar_price(&price, "SOLp", 125, 3));
}

#[test]
fn odd_binance_messages_are_errors() {
    assert!(matches!(process_binance_message("adabtc", "0.65"), Err(SourceError::MalformedStream(s)) if s == "adabtc"));
    assert!(matches!(process_binance_message("adausdt@x", "cheap"), Err(SourceError::BadPrice)));
    assert!(matches!(process_binance_message("dogeusdt@x", "1"), Err(SourceError::Unrecognized(s)) if s == "dogeusdt@x"));
    assert!(matches!(process_binance_message("solusdt@x", "0"), Err(SourceError::Undefined)));
}

fn ticker(symbol: &str, mark_price: Option<&str>) -> ByBitResponse {
    ByBitResponse::TickerResponse { symbol: symbol.to_string(), mark_price: mark_price.map(|p| p.to_string()) }
}

#[test]
fn bybit_prices_are_read() {
    let source = ByBitSource::new();
    assert_eq!(source.name(), "ByBit");
    assert_eq!(source.tokens(), ["ADA", "BTCb", "SOLp", "MATICb"]);
    assert_eq!(
        source.subscriptions(),
        ["tickers.ADAUSDT", "tickers.BTCUSDT", "tickers.MATICUSDT", "tickers.SOLUSDT"]
    );
    let price = source.process_response(&ticker("ADAUSDT", Some("0.6"))).unwrap().unwrap();
    assert!(is_dollar_price(&price, "ADA", 6, 1));
    let price = source.process_response(&ticker("SOLUSDT", Some("4"))).unwrap().unwrap();
    assert!(is_dollar_price(&price, "SOLp", 25, 2));
    assert!(source.process_response(&ticker("ADAUSDT", None)).unwrap().is_none());
}

#[test]
fn bybit_refusals_are_errors() {
    let source = ByBitSource::new();
    let welcome = ByBitResponse::StatusResponse { success: true, ret_msg: "hi".to_string() };
    assert!(source.process_response(&welcome).unwrap().is_none());
    let refusal = ByBitResponse::StatusResponse { success: false, ret_msg: "no".to_string() };
    assert!(matches!(source.process_response(&refusal), Err(SourceError::Subscription(s)) if s == "no"));
    assert!(matches!(
        source.process_response(&ticker("XRPUSDT", Some("1"))),
        Err(SourceError::Unrecognized(s)) if s == "XRPUSDT"
    ));
    assert!(matches!(source.process_response(&ticker("ADAUSDT", Some(""))), Err(SourceError::BadPrice)));
}

#[test]
fn coinbase_prices_are_read() {
    let source = CoinbaseSource::new();
    assert_eq!(source.origin(), Origin::Coinbase);
    assert_eq!(source.product_ids(), ["ADA-USD", "BTC-USD", "MATIC-USD", "SOL-USD"]);
    let answer = CoinbaseResponse::Ticker { product_id: "BTC-USD".to_string(), price: "60000".to_string() };
    assert!(is_dollar_price(&source.parse_message(&answer).unwrap(), "BTCb", 60000, 0));
    let answer = CoinbaseResponse::Ticker { product_id: "SOL-USD".to_string(), price: "2".to_string() };
    assert!(is_dollar_price(&source.parse_message(&answer).unwrap(), "SOLp", 5, 1));
}

#[test]
fn coinbase_answers_come_in_order() {
    let source = CoinbaseSource::new();
    let error = CoinbaseResponse::Error { message: "no".to_string() };
    let unknown = CoinbaseResponse::Ticker { product_id: "DOGE-USD".to_string(), price: "2".to_string() };
    assert!(source.accepts_first_response(&CoinbaseResponse::Subscriptions));
    assert!(!source.accepts_first_response(&error));
    assert!(!source.accepts_first_response(&unknown));
    assert!(matches!(source.parse_message(&error), Err(SourceError::Unexpected)));
    assert!(matches!(source.parse_message(&CoinbaseResponse::Subscriptions), Err(SourceError::Unexpected)));
    assert!(matches!(source.parse_message(&unknown), Err(SourceError::Unrecognized(s)) if s == "DOGE-USD"));
}

#[test]
fn maestro_is_asked_for_tokens() {
    assert_eq!(ohlc_url("LENFI"), "https://mainnet.gomaestro-api.org/v1/markets/dexs/ohlc/minswap/ADA-LENFI");
    assert_eq!(tokens(), ["LENFI", "iUSD", "MIN", "SNEK", "ENCS", "DJED"]);
}

fn pool() -> HydratedPool {
    HydratedPool {
        pool: Pool {
            token: "LENFI".to_string(),
            unit: "ADA".to_string(),
            credential: None,
            asset_id: "policy.000de140abcd".to_string(),
        },
        token_asset_id: Some("lenfi".to_string()),
        token_digits: 6,
        unit_asset_id: None,
        unit_digits: 6,
    }
}

fn found(coins: u64, tokens: Option<u64>, datum: Option<&str>) -> Match {
    let mut assets = NameMap::new();
    if let Some(tokens) = tokens {
        assets.insert("lenfi".to_string(), tokens);
    }
    Match { value: ChainValue { coins, assets }, datum: datum.map(|d| d.to_string()) }
}

#[test]
fn minswap_pools_have_prices() {
    let price = minswap::receive_matches(&pool(), &vec![found(9_000_000, Some(2_000_000), None)]).unwrap();
    assert_eq!(price.token, "LENFI");
    assert_eq!(price.unit, "ADA");
    assert!(is(price.value, 45, 1));
    assert!(is(price.reliability, 4_000_000, 0));
}

#[test]
fn odd_pools_have_no_price() {
    let price = |matches| minswap::receive_matches(&pool(), &matches).unwrap_err();
    assert_eq!(price(vec![]), PoolError::NotFound);
    assert_eq!(price(vec![found(1, Some(1), None), found(1, Some(1), None)]), PoolError::Ambiguous);
    assert_eq!(price(vec![found(1, None, None)]), PoolError::MissingAmount);
    assert_eq!(price(vec![found(0, Some(1), None)]), PoolError::Zero);
    assert_eq!(price(vec![found(1, Some(0), None)]), PoolError::Infinite);
    assert_eq!(price(vec![found(1, Some(1 << 62), None)]), PoolError::OutOfRange);
    let mut fine = pool();
    fine.token_digits = 29;
    let matches = vec![found(1, Some(1), None)];
    assert_eq!(minswap::receive_matches(&fine, &matches).unwrap_err(), PoolError::OutOfRange);
}

#[test]
fn pool_errors_are_told() {
    let tell = |error| describe_pool_error(error, "Minswap", "LENFI");
    assert_eq!(tell(PoolError::NotFound), "pool not found for LENFI");
    assert_eq!(tell(PoolError::Ambiguous), "more than one pool found for LENFI");
    assert_eq!(tell(PoolError::NoDatum), "no datum attached to result");
    assert_eq!(tell(PoolError::MissingFee), "datum missing ada cost");
    assert_eq!(tell(PoolError::Zero), "Minswap reported value of LENFI as zero, ignoring");
    assert_eq!(tell(PoolError::Infinite), "Minswap reported value of LENFI as infinite, ignoring");
}

fn datum(fee: PlutusData) -> String {
    let mut fields: Vec<PlutusData> = (0..7).map(PlutusData::Int).collect();
    fields.push(fee);
    hex::encode(encode(&PlutusData::Constr { tag: 121, any_constructor: None, indefinite: false, fields }))
}

#[test]
fn fees_stand_in_the_datum() {
    let fee = sundaeswap_kupo::extract_tx_fee;
    assert_eq!(fee(&datum(PlutusData::Int(2_000_000))), Ok(2_000_000));
    assert_eq!(fee(&datum(PlutusData::BigUInt(vec![1, 0]))), Ok(256));
    assert_eq!(fee(&datum(PlutusData::Int(-1))), Err(PoolError::FeeOutOfRange));
    assert_eq!(fee(&datum(PlutusData::BigUInt(vec![1; 9]))), Err(PoolError::FeeOutOfRange));
    assert_eq!(fee(&datum(PlutusData::BoundedBytes(vec![1]))), Err(PoolError::MissingFee));
    assert_eq!(fee("d87980"), Err(PoolError::MissingFee));
    assert_eq!(fee("00"), Err(PoolError::UnexpectedDatum));
    assert_eq!(fee("zz"), Err(PoolError::MalformedDatum));
    assert_eq!(fee("ff"), Err(PoolError::InvalidDatum));
}

#[test]
fn fees_do_not_count_as_liquidity() {
    let matches = vec![found(11_000_000, Some(2_000_000), Some("hash"))];
    assert_eq!(sundaeswap_kupo::receive_matches(&matches), Ok("hash".to_string()));
    let datum = datum(PlutusData::Int(2_000_000));
    let price = sundaeswap_kupo::receive_datum(&pool(), &matches[0], Some(datum.as_str())).unwrap();
    assert!(is(price.value, 45, 1));
    assert!(is(price.reliability, 4_000_000, 0));
}

#[test]
fn sundaeswap_pools_need_a_datum() {
    let without = vec![found(11_000_000, Some(2_000_000), None)];
    assert_eq!(sundaeswap_kupo::receive_matches(&without), Err(PoolError::NoDatum));
    assert_eq!(sundaeswap_kupo::receive_matches(&vec![]), Err(PoolError::NotFound));
    let unknown = sundaeswap_kupo::receive_datum(&pool(), &without[0], None);
    assert_eq!(unknown.unwrap_err(), PoolError::DatumNotFound);
    let datum = datum(PlutusData::Int(12_000_000));
    let poor = sundaeswap_kupo::receive_datum(&pool(), &without[0], Some(datum.as_str()));
    assert_eq!(poor.unwrap_err(), PoolError::MissingAmount);
}

#[test]
fn pools_have_ids() {
    assert_eq!(pool_id("policy", &pool().pool), Some("e140abcd".to_string()));
    assert_eq!(pool_id("a policy that is far longer", &pool().pool), None);
}

fn asset(ticker: Option<&str>, decimals: u32, quantity: &str) -> Asset {
    Asset { ticker: ticker.map(|t| t.to_string()), decimals, quantity: quantity.to_string() }
}

#[test]
fn pools_are_read_from_the_api() {
    let ada = asset(Some("ADA"), 6, "9000000");
    let price = read_pool(&ada, &asset(Some("LENFI"), 6, "2000000")).unwrap().unwrap();
    assert_eq!(price.token, "LENFI");
    assert_eq!(price.unit, "ADA");
    assert!(is(price.value, 45, 1));
    assert!(is(price.reliability, 9_000_000, 6));
    assert!(read_pool(&ada, &asset(None, 6, "2000000")).unwrap().is_none());
    assert!(read_pool(&ada, &asset(Some("LENFI"), 6, "+2000000")).unwrap().is_some());
    assert!(matches!(read_pool(&ada, &asset(Some("LENFI"), 6, "many")), Err(SourceError::BadPrice)));
    assert!(matches!(read_pool(&ada, &asset(Some("LENFI"), 6, "+")), Err(SourceError::BadPrice)));
    let large = "170141183460469231731687303715884105728";
    assert!(matches!(read_pool(&ada, &asset(Some("LENFI"), 6, large)), Err(SourceError::BadPrice)));
    assert!(matches!(read_pool(&ada, &asset(Some("LENFI"), 6, "0")), Err(SourceError::Undefined)));
    assert!(matches!(read_pool(&ada, &asset(Some("LENFI"), 29, "1")), Err(SourceError::Undefined)));
}

fn wait(step: SyncStep) -> (u128, String, bool) {
    match step {
        SyncStep::Ready => panic!("ready too early"),
        SyncStep::Wait { delay, message, is_new } => (delay, message, is_new),
    }
}

#[test]
fn chain_indexes_are_waited_for() {
    let mut sync = SyncWait::new();
    let (delay, message, is_new) = wait(sync.receive(KupoStatus::Error("refused".to_string()), &None));
    assert!(delay == 10 * SECOND && is_new);
    assert_eq!(
        message,
        "Kupo server is unreachable or otherwise unhealthy: refused. Please ensure the server is running and configured correctly. This source will be ignored until it is."
    );
    let (_, message, is_new) = wait(sync.receive(KupoStatus::Error("refused".to_string()), &None));
    assert!(!is_new);
    assert_eq!(message, "Kupo server is still unhealthy: refused");
    let (_, _, is_new) = wait(sync.receive(KupoStatus::Error("lost".to_string()), &None));
    assert!(is_new);
    let (delay, _, is_new) = wait(sync.receive(KupoStatus::Disconnected, &None));
    assert!(delay == 5 * SECOND && is_new);
    let (delay, message, is_new) = wait(sync.receive(KupoStatus::Syncing, &Some("99.1%".to_string())));
    assert!(delay == SECOND && is_new);
    assert_eq!(message, "Kupo server is syncing (99.1%). This source will be ignored until it is fully synced.");
    let (_, message, is_new) = wait(sync.receive(KupoStatus::Syncing, &None));
    assert!(!is_new);
    assert_eq!(message, "Kupo server is still syncing.");
    assert!(matches!(sync.receive(KupoStatus::Healthy, &None), SyncStep::Ready));
}

#[test]
fn only_so_many_requests_run_at_once() {
    let mut requests = MaxConcurrencyFutureSet::new(2);
    assert_eq!(requests.push("a"), Some("a"));
    assert_eq!(requests.push("b"), Some("b"));
    assert_eq!(requests.push("c"), None);
    assert_eq!(requests.push("d"), None);
    assert_eq!(requests.count(), 2);
    assert_eq!(requests.next_task(), None);
    requests.finish();
    assert_eq!(requests.next_task(), None);
    requests.finish();
    assert_eq!(requests.next_task(), Some("d"));
    assert_eq!(requests.next_task(), None);
    requests.finish();
    assert_eq!(requests.next_task(), Some("c"));
    requests.finish();
    assert_eq!(requests.count(), 0);
    assert_eq!(requests.next_task(), None);
}
