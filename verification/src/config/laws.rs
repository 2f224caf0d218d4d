//! What holds of configurations.

use vstd::prelude::*;

use crate::config::{
    config_error, currency_named, feed_url, first_bad_peer, id_in, is_hydrated, is_peer, level_name, millis, others,
    own_label, ConfigError, CurrencyConfig, HydratedPool, OracleConfig, Pool, RawOracleConfig, RawPeerConfig,
};
use crate::encoding::{hex_bytes, law_hex_round_trip};
use crate::keys::{public_key_in, public_key_of, text_in, PrivateKey};
use crate::names::{is_last, Named};

verus! {

/// The peers of a node are all that are configured, in their order, but for the node itself.
pub proof fn law_a_node_is_no_peer_of_itself(peers: Seq<RawPeerConfig>, id: Seq<char>)
    ensures
        others(peers, id) == peers.filter(|peer: RawPeerConfig| id_in(peer) != id),
    decreases peers.len(),
{
    reveal(Seq::filter);
    if peers.len() > 0 {
        law_a_node_is_no_peer_of_itself(peers.drop_last(), id);
    } else {
        assert(others(peers, id) =~= peers.filter(|peer: RawPeerConfig| id_in(peer) != id));
    }
}

/// A node goes by the label of the last peer that is the node itself, or by its address where it has no label; and by its
/// id where it is not among them.
pub proof fn law_a_node_goes_by_its_own_label(peers: Seq<RawPeerConfig>, id: Seq<char>, at: int)
    ensures
        0 <= at < peers.len() && id_in(peers[at]) == id && (forall|j: int|
            at < j < peers.len() ==> id_in(#[trigger] peers[j]) != id) ==> own_label(peers, id) == (
        if peers[at].label is Some {
            peers[at].label->0@
        } else {
            peers[at].address@
        }),
        (forall|j: int| 0 <= j < peers.len() ==> id_in(#[trigger] peers[j]) != id) ==> own_label(peers, id) == id,
    decreases peers.len(),
{
    if peers.len() > 0 {
        let front = peers.drop_last();
        let last = peers[peers.len() - 1];
        law_a_node_goes_by_its_own_label(front, id, at);
        if 0 <= at < peers.len() && id_in(peers[at]) == id && (forall|j: int|
            at < j < peers.len() ==> id_in(#[trigger] peers[j]) != id) {
            if at < front.len() {
                assert(id_in(last) != id);
                assert forall|j: int| at < j < front.len() implies id_in(#[trigger] front[j]) != id by {
                    assert(front[j] == peers[j]);
                }
                assert(front[at] == peers[at]);
            }
        }
        if forall|j: int| 0 <= j < peers.len() ==> id_in(#[trigger] peers[j]) != id {
            assert(id_in(last) != id);
            assert forall|j: int| 0 <= j < front.len() implies id_in(#[trigger] front[j]) != id by {
                assert(front[j] == peers[j]);
            }
        }
    }
}

/// The id of a node is its public key in hexadecimal digits, so that different keys make different ids.
pub proof fn law_ids_are_public_keys(peer: RawPeerConfig, other: RawPeerConfig)
    requires
        public_key_in(peer.public_key@) is Ok,
        public_key_in(other.public_key@) is Ok,
    ensures
        hex_bytes(id_in(peer)) == public_key_in(peer.public_key@)->Ok_0,
        id_in(peer) == id_in(other) ==> public_key_in(peer.public_key@) == public_key_in(other.public_key@),
{
    law_hex_round_trip(public_key_in(peer.public_key@)->Ok_0);
    law_hex_round_trip(public_key_in(other.public_key@)->Ok_0);
}

/// A configuration is accepted if, and only if, the keys of all peers make sense, the level of logs has a name, and it is
/// said where the chain index is. Otherwise the first of these that is wrong is said.
pub proof fn law_bad_configurations_are_refused(raw: RawOracleConfig)
    ensures
        match config_error(raw) {
            None => level_name(raw.logs.level@) is Some && raw.kupo.kupo_address is Some && forall|i: int|
                0 <= i < raw.peers@.len() ==> public_key_in((#[trigger] raw.peers@[i]).public_key@) is Ok,
            Some(ConfigError::PeerKey(error)) => exists|at: int|
                0 <= at < raw.peers@.len() && #[trigger] is_first_bad(raw.peers@, at) && public_key_in(
                    raw.peers@[at].public_key@,
                ) == Err::<Seq<u8>, _>(error),
            Some(ConfigError::LogLevel) => level_name(raw.logs.level@) is None,
            Some(ConfigError::KupoAddressRequired) => raw.kupo.kupo_address is None,
            Some(_) => false,
        },
{
    lemma_first_bad(raw.peers@);
}

/// Whether the key of this peer is the first that makes no sense.
pub open spec fn is_first_bad(peers: Seq<RawPeerConfig>, at: int) -> bool {
    &&& public_key_in(peers[at].public_key@) is Err
    &&& forall|i: int| 0 <= i < at ==> public_key_in((#[trigger] peers[i]).public_key@) is Ok
}

proof fn lemma_first_bad(peers: Seq<RawPeerConfig>)
    ensures
        match first_bad_peer(peers) {
            None => forall|i: int| 0 <= i < peers.len() ==> public_key_in((#[trigger] peers[i]).public_key@) is Ok,
            Some(error) => exists|at: int|
                0 <= at < peers.len() && #[trigger] is_first_bad(peers, at) && public_key_in(peers[at].public_key@)
                    == Err::<Seq<u8>, _>(error),
        },
    decreases peers.len(),
{
    if peers.len() > 0 {
        let front = peers.drop_last();
        lemma_first_bad(front);
        match first_bad_peer(front) {
            None => {
                assert forall|i: int| 0 <= i < front.len() implies public_key_in(
                    (#[trigger] peers[i]).public_key@,
                ) is Ok by {
                    assert(front[i] == peers[i]);
                }
                if first_bad_peer(peers) is Some {
                    assert(is_first_bad(peers, peers.len() - 1));
                }
            },
            Some(error) => {
                let at = choose|at: int|
                    0 <= at < front.len() && #[trigger] is_first_bad(front, at) && public_key_in(front[at].public_key@)
                        == Err::<Seq<u8>, _>(error);
                assert forall|i: int| 0 <= i < at implies public_key_in((#[trigger] peers[i]).public_key@) is Ok by {
                    assert(front[i] == peers[i]);
                }
                assert(is_first_bad(peers, at));
            },
        }
    }
}

/// A millisecond has a million nanoseconds.
pub proof fn law_millis_are_millions_of_nanos(ms: u64)
    ensures
        millis(ms) == ms * 1_000_000,
{
}

/// Feeds go where that is said. Where it is not, they go beside prices: to the same place with another last part, if that is
/// the usual one.
pub proof fn law_feeds_go_beside_prices(said: Option<String>, prices: Option<String>, start: Seq<char>)
    ensures
        said matches Some(url) ==> feed_url(said, prices) == Some(url@),
        said is None && prices is None ==> feed_url(said, prices) is None,
        said is None && prices is Some && prices->0@ == start + "/oraclePrices"@ ==> feed_url(said, prices) == Some(
            start + "/oracles"@,
        ),
{
    if said is None && prices is Some && prices->0@ == start + "/oraclePrices"@ {
        let url = prices->0@;
        let suffix = "/oraclePrices"@;
        assert(url.len() == start.len() + suffix.len());
        assert(url.skip(url.len() - suffix.len()) =~= suffix);
        assert(url.take(url.len() - suffix.len()) =~= start);
    }
}

/// A pool has the digits, and the name on chain, of the last currency of each of its own two names. ADA has no name on
/// chain.
pub proof fn law_pools_have_the_digits_of_their_tokens(
    currencies: Seq<CurrencyConfig>,
    pool: Pool,
    hydrated: HydratedPool,
    token: int,
    unit: int,
)
    requires
        is_hydrated(currencies, pool, hydrated),
        is_last(currencies, pool.token@, token),
        is_last(currencies, pool.unit@, unit),
    ensures
        hydrated.token_digits == currencies[token].digits,
        hydrated.unit_digits == currencies[unit].digits,
        pool.token@ != "ADA"@ ==> text_in(hydrated.token_asset_id) == text_in(currencies[token].asset_id),
        pool.unit@ != "ADA"@ ==> text_in(hydrated.unit_asset_id) == text_in(currencies[unit].asset_id),
        pool.token@ == "ADA"@ ==> hydrated.token_asset_id is None,
        pool.unit@ == "ADA"@ ==> hydrated.unit_asset_id is None,
        hydrated.pool.token@ == pool.token@,
        hydrated.pool.unit@ == pool.unit@,
{
    lemma_last_currency(currencies, pool.token@, token);
    lemma_last_currency(currencies, pool.unit@, unit);
    assert(currencies[token].name() == currencies[token].name@);
    assert(currencies[unit].name() == currencies[unit].name@);
}

proof fn lemma_last_currency(currencies: Seq<CurrencyConfig>, name: Seq<char>, at: int)
    requires
        is_last(currencies, name, at),
    ensures
        currency_named(currencies, name) == currencies[at],
{
    let chosen = choose|at: int| is_last(currencies, name, at);
    assert(is_last(currencies, name, chosen));
    if chosen < at {
        assert(currencies[at].name() != name);
    } else if at < chosen {
        assert(currencies[chosen].name() != name);
    }
}

/// A configuration that is accepted has its durations in nanoseconds, a million for each millisecond that it was written
/// with; the port by its former name, where that is given; and all peers but the node itself, which goes by its public key.
pub proof fn law_accepted_configurations_say_the_same(
    raw: RawOracleConfig,
    private_key: PrivateKey,
    outcome: Result<OracleConfig, ConfigError>,
)
    requires
        call_ensures(OracleConfig::try_from, (raw, private_key), outcome),
    ensures
        outcome is Ok <==> config_error(raw) is None,
        outcome matches Ok(config) ==> {
            &&& hex_bytes(config.id@) == public_key_of(private_key@)
            &&& config.heartbeat == raw.heartbeat_ms * 1_000_000
            &&& config.timeout == raw.timeout_ms * 1_000_000
            &&& config.round_duration == raw.round_duration_ms * 1_000_000
            &&& config.max_source_price_age == raw.max_source_price_age_ms * 1_000_000
            &&& config.network.timeout == raw.network_timeout_ms * 1_000_000
            &&& raw.port is Some ==> config.network.port == raw.port->0
            &&& raw.port is None ==> config.network.port == raw.network_port
            &&& config.network.peers@.len() == raw.peers@.filter(
                |peer: RawPeerConfig| id_in(peer) != config.id@,
            ).len()
            &&& forall|i: int| 0 <= i < config.network.peers@.len() ==> (#[trigger] config.network.peers@[i]).id@ != config.id@
            &&& config.price_precision == raw.price_precision
            &&& config.max_price_divergence == raw.max_price_divergence
            &&& config.gema_periods == raw.gema_periods
            &&& config.synthetics == raw.synthetics
            &&& config.currencies == raw.currencies
        },
{
    if let Ok(config) = outcome {
        let id = config.id@;
        law_hex_round_trip(public_key_of(private_key@));
        law_a_node_is_no_peer_of_itself(raw.peers@, id);
        let own = |peer: RawPeerConfig| id_in(peer) != id;
        assert forall|i: int| 0 <= i < config.network.peers@.len() implies (#[trigger] config.network.peers@[i]).id@
            != id by {
            assert(is_peer(others(raw.peers@, id)[i], config.network.peers@[i]));
            lemma_filtered(raw.peers@, own, i);
        }
    }
}

proof fn lemma_filtered<A>(values: Seq<A>, wanted: spec_fn(A) -> bool, i: int)
    requires
        0 <= i < values.filter(wanted).len(),
    ensures
        wanted(values.filter(wanted)[i]),
    decreases values.len(),
{
    reveal(Seq::filter);
    if values.len() > 0 {
        let front = values.drop_last();
        if i < front.filter(wanted).len() {
            lemma_filtered(front, wanted, i);
        }
    }
}

/// Every pool is made ready, in its place, with the digits of the last currency of each of its own two names.
pub proof fn law_every_pool_has_its_digits(
    config: &OracleConfig,
    pools: &Vec<Pool>,
    ready: Vec<HydratedPool>,
    at: int,
    token: int,
    unit: int,
)
    requires
        call_ensures(OracleConfig::hydrate_pools, (config, pools), ready),
        0 <= at < pools@.len(),
        is_last(config.currencies@, pools@[at].token@, token),
        is_last(config.currencies@, pools@[at].unit@, unit),
    ensures
        ready@.len() == pools@.len(),
        ready@[at].pool.token@ == pools@[at].token@,
        ready@[at].pool.unit@ == pools@[at].unit@,
        ready@[at].pool.asset_id@ == pools@[at].asset_id@,
        ready@[at].token_digits == config.currencies@[token].digits,
        ready@[at].unit_digits == config.currencies@[unit].digits,
{
    assert(is_hydrated(config.currencies@, pools@[at], ready@[at]));
    law_pools_have_the_digits_of_their_tokens(config.currencies@, pools@[at], ready@[at], token, unit);
}

} // verus!
