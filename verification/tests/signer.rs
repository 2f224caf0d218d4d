use std::collections::VecDeque;

use oracles::frost::{deal_keys, GroupKey, SigningKey};
use oracles::network::{NodeId, TestNetwork};
use oracles::numbers::{Natural, Rational};
use oracles::price_feed::{
    GenericPriceFeed, PriceData, SignedEntries, SyntheticPriceData, SyntheticPriceFeed, Validity,
};
use oracles::raft::RaftLeader;
use oracles::signature_aggregator::messages::{SignerMessage, SignerMessageData};
use oracles::signature_aggregator::signer::{Signer, SignerEvent, SignerOutput};

const NOW: u128 = 1_700_000_000_000_000_000;

type Payloads = VecDeque<(NodeId, SignedEntries)>;

type Network = TestNetwork<SignerMessage>;

struct SignerOrchestrator {
    id: NodeId,
    signer: Signer,
    prices: PriceData,
}

impl SignerOrchestrator {
    fn process(&mut self, event: SignerEvent, network: &mut Network, payloads: &mut Payloads) -> SignerOutput {
        let mut output = self.signer.process(event, &self.prices, NOW);
        for message in output.messages.drain(..) {
            network.send(&self.id, message);
        }
        payloads.extend(output.published.drain(..));
        output
    }

    fn process_incoming_messages(&mut self, network: &mut Network, payloads: &mut Payloads) {
        while let Some(message) = network.try_recv(&self.id) {
            self.process(SignerEvent::Message(message.from, message.data), network, payloads);
        }
    }
}

fn construct_signers(min: u16, prices: Vec<PriceData>) -> (Vec<SignerOrchestrator>, Network, Payloads) {
    let dealt = deal_keys(prices.len() as u16, min).unwrap();
    let mut network = Network::new();
    let signers = dealt
        .keys
        .into_iter()
        .zip(prices)
        .map(|(key, prices)| {
            let id = network.connect();
            let key = SigningKey::parse(key).unwrap();
            let public_key = GroupKey::parse(dealt.public_key.clone()).unwrap();
            SignerOrchestrator { id: id.clone(), signer: Signer::new(id, key, public_key), prices }
        })
        .collect();
    (signers, network, Payloads::new())
}

// make the first signer the leader, and other signers followers.
// return the leader's id
fn assign_roles(signers: &mut [SignerOrchestrator], network: &mut Network, payloads: &mut Payloads) -> NodeId {
    let leader_id = signers[0].id.clone();
    signers[0].process(SignerEvent::LeaderChanged(RaftLeader::Myself), network, payloads);
    for signer in signers.iter_mut().skip(1) {
        signer.process(SignerEvent::LeaderChanged(RaftLeader::Other(leader_id.clone())), network, payloads);
    }
    leader_id
}

fn run_round(signers: &mut [SignerOrchestrator], network: &mut Network, payloads: &mut Payloads) {
    signers[0].process(SignerEvent::RoundStarted("round".to_string()), network, payloads);
    while network.drain() {
        for signer in signers.iter_mut() {
            signer.process_incoming_messages(network, payloads);
        }
    }
    signers[0].process(SignerEvent::RoundGracePeriodEnded("round".to_string()), network, payloads);
    while network.drain() {
        for signer in signers.iter_mut() {
            signer.process_incoming_messages(network, payloads);
        }
    }
}

fn assert_round_complete(payloads: &mut Payloads) -> SignedEntries {
    payloads.pop_front().unwrap().1
}

fn synthetic_data(
    synthetic: &str,
    price: f64,
    collateral_names: &[&str],
    collateral_prices: &[u64],
    denominator: u64,
) -> SyntheticPriceData {
    SyntheticPriceData {
        price: Rational::from_i128((price * 100.0).round() as i128, 100),
        feed: SyntheticPriceFeed {
            collateral_names: Some(collateral_names.iter().map(|&s| s.to_string()).collect()),
            collateral_prices: collateral_prices.iter().map(|&p| Natural::from_u64(p)).collect(),
            synthetic: synthetic.to_string(),
            denominator: Natural::from_u64(denominator),
            validity: Validity::default(),
        },
    }
}

fn generic_feed(name: &str, price: u64) -> GenericPriceFeed {
    GenericPriceFeed { price: Natural::from_u64(price), name: name.to_string(), timestamp: 1337 }
}

#[test]
fn should_sign_payload_with_quorum_of_two() {
    let price_data = PriceData {
        synthetics: vec![
            synthetic_data("ADA", 3.50, &["A", "B"], &[3, 4], 1),
            synthetic_data("BTN", 1.21, &["A", "B"], &[5, 8], 1),
        ],
        generics: vec![generic_feed("ADA/USD#RAW", 6500000)],
    };

    let prices = vec![price_data.clone(), price_data.clone(), price_data];
    let (mut signers, mut network, mut payload_source) = construct_signers(2, prices);

    // set everyone's roles
    let leader_id = assign_roles(&mut signers, &mut network, &mut payload_source);

    // Start the round
    signers[0].process(SignerEvent::RoundStarted("round".to_string()), &mut network, &mut payload_source)
        ;

    // Leader should have broadcast a request to all followers
    let message = network.drain_one(&signers[0].id).remove(0);
    assert_eq!(message.to, None);

    // Make a single follower commit
    signers[1].process_incoming_messages(&mut network, &mut payload_source);

    // Follower should have sent a commitment to the leader
    let message = network.drain_one(&signers[1].id).remove(0);
    assert_eq!(message.to, Some(leader_id.clone()));

    // Send that commitment to the leader
    signers[0].process_incoming_messages(&mut network, &mut payload_source);

    // Leader should have sent a signing request to that follower
    let message = network.drain_one(&signers[0].id).remove(0);
    assert_eq!(message.to, Some(signers[1].id.clone()));

    // Send that request to the follower
    signers[1].process_incoming_messages(&mut network, &mut payload_source);

    // Follower should have sent a signature to the leader
    let message = network.drain_one(&signers[1].id).remove(0);
    assert_eq!(message.to, Some(leader_id.clone()));

    // Send that signature to the leader
    signers[0].process_incoming_messages(&mut network, &mut payload_source);

    // leader should have published results
    let signed_entries = assert_round_complete(&mut payload_source);
    assert_eq!(signed_entries.synthetics.len(), 2);
    assert_eq!(signed_entries.generics.len(), 1);
}

#[test]
fn should_sign_payload_with_quorum_of_three() {
    let price_data = PriceData {
        synthetics: vec![
            synthetic_data("ADA", 3.50, &["A", "B"], &[3, 4], 1),
            synthetic_data("BTN", 1.21, &["A", "B"], &[5, 8], 1),
        ],
        generics: vec![
            generic_feed("ADA/USD#RAW", 6500000),
            generic_feed("ADA/USD#GEMA", 6600000),
        ],
    };

    let (mut signers, mut network, mut payload_source) =
        construct_signers(3, vec![price_data.clone(), price_data.clone(), price_data.clone(), price_data]);
    assign_roles(&mut signers, &mut network, &mut payload_source);
    run_round(&mut signers, &mut network, &mut payload_source);

    let signed_entries = assert_round_complete(&mut payload_source);
    assert_eq!(signed_entries.synthetics.len(), 2);
}

#[test]
fn signer_should_sign_close_enough_collateral_prices() {
    let leader_prices = PriceData {
        synthetics: vec![synthetic_data("SYNTH", 3.50, &["A"], &[2], 1)],
        generics: vec![],
    };
    let follower_prices = PriceData {
        synthetics: vec![synthetic_data("SYNTH", 3.50, &["A"], &[199], 100)],
        generics: vec![],
    };

    let (mut signers, mut network, mut payload_source) =
        construct_signers(2, vec![leader_prices, follower_prices]);
    assign_roles(&mut signers, &mut network, &mut payload_source);
    run_round(&mut signers, &mut network, &mut payload_source);

    let signed_entries = assert_round_complete(&mut payload_source);
    assert_eq!(signed_entries.synthetics.len(), 1);
}

#[test]
fn signer_should_not_sign_distant_collateral_prices() {
    let leader_prices = PriceData {
        synthetics: vec![synthetic_data("SYNTH", 3.50, &["A"], &[2], 1)],
        generics: vec![],
    };
    let follower_prices = PriceData {
        synthetics: vec![synthetic_data("SYNTH", 3.50, &["A"], &[3], 2)],
        generics: vec![],
    };

    let (mut signers, mut network, mut payload_source) =
        construct_signers(2, vec![leader_prices, follower_prices]);
    assign_roles(&mut signers, &mut network, &mut payload_source);
    run_round(&mut signers, &mut network, &mut payload_source);

    let signed_entries = assert_round_complete(&mut payload_source);
    assert_eq!(signed_entries.synthetics.len(), 0);
}

#[test]
fn signer_should_sign_close_enough_generic_prices() {
    let leader_prices = PriceData {
        synthetics: vec![],
        generics: vec![generic_feed("ADA/USD#RAW", 3500000)],
    };
    let follower_prices = PriceData {
        synthetics: vec![],
        generics: vec![generic_feed("ADA/USD#RAW", 3490000)],
    };

    let (mut signers, mut network, mut payload_source) =
        construct_signers(2, vec![leader_prices, follower_prices]);
    assign_roles(&mut signers, &mut network, &mut payload_source);
    run_round(&mut signers, &mut network, &mut payload_source);

    let signed_entries = assert_round_complete(&mut payload_source);
    assert_eq!(signed_entries.generics.len(), 1);
}

#[test]
fn signer_should_not_sign_distant_generic_prices() {
    let leader_prices = PriceData {
        synthetics: vec![],
        generics: vec![generic_feed("ADA/USD#RAW", 3500000)],
    };
    let follower_prices = PriceData {
        synthetics: vec![],
        generics: vec![generic_feed("ADA/USD#RAW", 7000000)],
    };

    let (mut signers, mut network, mut payload_source) =
        construct_signers(2, vec![leader_prices, follower_prices]);
    assign_roles(&mut signers, &mut network, &mut payload_source);
    run_round(&mut signers, &mut network, &mut payload_source);

    let signed_entries = assert_round_complete(&mut payload_source);
    assert_eq!(signed_entries.generics.len(), 0);
}

#[test]
fn should_sign_some_collateral_prices_but_not_others() {
    let leader_prices = PriceData {
        synthetics: vec![
            synthetic_data("GOOD", 3.50, &["A"], &[2], 1),
            synthetic_data("BAD", 3.50, &["A"], &[2], 1),
        ],
        generics: vec![],
    };
    let follower_prices = PriceData {
        synthetics: vec![
            synthetic_data("GOOD", 3.50, &["A"], &[2], 1),
            synthetic_data("BAD", 3.50, &["A"], &[3], 2),
        ],
        generics: vec![],
    };

    let (mut signers, mut network, mut payload_source) =
        construct_signers(2, vec![leader_prices, follower_prices]);
    assign_roles(&mut signers, &mut network, &mut payload_source);
    run_round(&mut signers, &mut network, &mut payload_source);

    let signed_entries = assert_round_complete(&mut payload_source);
    assert_eq!(signed_entries.synthetics.len(), 1);
    assert_eq!(signed_entries.synthetics[0].feed.data.synthetic, "GOOD");
}

#[test]
fn should_keep_collecting_commitments_if_not_all_synthetics_are_covered() {
    let leader_prices = PriceData {
        synthetics: vec![
            synthetic_data("ALL_MATCH", 3.50, &["A"], &[2], 1),
            synthetic_data("SOME_MATCH", 3.50, &["A"], &[2], 1),
        ],
        generics: vec![],
    };
    let partially_matching_prices = PriceData {
        synthetics: vec![
            synthetic_data("ALL_MATCH", 3.50, &["A"], &[2], 1),
            synthetic_data("SOME_MATCH", 3.50, &["A"], &[3], 2),
        ],
        generics: vec![],
    };

    // Follower #1 has some, but not all, values in common with the leader.
    // Follower #2 has all values in common with the leader.
    // The network is deterministic in these tests; follower #1 will commit before it.
    let (mut signers, mut network, mut payload_source) = construct_signers(
        2,
        vec![
            leader_prices.clone(),
            partially_matching_prices,
            leader_prices,
        ],
    );
    assign_roles(&mut signers, &mut network, &mut payload_source);
    run_round(&mut signers, &mut network, &mut payload_source);

    let signed_entries = assert_round_complete(&mut payload_source);
    assert_eq!(signed_entries.synthetics.len(), 2);
}

#[test]
fn should_stop_collecting_commitments_if_node_is_disconnected() {
    let leader_prices = PriceData {
        synthetics: vec![
            synthetic_data("ALL_MATCH", 3.50, &["A"], &[2], 1),
            synthetic_data("SOME_MATCH", 3.50, &["A"], &[2], 1),
        ],
        generics: vec![],
    };
    let partially_matching_prices = PriceData {
        synthetics: vec![
            synthetic_data("ALL_MATCH", 3.50, &["A"], &[2], 1),
            synthetic_data("SOME_MATCH", 3.50, &["A"], &[3], 2),
        ],
        generics: vec![],
    };

    // Follower #1 has some, but not all, values in common with the leader.
    // Follower #2 is disconnected.
    let (mut signers, mut network, mut payload_source) = construct_signers(
        2,
        vec![
            leader_prices.clone(),
            partially_matching_prices,
            leader_prices,
        ],
    );
    network.disconnect(&signers[2].id);

    assign_roles(&mut signers, &mut network, &mut payload_source);
    run_round(&mut signers, &mut network, &mut payload_source);

    let signed_entries = assert_round_complete(&mut payload_source);
    assert_eq!(signed_entries.synthetics.len(), 1);
}

#[test]
fn should_collect_different_signatures_from_different_nodes() {
    let leader_prices = PriceData {
        synthetics: vec![
            synthetic_data("FIRST", 3.50, &["A"], &[2], 1),
            synthetic_data("SECOND", 3.50, &["A"], &[2], 1),
        ],
        generics: vec![],
    };
    let follower1_prices = PriceData {
        synthetics: vec![
            synthetic_data("FIRST", 3.50, &["A"], &[2], 1),
            synthetic_data("SECOND", 3.50, &["A"], &[3], 2),
        ],
        generics: vec![],
    };
    let follower2_prices = PriceData {
        synthetics: vec![
            synthetic_data("FIRST", 3.50, &["A"], &[3], 2),
            synthetic_data("SECOND", 3.50, &["A"], &[2], 1),
        ],
        generics: vec![],
    };

    // Follower #1 agrees with the leader on one price, follower #2 on another.
    // We can only sign two payloads if we wait for both of them to finish.
    let (mut signers, mut network, mut payload_source) =
        construct_signers(2, vec![leader_prices, follower1_prices, follower2_prices]);

    assign_roles(&mut signers, &mut network, &mut payload_source);
    run_round(&mut signers, &mut network, &mut payload_source);

    let signed_entries = assert_round_complete(&mut payload_source);
    assert_eq!(signed_entries.synthetics.len(), 2);
}

#[test]
fn should_end_round_early_when_new_round_begins() {
    let leader_prices = PriceData {
        synthetics: vec![
            synthetic_data("FIRST", 3.50, &["A"], &[2], 1),
            synthetic_data("SECOND", 3.50, &["A"], &[2], 1),
        ],
        generics: vec![],
    };
    let follower_prices = leader_prices.clone();
    let (mut signers, mut network, mut payload_source) =
        construct_signers(2, vec![leader_prices, follower_prices]);

    assign_roles(&mut signers, &mut network, &mut payload_source);

    signers[0].process(SignerEvent::RoundStarted("round1".to_string()), &mut network, &mut payload_source)
        ;

    signers[0].process(SignerEvent::RoundStarted("round2".to_string()), &mut network, &mut payload_source)
        ;

    let signed_entries = assert_round_complete(&mut payload_source);
    assert_eq!(signed_entries.synthetics.len(), 0);
    assert_eq!(signed_entries.generics.len(), 0);
}

fn two_prices() -> PriceData {
    PriceData {
        synthetics: vec![synthetic_data("SYNTH", 3.50, &["A"], &[2], 1)],
        generics: vec![generic_feed("ADA/USD#RAW", 3500000)],
    }
}

#[test]
fn everyone_publishes_what_was_signed() {
    let (mut signers, mut network, mut payloads) = construct_signers(2, vec![two_prices(), two_prices()]);
    let leader_id = assign_roles(&mut signers, &mut network, &mut payloads);
    run_round(&mut signers, &mut network, &mut payloads);
    let (publisher, entries) = payloads.pop_front().unwrap();
    let (follower_publisher, follower_entries) = payloads.pop_front().unwrap();
    assert_eq!(publisher, leader_id);
    assert_eq!(follower_publisher, leader_id);
    assert_eq!(entries.timestamp, NOW);
    assert_eq!(entries.synthetics[0].feed.signature, follower_entries.synthetics[0].feed.signature);
    assert_eq!(entries.synthetics[0].feed.signature.len(), 64);
    assert_eq!(entries.generics[0].feed.data.name, "ADA/USD#RAW");
    assert!(payloads.is_empty());
}

#[test]
fn synthetics_of_earlier_rounds_are_published_again() {
    let (mut signers, mut network, mut payloads) = construct_signers(2, vec![two_prices(), two_prices()]);
    assign_roles(&mut signers, &mut network, &mut payloads);
    run_round(&mut signers, &mut network, &mut payloads);
    payloads.clear();
    signers[1].prices = PriceData { synthetics: vec![], generics: vec![] };
    run_round(&mut signers, &mut network, &mut payloads);
    let entries = assert_round_complete(&mut payloads);
    assert_eq!(entries.synthetics.len(), 1);
    assert_eq!(entries.generics.len(), 0);
}

#[test]
fn payloads_with_wrong_signatures_are_refused() {
    let (mut signers, mut network, mut payloads) = construct_signers(2, vec![two_prices(), two_prices()]);
    let leader_id = assign_roles(&mut signers, &mut network, &mut payloads);
    run_round(&mut signers, &mut network, &mut payloads);
    let (_, mut entries) = payloads.pop_front().unwrap();
    payloads.clear();
    entries.synthetics[0].feed.signature[0] ^= 1;
    let message = SignerMessage { round: "round".to_string(), data: SignerMessageData::Publish(entries) };
    let output = signers[1].process(SignerEvent::Message(leader_id, message), &mut network, &mut payloads);
    assert!(output.error.is_some());
    assert!(payloads.is_empty());
}

#[test]
fn signers_without_a_role_do_nothing() {
    let (mut signers, mut network, mut payloads) = construct_signers(2, vec![two_prices(), two_prices()]);
    let output = signers[0].process(SignerEvent::RoundGracePeriodEnded("round".to_string()), &mut network, &mut payloads);
    assert!(output.error.is_none());
    assert!(!network.drain());
    assert!(payloads.is_empty());
}
