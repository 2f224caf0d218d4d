use ed25519_dalek::pkcs8::spki::der::pem::LineEnding;
use ed25519_dalek::pkcs8::{EncodePrivateKey, KeypairBytes, PublicKeyBytes};
use ed25519_dalek::{Signature, Verifier, VerifyingKey};
use frost_ed25519::keys::PublicKeyPackage;
use frost_ed25519::round1::SigningNonces;
use oracles::frost::{deal_keys, FirstSecret, GenerationError, GroupKey, SigningKey};
use oracles::frost::demonstration::{frost_poc, sign_together, MAX_SIGNERS, MIN_SIGNERS};
use oracles::keys::{compute_node_id, frost_address, parse_public_key, KeyError, PrivateKey, KEY_LENGTH, SIGNATURE_LENGTH};
use oracles::numbers::{Natural, Rational};
use oracles::price_feed::{GenericPriceFeed, PriceData, SyntheticPriceData, SyntheticPriceFeed, Validity};
use oracles::price_feed::codec::serialize;
use oracles::network::NodeId;
use oracles::raft::RaftLeader;
use oracles::signature_aggregator::single_aggregator::{decode_key, SingleKeyError, SingleSignatureAggregator};

const SECRET: &str = "9d61b19deffd5a60ba844af492ec2cc44449c5697b326919703bac031cae7f60";
const PUBLIC: &str = "d75a980182b10ab7d54bfed3c964073a0ee172f3daa62325af021a68f707511a";

// A private key as it stands in a file, with or without the public key that belongs to it.
fn private_pem(public_key: Option<PublicKeyBytes>) -> String {
    let key = KeypairBytes { secret_key: hex(SECRET).try_into().unwrap(), public_key };
    key.to_pkcs8_pem(LineEnding::LF).unwrap().to_string()
}

fn public_pem(body: &str) -> String {
    format!("-----BEGIN PUBLIC KEY-----\n{body}\n-----END PUBLIC KEY-----\n")
}

fn hex(text: &str) -> Vec<u8> {
    hex::decode(text).unwrap()
}

fn private_key() -> PrivateKey {
    PrivateKey::from_bytes(hex(SECRET)).unwrap()
}

#[test]
fn private_keys_have_a_length() {
    assert!(PrivateKey::from_bytes(vec![0; KEY_LENGTH]).is_some());
    assert!(PrivateKey::from_bytes(vec![0; KEY_LENGTH - 1]).is_none());
    assert!(PrivateKey::from_bytes(vec![0; KEY_LENGTH + 1]).is_none());
}

#[test]
fn private_keys_are_read_from_pem() {
    assert_eq!(PrivateKey::from_pem(&private_pem(None)).unwrap().public_key(), hex(PUBLIC));
    let public_key = PublicKeyBytes(hex(PUBLIC).try_into().unwrap());
    assert_eq!(PrivateKey::from_pem(&private_pem(Some(public_key))).unwrap().public_key(), hex(PUBLIC));
    assert!(PrivateKey::from_pem("no key").is_none());
}

#[test]
fn public_keys_belong_to_private_keys() {
    assert_eq!(private_key().public_key(), hex(PUBLIC));
}

#[test]
fn messages_are_signed() {
    let signature = private_key().sign(&[]);
    assert_eq!(signature.len(), SIGNATURE_LENGTH);
    assert_eq!(
        signature,
        hex("e5564300c360ac729086e2cc806e828a84877f1eb8e5d974d873e065224901555fb8821590a33bacc61e39701cf9b46bd25bf5f0595bbe24655141438e7a100b")
    );
}

#[test]
fn public_keys_are_read_from_pem() {
    let text = public_pem("MCowBQYDK2VwAyEA11qYAYKxCrfVS/7TyWQHOg7hcvPapiMlrwIaaPcHURo=");
    assert_eq!(parse_public_key(&text).unwrap(), hex(PUBLIC));
}

#[test]
fn bad_public_keys_are_refused() {
    assert_eq!(parse_public_key("no key"), Err(KeyError::Pem));
    assert_eq!(parse_public_key(&private_pem(None)), Err(KeyError::Pem));
    let off_the_curve = public_pem("MCowBQYDK2VwAyEAAgAAAAAAAAAAAAAAAAAAAAAAAAAAAAAAAAAAAAAAAAA=");
    assert_eq!(parse_public_key(&off_the_curve), Err(KeyError::Point));
}

#[test]
fn nodes_go_by_their_public_keys() {
    assert_eq!(compute_node_id(&hex(PUBLIC)), NodeId::new(PUBLIC.to_string()));
}

#[test]
fn group_keys_have_addresses() {
    assert_eq!(frost_address(&hex(PUBLIC)).unwrap(), "addr1xh0d62vz5q7088naecpuswvefl77ctkxkp83euk5pes6x");
}

#[test]
fn dealt_keys_are_one_for_each_signer() {
    let dealt = deal_keys(3, 2).unwrap();
    assert_eq!(dealt.keys.len(), 3);
    assert!(dealt.keys[0] != dealt.keys[1] && dealt.keys[1] != dealt.keys[2]);
    assert_eq!(deal_keys(2, 3).err(), Some(GenerationError::MinSigners));
    assert_eq!(deal_keys(3, 1).err(), Some(GenerationError::MinSigners));
    assert_eq!(deal_keys(1, 2).err(), Some(GenerationError::MaxSigners));
}

#[test]
fn dealt_keys_have_different_identifiers() {
    let dealt = deal_keys(3, 2).unwrap();
    let mut identifiers: Vec<Vec<u8>> =
        dealt.keys.into_iter().map(|key| SigningKey::parse(key).unwrap().identifier()).collect();
    identifiers.sort();
    identifiers.dedup();
    assert_eq!(identifiers.len(), 3);
}

#[test]
fn dealt_keys_belong_to_one_group() {
    let dealt = deal_keys(3, 2).unwrap();
    let group = GroupKey::parse(dealt.public_key).unwrap();
    for key in dealt.keys {
        assert_eq!(SigningKey::parse(key).unwrap().group(), group.group());
    }
    let other = GroupKey::parse(deal_keys(3, 2).unwrap().public_key).unwrap();
    assert_ne!(other.group(), group.group());
}

#[test]
fn packages_go_with_their_secrets() {
    let dealt = deal_keys(3, 2).unwrap();
    let identifier = SigningKey::parse(dealt.keys[0].clone()).unwrap().identifier();
    let (secret, package) = FirstSecret::draw(&identifier, 3, 2).unwrap();
    let (_, other) = FirstSecret::draw(&identifier, 3, 2).unwrap();
    assert!(secret.matches_package(&package));
    assert!(!secret.matches_package(&other));
    assert!(!secret.matches_package(&vec![]));
}

#[test]
fn first_secrets_are_drawn_for_a_participant() {
    let dealt = deal_keys(3, 2).unwrap();
    let identifier = SigningKey::parse(dealt.keys[0].clone()).unwrap().identifier();
    assert!(FirstSecret::draw(&identifier, 3, 2).is_ok());
    assert_eq!(FirstSecret::draw(&identifier, 2, 3).err(), Some(GenerationError::MinSigners));
    assert_eq!(FirstSecret::draw(&identifier, 3, 1).err(), Some(GenerationError::MinSigners));
    assert_eq!(FirstSecret::draw(&identifier, 1, 2).err(), Some(GenerationError::MaxSigners));
    assert_eq!(FirstSecret::draw(&vec![0; 32], 3, 2).err(), Some(GenerationError::Identifier));
    assert_eq!(FirstSecret::draw(&vec![], 2, 3).err(), Some(GenerationError::Identifier));
}

#[test]
fn single_keys_are_read_from_bech32() {
    let key = decode_key("ed25519_sk1n4smr800l4dxpw5yft6f9mpvc3zyn3tf0vexjxts8wkqx89w0asq6u85wh");
    assert_eq!(key, Ok(hex(SECRET)));
}

#[test]
fn bad_single_keys_are_refused() {
    assert_eq!(decode_key("no key"), Err(SingleKeyError::Bech32));
    assert_eq!(
        decode_key("ed25519_pk1n4smr800l4dxpw5yft6f9mpvc3zyn3tf0vexjxts8wkqx89w0asqe3vkm2"),
        Err(SingleKeyError::Prefix)
    );
    assert_eq!(
        decode_key("ed25519_sk1n4smr800l4dxpw5yft6f9mpvc3zyn3tf0vexjxts8wkqx89w0ufwsnrq"),
        Err(SingleKeyError::Length)
    );
}

fn prices() -> PriceData {
    PriceData {
        synthetics: vec![SyntheticPriceData {
            price: Rational::from_u64(3),
            feed: SyntheticPriceFeed {
                collateral_names: Some(vec!["ADA".to_string()]),
                collateral_prices: vec![Natural::from_u64(7)],
                synthetic: "USDb".to_string(),
                denominator: Natural::from_u64(2),
                validity: Validity::default(),
            },
        }],
        generics: vec![GenericPriceFeed { price: Natural::from_u64(5), name: "ADA/USD#RAW".to_string(), timestamp: 11 }],
    }
}

#[test]
fn single_signers_sign_for_themselves() {
    let prices = prices();
    let aggregator = SingleSignatureAggregator::new(hex(SECRET));
    let entries = aggregator.sign_prices(&RaftLeader::Myself, &prices, 99).unwrap();
    assert_eq!(entries.timestamp, 99);
    assert_eq!(entries.synthetics.len(), 1);
    assert_eq!(entries.synthetics[0].price, Rational::from_u64(3));
    assert_eq!(entries.synthetics[0].timestamp, Some(99));
    assert_eq!(entries.generics[0].timestamp, 99);

    let key = VerifyingKey::from_bytes(hex(PUBLIC).as_slice().try_into().unwrap()).unwrap();
    let signature = Signature::from_slice(&entries.synthetics[0].feed.signature).unwrap();
    assert!(key.verify(&serialize(&prices.synthetics[0].feed), &signature).is_ok());
    let signature = Signature::from_slice(&entries.generics[0].feed.signature).unwrap();
    assert!(key.verify(&serialize(&prices.generics[0]), &signature).is_ok());
}

#[test]
fn single_signers_follow_nobody() {
    let aggregator = SingleSignatureAggregator::new(hex(SECRET));
    assert!(aggregator.sign_prices(&RaftLeader::Unknown, &prices(), 99).is_none());
    let other = RaftLeader::Other(NodeId::new("b".to_string()));
    assert!(aggregator.sign_prices(&other, &prices(), 99).is_none());
}

#[test]
fn groups_sign_greetings() {
    let shown = frost_poc().unwrap();
    assert_eq!(shown.dealt.keys.len(), MAX_SIGNERS as usize);
    assert_eq!(shown.drawn.len(), MIN_SIGNERS as usize);
    assert_eq!(shown.signed.commitments.len(), MIN_SIGNERS as usize);
    assert_eq!(shown.signed.shares.len(), MIN_SIGNERS as usize);
    for (nonces, commitments) in &shown.drawn {
        let nonces = SigningNonces::deserialize(nonces).unwrap();
        assert_eq!(&nonces.commitments().serialize().unwrap(), commitments);
    }
    let public_key = PublicKeyPackage::deserialize(&shown.dealt.public_key).unwrap();
    let signature = frost_ed25519::Signature::deserialize(&shown.signed.signature).unwrap();
    assert!(public_key.verifying_key().verify(b"Hello, world!", &signature).is_ok());
    assert!(public_key.verifying_key().verify(b"Goodbye!", &signature).is_err());

    let again = sign_together(&shown.dealt.keys, &shown.dealt.public_key, &shown.drawn, b"Hello, world!").unwrap();
    assert_eq!(again.signature, shown.signed.signature);
}

#[test]
fn too_few_signers_have_no_signature() {
    let shown = frost_poc().unwrap();
    let mut drawn = shown.drawn;
    drawn.pop();
    assert!(sign_together(&shown.dealt.keys, &shown.dealt.public_key, &drawn, b"Hello, world!").is_none());
    assert!(sign_together(&vec![vec![1]], &shown.dealt.public_key, &vec![drawn[0].clone()], b"").is_none());
}
