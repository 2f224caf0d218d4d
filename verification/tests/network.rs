use oracles::config::{NetworkConfig, Peer, RawPeerConfig};
use oracles::dkg::{DoneMessage, KeygenMessage};
use oracles::health::HealthStatus;
use oracles::keys::{compute_node_id, KeyError, PrivateKey};
use oracles::network::config::NetworkConfig as SortedNetworkConfig;
use oracles::network::connection::{Connection, ConnectionAction, ConnectionEvent};
use oracles::network::delivery::{Backoff, Delivery, IncomingConnections, Refusal};
use oracles::network::handshake::{Core, HandshakeError};
use oracles::network::messages::{ApplicationMessage, ConfirmConnectionMessage, Message, OpenConnectionMessage, Received};
use oracles::network::{Message as AppMessage, Network, NodeId, NodeSet, OutgoingMessage, Routed, TestNetwork};
use oracles::raft::RaftMessage;

fn node(name: &str) -> NodeId {
    NodeId::new(name.to_string())
}

fn names(nodes: &[NodeId]) -> Vec<String> {
    nodes.iter().map(|n| n.as_str().to_string()).collect()
}

fn private_key(seed: u8) -> PrivateKey {
    PrivateKey::from_bytes(vec![seed; 32]).unwrap()
}

fn peer(seed: u8) -> Peer {
    let public_key = private_key(seed).public_key();
    Peer {
        id: compute_node_id(&public_key),
        public_key,
        label: format!("peer {seed}"),
        address: format!("localhost:{seed}"),
    }
}

fn core_of(seed: u8, peers: &[u8]) -> Core {
    let private_key = private_key(seed);
    let id = compute_node_id(&private_key.public_key());
    let config = NetworkConfig { id, private_key, port: 31415, peers: peers.iter().map(|s| peer(*s)).collect(), timeout: 0 };
    Core::new(config, "1.2.3".to_string())
}

// Two seeds, the first of which belongs to the node that opens connections to the other.
fn initiator_and_other() -> (u8, u8) {
    if peer(1).id.should_initiate_connection_to(&peer(2).id) {
        (1, 2)
    } else {
        (2, 1)
    }
}

#[test]
fn exactly_one_side_opens_a_connection() {
    for (a, b) in [("a", "b"), ("a", "ab"), ("B", "a")] {
        assert!(node(a).should_initiate_connection_to(&node(b)));
        assert!(!node(b).should_initiate_connection_to(&node(a)));
    }
    assert!(!node("a").should_initiate_connection_to(&node("a")));
}

#[test]
fn node_ids_are_texts() {
    assert_eq!(node("n\u{e9}").as_bytes(), &[110, 0xc3, 0xa9]);
    assert_eq!(node("x").clone(), node("x"));
    assert_ne!(node("x"), node("y"));
}

#[test]
fn node_sets_are_in_order() {
    let mut set = NodeSet::new();
    for name in ["b", "a", "c", "a"] {
        set.insert(node(name));
    }
    assert_eq!(set.len(), 3);
    assert_eq!(names(&set.ids()), vec!["a", "b", "c"]);
    set.remove(&node("b"));
    assert!(!set.contains(&node("b")));
    assert!(set.contains(&node("c")));
}

#[test]
fn two_nodes_agree_on_a_secret() {
    let (a, b) = initiator_and_other();
    let (initiator, other) = (core_of(a, &[b]), core_of(b, &[a]));
    let (open, ecdh_secret) = initiator.open_connection();
    assert_eq!(open.version(), "1.2.3");
    let accepted = other.handshake_incoming(Received::Message(Message::OpenConnection(open))).ok().unwrap();
    assert_eq!(accepted.peer.label, format!("peer {a}"));
    assert_eq!(accepted.version, "1.2.3");
    let answer = Received::Message(Message::ConfirmConnection(accepted.confirmation));
    let established = initiator.handshake_outgoing(&peer(b), &ecdh_secret, answer).ok().unwrap();
    assert_eq!(established.secret, accepted.secret);
    assert_eq!(established.secret.len(), 32);
    assert_ne!(established.secret, ecdh_secret);
}

#[test]
fn secrets_depend_on_both_ephemeral_keys() {
    let (a, b) = initiator_and_other();
    let (initiator, other) = (core_of(a, &[b]), core_of(b, &[a]));
    let secret = |mine: u8, theirs: u8| {
        let open = initiator.introduce(&[mine; 32]);
        let received = Received::Message(Message::OpenConnection(open));
        other.accept(received, vec![theirs; 32]).ok().unwrap().secret
    };
    assert_eq!(secret(7, 8), secret(7, 8));
    assert_ne!(secret(7, 8), secret(7, 9));
    assert_ne!(secret(7, 8), secret(6, 8));
}

#[test]
fn unknown_nodes_are_refused() {
    let (a, b) = initiator_and_other();
    let rejection = core_of(b, &[]).handshake_incoming(Received::Message(Message::OpenConnection(core_of(a, &[b]).open_connection().0)));
    let rejection = rejection.err().unwrap();
    assert!(rejection.peer.is_none());
    assert_eq!(
        rejection.error.describe_incoming(""),
        format!("error establishing shared secret: Unrecognized peer {}", peer(a).id.as_str())
    );
}

#[test]
fn impostors_are_refused() {
    let (a, b) = initiator_and_other();
    let (open, _) = core_of(a, &[b]).open_connection();
    let mut signature = open.signature().clone();
    signature[0] ^= 1;
    let forged = OpenConnectionMessage::new(
        open.version().clone(),
        open.id_public_key().clone(),
        open.ecdh_public_key().clone(),
        signature,
    );
    let received = Received::Message(Message::OpenConnection(forged.unwrap()));
    let rejection = core_of(b, &[a]).handshake_incoming(received).err().unwrap();
    assert_eq!(rejection.peer, Some(peer(a).id));
    assert!(matches!(rejection.error, HandshakeError::BadSignature));
}

#[test]
fn peers_that_should_wait_are_refused() {
    let (a, b) = initiator_and_other();
    let (open, _) = core_of(b, &[a]).open_connection();
    let rejection = core_of(a, &[b]).handshake_incoming(Received::Message(Message::OpenConnection(open))).err().unwrap();
    assert_eq!(rejection.peer, Some(peer(b).id));
    assert!(matches!(rejection.error, HandshakeError::NotTheInitiator));
}

#[test]
fn messages_that_were_not_due_are_told() {
    let (a, b) = initiator_and_other();
    let ping = || Received::Message(Message::Ping("x".to_string()));
    let rejection = core_of(b, &[a]).handshake_incoming(ping()).err().unwrap();
    assert!(matches!(rejection.error, HandshakeError::Unexpected(Message::Ping(text)) if text == "x"));
    let error = core_of(a, &[b]).handshake_outgoing(&peer(b), &[1; 32], ping()).err().unwrap();
    assert!(matches!(error, HandshakeError::Unexpected(Message::Ping(text)) if text == "x"));
}

#[test]
fn nodes_are_ordered_by_name() {
    assert!(node("a") < node("b"));
    assert!(node("ab") > node("a"));
    assert!(node("a") == node("a"));
    assert!(node("B") < node("a"));
    assert_eq!(node("a").as_str(), "a");
    assert_eq!(node("b").max(node("a")), node("b"));
}

#[test]
fn other_messages_end_the_handshake() {
    let (a, b) = initiator_and_other();
    let describe = |received| core_of(b, &[a]).handshake_incoming(received).err().unwrap().error.describe_incoming("Ping(\"x\")");
    let prefix = "error establishing shared secret: ";
    assert_eq!(
        describe(Received::Message(Message::Disconnect("bye".to_string()))),
        format!("{prefix}other party disconnected immediately: bye")
    );
    assert_eq!(
        describe(Received::Message(Message::Ping("x".to_string()))),
        format!("{prefix}expected OpenConnection, got Ping(\"x\")")
    );
    assert_eq!(describe(Received::Empty), format!("{prefix}expected OpenConnection, got empty message"));
    assert_eq!(
        describe(Received::Unreadable("bad".to_string())),
        format!("{prefix}error waiting for handshake: bad")
    );

    let answer = |received| {
        core_of(a, &[b]).handshake_outgoing(&peer(b), &[1; 32], received).err().unwrap().describe_outgoing("Ping(\"x\")")
    };
    assert_eq!(
        answer(Received::Message(Message::Disconnect("bye".to_string()))),
        format!("{prefix}Other side disconnected: bye")
    );
    assert_eq!(
        answer(Received::Message(Message::Ping("x".to_string()))),
        format!("{prefix}Expected ConfirmConnection, got Ping(\"x\")")
    );
    assert_eq!(answer(Received::Empty), format!("{prefix}Expected ConfirmConnection, got empty message"));
    assert_eq!(
        answer(Received::Unreadable("bad".to_string())),
        format!("{prefix}error waiting for handshake response: bad")
    );
    let confirm = ConfirmConnectionMessage::new("1".to_string(), vec![9; 32], vec![0; 64]).unwrap();
    assert_eq!(
        answer(Received::Message(Message::ConfirmConnection(confirm))),
        format!("{prefix}signature does not match public key")
    );
}

#[test]
fn messages_have_keys_of_the_right_length() {
    let key = private_key(1).public_key();
    let open = |a: usize, b: usize, c: usize| {
        OpenConnectionMessage::new(String::new(), key[..a].to_vec(), vec![0; b], vec![0; c]).is_some()
    };
    assert!(open(32, 32, 64));
    assert!(!open(31, 32, 64));
    assert!(!open(32, 33, 64));
    assert!(!open(32, 32, 63));
    let mut no_point = vec![0; 32];
    no_point[0] = 2;
    assert!(OpenConnectionMessage::new(String::new(), no_point, vec![0; 32], vec![0; 64]).is_none());
    assert!(ConfirmConnectionMessage::new(String::new(), vec![0; 31], vec![0; 64]).is_none());
}

#[test]
fn only_the_right_key_opens_a_message() {
    let message = ApplicationMessage::encrypt_with(b"hello", &[3; 32], vec![4; 24]);
    assert_ne!(message.payload, b"hello");
    assert_eq!(message.decrypt(&[3; 32]), Some(b"hello".to_vec()));
    assert_eq!(message.decrypt(&[5; 32]), None);
    let other_nonce = ApplicationMessage { nonce: vec![5; 24], payload: message.payload.clone() };
    assert_eq!(other_nonce.decrypt(&[3; 32]), None);
    let random = ApplicationMessage::encrypt(b"hello", &[3; 32]);
    assert_ne!(random.nonce, ApplicationMessage::encrypt(b"hello", &[3; 32]).nonce);
    assert_eq!(random.decrypt(&[3; 32]), Some(b"hello".to_vec()));
}

fn open(name: &str) -> Connection {
    Connection::open(node(name), vec![6; 32], "first".to_string()).0
}

fn received(received: Received) -> ConnectionEvent {
    ConnectionEvent::Received { received, shown: "OpenConnection(..)".to_string() }
}

fn pong(id: &str) -> ConnectionEvent {
    received(Received::Message(Message::Pong(id.to_string())))
}

fn time_up(next: &str) -> ConnectionEvent {
    ConnectionEvent::TimeUp { next_ping: next.to_string() }
}

fn closes_with(actions: &[ConnectionAction], reason: &str) -> bool {
    match actions {
        [ConnectionAction::Send(Message::Disconnect(sent)), ConnectionAction::Report(HealthStatus::Unhealthy(reported)), ConnectionAction::Announce(RaftMessage::Disconnect)] => {
            sent == reason && reported == reason
        }
        _ => false,
    }
}

#[test]
fn new_connections_are_announced_and_pinged() {
    let (connection, actions) = Connection::open(node("b"), vec![6; 32], "first".to_string());
    assert_eq!(connection.peer(), &node("b"));
    assert!(!connection.is_closed());
    assert!(matches!(actions[0], ConnectionAction::Announce(RaftMessage::Connect)));
    assert!(matches!(actions[1], ConnectionAction::Report(HealthStatus::Healthy)));
    assert!(matches!(&actions[2], ConnectionAction::Send(Message::Ping(id)) if id == "first"));
    assert!(matches!(actions[3], ConnectionAction::RestartTimer));
    assert_eq!(actions.len(), 4);
}

#[test]
fn messages_arrive_at_the_other_end() {
    let (mut a, mut b) = (open("b"), open("a"));
    let mut actions = a.handle(ConnectionEvent::Outgoing(b"vote for me".to_vec()));
    let ConnectionAction::Send(message) = actions.remove(0) else {
        panic!("nothing was sent");
    };
    let delivered = b.handle(received(Received::Message(message)));
    assert!(matches!(&delivered[..], [ConnectionAction::Deliver(bytes)] if bytes == b"vote for me"));
}

#[test]
fn messages_with_another_secret_end_the_connection() {
    let mut connection = open("b");
    let message = ApplicationMessage::encrypt(b"hello", &[7; 32]);
    let actions = connection.handle(received(Received::Message(Message::Application(message))));
    assert!(closes_with(&actions, "Failed to decrypt incoming message: could not decipher message"));
    assert!(connection.is_closed());
    assert!(connection.handle(ConnectionEvent::Outgoing(vec![1])).is_empty());
}

#[test]
fn pings_are_answered() {
    let mut connection = open("b");
    let actions = connection.handle(received(Received::Message(Message::Ping("theirs".to_string()))));
    assert!(matches!(&actions[..], [ConnectionAction::Send(Message::Pong(id))] if id == "theirs"));
}

#[test]
fn answered_pings_keep_the_connection() {
    let mut connection = open("b");
    assert!(matches!(connection.handle(pong("first"))[..], [ConnectionAction::RestartTimer]));
    let actions = connection.handle(time_up("second"));
    assert!(matches!(
        &actions[..],
        [ConnectionAction::Send(Message::Ping(id)), ConnectionAction::RestartTimer] if id == "second"
    ));
    assert!(closes_with(&connection.handle(pong("first")), "received mismatched pong: first != second"));
}

#[test]
fn early_answers_count_for_the_next_ping() {
    let mut connection = open("b");
    connection.handle(pong("first"));
    assert!(connection.handle(pong("second")).is_empty());
    assert_eq!(connection.handle(time_up("second")).len(), 3);
    assert!(!connection.is_closed());
    assert!(connection.handle(pong("third")).is_empty());
    let actions = connection.handle(time_up("fourth"));
    assert!(closes_with(&actions[2..], "received mismatched pong: third != fourth"));
}

#[test]
fn connections_end_for_many_reasons() {
    let reasons = [
        (time_up("second"), "could not receive ping response: deadline has elapsed"),
        (ConnectionEvent::OutgoingClosed, "Connection was closed"),
        (ConnectionEvent::NotSent("pipe".to_string()), "Failed to send ping: pipe"),
        (ConnectionEvent::NotDelivered("full".to_string()), "Failed to process incoming message: full"),
        (
            ConnectionEvent::NotUnderstood("cbor".to_string()),
            "Failed to decrypt incoming message: could not deserialize message: cbor",
        ),
        (
            received(Received::Message(Message::Disconnect("bye".to_string()))),
            "Peer has disconnected from us: bye",
        ),
        (received(Received::Unreadable("eof".to_string())), "Error reading from stream: eof"),
        (
            received(Received::Message(Message::OpenConnection(core_of(1, &[]).open_connection().0))),
            "Expected Application message, got: OpenConnection(..)",
        ),
    ];
    for (event, reason) in reasons {
        assert!(closes_with(&open("b").handle(event), reason), "{}", reason);
    }
    assert!(open("b").handle(received(Received::Empty)).is_empty());
}

#[test]
fn peers_are_split_by_who_opens_connections() {
    let all: Vec<u8> = vec![1, 2, 3, 4];
    let mut count = 0;
    for a in &all {
        let others: Vec<u8> = all.iter().filter(|s| *s != a).cloned().collect();
        let own = core_of(*a, &others);
        let (outgoing, incoming) = own.connections();
        assert_eq!(outgoing.len() + incoming.len(), 3);
        for id in &outgoing {
            assert!(own.id().should_initiate_connection_to(id));
        }
        assert_eq!(own.port(), 31415);
        count += outgoing.len();
    }
    // one connection for each pair
    assert_eq!(count, 6);
}

#[test]
fn messages_go_to_one_peer_or_to_all() {
    let own = core_of(1, &[2, 3]);
    let mut expected = vec![peer(2).id, peer(3).id];
    expected.sort();
    assert_eq!(own.recipients(None), Some(expected));
    assert_eq!(own.recipients(Some(peer(3).id)), Some(vec![peer(3).id]));
    assert_eq!(own.recipients(Some(peer(4).id)), None);
}

#[test]
fn failures_are_warned_of_once() {
    let mut delivery = Delivery::new();
    assert!(delivery.note(&node("a"), false));
    assert!(!delivery.note(&node("a"), false));
    assert!(delivery.note(&node("b"), false));
    assert!(!delivery.note(&node("a"), true));
    assert!(delivery.note(&node("a"), false));
}

#[test]
fn attempts_become_rarer() {
    let mut backoff = Backoff::new();
    let waits: Vec<u64> = (0..6).map(|_| backoff.fail()).collect();
    assert_eq!(waits, vec![1, 2, 4, 8, 8, 8]);
    backoff.succeed();
    assert_eq!(backoff.fail(), 1);
}

#[test]
fn peers_have_one_connection_each() {
    let (a, b) = initiator_and_other();
    let mut connections = IncomingConnections::new(&core_of(b, &[a]));
    assert_eq!(connections.claim(&peer(a).id), Ok(()));
    assert_eq!(connections.claim(&peer(a).id), Err(Refusal::AlreadyConnected));
    connections.release(&peer(a).id);
    assert_eq!(connections.claim(&peer(a).id), Ok(()));
    assert_eq!(connections.claim(&peer(3).id), Err(Refusal::NotExpected));
    assert_eq!(Refusal::AlreadyConnected.reason(), "You are already connected");
    assert!(!Refusal::AlreadyConnected.is_unhealthy());
    assert_eq!(Refusal::NotExpected.reason(), "Missing outgoing message receiver");
    assert!(Refusal::NotExpected.is_unhealthy());
    let mut connections = IncomingConnections::new(&core_of(a, &[b]));
    assert_eq!(connections.claim(&peer(b).id), Err(Refusal::NotExpected));
}

#[test]
fn messages_are_routed_to_open_channels() {
    let mut network = Network::new(node("me"), 1);
    let raft = || AppMessage::Raft(RaftMessage::Connect);
    let keygen = || AppMessage::Keygen(KeygenMessage::Done(DoneMessage { session_id: "s".to_string() }));
    assert!(network.route(node("a"), raft()).is_none());
    network.raft_channel();
    assert!(matches!(network.route(node("a"), raft()), Some(Routed::Raft(m)) if m.from == node("a")));
    assert!(network.route(node("a"), keygen()).is_none());
    network.keygen_channel();
    assert!(matches!(network.route(node("a"), keygen()), Some(Routed::Keygen(_))));
    network.signer_channel();
    assert!(network.signer);
}

fn done(session: &str) -> KeygenMessage {
    KeygenMessage::Done(DoneMessage { session_id: session.to_string() })
}

#[test]
fn test_networks_deliver_to_everyone_else() {
    let mut network: TestNetwork<KeygenMessage> = TestNetwork::new();
    let (a, b, c) = (network.connect(), network.connect(), network.connect());
    assert_eq!(names(&[a.clone(), b.clone(), c.clone()]), vec!["0", "1", "2"]);
    network.send(&a, OutgoingMessage { to: None, data: done("all") });
    network.send(&b, OutgoingMessage { to: Some(c.clone()), data: done("c") });
    assert!(network.try_recv(&b).is_none());
    assert!(network.drain());
    assert!(!network.drain());
    assert!(network.try_recv(&a).is_none());
    assert_eq!(network.try_recv(&b).unwrap().data, done("all"));
    assert_eq!(network.try_recv(&c).unwrap().data, done("all"));
    let last = network.try_recv(&c).unwrap();
    assert_eq!((last.from, last.data), (b.clone(), done("c")));
    network.send(&a, OutgoingMessage { to: Some(a.clone()), data: done("self") });
    assert_eq!(network.drain_one(&a).len(), 1);
    assert!(network.try_recv(&a).is_none());
    assert!(network.next_message_from(&a).is_none());
    network.disconnect(&c);
    network.send(&a, OutgoingMessage { to: None, data: done("again") });
    assert_eq!(network.next_message_from(&a).unwrap().data, done("again"));
    assert!(network.try_recv(&c).is_none());
    network.reconnect(&b);
    assert!(network.try_recv(&b).is_none());
}

const PUBLIC_KEY_PEM: &str = "-----BEGIN PUBLIC KEY-----\nMCowBQYDK2VwAyEA11qYAYKxCrfVS/7TyWQHOg7hcvPapiMlrwIaaPcHURo=\n-----END PUBLIC KEY-----\n";

fn raw_peer(public_key: &str, address: &str) -> RawPeerConfig {
    RawPeerConfig { label: None, address: address.to_string(), public_key: public_key.to_string() }
}

#[test]
fn network_configs_sort_their_peers() {
    let load = |peers, network_port| SortedNetworkConfig::load(private_key(1), peers, 8000, network_port);
    let config = load(vec![raw_peer(PUBLIC_KEY_PEM, "b"), raw_peer(PUBLIC_KEY_PEM, "a")], 0).ok().unwrap();
    assert_eq!(config.port, 8000);
    assert_eq!(config.id, peer(1).id);
    // the same key twice: they stay in their order
    assert_eq!(config.peers.iter().map(|p| p.address.as_str()).collect::<Vec<_>>(), vec!["b", "a"]);
    assert_eq!(config.peers[0].label, "b");
    assert_eq!(load(vec![], 9000).ok().unwrap().port, 9000);
    assert_eq!(load(vec![raw_peer("no key", "a")], 0).err(), Some(KeyError::Pem));
}
