use oracles::networking::{read_hello, read_message, Broken, Message, Network, Next, PeerChange};

fn is_connect(change: Option<PeerChange>, them: &str) -> bool {
    matches!(change, Some(PeerChange::Connect { node_id }) if node_id == them)
}

#[test]
fn peers_are_connected_in_both_directions() {
    let mut network = Network::new("me".to_string());
    assert!(network.open_incoming("a").is_none());
    assert!(is_connect(network.open_outgoing("a"), "a"));
    assert!(network.open_outgoing("b").is_none());
    assert!(is_connect(network.open_incoming("b"), "b"));
}

#[test]
fn lost_incoming_connections_are_not_announced() {
    let mut network = Network::new("me".to_string());
    network.open_incoming("a");
    network.open_outgoing("a");
    network.close_incoming("a");
    assert!(network.can_send("a"));
    assert!(is_connect(network.open_incoming("a"), "a"));
    assert!(matches!(network.close_outgoing("a"), PeerChange::Disconnect { node_id } if node_id == "a"));
    assert!(!network.can_send("a"));
    assert!(!network.can_send("b"));
}

#[test]
fn connections_begin_with_a_hello() {
    let network = Network::new("me".to_string());
    let hello: Message<u32> = network.hello();
    assert_eq!(read_hello(Next::Message(hello)), Ok("me".to_string()));
    assert_eq!(read_hello::<u32>(Next::Message(Message::Raft(1))), Err(Broken::Unexpected));
    assert_eq!(read_hello::<u32>(Next::Unreadable("x".to_string())), Err(Broken::Unreadable));
    assert_eq!(read_hello::<u32>(Next::Ended), Err(Broken::Ended));
}

#[test]
fn a_second_hello_ends_the_connection() {
    assert_eq!(read_message(Next::Message(Message::Raft(7))), Ok(7));
    assert_eq!(read_message::<u32>(Next::Message(Message::Hello("a".to_string()))), Err(Broken::Unexpected));
    assert_eq!(read_message::<u32>(Next::Unreadable("x".to_string())), Err(Broken::Unreadable));
    assert_eq!(read_message::<u32>(Next::Ended), Err(Broken::Ended));
}
