use std::collections::HashSet;

use oracles::dkg::{
    DoneMessage, GeneratedKeys, Keygen, KeygenError, KeygenMessage, Part1Message, Part2Message,
};
use oracles::network::{IncomingMessage, NodeId, OutgoingMessage, TestNetwork};

struct Participant {
    id: NodeId,
    max_signers: u16,
    min_signers: u16,
    prior_session_id: Option<String>,
    keygen: Keygen,
    outcome: Option<Result<GeneratedKeys, KeygenError>>,
}

impl Participant {
    fn new(network: &mut TestNetwork<KeygenMessage>, max_signers: u16, min_signers: u16) -> Self {
        let id = network.connect();
        let keygen = Keygen::new(id.clone(), max_signers, min_signers).unwrap();
        Self { id, max_signers, min_signers, prior_session_id: None, keygen, outcome: None }
    }

    // Takes in what has arrived, and sends what is due.
    fn work(&mut self, network: &mut TestNetwork<KeygenMessage>) {
        network.send(&self.id, OutgoingMessage { to: None, data: self.keygen.round1_message() });
        while let Some(IncomingMessage { from, data }) = network.try_recv(&self.id) {
            let output = self.keygen.receive(from, data);
            if let Some(data) = output.broadcast {
                network.send(&self.id, OutgoingMessage { to: None, data });
            }
            if let Some(outcome) = output.outcome {
                self.outcome = Some(outcome);
            }
        }
        for message in self.keygen.round2_messages() {
            network.send(&self.id, message);
        }
    }

    fn run_until_message_sent<T>(
        &mut self,
        network: &mut TestNetwork<KeygenMessage>,
        cond: impl Fn(OutgoingMessage<KeygenMessage>) -> Option<T>,
    ) -> T {
        for _ in 0..10 {
            while let Some(message) = network.next_message_from(&self.id) {
                if let Some(value) = cond(message) {
                    return value;
                }
            }
            self.work(network);
        }
        panic!("Network has shut down!");
    }

    fn run_until_round_1_sent(&mut self, network: &mut TestNetwork<KeygenMessage>) {
        let sent_to = self.run_until_message_sent(network, |message| match message.data {
            KeygenMessage::Part1(_) => Some(message.to),
            _ => None,
        });
        assert_eq!(sent_to, None);
    }

    fn run_until_round_2_sent(&mut self, network: &mut TestNetwork<KeygenMessage>, targets: Vec<&NodeId>) {
        let mut waiting_for: HashSet<NodeId> = targets.into_iter().cloned().collect();
        let mut new_session_id = None;
        while !waiting_for.is_empty() {
            let (to, session_id) = self.run_until_message_sent(network, |message| match message.data {
                KeygenMessage::Part2(p2message) => Some((message.to, p2message.session_id)),
                _ => None,
            });
            if self.prior_session_id.as_ref() == Some(&session_id) {
                continue;
            }
            new_session_id = Some(session_id);
            waiting_for.remove(&to.unwrap());
        }
        self.prior_session_id = new_session_id;
    }

    fn run_until_done_sent(&mut self, network: &mut TestNetwork<KeygenMessage>) {
        self.run_until_message_sent(network, |message| match message.data {
            KeygenMessage::Done(_) => Some(()),
            _ => None,
        })
    }

    fn run_until_shutdown(mut self, network: &mut TestNetwork<KeygenMessage>) -> GeneratedKeys {
        self.work(network);
        self.outcome.unwrap().unwrap()
    }

    fn reconnect(&mut self, network: &mut TestNetwork<KeygenMessage>) {
        network.reconnect(&self.id);
        self.keygen = Keygen::new(self.id.clone(), self.max_signers, self.min_signers).unwrap();
    }
}

#[test]
fn should_generate_keys() {
    let mut network = TestNetwork::new();
    let max_signers = 2;
    let min_signers = 2;
    let mut p1 = Participant::new(&mut network, max_signers, min_signers);
    let mut p2 = Participant::new(&mut network, max_signers, min_signers);

    p1.run_until_round_1_sent(&mut network);
    p2.run_until_round_1_sent(&mut network);

    p1.run_until_round_2_sent(&mut network, vec![&p2.id]);
    p2.run_until_round_2_sent(&mut network, vec![&p1.id]);

    p1.run_until_done_sent(&mut network);
    p2.run_until_done_sent(&mut network);

    let p1_keys = p1.run_until_shutdown(&mut network);
    let p2_keys = p2.run_until_shutdown(&mut network);
    assert_eq!(p1_keys.1, p2_keys.1);
}

#[test]
fn should_generate_keys_after_disconnect() {
    let mut network = TestNetwork::new();
    let max_signers = 2;
    let min_signers = 2;
    let mut p1 = Participant::new(&mut network, max_signers, min_signers);
    let mut p2 = Participant::new(&mut network, max_signers, min_signers);

    p1.run_until_round_1_sent(&mut network);
    p2.run_until_round_1_sent(&mut network);

    p1.run_until_round_2_sent(&mut network, vec![&p2.id]);
    p2.run_until_round_2_sent(&mut network, vec![&p1.id]);

    p1.reconnect(&mut network);

    p1.run_until_round_1_sent(&mut network);
    p2.run_until_round_1_sent(&mut network);

    p1.run_until_round_2_sent(&mut network, vec![&p2.id]);
    p2.run_until_round_2_sent(&mut network, vec![&p1.id]);

    p1.run_until_done_sent(&mut network);
    p2.run_until_done_sent(&mut network);

    let p1_keys = p1.run_until_shutdown(&mut network);
    let p2_keys = p2.run_until_shutdown(&mut network);
    assert_eq!(p1_keys.1, p2_keys.1);
}

#[test]
fn should_generate_keys_if_other_disconnects_after_we_finish() {
    let mut network = TestNetwork::new();
    let max_signers = 2;
    let min_signers = 2;
    let mut p1 = Participant::new(&mut network, max_signers, min_signers);
    let mut p2 = Participant::new(&mut network, max_signers, min_signers);

    p1.run_until_round_1_sent(&mut network);
    p2.run_until_round_1_sent(&mut network);

    p1.run_until_round_2_sent(&mut network, vec![&p2.id]);
    p2.run_until_round_2_sent(&mut network, vec![&p1.id]);

    p1.run_until_done_sent(&mut network);
    p2.reconnect(&mut network);

    p1.run_until_round_1_sent(&mut network);
    p2.run_until_round_1_sent(&mut network);

    p1.run_until_round_2_sent(&mut network, vec![&p2.id]);
    p2.run_until_round_2_sent(&mut network, vec![&p1.id]);

    p1.run_until_done_sent(&mut network);
    p2.run_until_done_sent(&mut network);

    let p1_keys = p1.run_until_shutdown(&mut network);
    let p2_keys = p2.run_until_shutdown(&mut network);
    assert_eq!(p1_keys.1, p2_keys.1);
}

fn node(name: &str) -> NodeId {
    NodeId::new(name.to_string())
}

#[test]
fn groups_that_are_too_small_have_no_keys() {
    assert!(matches!(Keygen::new(node("a"), 1, 1), Err(KeygenError::Frost)));
    assert!(matches!(Keygen::new(node("a"), 2, 3), Err(KeygenError::Frost)));
    assert!(Keygen::new(node("a"), 2, 2).is_ok());
}

#[test]
fn packages_that_make_no_sense_end_key_generation() {
    let mut keygen = Keygen::new(node("a"), 2, 2).unwrap();
    let message = KeygenMessage::Part1(Part1Message { package: vec![1, 2, 3] });
    let output = keygen.receive(node("b"), message);
    assert!(matches!(output.outcome, Some(Err(KeygenError::Frost))));
}

#[test]
fn packages_of_other_sessions_are_ignored() {
    let mut keygen = Keygen::new(node("a"), 2, 2).unwrap();
    let message = KeygenMessage::Part2(Part2Message { session_id: "other".to_string(), package: vec![1, 2, 3] });
    let output = keygen.receive(node("b"), message);
    assert!(output.outcome.is_none());
    assert!(output.broadcast.is_none());
}

#[test]
fn second_packages_before_the_second_round_are_an_error() {
    let mut keygen = Keygen::new(node("a"), 2, 2).unwrap();
    let message = KeygenMessage::Part2(Part2Message { session_id: String::new(), package: vec![1, 2, 3] });
    let output = keygen.receive(node("b"), message);
    assert!(matches!(output.outcome, Some(Err(KeygenError::SecondRoundNotBegun))));
}

#[test]
fn nodes_that_are_done_too_early_leave_us_without_keys() {
    let mut keygen = Keygen::new(node("a"), 2, 2).unwrap();
    let done = || KeygenMessage::Done(DoneMessage { session_id: String::new() });
    assert!(keygen.receive(node("b"), done()).outcome.is_none());
    assert!(keygen.receive(node("b"), done()).outcome.is_none());
    let output = keygen.receive(node("c"), done());
    assert!(matches!(output.outcome, Some(Err(KeygenError::KeysMissing))));
}
