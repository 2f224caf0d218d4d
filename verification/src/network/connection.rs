//! A connection to a peer, from the moment at which both agree on a secret.

use vstd::prelude::*;

use crate::health::{HealthStatus, StatusView};
use crate::keys::KEY_LENGTH;
use crate::names::str_equal;
use crate::network::messages::{ApplicationMessage, Message, Received};
use crate::network::secrets::{can_be_sealed, draw_nonce, opened, sealed, NONCE_LENGTH};
use crate::network::NodeId;
use crate::price_feed::synthetic::texts;
use crate::raft::RaftMessage;
use crate::text::{between, join};

verus! {

/// How long a node waits for the answer to a ping, and between two pings, in milliseconds.
pub const PING_TIMEOUT: u64 = 5000;

/// What can happen to a connection.
#[derive(Debug)]
pub enum ConnectionEvent {
    /// The rest of the node has a message for the peer.
    Outgoing(Vec<u8>),
    /// The rest of the node will have no more messages.
    OutgoingClosed,
    /// The peer sent something; `shown` is the message as text.
    Received { received: Received, shown: String },
    /// A message to the peer could not be sent.
    NotSent(String),
    /// A message of the peer could not be handed to the rest of the node.
    NotDelivered(String),
    /// A message of the peer makes no sense.
    NotUnderstood(String),
    /// The time that was set is up; if a ping is due, it is called `next_ping`.
    TimeUp { next_ping: String },
}

/// What to do.
#[derive(Debug)]
pub enum ConnectionAction {
    /// Send a message to the peer.
    Send(Message),
    /// Hand a message of the peer to the rest of the node.
    Deliver(Vec<u8>),
    /// Note how the connection to the peer is.
    Report(HealthStatus),
    /// Tell the election protocol that the peer is there, or is gone.
    Announce(RaftMessage),
    /// Set the time anew.
    RestartTimer,
}

/// What is sent to the peer.
pub enum SentView {
    Application { nonce: Seq<u8>, payload: Seq<u8> },
    Disconnect(Seq<char>),
    Ping(Seq<char>),
    Pong(Seq<char>),
    Other,
}

pub enum ActionView {
    Send(SentView),
    Deliver(Seq<u8>),
    Report(StatusView),
    Announce(RaftMessage),
    RestartTimer,
}

/// What a message says.
pub open spec fn sent(message: Message) -> SentView {
    match message {
        Message::Application(message) => SentView::Application { nonce: message.nonce@, payload: message.payload@ },
        Message::Disconnect(reason) => SentView::Disconnect(reason@),
        Message::Ping(id) => SentView::Ping(id@),
        Message::Pong(id) => SentView::Pong(id@),
        _ => SentView::Other,
    }
}

impl View for ConnectionAction {
    type V = ActionView;

    open spec fn view(&self) -> ActionView {
        match self {
            ConnectionAction::Send(message) => ActionView::Send(sent(*message)),
            ConnectionAction::Deliver(bytes) => ActionView::Deliver(bytes@),
            ConnectionAction::Report(status) => ActionView::Report(status@),
            ConnectionAction::Announce(message) => ActionView::Announce(*message),
            ConnectionAction::RestartTimer => ActionView::RestartTimer,
        }
    }
}

/// What these actions are.
pub open spec fn actions_in(actions: Seq<ConnectionAction>) -> Seq<ActionView> {
    Seq::new(actions.len(), |i: int| actions[i]@)
}

/// A connection to a peer.
pub struct Connection {
    peer: NodeId,
    secret: Vec<u8>,
    ping: Option<String>,
    pongs: Vec<String>,
    closed: bool,
}

pub struct ConnectionView {
    pub peer: Seq<char>,
    /// What messages are made unreadable for others with.
    pub secret: Seq<u8>,
    /// The ping that the peer has not answered yet.
    pub ping: Option<Seq<char>>,
    /// Answers to pings that came while none was open.
    pub pongs: Seq<Seq<char>>,
    pub closed: bool,
}

impl View for Connection {
    type V = ConnectionView;

    closed spec fn view(&self) -> ConnectionView {
        ConnectionView {
            peer: self.peer@,
            secret: self.secret@,
            ping: match self.ping {
                Some(id) => Some(id@),
                None => None,
            },
            pongs: texts(self.pongs@),
            closed: self.closed,
        }
    }
}

/// A connection and what to do.
pub type Step = (ConnectionView, Seq<ActionView>);

impl ConnectionView {
    /// The connection ends: the peer is told why, the connection counts as unhealthy, and the peer as gone.
    pub open spec fn closing(self, reason: Seq<char>) -> Step {
        (
            ConnectionView { closed: true, ..self },
            seq![
                ActionView::Send(SentView::Disconnect(reason)),
                ActionView::Report(StatusView::Unhealthy(reason)),
                ActionView::Announce(RaftMessage::Disconnect),
            ],
        )
    }

    /// The peer answered a ping. The next one follows when the time is up again.
    pub open spec fn ponged(self, id: Seq<char>) -> Step {
        match self.ping {
            Some(expected) => if id == expected {
                (ConnectionView { ping: None, ..self }, seq![ActionView::RestartTimer])
            } else {
                self.closing("received mismatched pong: "@ + id + " != "@ + expected)
            },
            None => (ConnectionView { pongs: self.pongs.push(id), ..self }, seq![]),
        }
    }

    /// A ping goes out. If an answer is already there, it counts as the answer to this ping.
    pub open spec fn pinged(self, id: Seq<char>) -> Step {
        let waiting = ConnectionView { ping: Some(id), ..self };
        let actions = seq![ActionView::Send(SentView::Ping(id)), ActionView::RestartTimer];
        if self.pongs.len() == 0 {
            (waiting, actions)
        } else {
            let (after, more) = (ConnectionView { pongs: self.pongs.drop_first(), ..waiting }).ponged(
                self.pongs.first(),
            );
            (after, actions + more)
        }
    }

    /// The peer sent something.
    pub open spec fn received(self, received: Received, shown: Seq<char>) -> Step {
        match received {
            Received::Message(Message::Application(message)) => match opened(
                self.secret,
                message.nonce@,
                message.payload@,
            ) {
                Some(bytes) => (self, seq![ActionView::Deliver(bytes)]),
                None => self.closing("Failed to decrypt incoming message: could not decipher message"@),
            },
            Received::Message(Message::Ping(id)) => (self, seq![ActionView::Send(SentView::Pong(id@))]),
            Received::Message(Message::Pong(id)) => self.ponged(id@),
            Received::Message(Message::Disconnect(reason)) => self.closing(
                "Peer has disconnected from us: "@ + reason@,
            ),
            Received::Message(_) => self.closing("Expected Application message, got: "@ + shown),
            Received::Empty => (self, seq![]),
            Received::Unreadable(reason) => self.closing("Error reading from stream: "@ + reason@),
        }
    }

    /// What something that happens does to the connection. Messages are made unreadable with `nonce`.
    pub open spec fn stepped(self, event: ConnectionEvent, nonce: Seq<u8>) -> Step {
        if self.closed {
            (self, seq![])
        } else {
            match event {
                ConnectionEvent::Outgoing(message) => (
                    self,
                    seq![
                        ActionView::Send(
                            SentView::Application { nonce, payload: sealed(self.secret, nonce, message@) },
                        ),
                    ],
                ),
                ConnectionEvent::OutgoingClosed => self.closing("Connection was closed"@),
                ConnectionEvent::Received { received, shown } => self.received(received, shown@),
                ConnectionEvent::NotSent(reason) => self.closing("Failed to send ping: "@ + reason@),
                ConnectionEvent::NotDelivered(reason) => self.closing(
                    "Failed to process incoming message: "@ + reason@,
                ),
                ConnectionEvent::NotUnderstood(reason) => self.closing(
                    "Failed to decrypt incoming message: could not deserialize message: "@ + reason@,
                ),
                ConnectionEvent::TimeUp { next_ping } => match self.ping {
                    Some(_) => self.closing("could not receive ping response: deadline has elapsed"@),
                    None => self.pinged(next_ping@),
                },
            }
        }
    }

    /// Whether something that happens can be dealt with: nonces have their length, and messages are not too long.
    pub open spec fn admits(self, event: ConnectionEvent) -> bool {
        match event {
            ConnectionEvent::Outgoing(message) => can_be_sealed(message@),
            ConnectionEvent::Received {
                received: Received::Message(Message::Application(message)),
                ..
            } => message.nonce@.len() == NONCE_LENGTH,
            _ => true,
        }
    }
}

/// One action alone.
fn one(action: ConnectionAction) -> (r: Vec<ConnectionAction>)
    ensures
        actions_in(r@) == seq![action@],
{
    let mut actions: Vec<ConnectionAction> = Vec::new();
    actions.push(action);
    assert(actions_in(actions@) =~= seq![action@]);
    actions
}

impl Connection {
    #[verifier::type_invariant]
    spec fn wf(&self) -> bool {
        self.secret@.len() == KEY_LENGTH
    }

    /// A connection to a peer, over which messages are made unreadable for others with `secret`. The peer counts as
    /// there, and gets a first ping.
    pub fn open(peer: NodeId, secret: Vec<u8>, first_ping: String) -> (r: (Self, Vec<ConnectionAction>))
        requires
            secret@.len() == KEY_LENGTH,
        ensures
            ({
                let (after, actions) = (ConnectionView {
                    peer: peer@,
                    secret: secret@,
                    ping: None,
                    pongs: seq![],
                    closed: false,
                }).pinged(first_ping@);
                &&& r.0@ == after
                &&& actions_in(r.1@) == seq![
                    ActionView::Announce(RaftMessage::Connect),
                    ActionView::Report(StatusView::Healthy),
                ] + actions
            }),
    {
        let mut actions: Vec<ConnectionAction> = Vec::new();
        actions.push(ConnectionAction::Announce(RaftMessage::Connect));
        actions.push(ConnectionAction::Report(HealthStatus::Healthy));
        actions.push(ConnectionAction::Send(Message::Ping(first_ping.clone())));
        actions.push(ConnectionAction::RestartTimer);
        let connection = Connection { peer, secret, ping: Some(first_ping), pongs: Vec::new(), closed: false };
        proof {
            let start = ConnectionView { peer: peer@, secret: secret@, ping: None, pongs: seq![], closed: false };
            assert(connection@.pongs =~= seq![]);
            assert(actions_in(actions@) =~= seq![
                ActionView::Announce(RaftMessage::Connect),
                ActionView::Report(StatusView::Healthy),
            ] + start.pinged(first_ping@).1);
        }
        (connection, actions)
    }

    pub fn peer(&self) -> (r: &NodeId)
        ensures
            r@ == self@.peer,
    {
        &self.peer
    }

    pub fn is_closed(&self) -> (r: bool)
        ensures
            r == self@.closed,
    {
        self.closed
    }

    fn close(&mut self, reason: String) -> (r: Vec<ConnectionAction>)
        ensures
            (final(self)@, actions_in(r@)) == old(self)@.closing(reason@),
    {
        proof {
            use_type_invariant(&*self);
        }
        self.closed = true;
        let mut actions: Vec<ConnectionAction> = Vec::new();
        actions.push(ConnectionAction::Send(Message::Disconnect(reason.clone())));
        actions.push(ConnectionAction::Report(HealthStatus::Unhealthy(reason)));
        actions.push(ConnectionAction::Announce(RaftMessage::Disconnect));
        assert(actions_in(actions@) =~= old(self)@.closing(reason@).1);
        actions
    }

    fn receive_pong(&mut self, id: String) -> (r: Vec<ConnectionAction>)
        ensures
            (final(self)@, actions_in(r@)) == old(self)@.ponged(id@),
    {
        proof {
            use_type_invariant(&*self);
        }
        let mut pending: Option<String> = None;
        core::mem::swap(&mut self.ping, &mut pending);
        match pending {
            Some(expected) => {
                if str_equal(id.as_str(), expected.as_str()) {
                    one(ConnectionAction::RestartTimer)
                } else {
                    let reason = join(
                        between("received mismatched pong: ", id.as_str(), " != ").as_str(),
                        expected.as_str(),
                    );
                    self.ping = Some(expected);
                    assert(self@ == old(self)@);
                    self.close(reason)
                }
            },
            None => {
                let mut pongs: Vec<String> = Vec::new();
                core::mem::swap(&mut self.pongs, &mut pongs);
                pongs.push(id);
                self.pongs = pongs;
                assert(self@.pongs =~= old(self)@.pongs.push(id@));
                let actions: Vec<ConnectionAction> = Vec::new();
                assert(actions_in(actions@) =~= seq![]);
                actions
            },
        }
    }

    fn send_ping(&mut self, id: String) -> (r: Vec<ConnectionAction>)
        ensures
            (final(self)@, actions_in(r@)) == old(self)@.pinged(id@),
    {
        let mut actions: Vec<ConnectionAction> = Vec::new();
        actions.push(ConnectionAction::Send(Message::Ping(id.clone())));
        actions.push(ConnectionAction::RestartTimer);
        let ghost first = seq![ActionView::Send(SentView::Ping(id@)), ActionView::RestartTimer];
        assert(actions_in(actions@) =~= first);
        proof {
            use_type_invariant(&*self);
        }
        self.ping = Some(id);
        if self.pongs.len() > 0 {
            let mut pongs: Vec<String> = Vec::new();
            core::mem::swap(&mut self.pongs, &mut pongs);
            let pong = pongs.remove(0);
            self.pongs = pongs;
            assert(self@.pongs =~= old(self)@.pongs.drop_first());
            let mut more = self.receive_pong(pong);
            let ghost (before, after) = (actions@, more@);
            actions.append(&mut more);
            assert(actions_in(actions@) =~= actions_in(before) + actions_in(after));
        }
        actions
    }

    fn receive(&mut self, received: Received, shown: String) -> (r: Vec<ConnectionAction>)
        requires
            old(self)@.admits(ConnectionEvent::Received { received, shown }),
        ensures
            (final(self)@, actions_in(r@)) == old(self)@.received(received, shown@),
    {
        match received {
            Received::Message(Message::Application(message)) => {
                proof {
                    use_type_invariant(&*self);
                }
                match message.decrypt(self.secret.as_slice()) {
                    Some(bytes) => one(ConnectionAction::Deliver(bytes)),
                    None => self.close("Failed to decrypt incoming message: could not decipher message".to_owned()),
                }
            },
            Received::Message(Message::Ping(id)) => one(ConnectionAction::Send(Message::Pong(id))),
            Received::Message(Message::Pong(id)) => self.receive_pong(id),
            Received::Message(Message::Disconnect(reason)) => self.close(
                join("Peer has disconnected from us: ", reason.as_str()),
            ),
            Received::Message(_) => self.close(join("Expected Application message, got: ", shown.as_str())),
            Received::Empty => {
                let actions: Vec<ConnectionAction> = Vec::new();
                assert(actions_in(actions@) =~= seq![]);
                actions
            },
            Received::Unreadable(reason) => self.close(join("Error reading from stream: ", reason.as_str())),
        }
    }

    /// Something happens to the connection. Messages are made unreadable with a nonce drawn anew.
    pub fn handle(&mut self, event: ConnectionEvent) -> (r: Vec<ConnectionAction>)
        requires
            old(self)@.admits(event),
        ensures
            exists|nonce: Seq<u8>|
                nonce.len() == NONCE_LENGTH && (final(self)@, actions_in(r@)) == #[trigger] old(self)@.stepped(event, nonce),
    {
        let nonce = draw_nonce();
        self.process(event, nonce)
    }

    /// Something happens to the connection. Messages are made unreadable with this nonce, so that whoever has the
    /// same secret can read them.
    pub fn process(&mut self, event: ConnectionEvent, nonce: Vec<u8>) -> (r: Vec<ConnectionAction>)
        requires
            old(self)@.admits(event),
            nonce@.len() == NONCE_LENGTH,
        ensures
            (final(self)@, actions_in(r@)) == old(self)@.stepped(event, nonce@),
            event matches ConnectionEvent::Outgoing(message) ==> !old(self)@.closed ==> opened(
                old(self)@.secret,
                nonce@,
                sealed(old(self)@.secret, nonce@, message@),
            ) == Some(message@),
    {
        if self.closed {
            let actions: Vec<ConnectionAction> = Vec::new();
            assert(actions_in(actions@) =~= seq![]);
            return actions;
        }
        match event {
            ConnectionEvent::Outgoing(message) => {
                proof {
                    use_type_invariant(&*self);
                }
                let message = ApplicationMessage::encrypt_with(
                    message.as_slice(),
                    self.secret.as_slice(),
                    nonce,
                );
                one(ConnectionAction::Send(Message::Application(message)))
            },
            ConnectionEvent::OutgoingClosed => self.close("Connection was closed".to_owned()),
            ConnectionEvent::Received { received, shown } => self.receive(received, shown),
            ConnectionEvent::NotSent(reason) => self.close(join("Failed to send ping: ", reason.as_str())),
            ConnectionEvent::NotDelivered(reason) => self.close(
                join("Failed to process incoming message: ", reason.as_str()),
            ),
            ConnectionEvent::NotUnderstood(reason) => self.close(
                join("Failed to decrypt incoming message: could not deserialize message: ", reason.as_str()),
            ),
            ConnectionEvent::TimeUp { next_ping } => {
                if self.ping.is_some() {
                    self.close("could not receive ping response: deadline has elapsed".to_owned())
                } else {
                    self.send_ping(next_ping)
                }
            },
        }
    }
}

/// What one node has for another arrives there: a message that is sent over a connection is handed, as it was, to the
/// rest of the node at the other end, whose connection has the same secret.
pub proof fn law_messages_arrive(
    sender: ConnectionView,
    receiver: ConnectionView,
    message: Vec<u8>,
    nonce: Seq<u8>,
    sent: ApplicationMessage,
    shown: Seq<char>,
)
    requires
        !sender.closed,
        !receiver.closed,
        sender.secret == receiver.secret,
        opened(sender.secret, nonce, sealed(sender.secret, nonce, message@)) == Some(message@),
        sender.stepped(ConnectionEvent::Outgoing(message), nonce).1 == seq![
            ActionView::Send(SentView::Application { nonce: sent.nonce@, payload: sent.payload@ }),
        ],
    ensures
        receiver.received(Received::Message(Message::Application(sent)), shown) == (
            receiver,
            seq![ActionView::Deliver(message@)],
        ),
{
    let actions = sender.stepped(ConnectionEvent::Outgoing(message), nonce).1;
    assert(actions[0] == ActionView::Send(
        SentView::Application { nonce, payload: sealed(sender.secret, nonce, message@) },
    ));
}

/// A peer that answers a ping keeps the connection: it is not closed, and it is ready for the next ping.
pub proof fn law_answered_pings_keep_connections(
    connection: ConnectionView,
    peer: ConnectionView,
    ping: String,
    pong: String,
    shown: Seq<char>,
)
    requires
        !connection.closed,
        connection.pongs.len() == 0,
        pong@ == ping@,
    ensures
        peer.received(Received::Message(Message::Ping(ping)), shown) == (
            peer,
            seq![ActionView::Send(SentView::Pong(pong@))],
        ),
        connection.pinged(ping@).0.received(Received::Message(Message::Pong(pong)), shown) == (
            ConnectionView { ping: None, ..connection },
            seq![ActionView::RestartTimer],
        ),
{
}

/// A peer that does not answer a ping in time, or answers another one, is given up.
pub proof fn law_unanswered_pings_end_connections(
    connection: ConnectionView,
    ping: Seq<char>,
    other: Seq<char>,
    next_ping: String,
    nonce: Seq<u8>,
)
    requires
        !connection.closed,
        connection.ping == Some(ping),
        other != ping,
    ensures
        connection.stepped(ConnectionEvent::TimeUp { next_ping }, nonce).0.closed,
        connection.ponged(other).0.closed,
{
}

/// A connection that has ended does nothing more.
pub proof fn law_ended_connections_are_silent(connection: ConnectionView, event: ConnectionEvent, nonce: Seq<u8>)
    requires
        connection.closed,
    ensures
        connection.stepped(event, nonce) == (connection, Seq::<ActionView>::empty()),
{
}

/// Whenever a connection ends, the peer is announced as gone, last of all and once.
pub proof fn law_ends_are_announced(connection: ConnectionView, event: ConnectionEvent, nonce: Seq<u8>)
    requires
        !connection.closed,
    ensures
        ({
            let (after, actions) = connection.stepped(event, nonce);
            after.closed <==> actions.len() > 0 && actions.last() == ActionView::Announce(RaftMessage::Disconnect)
        }),
        forall|i: int|
            0 <= i < connection.stepped(event, nonce).1.len() - 1 ==> #[trigger] connection.stepped(event, nonce).1[i]
                != ActionView::Announce(RaftMessage::Disconnect),
{
}

} // verus!
