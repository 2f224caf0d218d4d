//! A fully connected set of peers, with one connection in each direction between any two.

use vstd::prelude::*;

use crate::names::NameMap;

verus! {

/// What peers send each other; `R` are the messages of the election protocol.
#[derive(Debug)]
pub enum Message<R> {
    Hello(String),
    Raft(R),
}

/// What the election protocol is told of a peer.
#[derive(Debug)]
pub enum PeerChange {
    Connect { node_id: String },
    Disconnect { node_id: String },
}

pub enum PeerChangeView {
    Connect(Seq<char>),
    Disconnect(Seq<char>),
}

impl View for PeerChange {
    type V = PeerChangeView;

    open spec fn view(&self) -> PeerChangeView {
        match self {
            PeerChange::Connect { node_id } => PeerChangeView::Connect(node_id@),
            PeerChange::Disconnect { node_id } => PeerChangeView::Disconnect(node_id@),
        }
    }
}

/// What comes of reading from a connection.
#[derive(Debug)]
pub enum Next<R> {
    Message(Message<R>),
    /// It makes no sense, for this reason.
    Unreadable(String),
    /// The connection has ended.
    Ended,
}

/// Why a connection is given up.
#[derive(Debug, Clone, Copy, PartialEq, Eq, Structural)]
pub enum Broken {
    /// Another message was due.
    Unexpected,
    /// What was sent makes no sense.
    Unreadable,
    /// The connection has ended.
    Ended,
}

/// A network is a fully connected set of peers.
#[derive(Debug)]
pub struct Network {
    id: String,
    // Instead of trying to handle the crossing-paths problem, there is one incoming and one outgoing connection for
    // each peer
    incoming_connections: NameMap<String, ()>,
    outgoing_connections: NameMap<String, ()>,
}

pub struct NetworkView {
    pub id: Seq<char>,
    /// The peers that this node gets messages from.
    pub incoming: Set<Seq<char>>,
    /// The peers that this node can send messages to.
    pub outgoing: Set<Seq<char>>,
}

impl View for Network {
    type V = NetworkView;

    closed spec fn view(&self) -> NetworkView {
        NetworkView {
            id: self.id@,
            incoming: self.incoming_connections@.dom(),
            outgoing: self.outgoing_connections@.dom(),
        }
    }
}

/// The news, where there is any.
pub open spec fn news_in(news: Option<PeerChange>) -> Option<PeerChangeView> {
    match news {
        Some(change) => Some(change@),
        None => None,
    }
}

impl NetworkView {
    /// A peer has opened its connection to this node.
    pub open spec fn incoming_opened(self, them: Seq<char>) -> NetworkView {
        NetworkView { incoming: self.incoming.insert(them), ..self }
    }

    /// A peer's connection to this node has ended.
    pub open spec fn incoming_closed(self, them: Seq<char>) -> NetworkView {
        NetworkView { incoming: self.incoming.remove(them), ..self }
    }

    /// This node has opened its connection to a peer.
    pub open spec fn outgoing_opened(self, them: Seq<char>) -> NetworkView {
        NetworkView { outgoing: self.outgoing.insert(them), ..self }
    }

    /// This node's connection to a peer has ended.
    pub open spec fn outgoing_closed(self, them: Seq<char>) -> NetworkView {
        NetworkView { outgoing: self.outgoing.remove(them), ..self }
    }

    /// Whether this node can both send to and get messages from a peer.
    pub open spec fn is_connected(self, them: Seq<char>) -> bool {
        self.incoming.contains(them) && self.outgoing.contains(them)
    }
}

/// Who the other side of a new connection is: it says so first.
pub fn read_hello<R>(next: Next<R>) -> (r: Result<String, Broken>)
    ensures
        r == match next {
            Next::Message(Message::Hello(them)) => Ok::<String, Broken>(them),
            Next::Message(_) => Err(Broken::Unexpected),
            Next::Unreadable(_) => Err(Broken::Unreadable),
            Next::Ended => Err(Broken::Ended),
        },
{
    match next {
        Next::Message(Message::Hello(them)) => Ok(them),
        Next::Message(_) => Err(Broken::Unexpected),
        Next::Unreadable(_) => Err(Broken::Unreadable),
        Next::Ended => Err(Broken::Ended),
    }
}

/// A message for the election protocol. Anything else ends the connection, another introduction too.
pub fn read_message<R>(next: Next<R>) -> (r: Result<R, Broken>)
    ensures
        r == match next {
            Next::Message(Message::Raft(message)) => Ok::<R, Broken>(message),
            Next::Message(_) => Err(Broken::Unexpected),
            Next::Unreadable(_) => Err(Broken::Unreadable),
            Next::Ended => Err(Broken::Ended),
        },
{
    match next {
        Next::Message(Message::Raft(message)) => Ok(message),
        Next::Message(_) => Err(Broken::Unexpected),
        Next::Unreadable(_) => Err(Broken::Unreadable),
        Next::Ended => Err(Broken::Ended),
    }
}

impl Network {
    pub fn new(id: String) -> (r: Self)
        ensures
            r@ == (NetworkView { id: id@, incoming: Set::empty(), outgoing: Set::empty() }),
    {
        let r = Network { id, incoming_connections: NameMap::new(), outgoing_connections: NameMap::new() };
        assert(r@.incoming =~= Set::empty());
        assert(r@.outgoing =~= Set::empty());
        r
    }

    /// What this node says first on a connection.
    pub fn hello<R>(&self) -> (r: Message<R>)
        ensures
            r matches Message::Hello(id) && id@ == self@.id,
    {
        Message::Hello(self.id.clone())
    }

    /// A peer has opened its connection to this node. Once there is a connection in both directions, the election
    /// protocol is told so: it makes no sense to send heartbeats to a peer that cannot answer.
    pub fn open_incoming(&mut self, them: &str) -> (r: Option<PeerChange>)
        ensures
            final(self)@ == old(self)@.incoming_opened(them@),
            news_in(r) == if final(self)@.is_connected(them@) {
                Some(PeerChangeView::Connect(them@))
            } else {
                None
            },
    {
        self.incoming_connections.insert(them.to_owned(), ());
        assert(self@.incoming =~= old(self)@.incoming.insert(them@));
        if self.outgoing_connections.contains(them) {
            Some(PeerChange::Connect { node_id: them.to_owned() })
        } else {
            None
        }
    }

    /// A peer's connection to this node has ended. The election protocol goes on sending to the peer, and so notices
    /// when the other connection ends too.
    pub fn close_incoming(&mut self, them: &str)
        ensures
            final(self)@ == old(self)@.incoming_closed(them@),
    {
        let _ = self.incoming_connections.remove(them);
        assert(self@.incoming =~= old(self)@.incoming.remove(them@));
    }

    /// This node has opened its connection to a peer. Once there is a connection in both directions, the election
    /// protocol is told so.
    pub fn open_outgoing(&mut self, them: &str) -> (r: Option<PeerChange>)
        ensures
            final(self)@ == old(self)@.outgoing_opened(them@),
            news_in(r) == if final(self)@.is_connected(them@) {
                Some(PeerChangeView::Connect(them@))
            } else {
                None
            },
    {
        self.outgoing_connections.insert(them.to_owned(), ());
        assert(self@.outgoing =~= old(self)@.outgoing.insert(them@));
        if self.incoming_connections.contains(them) {
            Some(PeerChange::Connect { node_id: them.to_owned() })
        } else {
            None
        }
    }

    /// This node's connection to a peer has ended, and the election protocol is to stop sending to it.
    pub fn close_outgoing(&mut self, them: &str) -> (r: PeerChange)
        ensures
            final(self)@ == old(self)@.outgoing_closed(them@),
            r@ == PeerChangeView::Disconnect(them@),
    {
        let _ = self.outgoing_connections.remove(them);
        assert(self@.outgoing =~= old(self)@.outgoing.remove(them@));
        PeerChange::Disconnect { node_id: them.to_owned() }
    }

    /// Whether there is a connection to send a message to a peer over.
    pub fn can_send(&self, peer: &str) -> (r: bool)
        ensures
            r == self@.outgoing.contains(peer@),
    {
        self.outgoing_connections.contains(peer)
    }
}

/// Whichever connection comes second brings the news, and the first one brings none.
pub proof fn law_connect_needs_both_directions(network: NetworkView, them: Seq<char>)
    requires
        !network.incoming.contains(them),
        !network.outgoing.contains(them),
    ensures
        !network.incoming_opened(them).is_connected(them),
        !network.outgoing_opened(them).is_connected(them),
        network.incoming_opened(them).outgoing_opened(them).is_connected(them),
        network.outgoing_opened(them).incoming_opened(them).is_connected(them),
{
}

/// A peer whose connection to this node ended can still be sent to; one that this node's connection to ended cannot.
pub proof fn law_sending_needs_the_outgoing_connection(network: NetworkView, them: Seq<char>)
    requires
        network.outgoing.contains(them),
    ensures
        network.incoming_closed(them).outgoing.contains(them),
        !network.outgoing_closed(them).outgoing.contains(them),
{
}

} // verus!
