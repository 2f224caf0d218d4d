//! The peers of a node and the messages they exchange.

use std::cmp::Ordering;

use vstd::prelude::*;
use vstd::std_specs::cmp::{PartialEqSpec, PartialOrdSpec};

use crate::dkg::KeygenMessage;
use crate::names::{ascending, has_name, keys_of, lemma_precedes_irreflexive, lemma_precedes_total};
use crate::names::{lemma_precedes_transitive, precedes, str_precedes, NameMap, Named};
use crate::raft::RaftMessage;
use crate::signature_aggregator::messages::SignerMessage;

pub use test::TestNetwork;

pub mod config;
pub mod connection;
pub mod delivery;
pub mod handshake;
pub mod messages;
pub mod secrets;
pub mod test;

verus! {

/// The name of a node of the network.
#[derive(Debug, Eq, Ord, Hash)]
pub struct NodeId(String);

impl View for NodeId {
    type V = Seq<char>;

    closed spec fn view(&self) -> Seq<char> {
        self.0@
    }
}

impl Named for NodeId {
    open spec fn name(&self) -> Seq<char> {
        self@
    }

    fn as_name(&self) -> (r: &str) {
        self.0.as_str()
    }
}

impl NodeId {
    pub fn new(id: String) -> (r: Self)
        ensures
            r@ == id@,
    {
        NodeId(id)
    }

    /// The name's UTF-8 bytes.
    pub fn as_bytes(&self) -> (r: &[u8])
        ensures
            r@ == vstd::utf8::encode_utf8(self@),
    {
        self.0.as_str().as_bytes()
    }

    /// The name as a string.
    pub fn as_str(&self) -> (r: &str)
        ensures
            r@ == self@,
    {
        self.0.as_str()
    }

    /// Whether this node opens the connection to another, rather than waiting for it.
    pub fn should_initiate_connection_to(&self, other: &NodeId) -> (r: bool)
        ensures
            r == initiates(self@, other@),
    {
        str_precedes(self.0.as_str(), other.0.as_str())
    }
}

/// Of two nodes, the one whose name comes first opens the connection.
pub open spec fn initiates(id: Seq<char>, other: Seq<char>) -> bool {
    precedes(id, other)
}

/// Between two different nodes, exactly one opens the connection.
pub proof fn law_one_side_initiates(a: Seq<char>, b: Seq<char>)
    requires
        a != b,
    ensures
        initiates(a, b) != initiates(b, a),
{
    lemma_precedes_total(a, b);
    if initiates(a, b) && initiates(b, a) {
        lemma_precedes_transitive(a, b, a);
        lemma_precedes_irreflexive(a);
    }
}

impl Clone for NodeId {
    fn clone(&self) -> (r: Self)
        ensures
            r == *self,
    {
        NodeId(self.0.clone())
    }
}

impl PartialEq for NodeId {
    fn eq(&self, other: &NodeId) -> (r: bool) {
        self.0 == other.0
    }
}

impl vstd::std_specs::cmp::PartialEqSpecImpl for NodeId {
    open spec fn obeys_eq_spec() -> bool {
        true
    }

    open spec fn eq_spec(&self, other: &NodeId) -> bool {
        self@ == other@
    }
}

/// How two names stand to each other in alphabetical order.
pub open spec fn order_of(a: Seq<char>, b: Seq<char>) -> Ordering {
    if a == b {
        Ordering::Equal
    } else if precedes(a, b) {
        Ordering::Less
    } else {
        Ordering::Greater
    }
}

impl PartialOrd for NodeId {
    fn partial_cmp(&self, other: &NodeId) -> (r: Option<Ordering>) {
        if *self == *other {
            Some(Ordering::Equal)
        } else if str_precedes(self.0.as_str(), other.0.as_str()) {
            Some(Ordering::Less)
        } else {
            Some(Ordering::Greater)
        }
    }
}

impl vstd::std_specs::cmp::PartialOrdSpecImpl for NodeId {
    open spec fn obeys_partial_cmp_spec() -> bool {
        true
    }

    open spec fn partial_cmp_spec(&self, other: &NodeId) -> Option<Ordering> {
        Some(order_of(self@, other@))
    }
}

/// Nodes are the same if their names are, and ordered as their names are: of two, one comes first or they are the same,
/// and the order goes through.
pub proof fn law_nodes_are_ordered_by_name(a: NodeId, b: NodeId, c: NodeId)
    ensures
        a.eq_spec(&b) <==> a@ == b@,
        a.partial_cmp_spec(&b) == Some(Ordering::Equal) <==> a@ == b@,
        a.partial_cmp_spec(&b) == Some(Ordering::Less) <==> precedes(a@, b@),
        a.partial_cmp_spec(&b) == Some(Ordering::Greater) <==> precedes(b@, a@),
        precedes(a@, b@) && precedes(b@, c@) ==> precedes(a@, c@),
{
    lemma_precedes_total(a@, b@);
    lemma_precedes_irreflexive(a@);
    if precedes(a@, b@) && precedes(b@, a@) {
        lemma_precedes_transitive(a@, b@, a@);
    }
    if precedes(a@, b@) && precedes(b@, c@) {
        lemma_precedes_transitive(a@, b@, c@);
    }
}

/// A message on its way to one node, or to all of them.
#[derive(Clone, Debug)]
pub struct OutgoingMessage<T> {
    pub to: Option<NodeId>,
    pub data: T,
}

/// A message that arrived from a node.
#[derive(Debug)]
pub struct IncomingMessage<T> {
    pub from: NodeId,
    pub data: T,
}

/// A set of nodes, in alphabetical order.
#[derive(Debug)]
pub struct NodeSet {
    nodes: NameMap<NodeId, ()>,
}

impl View for NodeSet {
    type V = Set<Seq<char>>;

    closed spec fn view(&self) -> Set<Seq<char>> {
        self.nodes@.dom()
    }
}

impl NodeSet {
    pub fn new() -> (r: Self)
        ensures
            r@ == Set::<Seq<char>>::empty(),
    {
        let r = NodeSet { nodes: NameMap::new() };
        assert(r@ =~= Set::<Seq<char>>::empty());
        r
    }

    pub fn insert(&mut self, node: NodeId)
        ensures
            final(self)@ == old(self)@.insert(node@),
    {
        let ghost before = *self;
        self.nodes.insert(node, ());
        assert(self@ =~= before@.insert(node@));
    }

    pub fn remove(&mut self, node: &NodeId)
        ensures
            final(self)@ == old(self)@.remove(node@),
    {
        let ghost before = *self;
        let _ = self.nodes.remove(node.as_str());
        assert(self@ =~= before@.remove(node@));
    }

    pub fn contains(&self, node: &NodeId) -> (r: bool)
        ensures
            r == self@.contains(node@),
    {
        self.nodes.contains(node.as_str())
    }

    /// How many nodes there are.
    pub fn len(&self) -> (r: usize)
        ensures
            self@.finite(),
            r == self@.len(),
    {
        self.nodes.len()
    }

    /// The nodes in alphabetical order.
    pub fn ids(&self) -> (r: Vec<NodeId>)
        ensures
            ascending(r@),
            forall|name: Seq<char>| #[trigger] self@.contains(name) <==> has_name(r@, name),
    {
        let entries = self.nodes.entries();
        let mut ids: Vec<NodeId> = Vec::new();
        let mut i: usize = 0;
        while i < entries.len()
            invariant
                i <= entries.len(),
                ids@ == keys_of(entries@).take(i as int),
            decreases entries.len() - i,
        {
            ids.push(entries[i].0.clone());
            i += 1;
            assert(keys_of(entries@).take(i as int) =~= keys_of(entries@).take(i - 1).push(entries@[i - 1].0));
        }
        assert(ids@ =~= keys_of(entries@));
        ids
    }
}

/// What the parts of a node send each other over the network.
#[derive(Debug)]
pub enum Message {
    Keygen(KeygenMessage),
    Raft(RaftMessage),
    Signer(SignerMessage),
}

/// A message that arrived, for the part of the node that it is for.
#[derive(Debug)]
pub enum Routed {
    Keygen(IncomingMessage<KeygenMessage>),
    Raft(IncomingMessage<RaftMessage>),
    Signer(IncomingMessage<SignerMessage>),
}

/// The parts of a node that take messages from the network.
#[derive(Debug)]
pub struct Network {
    pub id: NodeId,
    pub port: u16,
    pub keygen: bool,
    pub raft: bool,
    pub signer: bool,
}

impl Network {
    /// No part of the node takes messages yet.
    pub fn new(id: NodeId, port: u16) -> (r: Self)
        ensures
            r == (Network { id, port, keygen: false, raft: false, signer: false }),
    {
        Network { id, port, keygen: false, raft: false, signer: false }
    }

    /// Key generation takes messages from now on.
    pub fn keygen_channel(&mut self)
        ensures
            *final(self) == (Network { keygen: true, ..*old(self) }),
    {
        self.keygen = true;
    }

    /// Leader election takes messages from now on.
    pub fn raft_channel(&mut self)
        ensures
            *final(self) == (Network { raft: true, ..*old(self) }),
    {
        self.raft = true;
    }

    /// Signing takes messages from now on.
    pub fn signer_channel(&mut self)
        ensures
            *final(self) == (Network { signer: true, ..*old(self) }),
    {
        self.signer = true;
    }

    /// Which part of the node a message is for; nothing where that part takes none.
    pub fn route(&self, from: NodeId, message: Message) -> (r: Option<Routed>)
        ensures
            r == match message {
                Message::Keygen(data) => if self.keygen {
                    Some(Routed::Keygen(IncomingMessage { from, data }))
                } else {
                    None
                },
                Message::Raft(data) => if self.raft {
                    Some(Routed::Raft(IncomingMessage { from, data }))
                } else {
                    None
                },
                Message::Signer(data) => if self.signer {
                    Some(Routed::Signer(IncomingMessage { from, data }))
                } else {
                    None
                },
            },
    {
        match message {
            Message::Keygen(data) => if self.keygen {
                Some(Routed::Keygen(IncomingMessage { from, data }))
            } else {
                None
            },
            Message::Raft(data) => if self.raft {
                Some(Routed::Raft(IncomingMessage { from, data }))
            } else {
                None
            },
            Message::Signer(data) => if self.signer {
                Some(Routed::Signer(IncomingMessage { from, data }))
            } else {
                None
            },
        }
    }
}

} // verus!
