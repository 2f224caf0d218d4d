//! Whom a node connects to and sends messages to, and when it tries again.

use vstd::prelude::*;

use crate::config::Peer;
use crate::names::{ascending, has_name, keys_of, lemma_entry, lemma_place, lemma_pushed_name, precedes, Named};
use crate::network::handshake::Core;
use crate::network::{initiates, law_one_side_initiates, NodeId, NodeSet};

pub mod laws;

verus! {

/// These nodes, in alphabetical order, are those whose names `chosen` picks.
pub open spec fn are_chosen(nodes: Seq<NodeId>, chosen: Set<Seq<char>>) -> bool {
    &&& ascending(nodes)
    &&& forall|name: Seq<char>| has_name(nodes, name) <==> #[trigger] chosen.contains(name)
}

/// The peers that this node opens connections to.
pub open spec fn outgoing_peers(id: Seq<char>, peers: Set<Seq<char>>) -> Set<Seq<char>> {
    peers.filter(|peer: Seq<char>| initiates(id, peer))
}

/// The peers that open connections to this node.
pub open spec fn incoming_peers(id: Seq<char>, peers: Set<Seq<char>>) -> Set<Seq<char>> {
    peers.filter(|peer: Seq<char>| !initiates(id, peer))
}

impl Core {
    /// The peers that this node opens connections to, and those that it waits for.
    pub fn connections(&self) -> (r: (Vec<NodeId>, Vec<NodeId>))
        ensures
            are_chosen(r.0@, outgoing_peers(self@.id, self@.peers.dom())),
            are_chosen(r.1@, incoming_peers(self@.id, self@.peers.dom())),
    {
        let peers = self.peers();
        let entries = peers.entries();
        let ghost keys = keys_of(entries@);
        let mut outgoing: Vec<NodeId> = Vec::new();
        let mut incoming: Vec<NodeId> = Vec::new();
        let mut i: usize = 0;
        while i < entries.len()
            invariant
                i <= entries.len(),
                keys == keys_of(entries@),
                ascending(keys),
                ascending(outgoing@),
                ascending(incoming@),
                forall|name: Seq<char>| #[trigger]
                    has_name(outgoing@, name) <==> has_name(keys.take(i as int), name) && initiates(self@.id, name),
                forall|name: Seq<char>| #[trigger]
                    has_name(incoming@, name) <==> has_name(keys.take(i as int), name) && !initiates(self@.id, name),
            decreases entries.len() - i,
        {
            let id = entries[i].0.clone();
            let ghost (before_out, before_in) = (outgoing@, incoming@);
            let ghost earlier = keys.take(i as int);
            proof {
                assert(keys.take(i + 1) =~= earlier.push(keys[i as int]));
                assert forall|name: Seq<char>| #[trigger]
                    has_name(keys.take(i + 1), name) <==> has_name(earlier, name) || id@ == name by {
                    lemma_pushed_name(earlier, keys[i as int], name);
                }
                assert forall|k: int| 0 <= k < before_out.len() implies precedes(
                    (#[trigger] before_out[k])@,
                    id@,
                ) by {
                    assert(has_name(before_out, before_out[k]@));
                    let j = choose|j: int| 0 <= j < earlier.len() && (#[trigger] earlier[j])@ == before_out[k]@;
                    assert(precedes(keys[j].name(), keys[i as int].name()));
                    assert(keys[j]@ == before_out[k]@);
                }
                assert forall|k: int| 0 <= k < before_in.len() implies precedes(
                    (#[trigger] before_in[k])@,
                    id@,
                ) by {
                    assert(has_name(before_in, before_in[k]@));
                    let j = choose|j: int| 0 <= j < earlier.len() && (#[trigger] earlier[j])@ == before_in[k]@;
                    assert(precedes(keys[j].name(), keys[i as int].name()));
                    assert(keys[j]@ == before_in[k]@);
                }
            }
            if self.id().should_initiate_connection_to(&id) {
                outgoing.push(id);
                proof {
                    assert forall|name: Seq<char>| #[trigger] has_name(outgoing@, name) <==> has_name(before_out, name)
                        || id@ == name by {
                        lemma_pushed_name(before_out, id, name);
                    }
                }
            } else {
                incoming.push(id);
                proof {
                    assert forall|name: Seq<char>| #[trigger] has_name(incoming@, name) <==> has_name(before_in, name)
                        || id@ == name by {
                        lemma_pushed_name(before_in, id, name);
                    }
                }
            }
            i += 1;
        }
        proof {
            assert(keys.take(i as int) =~= keys);
            assert forall|name: Seq<char>| has_name(keys, name) <==> #[trigger] self@.peers.contains_key(name) by {
                assert(peers@.contains_key(name) <==> peers@.map_values(
                    |peer: Peer| peer@,
                ).contains_key(name));
                if has_name(keys, name) {
                    let k = choose|k: int| 0 <= k < keys.len() && (#[trigger] keys[k])@ == name;
                    lemma_entry(entries@, k);
                }
                if peers@.contains_key(name) {
                    let k = lemma_place(entries@, name);
                    assert(keys[k]@ == name);
                }
            }
        }
        (outgoing, incoming)
    }

    /// Whom a message goes to: to one peer, or to all of them. Nothing for a node that is no peer.
    pub fn recipients(&self, to: Option<NodeId>) -> (r: Option<Vec<NodeId>>)
        ensures
            r is Some <==> (to matches Some(id) ==> self@.peers.contains_key(id@)),
            r is Some ==> are_chosen(
                r->0@,
                match to {
                    Some(id) => set![id@],
                    None => self@.peers.dom(),
                },
            ),
    {
        let peers = self.peers();
        match to {
            Some(id) => {
                assert(peers@.contains_key(id@) <==> peers@.map_values(
                    |peer: Peer| peer@,
                ).contains_key(id@));
                if !peers.contains(id.as_str()) {
                    return None;
                }
                let mut recipients: Vec<NodeId> = Vec::new();
                let ghost none = recipients@;
                recipients.push(id);
                proof {
                    assert forall|name: Seq<char>| has_name(recipients@, name) <==> #[trigger] set![id@].contains(
                        name,
                    ) by {
                        lemma_pushed_name(none, id, name);
                    }
                }
                Some(recipients)
            },
            None => {
                let entries = peers.entries();
                let ghost keys = keys_of(entries@);
                let mut recipients: Vec<NodeId> = Vec::new();
                let mut i: usize = 0;
                while i < entries.len()
                    invariant
                        i <= entries.len(),
                        keys == keys_of(entries@),
                        recipients@ == keys.take(i as int),
                    decreases entries.len() - i,
                {
                    recipients.push(entries[i].0.clone());
                    assert(keys.take(i + 1) =~= keys.take(i as int).push(keys[i as int]));
                    i += 1;
                }
                proof {
                    assert(keys.take(i as int) =~= keys);
                    assert forall|name: Seq<char>| has_name(keys, name) <==> #[trigger] self@.peers.dom().contains(
                        name,
                    ) by {
                        assert(peers@.contains_key(name) <==> peers@.map_values(
                            |peer: Peer| peer@,
                        ).contains_key(name));
                        if has_name(keys, name) {
                            let k = choose|k: int| 0 <= k < keys.len() && (#[trigger] keys[k])@ == name;
                            lemma_entry(entries@, k);
                        }
                        if peers@.contains_key(name) {
                            let k = lemma_place(entries@, name);
                            assert(keys[k]@ == name);
                        }
                    }
                }
                Some(recipients)
            },
        }
    }
}

/// Every pair of peers has one connection: whatever peer a node opens connections to waits for them, and the other
/// way round.
pub proof fn law_peers_fit_together(
    a: Seq<char>,
    peers_of_a: Set<Seq<char>>,
    b: Seq<char>,
    peers_of_b: Set<Seq<char>>,
)
    requires
        a != b,
        peers_of_a.contains(b),
        peers_of_b.contains(a),
    ensures
        outgoing_peers(a, peers_of_a).contains(b) <==> incoming_peers(b, peers_of_b).contains(a),
        incoming_peers(a, peers_of_a).contains(b) <==> outgoing_peers(b, peers_of_b).contains(a),
{
    law_one_side_initiates(a, b);
}

/// The peers that messages cannot be sent to at the moment.
#[derive(Debug)]
pub struct Delivery {
    unhealthy_peers: NodeSet,
}

impl View for Delivery {
    type V = Set<Seq<char>>;

    closed spec fn view(&self) -> Set<Seq<char>> {
        self.unhealthy_peers@
    }
}

impl Delivery {
    pub fn new() -> (r: Self)
        ensures
            r@ == Set::<Seq<char>>::empty(),
    {
        Delivery { unhealthy_peers: NodeSet::new() }
    }

    /// A message was sent, or it was not. Gives whether to warn of it: only of the first in a row.
    pub fn note(&mut self, id: &NodeId, was_sent: bool) -> (r: bool)
        ensures
            final(self)@ == if was_sent {
                old(self)@.remove(id@)
            } else {
                old(self)@.insert(id@)
            },
            r == (!was_sent && !old(self)@.contains(id@)),
    {
        if was_sent {
            self.unhealthy_peers.remove(id);
            false
        } else {
            let is_new = !self.unhealthy_peers.contains(id);
            self.unhealthy_peers.insert(id.clone());
            is_new
        }
    }
}

/// How long to wait before the next attempt to connect, in seconds.
#[derive(Debug)]
pub struct Backoff {
    sleep_seconds: u64,
}

impl View for Backoff {
    type V = nat;

    closed spec fn view(&self) -> nat {
        self.sleep_seconds as nat
    }
}

/// The wait grows from one second to eight.
pub open spec fn longer_wait(seconds: nat) -> nat {
    if seconds < 8 {
        seconds * 2
    } else {
        seconds
    }
}

impl Backoff {
    #[verifier::type_invariant]
    spec fn wf(&self) -> bool {
        self.sleep_seconds == 1 || self.sleep_seconds == 2 || self.sleep_seconds == 4 || self.sleep_seconds == 8
    }

    pub fn new() -> (r: Self)
        ensures
            r@ == 1,
    {
        Backoff { sleep_seconds: 1 }
    }

    /// An attempt failed. Gives how long to wait before the next one.
    pub fn fail(&mut self) -> (r: u64)
        ensures
            r == old(self)@,
            1 <= r <= 8,
            final(self)@ == longer_wait(old(self)@),
    {
        proof {
            use_type_invariant(&*self);
        }
        let seconds: u64 = self.sleep_seconds;
        if seconds < 8 {
            self.sleep_seconds = seconds * 2;
        }
        seconds
    }

    /// An attempt succeeded.
    pub fn succeed(&mut self)
        ensures
            final(self)@ == 1,
    {
        self.sleep_seconds = 1;
    }
}

/// The connections that peers open to this node: at most one for each peer that is to open them.
#[derive(Debug)]
pub struct IncomingConnections {
    expected: NodeSet,
    active: NodeSet,
}

pub struct IncomingView {
    /// The peers that open connections to this node.
    pub expected: Set<Seq<char>>,
    /// The peers that have done so.
    pub active: Set<Seq<char>>,
}

impl View for IncomingConnections {
    type V = IncomingView;

    closed spec fn view(&self) -> IncomingView {
        IncomingView { expected: self.expected@, active: self.active@ }
    }
}

/// Why a peer that was let in cannot have a connection.
#[derive(Debug, Clone, Copy, PartialEq, Eq, Structural)]
pub enum Refusal {
    /// No connection of this peer is expected.
    NotExpected,
    /// There is a connection of this peer already.
    AlreadyConnected,
}

impl Refusal {
    /// What the peer is told.
    pub open spec fn text(self) -> Seq<char> {
        match self {
            Refusal::NotExpected => "Missing outgoing message receiver"@,
            Refusal::AlreadyConnected => "You are already connected"@,
        }
    }

    /// What the peer is told.
    pub fn reason(&self) -> (r: String)
        ensures
            r@ == self.text(),
    {
        match self {
            Refusal::NotExpected => "Missing outgoing message receiver".to_owned(),
            Refusal::AlreadyConnected => "You are already connected".to_owned(),
        }
    }

    /// Whether the connection to the peer counts as unhealthy: not where there is another one that works.
    pub fn is_unhealthy(&self) -> (r: bool)
        ensures
            r == (*self == Refusal::NotExpected),
    {
        match self {
            Refusal::NotExpected => true,
            Refusal::AlreadyConnected => false,
        }
    }
}

impl IncomingConnections {
    /// No peer has opened a connection yet.
    pub fn new(core: &Core) -> (r: Self)
        ensures
            r@.expected == incoming_peers(core@.id, core@.peers.dom()),
            r@.active == Set::<Seq<char>>::empty(),
    {
        let (_, incoming) = core.connections();
        let mut expected = NodeSet::new();
        let mut i: usize = 0;
        assert(expected@ =~= Set::<Seq<char>>::empty());
        while i < incoming.len()
            invariant
                i <= incoming.len(),
                forall|name: Seq<char>| #[trigger] expected@.contains(name) <==> has_name(incoming@.take(i as int), name),
            decreases incoming.len() - i,
        {
            expected.insert(incoming[i].clone());
            proof {
                assert(incoming@.take(i + 1) =~= incoming@.take(i as int).push(incoming@[i as int]));
                assert forall|name: Seq<char>| #[trigger] expected@.contains(name) <==> has_name(
                    incoming@.take(i + 1),
                    name,
                ) by {
                    lemma_pushed_name(incoming@.take(i as int), incoming@[i as int], name);
                }
            }
            i += 1;
        }
        assert(incoming@.take(i as int) =~= incoming@);
        assert(expected@ =~= incoming_peers(core@.id, core@.peers.dom()));
        IncomingConnections { expected, active: NodeSet::new() }
    }

    /// A peer that was let in wants its connection.
    pub fn claim(&mut self, peer: &NodeId) -> (r: Result<(), Refusal>)
        ensures
            final(self)@.expected == old(self)@.expected,
            r == (if !old(self)@.expected.contains(peer@) {
                Err(Refusal::NotExpected)
            } else if old(self)@.active.contains(peer@) {
                Err(Refusal::AlreadyConnected)
            } else {
                Ok(())
            }),
            final(self)@.active == if r is Ok {
                old(self)@.active.insert(peer@)
            } else {
                old(self)@.active
            },
    {
        if !self.expected.contains(peer) {
            return Err(Refusal::NotExpected);
        }
        if self.active.contains(peer) {
            return Err(Refusal::AlreadyConnected);
        }
        self.active.insert(peer.clone());
        Ok(())
    }

    /// A peer's connection has ended.
    pub fn release(&mut self, peer: &NodeId)
        ensures
            final(self)@.expected == old(self)@.expected,
            final(self)@.active == old(self)@.active.remove(peer@),
    {
        self.active.remove(peer);
    }
}

} // verus!
