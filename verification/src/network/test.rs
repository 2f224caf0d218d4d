//! A network inside one process: messages move when they are told to.

use vstd::prelude::*;

use crate::names::{ascending, has_name, keys_of, lemma_ascending_unique, lemma_entry, lemma_place, lemma_pushed_name};
use crate::names::{names_ascend, precedes, NameMap, Named};
use crate::network::{IncomingMessage, NodeId, OutgoingMessage};
use crate::numbers::{decimal_digits, u64_to_text};
use crate::price_feed::Copied;

pub mod laws;

verus! {

/// A message on its way: to one node, or to all of them.
pub struct OutgoingView<V> {
    pub to: Option<Seq<char>>,
    pub data: V,
}

/// A message that arrived from a node.
pub struct IncomingView<V> {
    pub from: Seq<char>,
    pub data: V,
}

/// What a message on its way says.
pub open spec fn outgoing<T: View>(message: OutgoingMessage<T>) -> OutgoingView<T::V> {
    OutgoingView {
        to: match message.to {
            Some(id) => Some(id@),
            None => None,
        },
        data: message.data@,
    }
}

/// What a message that arrived says.
pub open spec fn incoming<T: View>(message: IncomingMessage<T>) -> IncomingView<T::V> {
    IncomingView { from: message.from@, data: message.data@ }
}

/// What messages on their way say.
pub open spec fn all_outgoing<T: View>(messages: Seq<OutgoingMessage<T>>) -> Seq<OutgoingView<T::V>> {
    Seq::new(messages.len(), |i: int| outgoing(messages[i]))
}

/// What messages that arrived say.
pub open spec fn all_incoming<T: View>(messages: Seq<IncomingMessage<T>>) -> Seq<IncomingView<T::V>> {
    Seq::new(messages.len(), |i: int| incoming(messages[i]))
}

/// A network inside one process.
pub struct TestNetwork<T: Copied> {
    outgoing: NameMap<NodeId, Vec<OutgoingMessage<T>>>,
    incoming: NameMap<NodeId, Vec<IncomingMessage<T>>>,
}

/// What is on its way from each node, and what has arrived at each node.
pub struct TestNetworkView<V> {
    pub outgoing: Map<Seq<char>, Seq<OutgoingView<V>>>,
    pub incoming: Map<Seq<char>, Seq<IncomingView<V>>>,
}

impl<T: Copied> View for TestNetwork<T> {
    type V = TestNetworkView<T::V>;

    closed spec fn view(&self) -> TestNetworkView<T::V> {
        TestNetworkView {
            outgoing: self.outgoing@.map_values(|queue: Vec<OutgoingMessage<T>>| all_outgoing(queue@)),
            incoming: self.incoming@.map_values(|queue: Vec<IncomingMessage<T>>| all_incoming(queue@)),
        }
    }
}

/// Whether a message from one node is for another: a node gets none of its own.
pub open spec fn is_for<V>(from: Seq<char>, message: OutgoingView<V>, node: Seq<char>) -> bool {
    from != node && (message.to is None || message.to == Some(node))
}

impl<V> TestNetworkView<V> {
    /// Nothing is on its way from or has arrived at this node.
    pub open spec fn with_node(self, id: Seq<char>) -> TestNetworkView<V> {
        TestNetworkView {
            outgoing: self.outgoing.insert(id, seq![]),
            incoming: self.incoming.insert(id, seq![]),
        }
    }

    /// What has arrived once a message was delivered.
    pub open spec fn delivered(self, from: Seq<char>, message: OutgoingView<V>) -> Map<Seq<char>, Seq<IncomingView<V>>> {
        self.incoming.map_entries(
            |node: Seq<char>, queue: Seq<IncomingView<V>>|
                if is_for(from, message, node) {
                    queue.push(IncomingView { from, data: message.data })
                } else {
                    queue
                },
        )
    }

    /// The first message of a node was delivered.
    pub open spec fn moved(self, from: Seq<char>) -> TestNetworkView<V> {
        if self.outgoing[from].len() == 0 {
            self
        } else {
            TestNetworkView {
                outgoing: self.outgoing.insert(from, self.outgoing[from].drop_first()),
                incoming: self.delivered(from, self.outgoing[from].first()),
            }
        }
    }

    /// The first `count` messages of a node were delivered.
    pub open spec fn moved_all(self, from: Seq<char>, count: nat) -> TestNetworkView<V>
        decreases count,
    {
        if count == 0 {
            self
        } else {
            self.moved(from).moved_all(from, (count - 1) as nat)
        }
    }

    /// All messages of a node were delivered.
    pub open spec fn drained_one(self, from: Seq<char>) -> TestNetworkView<V> {
        self.moved_all(from, self.outgoing[from].len())
    }

    /// All messages of these nodes were delivered, of one after the other.
    pub open spec fn drained(self, nodes: Seq<Seq<char>>) -> TestNetworkView<V>
        decreases nodes.len(),
    {
        if nodes.len() == 0 {
            self
        } else {
            self.drained(nodes.drop_last()).drained_one(nodes.last())
        }
    }
}

/// No messages.
fn no_messages<M>() -> (r: Vec<M>)
    ensures
        r@.len() == 0,
{
    Vec::new()
}

impl<T: Copied> TestNetwork<T> {
    pub fn new() -> (r: Self)
        ensures
            r@.outgoing == Map::<Seq<char>, Seq<OutgoingView<T::V>>>::empty(),
            r@.incoming == Map::<Seq<char>, Seq<IncomingView<T::V>>>::empty(),
    {
        let r = TestNetwork { outgoing: NameMap::new(), incoming: NameMap::new() };
        assert(r@.outgoing =~= Map::empty());
        assert(r@.incoming =~= Map::empty());
        r
    }

    /// A new node, named by how many there were before it.
    pub fn connect(&mut self) -> (r: NodeId)
        ensures
            r@ == decimal_digits(old(self)@.outgoing.dom().len()),
            final(self)@ == old(self)@.with_node(r@),
    {
        let count: usize = self.outgoing.len();
        assert(self.outgoing@.dom() =~= self@.outgoing.dom());
        let node_id = NodeId::new(u64_to_text(count as u64));
        self.reconnect(&node_id);
        node_id
    }

    /// A node starts anew: what was on its way from it or had arrived at it is lost.
    pub fn reconnect(&mut self, node_id: &NodeId)
        ensures
            final(self)@ == old(self)@.with_node(node_id@),
    {
        let nothing_out: Vec<OutgoingMessage<T>> = no_messages();
        let nothing_in: Vec<IncomingMessage<T>> = no_messages();
        proof {
            assert(all_outgoing(nothing_out@) =~= seq![]);
            assert(all_incoming(nothing_in@) =~= seq![]);
        }
        self.outgoing.insert(node_id.clone(), nothing_out);
        self.incoming.insert(node_id.clone(), nothing_in);
        assert(self@.outgoing =~= old(self)@.outgoing.insert(node_id@, seq![]));
        assert(self@.incoming =~= old(self)@.incoming.insert(node_id@, seq![]));
    }

    /// A node sends a message.
    pub fn send(&mut self, from: &NodeId, message: OutgoingMessage<T>)
        requires
            old(self)@.outgoing.contains_key(from@),
        ensures
            final(self)@.incoming == old(self)@.incoming,
            final(self)@.outgoing == old(self)@.outgoing.insert(
                from@,
                old(self)@.outgoing[from@].push(outgoing(message)),
            ),
    {
        assert(self.outgoing@.contains_key(from@));
        let mut queue = self.outgoing.remove(from.as_str()).unwrap();
        let ghost before = queue@;
        queue.push(message);
        assert(all_outgoing(queue@) =~= all_outgoing(before).push(outgoing(message)));
        self.outgoing.insert(from.clone(), queue);
        assert(self@.outgoing =~= old(self)@.outgoing.insert(
            from@,
            old(self)@.outgoing[from@].push(outgoing(message)),
        ));
    }

    /// A node is gone: it neither sends nor gets messages.
    pub fn disconnect(&mut self, node_id: &NodeId)
        ensures
            final(self)@.outgoing == old(self)@.outgoing.remove(node_id@),
            final(self)@.incoming == old(self)@.incoming.remove(node_id@),
    {
        let _ = self.outgoing.remove(node_id.as_str());
        let _ = self.incoming.remove(node_id.as_str());
        assert(self@.outgoing =~= old(self)@.outgoing.remove(node_id@));
        assert(self@.incoming =~= old(self)@.incoming.remove(node_id@));
    }

    /// A node takes in the first message that has arrived, if there is one.
    pub fn try_recv(&mut self, node: &NodeId) -> (r: Option<IncomingMessage<T>>)
        ensures
            final(self)@.outgoing == old(self)@.outgoing,
            r is Some <==> old(self)@.incoming.contains_key(node@) && old(self)@.incoming[node@].len() > 0,
            r is Some ==> incoming(r->0) == old(self)@.incoming[node@].first(),
            final(self)@.incoming == if r is Some {
                old(self)@.incoming.insert(node@, old(self)@.incoming[node@].drop_first())
            } else {
                old(self)@.incoming
            },
    {
        match self.incoming.remove(node.as_str()) {
            Some(messages) => {
                let mut queue = messages;
                let ghost before = queue@;
                let first = if queue.len() > 0 {
                    Some(queue.remove(0))
                } else {
                    None
                };
                assert(first is Some ==> all_incoming(queue@) =~= all_incoming(before).drop_first());
                self.incoming.insert(node.clone(), queue);
                assert(self@.incoming =~= if first is Some {
                    old(self)@.incoming.insert(node@, old(self)@.incoming[node@].drop_first())
                } else {
                    old(self)@.incoming
                });
                first
            },
            None => {
                assert(self@.incoming =~= old(self)@.incoming);
                None
            },
        }
    }

    /// Hands a message to those it is for.
    fn deliver(&mut self, from: &NodeId, message: &OutgoingMessage<T>)
        ensures
            final(self)@.outgoing == old(self)@.outgoing,
            final(self)@.incoming == old(self)@.delivered(from@, outgoing(*message)),
    {
        let ghost before = self@.incoming;
        let ghost target = self@.delivered(from@, outgoing(*message));
        let mut queues: NameMap<NodeId, Vec<IncomingMessage<T>>> = NameMap::new();
        core::mem::swap(&mut self.incoming, &mut queues);
        let mut rest = queues.into_entries();
        let ghost all = rest@;
        let ghost mut n: int = 0;
        let mut delivered: NameMap<NodeId, Vec<IncomingMessage<T>>> = NameMap::new();
        proof {
            assert forall|k: int| 0 <= k < all.len() implies before.contains_key((#[trigger] all[k]).0@)
                && before[all[k].0@] == all_incoming(all[k].1@) by {
                lemma_entry(all, k);
            }
            assert forall|name: Seq<char>| #[trigger] before.contains_key(name) implies has_name(keys_of(all), name) by {
                let k = lemma_place(all, name);
                assert(keys_of(all)[k]@ == name);
            }
        }
        while rest.len() > 0
            invariant
                0 <= n <= all.len(),
                rest@ == all.skip(n),
                ascending(keys_of(all)),
                forall|k: int|
                    0 <= k < all.len() ==> before.contains_key((#[trigger] all[k]).0@) && before[all[k].0@]
                        == all_incoming(all[k].1@),
                target == (TestNetworkView { outgoing: old(self)@.outgoing, incoming: before }).delivered(
                    from@,
                    outgoing(*message),
                ),
                forall|name: Seq<char>| #[trigger]
                    delivered@.contains_key(name) <==> has_name(keys_of(all).take(n), name),
                forall|name: Seq<char>| #[trigger]
                    delivered@.contains_key(name) ==> all_incoming(delivered@[name]@) == target[name],
            decreases rest.len(),
        {
            let (id, queue) = rest.remove(0);
            let mut queue = queue;
            let ghost earlier = queue@;
            let ghost previous = delivered@;
            assert((id, queue) == all[n]);
            let is_recipient = *from != id && match &message.to {
                Some(to) => *to == id,
                None => true,
            };
            if is_recipient {
                queue.push(IncomingMessage { from: from.clone(), data: message.data.copied() });
                assert(all_incoming(queue@) =~= all_incoming(earlier).push(
                    IncomingView { from: from@, data: message.data@ },
                ));
            }
            assert(all_incoming(queue@) == target[id@]);
            delivered.insert(id, queue);
            proof {
                let keys = keys_of(all);
                assert(rest@ =~= all.skip(n + 1));
                assert(keys.take(n + 1) =~= keys.take(n).push(keys[n]));
                assert forall|name: Seq<char>| #[trigger] delivered@.contains_key(name) <==> has_name(
                    keys.take(n + 1),
                    name,
                ) by {
                    lemma_pushed_name(keys.take(n), keys[n], name);
                }
                n = n + 1;
            }
        }
        proof {
            assert(keys_of(all).take(n) =~= keys_of(all));
        }
        self.incoming = delivered;
        assert(self@.incoming =~= target);
    }

    /// Delivers the first message of a node, if there is one, and gives it.
    pub fn next_message_from(&mut self, from: &NodeId) -> (r: Option<OutgoingMessage<T>>)
        requires
            old(self)@.outgoing.contains_key(from@),
        ensures
            r is Some <==> old(self)@.outgoing[from@].len() > 0,
            r is Some ==> outgoing(r->0) == old(self)@.outgoing[from@].first(),
            final(self)@ == old(self)@.moved(from@),
    {
        assert(self.outgoing@.contains_key(from@));
        let mut queue = self.outgoing.remove(from.as_str()).unwrap();
        let ghost before = queue@;
        if queue.len() == 0 {
            self.outgoing.insert(from.clone(), queue);
            assert(self@.outgoing =~= old(self)@.outgoing);
            return None;
        }
        let message = queue.remove(0);
        assert(all_outgoing(queue@) =~= all_outgoing(before).drop_first());
        self.outgoing.insert(from.clone(), queue);
        assert(self@.outgoing =~= old(self)@.outgoing.insert(from@, old(self)@.outgoing[from@].drop_first()));
        self.deliver(from, &message);
        Some(message)
    }

    /// Delivers all messages of a node, and gives them.
    pub fn drain_one(&mut self, from: &NodeId) -> (r: Vec<OutgoingMessage<T>>)
        requires
            old(self)@.outgoing.contains_key(from@),
        ensures
            all_outgoing(r@) == old(self)@.outgoing[from@],
            final(self)@ == old(self)@.drained_one(from@),
            final(self)@.outgoing == old(self)@.outgoing.insert(from@, seq![]),
    {
        let ghost all = self@.outgoing[from@];
        let ghost target = self@.drained_one(from@);
        let ghost start = self@.outgoing;
        let mut sent: Vec<OutgoingMessage<T>> = no_messages();
        assert(all_outgoing(sent@) =~= all.take(0));
        assert(start.insert(from@, all) =~= start);
        assert(all.skip(0) =~= all);
        loop
            invariant
                sent@.len() <= all.len(),
                all_outgoing(sent@) == all.take(sent@.len() as int),
                self@.outgoing.contains_key(from@),
                self@.outgoing[from@] == all.skip(sent@.len() as int),
                self@.outgoing == start.insert(from@, all.skip(sent@.len() as int)),
                target == self@.moved_all(from@, self@.outgoing[from@].len()),
            ensures
                sent@.len() == all.len(),
            decreases all.len() - sent@.len(),
        {
            let ghost before = self@;
            match self.next_message_from(from) {
                Some(message) => {
                    let ghost earlier = sent@;
                    sent.push(message);
                    proof {
                        let n = earlier.len() as int;
                        assert(all.skip(n).first() == all[n]);
                        assert(all.skip(n).drop_first() =~= all.skip(n + 1));
                        assert(all_outgoing(sent@) =~= all.take(n + 1));
                        assert(self@.outgoing =~= start.insert(from@, all.skip(n + 1)));
                    }
                },
                None => {
                    break;
                },
            }
        }
        proof {
            assert(all.take(all.len() as int) =~= all);
            assert(all.skip(all.len() as int) =~= seq![]);
        }
        sent
    }

    /// Delivers all messages of all nodes, in alphabetical order of the nodes. Gives whether there were any.
    pub fn drain(&mut self) -> (r: bool)
        ensures
            exists|nodes: Seq<Seq<char>>| #[trigger]
                names_ascend(nodes) && nodes.to_set() == old(self)@.outgoing.dom() && final(self)@
                    == old(self)@.drained(nodes),
            r == exists|node: Seq<char>| #[trigger]
                old(self)@.outgoing.contains_key(node) && old(self)@.outgoing[node].len() > 0,
            forall|node: Seq<char>| #[trigger]
                final(self)@.outgoing.contains_key(node) ==> final(self)@.outgoing[node].len() == 0,
    {
        let mut targets: Vec<NodeId> = Vec::new();
        let ghost start = self@;
        let ghost keys = keys_of(self.outgoing.listed());
        {
            let entries = self.outgoing.entries();
            let mut i: usize = 0;
            while i < entries.len()
                invariant
                    i <= entries.len(),
                    keys == keys_of(entries@),
                    targets@ == keys.take(i as int),
                decreases entries.len() - i,
            {
                targets.push(entries[i].0.clone());
                assert(keys.take(i + 1) =~= keys.take(i as int).push(keys[i as int]));
                i += 1;
            }
            proof {
                assert(keys.take(i as int) =~= keys);
                assert forall|name: Seq<char>| has_name(keys, name) <==> #[trigger] start.outgoing.contains_key(name) by {
                    if has_name(keys, name) {
                        let k = choose|k: int| 0 <= k < keys.len() && (#[trigger] keys[k])@ == name;
                        lemma_entry(entries@, k);
                    }
                    if start.outgoing.contains_key(name) {
                        let k = lemma_place(entries@, name);
                        assert(keys[k]@ == name);
                    }
                }
            }
        }
        let ghost names = Seq::new(keys.len(), |k: int| keys[k]@);
        let mut something_sent = false;
        let mut i: usize = 0;
        assert(names.take(0) =~= seq![]);
        while i < targets.len()
            invariant
                i <= targets.len(),
                targets@ == keys,
                ascending(keys),
                names == Seq::new(keys.len(), |k: int| keys[k]@),
                forall|name: Seq<char>| has_name(keys, name) <==> #[trigger] start.outgoing.contains_key(name),
                self@ == start.drained(names.take(i as int)),
                self@.outgoing.dom() == start.outgoing.dom(),
                forall|k: int| 0 <= k < i ==> self@.outgoing[(#[trigger] keys[k])@].len() == 0,
                forall|k: int| i <= k < keys.len() ==> self@.outgoing[(#[trigger] keys[k])@] == start.outgoing[keys[k]@],
                something_sent == exists|k: int| 0 <= k < i && start.outgoing[(#[trigger] keys[k])@].len() > 0,
            decreases targets.len() - i,
        {
            let ghost before = self@;
            proof {
                assert(has_name(keys, keys[i as int]@));
                assert(start.outgoing.contains_key(keys[i as int]@));
            }
            let sent = self.drain_one(&targets[i]);
            if sent.len() > 0 {
                something_sent = true;
            }
            proof {
                assert(names.take(i + 1).drop_last() =~= names.take(i as int));
                assert(names.take(i + 1).last() == keys[i as int]@);
                assert(self@.outgoing.dom() =~= start.outgoing.dom());
                assert forall|k: int| 0 <= k < keys.len() && k != i implies (#[trigger] keys[k])@ != keys[i as int]@ by {
                    if keys[k]@ == keys[i as int]@ {
                        lemma_ascending_unique(keys, k, i as int);
                    }
                }
                assert(all_outgoing(sent@) == start.outgoing[keys[i as int]@]);
                if sent@.len() == 0 && (exists|k: int| 0 <= k < i + 1 && start.outgoing[(#[trigger] keys[k])@].len() > 0) {
                    let k = choose|k: int| 0 <= k < i + 1 && start.outgoing[(#[trigger] keys[k])@].len() > 0;
                    assert(k < i);
                }
            }
            i += 1;
        }
        proof {
            assert(names.take(i as int) =~= names);
            assert forall|a: int, b: int| 0 <= a < b < names.len() implies precedes(
                #[trigger] names[a],
                #[trigger] names[b],
            ) by {
                assert(precedes(keys[a].name(), keys[b].name()));
            }
            assert(names.to_set() =~= start.outgoing.dom()) by {
                assert forall|name: Seq<char>| names.to_set().contains(name) <==> #[trigger] start.outgoing.dom().contains(
                    name,
                ) by {
                    assert(has_name(keys, name) <==> start.outgoing.contains_key(name));
                    if has_name(keys, name) {
                        let k = choose|k: int| 0 <= k < keys.len() && (#[trigger] keys[k])@ == name;
                        assert(names[k] == name);
                    }
                    if names.contains(name) {
                        let k = choose|k: int| 0 <= k < names.len() && names[k] == name;
                        assert(keys[k]@ == name);
                    }
                }
            }
            assert(names_ascend(names));
            assert(self@ == start.drained(names));
            assert forall|node: Seq<char>| #[trigger] self@.outgoing.contains_key(node) implies self@.outgoing[node].len()
                == 0 by {
                assert(start.outgoing.dom().contains(node));
                assert(start.outgoing.contains_key(node));
                let k = choose|k: int| 0 <= k < keys.len() && (#[trigger] keys[k])@ == node;
            }
            if something_sent {
                let k = choose|k: int| 0 <= k < i && start.outgoing[(#[trigger] keys[k])@].len() > 0;
                assert(has_name(keys, keys[k]@));
                assert(start.outgoing.contains_key(keys[k]@));
            }
            if exists|node: Seq<char>| #[trigger] start.outgoing.contains_key(node) && start.outgoing[node].len() > 0 {
                let node = choose|node: Seq<char>| #[trigger]
                    start.outgoing.contains_key(node) && start.outgoing[node].len() > 0;
                assert(has_name(keys, node));
                let k = choose|k: int| 0 <= k < keys.len() && (#[trigger] keys[k])@ == node;
                assert(start.outgoing[keys[k]@].len() > 0);
            }
        }
        something_sent
    }
}

} // verus!
