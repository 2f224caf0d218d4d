//! What holds of the network inside one process.

use vstd::prelude::*;

use crate::network::test::{IncomingView, TestNetworkView};

verus! {

/// The first message of a node arrives, behind what arrived before, at the node that it is for, or at every other node
/// where it is for all. No one else gets anything, and the node itself never does.
pub proof fn law_messages_reach_who_they_are_for<V>(network: TestNetworkView<V>, from: Seq<char>, node: Seq<char>)
    requires
        network.outgoing.contains_key(from),
        network.outgoing[from].len() > 0,
        network.incoming.contains_key(node),
    ensures
        ({
            let message = network.outgoing[from][0];
            let after = network.moved(from);
            let is_meant = node != from && (message.to is None || message.to->0 == node);
            &&& after.incoming.contains_key(node)
            &&& is_meant ==> after.incoming[node] == network.incoming[node].push(
                IncomingView { from, data: message.data },
            )
            &&& !is_meant ==> after.incoming[node] == network.incoming[node]
            &&& after.outgoing[from].len() == network.outgoing[from].len() - 1
        }),
{
}

/// Once all messages of a node were delivered, none is on its way from it any more.
pub proof fn law_drained_nodes_have_nothing_on_the_way<V>(network: TestNetworkView<V>, from: Seq<char>)
    requires
        network.outgoing.contains_key(from),
    ensures
        network.drained_one(from).outgoing.contains_key(from),
        network.drained_one(from).outgoing[from].len() == 0,
{
    lemma_moved_all(network, from, network.outgoing[from].len());
}

proof fn lemma_moved_all<V>(network: TestNetworkView<V>, from: Seq<char>, count: nat)
    requires
        network.outgoing.contains_key(from),
        count <= network.outgoing[from].len(),
    ensures
        network.moved_all(from, count).outgoing.contains_key(from),
        network.moved_all(from, count).outgoing[from].len() == network.outgoing[from].len() - count,
    decreases count,
{
    if count > 0 {
        lemma_moved_all(network.moved(from), from, (count - 1) as nat);
    }
}

} // verus!
