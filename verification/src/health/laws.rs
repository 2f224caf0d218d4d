//! What holds of reports on how a node is doing.

use vstd::prelude::*;

use crate::health::{
    connection_of, initial_statuses, is_peer, is_unhealthy, label_for, HealthView, OriginView, PeerConnectionStatus,
    PeerInfo, StatusView,
};
use crate::network::initiates;

verus! {

/// A peer goes by the label of the first that has its id; without one it goes by the id. All else goes by its name.
pub proof fn law_peers_go_by_their_labels(peers: Seq<PeerInfo>, id: Seq<char>, at: int)
    ensures
        0 <= at < peers.len() && peers[at].id@ == id && (forall|j: int|
            0 <= j < at ==> (#[trigger] peers[j]).id@ != id) ==> label_for(peers, OriginView::Peer(id))
            == peers[at].label@,
        (forall|j: int| 0 <= j < peers.len() ==> (#[trigger] peers[j]).id@ != id) ==> label_for(
            peers,
            OriginView::Peer(id),
        ) == id,
        label_for(peers, OriginView::Source(id)) == id,
        label_for(peers, OriginView::Currency(id)) == id,
        label_for(peers, OriginView::SyntheticConfig(id)) == id,
{
    if 0 <= at < peers.len() && peers[at].id@ == id && (forall|j: int|
        0 <= j < at ==> (#[trigger] peers[j]).id@ != id) {
        assert(is_peer(peers, id, at));
        let chosen = choose|at: int| is_peer(peers, id, at);
        assert(is_peer(peers, id, chosen));
        if chosen < at {
            assert(peers[chosen].id@ != id);
        } else if at < chosen {
            assert(peers[at].id@ != id);
        }
    }
}

/// At the start all peers are unhealthy, since there is no connection to them yet, and nothing is known of anything else.
pub proof fn law_peers_start_out_unconnected(state: HealthView, peers: Seq<PeerInfo>, at: int)
    requires
        state.statuses == initial_statuses(peers),
    ensures
        0 <= at < peers.len() ==> is_unhealthy(state, OriginView::Peer(peers[at].id@), "Not yet connected"@),
        0 <= at < peers.len() ==> connection_of(state, peers[at].id@) != PeerConnectionStatus::Connected,
        forall|origin: OriginView| #[trigger]
            state.statuses.contains_key(origin) ==> (origin matches OriginView::Peer(id) && exists|i: int|
                0 <= i < peers.len() && (#[trigger] peers[i]).id@ == id),
{
    if 0 <= at < peers.len() {
        assert(peers[at].id@ == peers[at].id@);
        assert(state.statuses.contains_key(OriginView::Peer(peers[at].id@)));
    }
}

/// A peer is connected if, and only if, it is healthy. Otherwise this node tries to connect if it is the one to do so, and
/// waits for the peer if not.
pub proof fn law_healthy_peers_are_connected(state: HealthView, peer: Seq<char>)
    ensures
        connection_of(state, peer) == PeerConnectionStatus::Connected <==> state.statuses.contains_key(
            OriginView::Peer(peer),
        ) && state.statuses[OriginView::Peer(peer)] == StatusView::Healthy,
        connection_of(state, peer) == PeerConnectionStatus::TryingToConnect ==> initiates(state.id, peer),
        connection_of(state, peer) == PeerConnectionStatus::WaitingForIncomingConnection ==> !initiates(state.id, peer),
{
}

} // verus!
