//! How a node reaches its peers.

use vstd::prelude::*;

use crate::config::{first_bad_peer, is_peer, others, split_peers, Peer, RawPeerConfig};
use crate::encoding::hex_digits;
use crate::keys::{compute_node_id, public_key_of, KeyError, PrivateKey};
use crate::names::{sort_by_name, sorted_by_name, Named};
use crate::network::NodeId;

verus! {

impl Named for Peer {
    open spec fn name(&self) -> Seq<char> {
        self.id@
    }

    fn as_name(&self) -> (r: &str) {
        self.id.as_str()
    }
}

/// How a node reaches its peers.
pub struct NetworkConfig {
    pub id: NodeId,
    pub private_key: PrivateKey,
    pub port: u16,
    pub peers: Vec<Peer>,
}

/// These are the peers as they are configured, one by one.
pub open spec fn are_peers(raw: Seq<RawPeerConfig>, peers: Seq<Peer>) -> bool {
    &&& peers.len() == raw.len()
    &&& forall|i: int| 0 <= i < peers.len() ==> is_peer(raw[i], #[trigger] peers[i])
}

impl NetworkConfig {
    /// The configuration of the node with this private key: its peers are the others, in alphabetical order, and it
    /// listens on the port of the network, or else on that of the node.
    pub fn load(private_key: PrivateKey, peers: Vec<RawPeerConfig>, port: u16, network_port: u16) -> (r: Result<
        Self,
        KeyError,
    >)
        ensures
            match r {
                Ok(config) => {
                    let id = hex_digits(public_key_of(private_key@));
                    &&& first_bad_peer(peers@) is None
                    &&& config.id@ == id
                    &&& config.private_key@ == private_key@
                    &&& config.port == if network_port == 0 {
                        port
                    } else {
                        network_port
                    }
                    &&& exists|parsed: Seq<Peer>| #[trigger]
                        are_peers(others(peers@, id), parsed) && config.peers@ == sorted_by_name(parsed)
                },
                Err(error) => first_bad_peer(peers@) == Some(error),
            },
    {
        let id = compute_node_id(private_key.public_key().as_slice());
        match split_peers(peers, &id) {
            Ok((_, parsed)) => {
                assert(are_peers(others(peers@, id@), parsed@));
                let peers = sort_by_name(parsed);
                let port: u16 = if network_port == 0 {
                    port
                } else {
                    network_port
                };
                Ok(NetworkConfig { id, private_key, port, peers })
            },
            Err(error) => Err(error),
        }
    }
}

} // verus!
