//! What holds of the first messages on a connection.

use vstd::prelude::*;

use crate::encoding::hex_digits;
use crate::keys::verifies;
use crate::network::handshake::{answered, peers_by_id, CoreView, HandshakeErrorView, Peer, RejectionView};
use crate::network::initiates;
use crate::network::messages::{Message, OpenConnectionView, Received};

verus! {

/// A node that introduces itself is let in if, and only if, it is a known peer by its public key, its signature of its
/// ephemeral key holds, and it is the one to open the connection. Otherwise the first of these that fails is said.
pub proof fn law_known_peers_are_let_in(core: CoreView, open: OpenConnectionView)
    ensures
        ({
            let id = hex_digits(open.id_public_key);
            let is_signed = verifies(open.id_public_key, open.ecdh_public_key, open.signature);
            match core.checked(open) {
                Ok(accepted) => accepted == open && core.peers.contains_key(id) && is_signed && initiates(id, core.id),
                Err(RejectionView { peer, error }) => match error {
                    HandshakeErrorView::UnrecognizedPeer(name) => name == id && peer is None && !core.peers.contains_key(
                        id,
                    ),
                    HandshakeErrorView::BadSignature => peer == Some(id) && core.peers.contains_key(id) && !is_signed,
                    HandshakeErrorView::NotTheInitiator => peer == Some(id) && core.peers.contains_key(id) && is_signed
                        && !initiates(id, core.id),
                    _ => false,
                },
            }
        }),
{
}

/// Only an introduction lets a node in, whatever else it sends first.
pub proof fn law_introductions_come_first(core: CoreView, received: Received)
    ensures
        core.introduced(received) is Ok ==> (received matches Received::Message(Message::OpenConnection(open))
            && core.checked(open@) is Ok),
        received matches Received::Message(Message::OpenConnection(open)) ==> core.introduced(received)
            == core.checked(open@),
{
}

/// The answer to an introduction is accepted if, and only if, it is a confirmation whose signature of the ephemeral key
/// holds for the peer that was meant.
pub proof fn law_only_signed_answers_are_accepted(public_key: Seq<u8>, received: Received)
    ensures
        match received {
            Received::Message(Message::ConfirmConnection(confirm)) => if verifies(
                public_key,
                confirm@.ecdh_public_key,
                confirm@.signature,
            ) {
                answered(public_key, received) matches Ok(accepted) && accepted == confirm@
            } else {
                answered(public_key, received) matches Err(error) && error is BadSignature
            },
            _ => answered(public_key, received) is Err,
        },
{
}

/// A peer is known by its id, as the last one that is configured with it.
pub proof fn law_last_peer_of_an_id_is_known(peers: Seq<Peer>, at: int)
    requires
        0 <= at < peers.len(),
        forall|j: int| at < j < peers.len() ==> (#[trigger] peers[j]).id@ != peers[at].id@,
    ensures
        peers_by_id(peers).contains_pair(peers[at].id@, peers[at]@),
    decreases peers.len(),
{
    if at < peers.len() - 1 {
        assert(peers[peers.len() - 1].id@ != peers[at].id@);
        law_last_peer_of_an_id_is_known(peers.drop_last(), at);
    }
}

} // verus!
