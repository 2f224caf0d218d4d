//! How two nodes find out who the other is and agree on a secret.

use vstd::prelude::*;

use crate::config::{NetworkConfig, Peer};
use crate::encoding::hex_digits;
use crate::frost::copy_bytes;
use crate::keys::{compute_node_id, public_key_of, signature_of, verifies, verify_signature, PrivateKey, KEY_LENGTH};
use crate::names::NameMap;
use crate::network::messages::{ConfirmConnectionMessage, ConfirmConnectionView, Message, OpenConnectionMessage};
use crate::network::messages::{OpenConnectionView, Received};
use crate::network::secrets::{agree_on_secret, derive_ecdh_public_key, draw_ecdh_secret, ecdh_public_key};
use crate::network::secrets::shared_secret;
use crate::network::{initiates, NodeId};
use crate::text::join;

pub mod laws;

verus! {

/// What there is to another node.
pub struct PeerView {
    pub id: Seq<char>,
    pub public_key: Seq<u8>,
    pub label: Seq<char>,
    pub address: Seq<char>,
}

impl View for Peer {
    type V = PeerView;

    open spec fn view(&self) -> PeerView {
        PeerView {
            id: self.id@,
            public_key: self.public_key@,
            label: self.label@,
            address: self.address@,
        }
    }
}

impl Clone for Peer {
    fn clone(&self) -> (r: Self)
        ensures
            r@ == self@,
    {
        Peer {
            id: self.id.clone(),
            public_key: copy_bytes(&self.public_key),
            label: self.label.clone(),
            address: self.address.clone(),
        }
    }
}

/// Why two nodes could not agree.
#[derive(Debug)]
pub enum HandshakeError {
    /// What was sent could not be read.
    Unreadable(String),
    /// The other node broke off.
    Disconnected(String),
    /// Another message was due.
    Unexpected(Message),
    /// There was no message.
    Empty,
    /// There is no such peer.
    UnrecognizedPeer(NodeId),
    /// The other node is not who it says it is.
    BadSignature,
    /// It is for this node to open connections to the other.
    NotTheInitiator,
    /// This node's own message could not be sent.
    NotSent(String),
}

pub enum HandshakeErrorView {
    Unreadable(Seq<char>),
    Disconnected(Seq<char>),
    Unexpected(Message),
    Empty,
    UnrecognizedPeer(Seq<char>),
    BadSignature,
    NotTheInitiator,
    NotSent(Seq<char>),
}

impl View for HandshakeError {
    type V = HandshakeErrorView;

    open spec fn view(&self) -> HandshakeErrorView {
        match self {
            HandshakeError::Unreadable(reason) => HandshakeErrorView::Unreadable(reason@),
            HandshakeError::Disconnected(reason) => HandshakeErrorView::Disconnected(reason@),
            HandshakeError::Unexpected(message) => HandshakeErrorView::Unexpected(*message),
            HandshakeError::Empty => HandshakeErrorView::Empty,
            HandshakeError::UnrecognizedPeer(id) => HandshakeErrorView::UnrecognizedPeer(id@),
            HandshakeError::BadSignature => HandshakeErrorView::BadSignature,
            HandshakeError::NotTheInitiator => HandshakeErrorView::NotTheInitiator,
            HandshakeError::NotSent(reason) => HandshakeErrorView::NotSent(reason@),
        }
    }
}

/// Why a connection that another node opened failed; `shown` is the message that was not due, as text.
pub open spec fn incoming_failure(error: HandshakeErrorView, shown: Seq<char>) -> Seq<char> {
    "error establishing shared secret: "@ + match error {
        HandshakeErrorView::Unreadable(reason) => "error waiting for handshake: "@ + reason,
        HandshakeErrorView::Disconnected(reason) => "other party disconnected immediately: "@ + reason,
        HandshakeErrorView::Unexpected(_) => "expected OpenConnection, got "@ + shown,
        HandshakeErrorView::Empty => "expected OpenConnection, got empty message"@,
        HandshakeErrorView::UnrecognizedPeer(id) => "Unrecognized peer "@ + id,
        HandshakeErrorView::BadSignature => "signature does not match public key"@,
        HandshakeErrorView::NotTheInitiator => "did not expect peer to initiate connection with us"@,
        HandshakeErrorView::NotSent(reason) => "error sending ConfirmConnection message: "@ + reason,
    }
}

/// Why a connection that this node opened failed; `shown` is the message that was not due, as text.
pub open spec fn outgoing_failure(error: HandshakeErrorView, shown: Seq<char>) -> Seq<char> {
    "error establishing shared secret: "@ + match error {
        HandshakeErrorView::Unreadable(reason) => "error waiting for handshake response: "@ + reason,
        HandshakeErrorView::Disconnected(reason) => "Other side disconnected: "@ + reason,
        HandshakeErrorView::Unexpected(_) => "Expected ConfirmConnection, got "@ + shown,
        HandshakeErrorView::Empty => "Expected ConfirmConnection, got empty message"@,
        HandshakeErrorView::UnrecognizedPeer(id) => "Unrecognized peer "@ + id,
        HandshakeErrorView::BadSignature => "signature does not match public key"@,
        HandshakeErrorView::NotTheInitiator => "did not expect peer to initiate connection with us"@,
        HandshakeErrorView::NotSent(reason) => "error sending open message: "@ + reason,
    }
}

impl HandshakeError {
    /// Why a connection that another node opened failed; `shown` is the message that was not due, as text.
    pub fn describe_incoming(&self, shown: &str) -> (r: String)
        ensures
            r@ == incoming_failure(self@, shown@),
    {
        let reason = match self {
            HandshakeError::Unreadable(reason) => join("error waiting for handshake: ", reason.as_str()),
            HandshakeError::Disconnected(reason) => join("other party disconnected immediately: ", reason.as_str()),
            HandshakeError::Unexpected(_) => join("expected OpenConnection, got ", shown),
            HandshakeError::Empty => "expected OpenConnection, got empty message".to_owned(),
            HandshakeError::UnrecognizedPeer(id) => join("Unrecognized peer ", id.as_str()),
            HandshakeError::BadSignature => "signature does not match public key".to_owned(),
            HandshakeError::NotTheInitiator => "did not expect peer to initiate connection with us".to_owned(),
            HandshakeError::NotSent(reason) => join("error sending ConfirmConnection message: ", reason.as_str()),
        };
        join("error establishing shared secret: ", reason.as_str())
    }

    /// Why a connection that this node opened failed; `shown` is the message that was not due, as text.
    pub fn describe_outgoing(&self, shown: &str) -> (r: String)
        ensures
            r@ == outgoing_failure(self@, shown@),
    {
        let reason = match self {
            HandshakeError::Unreadable(reason) => join("error waiting for handshake response: ", reason.as_str()),
            HandshakeError::Disconnected(reason) => join("Other side disconnected: ", reason.as_str()),
            HandshakeError::Unexpected(_) => join("Expected ConfirmConnection, got ", shown),
            HandshakeError::Empty => "Expected ConfirmConnection, got empty message".to_owned(),
            HandshakeError::UnrecognizedPeer(id) => join("Unrecognized peer ", id.as_str()),
            HandshakeError::BadSignature => "signature does not match public key".to_owned(),
            HandshakeError::NotTheInitiator => "did not expect peer to initiate connection with us".to_owned(),
            HandshakeError::NotSent(reason) => join("error sending open message: ", reason.as_str()),
        };
        join("error establishing shared secret: ", reason.as_str())
    }
}

/// A node, with the peers it talks to.
pub struct Core {
    id: NodeId,
    private_key: PrivateKey,
    port: u16,
    version: String,
    peers: NameMap<NodeId, Peer>,
}

pub struct CoreView {
    pub id: Seq<char>,
    pub private_key: Seq<u8>,
    pub port: u16,
    /// The version of the program that this node runs.
    pub version: Seq<char>,
    pub peers: Map<Seq<char>, PeerView>,
}

impl View for Core {
    type V = CoreView;

    closed spec fn view(&self) -> CoreView {
        CoreView {
            id: self.id@,
            private_key: self.private_key@,
            port: self.port,
            version: self.version@,
            peers: self.peers@.map_values(|peer: Peer| peer@),
        }
    }
}

/// Peers by name; of several with the same name, the last.
pub open spec fn peers_by_id(peers: Seq<Peer>) -> Map<Seq<char>, PeerView>
    decreases peers.len(),
{
    if peers.len() == 0 {
        Map::empty()
    } else {
        peers_by_id(peers.drop_last()).insert(peers.last().id@, peers.last()@)
    }
}

/// What a node that introduces itself is refused for, and which peer it is, as far as that is known.
pub struct RejectionView {
    pub peer: Option<Seq<char>>,
    pub error: HandshakeErrorView,
}

/// What a node that introduces itself is refused for.
#[derive(Debug)]
pub struct Rejection {
    /// Which peer it is, as far as that is known.
    pub peer: Option<NodeId>,
    pub error: HandshakeError,
}

impl View for Rejection {
    type V = RejectionView;

    open spec fn view(&self) -> RejectionView {
        RejectionView {
            peer: match self.peer {
                Some(id) => Some(id@),
                None => None,
            },
            error: self.error@,
        }
    }
}

impl CoreView {
    /// Whether a node that introduces itself is let in: it is a known peer, it signed its ephemeral key, and it is
    /// for it to open the connection.
    pub open spec fn checked(self, open: OpenConnectionView) -> Result<OpenConnectionView, RejectionView> {
        let id = hex_digits(open.id_public_key);
        if !self.peers.contains_key(id) {
            Err(RejectionView { peer: None, error: HandshakeErrorView::UnrecognizedPeer(id) })
        } else if !verifies(open.id_public_key, open.ecdh_public_key, open.signature) {
            Err(RejectionView { peer: Some(id), error: HandshakeErrorView::BadSignature })
        } else if !initiates(id, self.id) {
            Err(RejectionView { peer: Some(id), error: HandshakeErrorView::NotTheInitiator })
        } else {
            Ok(open)
        }
    }

    /// What a node makes of the first message on a connection that another opened.
    pub open spec fn introduced(self, received: Received) -> Result<OpenConnectionView, RejectionView> {
        match received {
            Received::Message(Message::OpenConnection(open)) => self.checked(open@),
            Received::Message(Message::Disconnect(reason)) => Err(
                RejectionView { peer: None, error: HandshakeErrorView::Disconnected(reason@) },
            ),
            Received::Message(message) => Err(
                RejectionView { peer: None, error: HandshakeErrorView::Unexpected(message) },
            ),
            Received::Empty => Err(RejectionView { peer: None, error: HandshakeErrorView::Empty }),
            Received::Unreadable(reason) => Err(
                RejectionView { peer: None, error: HandshakeErrorView::Unreadable(reason@) },
            ),
        }
    }

    /// What a node introduces itself with.
    pub open spec fn introduction(self, ecdh_secret: Seq<u8>) -> OpenConnectionView {
        OpenConnectionView {
            version: self.version,
            id_public_key: public_key_of(self.private_key),
            ecdh_public_key: ecdh_public_key(ecdh_secret),
            signature: signature_of(self.private_key, ecdh_public_key(ecdh_secret)),
        }
    }

    /// What a node answers another that it lets in.
    pub open spec fn confirmation(self, ecdh_secret: Seq<u8>) -> ConfirmConnectionView {
        ConfirmConnectionView {
            version: self.version,
            ecdh_public_key: ecdh_public_key(ecdh_secret),
            signature: signature_of(self.private_key, ecdh_public_key(ecdh_secret)),
        }
    }
}

/// What a node makes of the answer to its introduction.
pub open spec fn answered(public_key: Seq<u8>, received: Received) -> Result<ConfirmConnectionView, HandshakeErrorView> {
    match received {
        Received::Message(Message::ConfirmConnection(confirm)) => if verifies(
            public_key,
            confirm@.ecdh_public_key,
            confirm@.signature,
        ) {
            Ok(confirm@)
        } else {
            Err(HandshakeErrorView::BadSignature)
        },
        Received::Message(Message::Disconnect(reason)) => Err(HandshakeErrorView::Disconnected(reason@)),
        Received::Message(message) => Err(HandshakeErrorView::Unexpected(message)),
        Received::Empty => Err(HandshakeErrorView::Empty),
        Received::Unreadable(reason) => Err(HandshakeErrorView::Unreadable(reason@)),
    }
}

/// A node that was let in.
pub struct Accepted {
    pub peer: Peer,
    pub version: String,
    /// What the connection's messages are made unreadable for others with.
    pub secret: Vec<u8>,
    /// What to answer the node.
    pub confirmation: ConfirmConnectionMessage,
}

/// A node that answered.
pub struct Established {
    pub version: String,
    /// What the connection's messages are made unreadable for others with.
    pub secret: Vec<u8>,
}

/// Whether this is what comes of an introduction.
pub open spec fn is_acceptance(
    core: CoreView,
    received: Received,
    ecdh_secret: Seq<u8>,
    r: Result<Accepted, Rejection>,
) -> bool {
    match r {
        Ok(accepted) => match core.introduced(received) {
            Ok(open) => {
                &&& accepted.peer@ == core.peers[hex_digits(open.id_public_key)]
                &&& accepted.version@ == open.version
                &&& accepted.confirmation@ == core.confirmation(ecdh_secret)
                &&& accepted.secret@ == shared_secret(ecdh_secret, open.ecdh_public_key)
                &&& accepted.secret@.len() == KEY_LENGTH
            },
            Err(_) => false,
        },
        Err(rejection) => core.introduced(received) == Err::<OpenConnectionView, RejectionView>(rejection@),
    }
}

/// Whoever holds the secret behind `theirs` comes to the same shared secret with this node's public key.
pub open spec fn is_agreed(secret: Seq<u8>, ecdh_secret: Seq<u8>, theirs: Seq<u8>) -> bool {
    forall|other: Seq<u8>|
        other.len() == KEY_LENGTH && #[trigger] ecdh_public_key(other) == theirs ==> secret == shared_secret(
            other,
            ecdh_public_key(ecdh_secret),
        )
}

impl Core {
    #[verifier::type_invariant]
    spec fn wf(&self) -> bool {
        forall|name: Seq<char>| #[trigger] self.peers@.contains_key(name) ==> self.peers@[name].id@ == name
    }

    /// A node with this configuration, which runs this version of the program.
    pub fn new(config: NetworkConfig, version: String) -> (r: Self)
        ensures
            r@ == (CoreView {
                id: config.id@,
                private_key: config.private_key@,
                port: config.port,
                version: version@,
                peers: peers_by_id(config.peers@),
            }),
    {
        let mut peers: NameMap<NodeId, Peer> = NameMap::new();
        let mut i: usize = 0;
        let ghost all = config.peers@;
        assert(all.take(0) =~= seq![]);
        assert(peers@.map_values(|peer: Peer| peer@) =~= peers_by_id(all.take(0)));
        while i < config.peers.len()
            invariant
                i <= config.peers.len(),
                all == config.peers@,
                peers@.map_values(|peer: Peer| peer@) == peers_by_id(all.take(i as int)),
                forall|name: Seq<char>| #[trigger] peers@.contains_key(name) ==> peers@[name].id@ == name,
            decreases config.peers.len() - i,
        {
            let peer = config.peers[i].clone();
            let ghost before = peers@;
            let ghost view = peer@;
            peers.insert(peer.id.clone(), peer);
            proof {
                assert(all.take(i + 1).drop_last() =~= all.take(i as int));
                assert(all.take(i + 1).last() == all[i as int]);
                assert(peers@.map_values(|peer: Peer| peer@) =~= before.map_values(|peer: Peer| peer@).insert(
                    view.id,
                    view,
                ));
            }
            i += 1;
        }
        assert(all.take(i as int) =~= all);
        Core { id: config.id, private_key: config.private_key, port: config.port, version, peers }
    }

    pub fn id(&self) -> (r: &NodeId)
        ensures
            r@ == self@.id,
    {
        &self.id
    }

    pub fn port(&self) -> (r: u16)
        ensures
            r == self@.port,
    {
        self.port
    }

    /// The peers, in alphabetical order.
    pub fn peers(&self) -> (r: &NameMap<NodeId, Peer>)
        ensures
            r@.map_values(|peer: Peer| peer@) == self@.peers,
    {
        &self.peers
    }

    /// Deals with the first message on a connection that another node opened, with an ephemeral secret drawn anew.
    pub fn handshake_incoming(&self, received: Received) -> (r: Result<Accepted, Rejection>)
        ensures
            exists|ecdh_secret: Seq<u8>|
                ecdh_secret.len() == KEY_LENGTH && #[trigger] is_acceptance(self@, received, ecdh_secret, r),
    {
        let ecdh_secret = draw_ecdh_secret();
        self.accept(received, ecdh_secret)
    }

    /// Deals with the first message on a connection that another node opened, with this ephemeral secret.
    pub fn accept(&self, received: Received, ecdh_secret: Vec<u8>) -> (r: Result<Accepted, Rejection>)
        requires
            ecdh_secret@.len() == KEY_LENGTH,
        ensures
            is_acceptance(self@, received, ecdh_secret@, r),
            r matches Ok(accepted) ==> verifies(
                public_key_of(self@.private_key),
                accepted.confirmation@.ecdh_public_key,
                accepted.confirmation@.signature,
            ),
            r matches Ok(accepted) ==> is_agreed(
                accepted.secret@,
                ecdh_secret@,
                self@.introduced(received)->Ok_0.ecdh_public_key,
            ),
    {
        let message = match received {
            Received::Message(Message::OpenConnection(message)) => message,
            Received::Message(Message::Disconnect(reason)) => {
                return Err(Rejection { peer: None, error: HandshakeError::Disconnected(reason) });
            },
            Received::Message(other) => {
                return Err(Rejection { peer: None, error: HandshakeError::Unexpected(other) });
            },
            Received::Empty => {
                return Err(Rejection { peer: None, error: HandshakeError::Empty });
            },
            Received::Unreadable(reason) => {
                return Err(Rejection { peer: None, error: HandshakeError::Unreadable(reason) });
            },
        };
        // Figure out who they are based on the public key they sent us
        let id_public_key = message.id_public_key();
        let other_ecdh_public_key = message.ecdh_public_key();
        let peer_id = compute_node_id(id_public_key.as_slice());
        let peer = match self.peers.get(peer_id.as_str()) {
            Some(peer) => peer,
            None => {
                return Err(Rejection { peer: None, error: HandshakeError::UnrecognizedPeer(peer_id) });
            },
        };
        assert(self@.peers.contains_key(peer_id@));
        // Confirm that they are who they say they are; they should have signed the ecdh key with their private key
        if !verify_signature(
            id_public_key.as_slice(),
            other_ecdh_public_key.as_slice(),
            message.signature().as_slice(),
        ) {
            return Err(Rejection { peer: Some(peer_id), error: HandshakeError::BadSignature });
        }
        // Confirm that we expect this node to reach out to us, instead of vice versa
        if !peer_id.should_initiate_connection_to(&self.id) {
            return Err(Rejection { peer: Some(peer_id), error: HandshakeError::NotTheInitiator });
        }
        let ecdh_public_key = derive_ecdh_public_key(ecdh_secret.as_slice());
        let signature = self.private_key.sign(ecdh_public_key.as_slice());
        let secret = agree_on_secret(ecdh_secret.as_slice(), other_ecdh_public_key.as_slice());
        let confirmation = ConfirmConnectionMessage::new(self.version.clone(), ecdh_public_key, signature).unwrap();
        Ok(Accepted { peer: peer.clone(), version: message.version().clone(), secret, confirmation })
    }

    /// Introduces this node to another, with an ephemeral secret drawn anew, which is given too.
    pub fn open_connection(&self) -> (r: (OpenConnectionMessage, Vec<u8>))
        ensures
            r.1@.len() == KEY_LENGTH,
            r.0@ == self@.introduction(r.1@),
            verifies(public_key_of(self@.private_key), r.0@.ecdh_public_key, r.0@.signature),
    {
        let ecdh_secret = draw_ecdh_secret();
        (self.introduce(ecdh_secret.as_slice()), ecdh_secret)
    }

    /// Introduces this node to another, with this ephemeral secret.
    pub fn introduce(&self, ecdh_secret: &[u8]) -> (r: OpenConnectionMessage)
        requires
            ecdh_secret@.len() == KEY_LENGTH,
        ensures
            r@ == self@.introduction(ecdh_secret@),
            verifies(public_key_of(self@.private_key), r@.ecdh_public_key, r@.signature),
    {
        let id_public_key = self.private_key.public_key();
        let ecdh_public_key = derive_ecdh_public_key(ecdh_secret);
        let signature = self.private_key.sign(ecdh_public_key.as_slice());
        let message = OpenConnectionMessage::new(self.version.clone(), id_public_key, ecdh_public_key, signature);
        message.unwrap()
    }

    /// Deals with the answer of a peer that this node introduced itself to with an ephemeral secret.
    pub fn handshake_outgoing(&self, peer: &Peer, ecdh_secret: &[u8], received: Received) -> (r: Result<
        Established,
        HandshakeError,
    >)
        requires
            ecdh_secret@.len() == KEY_LENGTH,
            peer.public_key@.len() == KEY_LENGTH,
        ensures
            match r {
                Ok(established) => match answered(peer@.public_key, received) {
                    Ok(confirm) => {
                        &&& established.version@ == confirm.version
                        &&& established.secret@ == shared_secret(ecdh_secret@, confirm.ecdh_public_key)
                        &&& established.secret@.len() == KEY_LENGTH
                        &&& is_agreed(established.secret@, ecdh_secret@, confirm.ecdh_public_key)
                    },
                    Err(_) => false,
                },
                Err(error) => answered(peer@.public_key, received) == Err::<ConfirmConnectionView, HandshakeErrorView>(
                    error@,
                ),
            },
    {
        let message = match received {
            Received::Message(Message::ConfirmConnection(message)) => message,
            Received::Message(Message::Disconnect(reason)) => {
                return Err(HandshakeError::Disconnected(reason));
            },
            Received::Message(other) => {
                return Err(HandshakeError::Unexpected(other));
            },
            Received::Empty => {
                return Err(HandshakeError::Empty);
            },
            Received::Unreadable(reason) => {
                return Err(HandshakeError::Unreadable(reason));
            },
        };
        // They've sent us a signed key, let's confirm they are who they say they are
        let other_ecdh_key = message.ecdh_public_key();
        if !verify_signature(
            peer.public_key.as_slice(),
            other_ecdh_key.as_slice(),
            message.signature().as_slice(),
        ) {
            return Err(HandshakeError::BadSignature);
        }
        // And now the handshake is done and we have our secret
        let secret = agree_on_secret(ecdh_secret, other_ecdh_key.as_slice());
        Ok(Established { version: message.version().clone(), secret })
    }
}

/// A node lets another in only if it is a known peer, proved who it is, and is the one to open the connection.
pub proof fn law_only_known_peers_get_in(core: CoreView, received: Received)
    requires
        core.introduced(received) is Ok,
    ensures
        ({
            let open = core.introduced(received)->Ok_0;
            &&& core.peers.contains_key(hex_digits(open.id_public_key))
            &&& verifies(open.id_public_key, open.ecdh_public_key, open.signature)
            &&& initiates(hex_digits(open.id_public_key), core.id)
        }),
{
}

/// A known peer that introduces itself as this protocol asks, and whose signature holds, is let in, and comes to the
/// same secret as the node that lets it in.
pub proof fn law_honest_peers_agree(
    initiator: CoreView,
    core: CoreView,
    open: OpenConnectionMessage,
    initiator_secret: Seq<u8>,
    core_secret: Seq<u8>,
    accepted: Accepted,
)
    requires
        initiator_secret.len() == KEY_LENGTH,
        open@ == initiator.introduction(initiator_secret),
        verifies(public_key_of(initiator.private_key), open@.ecdh_public_key, open@.signature),
        core.peers.contains_key(hex_digits(public_key_of(initiator.private_key))),
        initiates(hex_digits(public_key_of(initiator.private_key)), core.id),
        is_acceptance(
            core,
            Received::Message(Message::OpenConnection(open)),
            core_secret,
            Ok::<Accepted, Rejection>(accepted),
        ),
        is_agreed(accepted.secret@, core_secret, open@.ecdh_public_key),
    ensures
        core.introduced(Received::Message(Message::OpenConnection(open))) == Ok::<OpenConnectionView, RejectionView>(
            open@,
        ),
        accepted.secret@ == shared_secret(initiator_secret, accepted.confirmation@.ecdh_public_key),
{
}

/// The answer of the peer that was meant is accepted.
pub proof fn law_genuine_answers_are_accepted(core: CoreView, ecdh_secret: Seq<u8>, confirm: ConfirmConnectionMessage)
    requires
        confirm@ == core.confirmation(ecdh_secret),
        verifies(public_key_of(core.private_key), confirm@.ecdh_public_key, confirm@.signature),
    ensures
        answered(public_key_of(core.private_key), Received::Message(Message::ConfirmConnection(confirm))) == Ok::<
            ConfirmConnectionView,
            HandshakeErrorView,
        >(confirm@),
{
}

} // verus!
