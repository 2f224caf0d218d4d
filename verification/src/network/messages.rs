//! What nodes send each other, byte for byte.

use vstd::prelude::*;

use crate::keys::{check_public_key, is_public_key, KEY_LENGTH, SIGNATURE_LENGTH};
use crate::network::secrets::{can_be_sealed, draw_nonce, opened, seal, sealed, unseal, NONCE_LENGTH};

verus! {

/// A node introduces itself.
#[derive(Debug)]
pub struct OpenConnectionMessage {
    version: String,
    id_public_key: Vec<u8>,
    ecdh_public_key: Vec<u8>,
    signature: Vec<u8>,
}

/// What a node introduces itself with.
pub struct OpenConnectionView {
    /// The version of the program that the other node runs.
    pub version: Seq<char>,
    /// The other node's public key, by which it is known.
    pub id_public_key: Seq<u8>,
    /// The public key of an ephemeral secret.
    pub ecdh_public_key: Seq<u8>,
    /// The ephemeral public key, signed with the other node's private key.
    pub signature: Seq<u8>,
}

impl View for OpenConnectionMessage {
    type V = OpenConnectionView;

    closed spec fn view(&self) -> OpenConnectionView {
        OpenConnectionView {
            version: self.version@,
            id_public_key: self.id_public_key@,
            ecdh_public_key: self.ecdh_public_key@,
            signature: self.signature@,
        }
    }
}

impl OpenConnectionView {
    /// Whether these are keys and a signature.
    pub open spec fn is_valid(self) -> bool {
        &&& self.id_public_key.len() == KEY_LENGTH
        &&& is_public_key(self.id_public_key)
        &&& self.ecdh_public_key.len() == KEY_LENGTH
        &&& self.signature.len() == SIGNATURE_LENGTH
    }
}

impl OpenConnectionMessage {
    #[verifier::type_invariant]
    spec fn wf(&self) -> bool {
        self@.is_valid()
    }

    /// A message of these parts; nothing where they are no keys, or no signature.
    pub fn new(version: String, id_public_key: Vec<u8>, ecdh_public_key: Vec<u8>, signature: Vec<u8>) -> (r: Option<
        Self,
    >)
        ensures
            ({
                let view = OpenConnectionView {
                    version: version@,
                    id_public_key: id_public_key@,
                    ecdh_public_key: ecdh_public_key@,
                    signature: signature@,
                };
                &&& r is Some <==> view.is_valid()
                &&& r is Some ==> r->0@ == view
            }),
    {
        if id_public_key.len() != KEY_LENGTH || ecdh_public_key.len() != KEY_LENGTH || signature.len()
            != SIGNATURE_LENGTH {
            return None;
        }
        if !check_public_key(id_public_key.as_slice()) {
            return None;
        }
        Some(OpenConnectionMessage { version, id_public_key, ecdh_public_key, signature })
    }

    pub fn version(&self) -> (r: &String)
        ensures
            r@ == self@.version,
    {
        &self.version
    }

    pub fn id_public_key(&self) -> (r: &Vec<u8>)
        ensures
            r@ == self@.id_public_key,
            self@.is_valid(),
    {
        proof {
            use_type_invariant(self);
        }
        &self.id_public_key
    }

    pub fn ecdh_public_key(&self) -> (r: &Vec<u8>)
        ensures
            r@ == self@.ecdh_public_key,
            self@.is_valid(),
    {
        proof {
            use_type_invariant(self);
        }
        &self.ecdh_public_key
    }

    pub fn signature(&self) -> (r: &Vec<u8>)
        ensures
            r@ == self@.signature,
            self@.is_valid(),
    {
        proof {
            use_type_invariant(self);
        }
        &self.signature
    }
}

/// A node answers another that introduced itself.
#[derive(Debug)]
pub struct ConfirmConnectionMessage {
    version: String,
    ecdh_public_key: Vec<u8>,
    signature: Vec<u8>,
}

/// What a node answers another that introduced itself.
pub struct ConfirmConnectionView {
    /// The version of the program that the other node runs.
    pub version: Seq<char>,
    /// The public key of an ephemeral secret.
    pub ecdh_public_key: Seq<u8>,
    /// The ephemeral public key, signed with the other node's private key.
    pub signature: Seq<u8>,
}

impl View for ConfirmConnectionMessage {
    type V = ConfirmConnectionView;

    closed spec fn view(&self) -> ConfirmConnectionView {
        ConfirmConnectionView {
            version: self.version@,
            ecdh_public_key: self.ecdh_public_key@,
            signature: self.signature@,
        }
    }
}

impl ConfirmConnectionView {
    /// Whether these are a key and a signature.
    pub open spec fn is_valid(self) -> bool {
        &&& self.ecdh_public_key.len() == KEY_LENGTH
        &&& self.signature.len() == SIGNATURE_LENGTH
    }
}

impl ConfirmConnectionMessage {
    #[verifier::type_invariant]
    spec fn wf(&self) -> bool {
        self@.is_valid()
    }

    /// A message of these parts; nothing where they are no key, or no signature.
    pub fn new(version: String, ecdh_public_key: Vec<u8>, signature: Vec<u8>) -> (r: Option<Self>)
        ensures
            ({
                let view = ConfirmConnectionView {
                    version: version@,
                    ecdh_public_key: ecdh_public_key@,
                    signature: signature@,
                };
                &&& r is Some <==> view.is_valid()
                &&& r is Some ==> r->0@ == view
            }),
    {
        if ecdh_public_key.len() != KEY_LENGTH || signature.len() != SIGNATURE_LENGTH {
            return None;
        }
        Some(ConfirmConnectionMessage { version, ecdh_public_key, signature })
    }

    pub fn version(&self) -> (r: &String)
        ensures
            r@ == self@.version,
    {
        &self.version
    }

    pub fn ecdh_public_key(&self) -> (r: &Vec<u8>)
        ensures
            r@ == self@.ecdh_public_key,
            self@.is_valid(),
    {
        proof {
            use_type_invariant(self);
        }
        &self.ecdh_public_key
    }

    pub fn signature(&self) -> (r: &Vec<u8>)
        ensures
            r@ == self@.signature,
            self@.is_valid(),
    {
        proof {
            use_type_invariant(self);
        }
        &self.signature
    }
}

/// A message that only the two nodes of a connection can read.
#[derive(Debug)]
pub struct ApplicationMessage {
    pub nonce: Vec<u8>,
    pub payload: Vec<u8>,
}

impl ApplicationMessage {
    /// Makes a message unreadable for others, with a nonce drawn anew.
    pub fn encrypt(message: &[u8], key: &[u8]) -> (r: Self)
        requires
            key@.len() == KEY_LENGTH,
            can_be_sealed(message@),
        ensures
            r.nonce@.len() == NONCE_LENGTH,
            r.payload@ == sealed(key@, r.nonce@, message@),
            opened(key@, r.nonce@, r.payload@) == Some(message@),
    {
        ApplicationMessage::encrypt_with(message, key, draw_nonce())
    }

    /// Makes a message unreadable for others, with this nonce.
    pub fn encrypt_with(message: &[u8], key: &[u8], nonce: Vec<u8>) -> (r: Self)
        requires
            key@.len() == KEY_LENGTH,
            nonce@.len() == NONCE_LENGTH,
            can_be_sealed(message@),
        ensures
            r.nonce == nonce,
            r.payload@ == sealed(key@, nonce@, message@),
            opened(key@, nonce@, r.payload@) == Some(message@),
    {
        let payload = seal(key, nonce.as_slice(), message);
        ApplicationMessage { nonce, payload }
    }

    /// Makes a message readable again; nothing where it was not made with this key.
    pub fn decrypt(&self, key: &[u8]) -> (r: Option<Vec<u8>>)
        requires
            key@.len() == KEY_LENGTH,
            self.nonce@.len() == NONCE_LENGTH,
        ensures
            r is Some <==> opened(key@, self.nonce@, self.payload@) is Some,
            r is Some ==> opened(key@, self.nonce@, self.payload@) == Some(r->0@),
    {
        unseal(key, self.nonce.as_slice(), self.payload.as_slice())
    }
}

/// What nodes send each other.
#[derive(Debug)]
pub enum Message {
    OpenConnection(OpenConnectionMessage),
    ConfirmConnection(ConfirmConnectionMessage),
    Application(ApplicationMessage),
    Disconnect(String),
    Ping(String),
    Pong(String),
}

/// What comes of reading a message.
#[derive(Debug)]
pub enum Received {
    Message(Message),
    /// There was no message.
    Empty,
    /// It could not be read, for this reason.
    Unreadable(String),
}

} // verus!
