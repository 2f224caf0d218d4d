//! The keys of nodes and of their group. Keys and signatures are held as bytes.

use bech32::{Hrp, NoChecksum};
use ed25519_dalek::ed25519::signature::{Signer, Verifier};
use ed25519_dalek::pkcs8::{DecodePrivateKey, DecodePublicKey, KeypairBytes, PublicKeyBytes};
use ed25519_dalek::{SigningKey, VerifyingKey};
use pallas_crypto::hash::Hasher;
use vstd::prelude::*;

use crate::encoding::{hex_digits, hex_encode};
use crate::frost::bytes_in;
use crate::network::NodeId;

verus! {

/// How many bytes a key takes.
pub const KEY_LENGTH: usize = 32;

/// How many bytes a signature takes.
pub const SIGNATURE_LENGTH: usize = 64;

/// The bytes of the public key in a PEM text; nothing where there is none.
pub uninterp spec fn pem_public_key(text: Seq<char>) -> Option<Seq<u8>>;

/// `PublicKeyBytes::from_public_key_pem`, of `ed25519`.
#[verifier::external_body]
fn read_pem_public_key(text: &str) -> (r: Option<Vec<u8>>)
    ensures
        bytes_in(r) == pem_public_key(text@),
        r is Some ==> r->0@.len() == KEY_LENGTH,
{
    Some(PublicKeyBytes::from_public_key_pem(text).ok()?.0.to_vec())
}

/// The secret bytes of the private key in a PEM text; nothing where there is none.
pub uninterp spec fn pem_private_key(text: Seq<char>) -> Option<Seq<u8>>;

/// `KeypairBytes::from_pkcs8_pem`, of `ed25519`.
#[verifier::external_body]
fn read_pem_private_key(text: &str) -> (r: Option<Vec<u8>>)
    ensures
        bytes_in(r) == pem_private_key(text@),
        r is Some ==> r->0@.len() == KEY_LENGTH,
{
    Some(KeypairBytes::from_pkcs8_pem(text).ok()?.secret_key.to_vec())
}

/// Whether these bytes are a point of the curve, so that signatures can be verified with them.
pub uninterp spec fn is_public_key(bytes: Seq<u8>) -> bool;

/// `VerifyingKey::from_bytes`.
#[verifier::external_body]
pub(crate) fn check_public_key(bytes: &[u8]) -> (r: bool)
    requires
        bytes@.len() == KEY_LENGTH,
    ensures
        r == is_public_key(bytes@),
{
    VerifyingKey::from_bytes(bytes.try_into().unwrap()).is_ok()
}

/// The public key that belongs to a private key.
pub uninterp spec fn public_key_of(secret: Seq<u8>) -> Seq<u8>;

/// `SigningKey::verifying_key`. It is a public key.
#[verifier::external_body]
fn derive_public_key(secret: &[u8]) -> (r: Vec<u8>)
    requires
        secret@.len() == KEY_LENGTH,
    ensures
        r@ == public_key_of(secret@),
        r@.len() == KEY_LENGTH,
        is_public_key(r@),
{
    SigningKey::from_bytes(secret.try_into().unwrap()).verifying_key().to_bytes().to_vec()
}

/// What a private key signs a message with.
pub uninterp spec fn signature_of(secret: Seq<u8>, message: Seq<u8>) -> Seq<u8>;

/// Whether a signature of a message was made with the private key that belongs to a public key.
pub uninterp spec fn verifies(public_key: Seq<u8>, message: Seq<u8>, signature: Seq<u8>) -> bool;

/// `SigningKey::sign`, of `ed25519_dalek`. What it signs can be verified with the public key that belongs to it.
#[verifier::external_body]
fn sign_with(secret: &[u8], message: &[u8]) -> (r: Vec<u8>)
    requires
        secret@.len() == KEY_LENGTH,
    ensures
        r@ == signature_of(secret@, message@),
        r@.len() == SIGNATURE_LENGTH,
        verifies(public_key_of(secret@), message@, r@),
{
    SigningKey::from_bytes(secret.try_into().unwrap()).sign(message).to_bytes().to_vec()
}

/// `VerifyingKey::verify`, of `ed25519_dalek`. Nothing can be verified with bytes that are no public key.
#[verifier::external_body]
pub(crate) fn verify_signature(public_key: &[u8], message: &[u8], signature: &[u8]) -> (r: bool)
    requires
        public_key@.len() == KEY_LENGTH,
        signature@.len() == SIGNATURE_LENGTH,
    ensures
        r == verifies(public_key@, message@, signature@),
{
    let signature = ed25519_dalek::Signature::from_bytes(signature.try_into().unwrap());
    match VerifyingKey::from_bytes(public_key.try_into().unwrap()) {
        Ok(key) => key.verify(message, &signature).is_ok(),
        Err(_) => false,
    }
}

/// The Blake2b hash of 224 bits.
pub uninterp spec fn blake2b_224(bytes: Seq<u8>) -> Seq<u8>;

/// `pallas_crypto`'s `Hasher::<224>::hash`.
#[verifier::external_body]
fn hash_224(bytes: &[u8]) -> (r: Vec<u8>)
    ensures
        r@ == blake2b_224(bytes@),
{
    Hasher::<224>::hash(bytes).as_ref().to_vec()
}

/// Bytes in the characters of Bech32, behind a prefix and without a checksum; nothing where that is too long.
pub uninterp spec fn bech32_text(prefix: Seq<char>, bytes: Seq<u8>) -> Option<Seq<char>>;

/// The text, where there is one.
pub open spec fn text_in(text: Option<String>) -> Option<Seq<char>> {
    match text {
        Some(text) => Some(text@),
        None => None,
    }
}

/// `bech32::encode::<NoChecksum>`.
#[verifier::external_body]
fn encode_bech32(prefix: &str, bytes: &[u8]) -> (r: Option<String>)
    ensures
        text_in(r) == bech32_text(prefix@, bytes@),
{
    bech32::encode::<NoChecksum>(Hrp::parse(prefix).ok()?, bytes).ok()
}

/// The address of a group, by its public key package: a hash of it in the characters of Bech32.
pub open spec fn address_of(public_key: Seq<u8>) -> Option<Seq<char>> {
    bech32_text("addr"@, blake2b_224(public_key))
}

/// The address of a group, by its public key package. Its keys are kept under this name.
pub fn frost_address(public_key: &Vec<u8>) -> (r: Option<String>)
    ensures
        text_in(r) == address_of(public_key@),
{
    encode_bech32("addr", hash_224(public_key.as_slice()).as_slice())
}

/// The private key of a node.
pub struct PrivateKey {
    secret: Vec<u8>,
}

impl View for PrivateKey {
    type V = Seq<u8>;

    closed spec fn view(&self) -> Seq<u8> {
        self.secret@
    }
}

impl PrivateKey {
    #[verifier::type_invariant]
    spec fn wf(&self) -> bool {
        self.secret@.len() == KEY_LENGTH
    }

    /// The private key in a PEM text.
    pub fn from_pem(text: &str) -> (r: Option<Self>)
        ensures
            r is Some <==> pem_private_key(text@) is Some,
            r is Some ==> pem_private_key(text@) == Some(r->0@),
    {
        match read_pem_private_key(text) {
            Some(secret) => Some(PrivateKey { secret }),
            None => None,
        }
    }

    /// The private key with these secret bytes; nothing where there are more or fewer than it has.
    pub fn from_bytes(secret: Vec<u8>) -> (r: Option<Self>)
        ensures
            r is Some <==> secret@.len() == KEY_LENGTH,
            r is Some ==> r->0@ == secret@,
    {
        if secret.len() == KEY_LENGTH {
            Some(PrivateKey { secret })
        } else {
            None
        }
    }

    /// The public key that belongs to it.
    pub fn public_key(&self) -> (r: Vec<u8>)
        ensures
            r@ == public_key_of(self@),
            r@.len() == KEY_LENGTH,
            is_public_key(r@),
    {
        proof {
            use_type_invariant(self);
        }
        derive_public_key(self.secret.as_slice())
    }

    /// Signs a message, so that others can verify it with the public key.
    pub fn sign(&self, message: &[u8]) -> (r: Vec<u8>)
        ensures
            r@ == signature_of(self@, message@),
            r@.len() == SIGNATURE_LENGTH,
            verifies(public_key_of(self@), message@, r@),
    {
        proof {
            use_type_invariant(self);
        }
        sign_with(self.secret.as_slice(), message)
    }
}

/// Why a text holds no public key.
#[derive(Debug, Clone, Copy, PartialEq, Eq, Structural)]
pub enum KeyError {
    /// The text is no PEM text of a public key.
    Pem,
    /// The bytes are no point of the curve.
    Point,
}

/// The public key that a PEM text holds.
pub open spec fn public_key_in(text: Seq<char>) -> Result<Seq<u8>, KeyError> {
    match pem_public_key(text) {
        None => Err(KeyError::Pem),
        Some(bytes) => if is_public_key(bytes) {
            Ok(bytes)
        } else {
            Err(KeyError::Point)
        },
    }
}

/// The public key that a PEM text holds.
pub fn parse_public_key(text: &str) -> (r: Result<Vec<u8>, KeyError>)
    ensures
        match r {
            Ok(key) => public_key_in(text@) == Ok::<Seq<u8>, KeyError>(key@) && key@.len() == KEY_LENGTH,
            Err(error) => public_key_in(text@) == Err::<Seq<u8>, KeyError>(error),
        },
{
    match read_pem_public_key(text) {
        None => Err(KeyError::Pem),
        Some(bytes) => if check_public_key(bytes.as_slice()) {
            Ok(bytes)
        } else {
            Err(KeyError::Point)
        },
    }
}

/// A node is named by its public key, in hexadecimal digits.
pub fn compute_node_id(public_key: &[u8]) -> (r: NodeId)
    ensures
        r@ == hex_digits(public_key@),
{
    NodeId::new(hex_encode(public_key))
}

} // verus!
