//! Secrets that two nodes share, and messages that only they can read.

use chacha20poly1305::aead::Aead;
use chacha20poly1305::{AeadCore, Key, KeyInit, XChaCha20Poly1305, XNonce};
use rand::thread_rng;
use vstd::prelude::*;
use x25519_dalek::{PublicKey, StaticSecret};

use crate::frost::bytes_in;
use crate::keys::KEY_LENGTH;

verus! {

/// How many bytes a nonce takes.
pub const NONCE_LENGTH: usize = 24;

/// What a node tells others of an ephemeral secret.
pub uninterp spec fn ecdh_public_key(secret: Seq<u8>) -> Seq<u8>;

/// The secret that an ephemeral secret makes of what another node tells of its own.
pub uninterp spec fn shared_secret(secret: Seq<u8>, public_key: Seq<u8>) -> Seq<u8>;

/// `StaticSecret::random_from_rng`, of `x25519_dalek`: any bytes.
#[verifier::external_body]
pub(crate) fn draw_ecdh_secret() -> (r: Vec<u8>)
    ensures
        r@.len() == KEY_LENGTH,
{
    StaticSecret::random_from_rng(thread_rng()).to_bytes().to_vec()
}

/// `x25519_dalek`'s `PublicKey::from` of a secret. It depends on the secret alone.
#[verifier::external_body]
pub(crate) fn derive_ecdh_public_key(secret: &[u8]) -> (r: Vec<u8>)
    requires
        secret@.len() == KEY_LENGTH,
    ensures
        r@ == ecdh_public_key(secret@),
        r@.len() == KEY_LENGTH,
{
    let secret: [u8; 32] = secret.try_into().unwrap();
    PublicKey::from(&StaticSecret::from(secret)).to_bytes().to_vec()
}

/// `StaticSecret::diffie_hellman`, of `x25519_dalek`. It depends on the two keys alone, and whoever holds the secret
/// behind the other key makes the same of this node's public key.
#[verifier::external_body]
pub(crate) fn agree_on_secret(secret: &[u8], public_key: &[u8]) -> (r: Vec<u8>)
    requires
        secret@.len() == KEY_LENGTH,
        public_key@.len() == KEY_LENGTH,
    ensures
        r@ == shared_secret(secret@, public_key@),
        r@.len() == KEY_LENGTH,
        forall|other: Seq<u8>|
            other.len() == KEY_LENGTH && #[trigger] ecdh_public_key(other) == public_key@ ==> r@ == shared_secret(
                other,
                ecdh_public_key(secret@),
            ),
{
    let secret: [u8; 32] = secret.try_into().unwrap();
    let public_key: [u8; 32] = public_key.try_into().unwrap();
    StaticSecret::from(secret).diffie_hellman(&PublicKey::from(public_key)).to_bytes().to_vec()
}

/// A message that was made unreadable with a key and a nonce.
pub uninterp spec fn sealed(key: Seq<u8>, nonce: Seq<u8>, message: Seq<u8>) -> Seq<u8>;

/// What a key and a nonce make readable again; nothing where it was not made with them.
pub uninterp spec fn opened(key: Seq<u8>, nonce: Seq<u8>, payload: Seq<u8>) -> Option<Seq<u8>>;

/// Whether a message is short enough to be sealed.
pub open spec fn can_be_sealed(message: Seq<u8>) -> bool {
    message.len() / 64 < 0xffff_ffff
}

/// `XChaCha20Poly1305::generate_nonce`: any bytes.
#[verifier::external_body]
pub(crate) fn draw_nonce() -> (r: Vec<u8>)
    ensures
        r@.len() == NONCE_LENGTH,
{
    XChaCha20Poly1305::generate_nonce(&mut thread_rng()).to_vec()
}

/// `XChaCha20Poly1305::encrypt`. It depends on the key, the nonce and the message alone, and the same key and nonce
/// give the message back.
#[verifier::external_body]
pub(crate) fn seal(key: &[u8], nonce: &[u8], message: &[u8]) -> (r: Vec<u8>)
    requires
        key@.len() == KEY_LENGTH,
        nonce@.len() == NONCE_LENGTH,
        can_be_sealed(message@),
    ensures
        r@ == sealed(key@, nonce@, message@),
        opened(key@, nonce@, r@) == Some(message@),
{
    XChaCha20Poly1305::new(Key::from_slice(key)).encrypt(XNonce::from_slice(nonce), message).unwrap()
}

/// `XChaCha20Poly1305::decrypt`. It depends on the key, the nonce and the bytes alone.
#[verifier::external_body]
pub(crate) fn unseal(key: &[u8], nonce: &[u8], payload: &[u8]) -> (r: Option<Vec<u8>>)
    requires
        key@.len() == KEY_LENGTH,
        nonce@.len() == NONCE_LENGTH,
    ensures
        bytes_in(r) == opened(key@, nonce@, payload@),
{
    XChaCha20Poly1305::new(Key::from_slice(key)).decrypt(XNonce::from_slice(nonce), payload).ok()
}

} // verus!
