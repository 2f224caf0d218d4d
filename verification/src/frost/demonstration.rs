//! A group that signs one message, from its keys to its signature.

use vstd::prelude::*;
use vstd::utf8::encode_utf8;

use crate::frost::{add_shares, are_group_keys, byte_pairs, copy_bytes, deal_keys, draw_nonces, group_signature, key_parts};
use crate::frost::{make_package, nonce_commitments, sign_share, signature_share, signing_package, DealtKeys, SigningKey};

pub mod laws;

verus! {

/// How many signers there are.
pub const MAX_SIGNERS: u16 = 11;

/// How many of them have to sign, and do.
pub const MIN_SIGNERS: u16 = 9;

/// What came of signing a message together.
pub struct SignedTogether {
    /// The commitments of those who sign, each with its identifier.
    pub commitments: Vec<(Vec<u8>, Vec<u8>)>,
    pub package: Vec<u8>,
    /// Their shares of the signature, each with its identifier.
    pub shares: Vec<(Vec<u8>, Vec<u8>)>,
    pub signature: Vec<u8>,
}

pub struct SignedTogetherView {
    pub commitments: Seq<(Seq<u8>, Seq<u8>)>,
    pub package: Seq<u8>,
    pub shares: Seq<(Seq<u8>, Seq<u8>)>,
    pub signature: Seq<u8>,
}

impl View for SignedTogether {
    type V = SignedTogetherView;

    open spec fn view(&self) -> SignedTogetherView {
        SignedTogetherView {
            commitments: byte_pairs(self.commitments@),
            package: self.package@,
            shares: byte_pairs(self.shares@),
            signature: self.signature@,
        }
    }
}

/// The commitments of the first signers, by their identifiers; nothing where a key cannot be read.
pub open spec fn commitments_of(keys: Seq<Vec<u8>>, drawn: Seq<(Vec<u8>, Vec<u8>)>) -> Option<Seq<(Seq<u8>, Seq<u8>)>>
    decreases drawn.len(),
{
    if drawn.len() == 0 {
        Some(seq![])
    } else {
        match (commitments_of(keys, drawn.drop_last()), key_parts(keys[drawn.len() - 1]@)) {
            (Some(before), Some(parts)) => Some(before.push((parts.0, drawn.last().1@))),
            _ => None,
        }
    }
}

/// The shares of the first signers, by their identifiers; nothing where one cannot be computed.
pub open spec fn shares_of(
    package: Seq<u8>,
    keys: Seq<Vec<u8>>,
    drawn: Seq<(Vec<u8>, Vec<u8>)>,
) -> Option<Seq<(Seq<u8>, Seq<u8>)>>
    decreases drawn.len(),
{
    if drawn.len() == 0 {
        Some(seq![])
    } else {
        let key = keys[drawn.len() - 1]@;
        match (
            shares_of(package, keys, drawn.drop_last()),
            key_parts(key),
            signature_share(package, drawn.last().0@, key),
        ) {
            (Some(before), Some(parts), Some(share)) => Some(before.push((parts.0, share))),
            _ => None,
        }
    }
}

/// What comes of signing a message with these keys, nonces and commitments; nothing where a step fails.
pub open spec fn signed_together(
    keys: Seq<Vec<u8>>,
    public_key: Seq<u8>,
    drawn: Seq<(Vec<u8>, Vec<u8>)>,
    message: Seq<u8>,
) -> Option<SignedTogetherView> {
    match commitments_of(keys, drawn) {
        None => None,
        Some(commitments) => match signing_package(commitments, message) {
            None => None,
            Some(package) => match shares_of(package, keys, drawn) {
                None => None,
                Some(shares) => match group_signature(package, shares, public_key) {
                    None => None,
                    Some(signature) => Some(SignedTogetherView { commitments, package, shares, signature }),
                },
            },
        },
    }
}

/// Nothing comes of more signers where nothing came of fewer.
proof fn lemma_failures_stay(package: Seq<u8>, keys: Seq<Vec<u8>>, drawn: Seq<(Vec<u8>, Vec<u8>)>, n: int)
    requires
        0 <= n <= drawn.len(),
    ensures
        commitments_of(keys, drawn.take(n)) is None ==> commitments_of(keys, drawn) is None,
        shares_of(package, keys, drawn.take(n)) is None ==> shares_of(package, keys, drawn) is None,
    decreases drawn.len(),
{
    if n == drawn.len() {
        assert(drawn.take(n) =~= drawn);
    } else {
        assert(drawn.drop_last().take(n) =~= drawn.take(n));
        lemma_failures_stay(package, keys, drawn.drop_last(), n);
    }
}

fn find_commitments(keys: &Vec<Vec<u8>>, drawn: &Vec<(Vec<u8>, Vec<u8>)>) -> (r: Option<Vec<(Vec<u8>, Vec<u8>)>>)
    requires
        drawn@.len() <= keys@.len(),
    ensures
        match r {
            Some(commitments) => commitments_of(keys@, drawn@) == Some(byte_pairs(commitments@)),
            None => commitments_of(keys@, drawn@) is None,
        },
{
    let mut commitments: Vec<(Vec<u8>, Vec<u8>)> = Vec::new();
    let mut i: usize = 0;
    assert(drawn@.take(0).len() == 0);
    assert(byte_pairs(commitments@) =~= seq![]);
    while i < drawn.len()
        invariant
            i <= drawn@.len() <= keys@.len(),
            commitments_of(keys@, drawn@.take(i as int)) == Some(byte_pairs(commitments@)),
        decreases drawn.len() - i,
    {
        proof {
            assert(drawn@.take(i + 1).drop_last() =~= drawn@.take(i as int));
            lemma_failures_stay(seq![], keys@, drawn@, i + 1);
        }
        match SigningKey::parse(copy_bytes(&keys[i])) {
            Some(key) => {
                let ghost before = commitments@;
                commitments.push((key.identifier(), copy_bytes(&drawn[i].1)));
                assert(byte_pairs(commitments@) =~= byte_pairs(before).push(
                    ((key_parts(keys@[i as int]@)->0).0, drawn@[i as int].1@),
                ));
            },
            None => {
                return None;
            },
        }
        i += 1;
    }
    assert(drawn@.take(i as int) =~= drawn@);
    Some(commitments)
}

fn find_shares(package: &Vec<u8>, keys: &Vec<Vec<u8>>, drawn: &Vec<(Vec<u8>, Vec<u8>)>) -> (r: Option<
    Vec<(Vec<u8>, Vec<u8>)>,
>)
    requires
        drawn@.len() <= keys@.len(),
    ensures
        match r {
            Some(shares) => shares_of(package@, keys@, drawn@) == Some(byte_pairs(shares@)),
            None => shares_of(package@, keys@, drawn@) is None,
        },
{
    let mut shares: Vec<(Vec<u8>, Vec<u8>)> = Vec::new();
    let mut i: usize = 0;
    assert(drawn@.take(0).len() == 0);
    assert(byte_pairs(shares@) =~= seq![]);
    while i < drawn.len()
        invariant
            i <= drawn@.len() <= keys@.len(),
            shares_of(package@, keys@, drawn@.take(i as int)) == Some(byte_pairs(shares@)),
        decreases drawn.len() - i,
    {
        proof {
            assert(drawn@.take(i + 1).drop_last() =~= drawn@.take(i as int));
            lemma_failures_stay(package@, keys@, drawn@, i + 1);
        }
        let share = sign_share(package.as_slice(), drawn[i].0.as_slice(), keys[i].as_slice());
        match (SigningKey::parse(copy_bytes(&keys[i])), share) {
            (Some(key), Some(share)) => {
                let ghost before = shares@;
                let ghost new = share@;
                shares.push((key.identifier(), share));
                assert(byte_pairs(shares@) =~= byte_pairs(before).push(((key_parts(keys@[i as int]@)->0).0, new)));
            },
            _ => {
                return None;
            },
        }
        i += 1;
    }
    assert(drawn@.take(i as int) =~= drawn@);
    Some(shares)
}

/// Signs a message with the keys of the first signers, as many as have drawn nonces and commitments to them.
pub fn sign_together(
    keys: &Vec<Vec<u8>>,
    public_key: &Vec<u8>,
    drawn: &Vec<(Vec<u8>, Vec<u8>)>,
    message: &[u8],
) -> (r: Option<SignedTogether>)
    requires
        drawn@.len() <= keys@.len(),
    ensures
        match r {
            Some(signed) => signed_together(keys@, public_key@, drawn@, message@) == Some(signed@),
            None => signed_together(keys@, public_key@, drawn@, message@) is None,
        },
{
    let commitments = match find_commitments(keys, drawn) {
        Some(commitments) => commitments,
        None => {
            return None;
        },
    };
    let package = match make_package(&commitments, message) {
        Some(package) => package,
        None => {
            return None;
        },
    };
    let shares = match find_shares(&package, keys, drawn) {
        Some(shares) => shares,
        None => {
            return None;
        },
    };
    match add_shares(package.as_slice(), &shares, public_key.as_slice()) {
        Some(signature) => Some(SignedTogether { commitments, package, shares, signature }),
        None => None,
    }
}

/// The keys of a group, what its signers drew, and what they signed.
pub struct Demonstration {
    pub dealt: DealtKeys,
    /// The nonces and commitments of those who sign.
    pub drawn: Vec<(Vec<u8>, Vec<u8>)>,
    pub signed: SignedTogether,
}

/// Makes keys for a group, and has as many of its signers as it takes sign a greeting. Whether that succeeds depends on
/// what is drawn.
pub fn frost_poc() -> (r: Option<Demonstration>)
    ensures
        r matches Some(shown) ==> {
            &&& are_group_keys(shown.dealt.keys@, shown.dealt.public_key@, MAX_SIGNERS, MIN_SIGNERS)
            &&& shown.drawn@.len() == MIN_SIGNERS
            &&& forall|i: int|
                0 <= i < shown.drawn@.len() ==> nonce_commitments((#[trigger] shown.drawn@[i]).0@) == Some(
                    shown.drawn@[i].1@,
                )
            &&& signed_together(
                shown.dealt.keys@,
                shown.dealt.public_key@,
                shown.drawn@,
                encode_utf8("Hello, world!"@),
            ) == Some(shown.signed@)
        },
{
    let dealt = match deal_keys(MAX_SIGNERS, MIN_SIGNERS) {
        Ok(dealt) => dealt,
        Err(_) => {
            return None;
        },
    };
    let mut drawn: Vec<(Vec<u8>, Vec<u8>)> = Vec::new();
    let mut i: usize = 0;
    while i < MIN_SIGNERS as usize
        invariant
            i <= MIN_SIGNERS,
            drawn@.len() == i,
            forall|j: int|
                0 <= j < i ==> nonce_commitments((#[trigger] drawn@[j]).0@) == Some(drawn@[j].1@),
            dealt.keys@.len() == MAX_SIGNERS,
        decreases MIN_SIGNERS - i,
    {
        match draw_nonces(dealt.keys[i].as_slice()) {
            Some(pair) => {
                drawn.push(pair);
            },
            None => {
                return None;
            },
        }
        i += 1;
    }
    match sign_together(&dealt.keys, &dealt.public_key, &drawn, "Hello, world!".as_bytes()) {
        Some(signed) => Some(Demonstration { dealt, drawn, signed }),
        None => None,
    }
}

} // verus!
