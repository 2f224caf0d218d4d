//! What holds of a message that is signed together.

use vstd::prelude::*;

use crate::frost::demonstration::{commitments_of, shares_of, signed_together};
use crate::frost::{group_signature, key_parts, signature_share, signing_package};

verus! {

/// Whether a value stands with the identifier that a key belongs to.
pub open spec fn is_from(value: (Seq<u8>, Seq<u8>), key: Seq<u8>) -> bool {
    key_parts(key) matches Some(parts) && value.0 == parts.0
}

/// A message is signed by as many signers as have drawn nonces, each with its own key: the package is made of all their
/// commitments and of the message, each share of the package with their nonces, and the signature of all shares.
pub proof fn law_every_signer_takes_part(
    keys: Seq<Vec<u8>>,
    public_key: Seq<u8>,
    drawn: Seq<(Vec<u8>, Vec<u8>)>,
    message: Seq<u8>,
)
    requires
        drawn.len() <= keys.len(),
    ensures
        signed_together(keys, public_key, drawn, message) matches Some(signed) ==> {
            &&& signed.commitments.len() == drawn.len()
            &&& signed.shares.len() == drawn.len()
            &&& signing_package(signed.commitments, message) == Some(signed.package)
            &&& group_signature(signed.package, signed.shares, public_key) == Some(signed.signature)
            &&& forall|i: int|
                0 <= i < drawn.len() ==> {
                    &&& is_from(#[trigger] signed.commitments[i], keys[i]@)
                    &&& signed.commitments[i].1 == drawn[i].1@
                }
            &&& forall|i: int|
                0 <= i < drawn.len() ==> {
                    &&& is_from(#[trigger] signed.shares[i], keys[i]@)
                    &&& signature_share(signed.package, drawn[i].0@, keys[i]@) == Some(signed.shares[i].1)
                }
        },
{
    if let Some(signed) = signed_together(keys, public_key, drawn, message) {
        lemma_commitments(keys, drawn);
        lemma_shares(signed.package, keys, drawn);
    }
}

proof fn lemma_commitments(keys: Seq<Vec<u8>>, drawn: Seq<(Vec<u8>, Vec<u8>)>)
    requires
        drawn.len() <= keys.len(),
        commitments_of(keys, drawn) is Some,
    ensures
        ({
            let all = commitments_of(keys, drawn)->0;
            &&& all.len() == drawn.len()
            &&& forall|i: int|
                0 <= i < drawn.len() ==> {
                    &&& is_from(#[trigger] all[i], keys[i]@)
                    &&& all[i].1 == drawn[i].1@
                }
        }),
    decreases drawn.len(),
{
    if drawn.len() > 0 {
        let front = drawn.drop_last();
        lemma_commitments(keys, front);
        let before = commitments_of(keys, front)->0;
        let all = commitments_of(keys, drawn)->0;
        assert forall|i: int| 0 <= i < front.len() implies #[trigger] all[i] == before[i] && drawn[i] == front[i] by {}
    }
}

proof fn lemma_shares(package: Seq<u8>, keys: Seq<Vec<u8>>, drawn: Seq<(Vec<u8>, Vec<u8>)>)
    requires
        drawn.len() <= keys.len(),
        shares_of(package, keys, drawn) is Some,
    ensures
        ({
            let all = shares_of(package, keys, drawn)->0;
            &&& all.len() == drawn.len()
            &&& forall|i: int|
                0 <= i < drawn.len() ==> {
                    &&& is_from(#[trigger] all[i], keys[i]@)
                    &&& signature_share(package, drawn[i].0@, keys[i]@) == Some(all[i].1)
                }
        }),
    decreases drawn.len(),
{
    if drawn.len() > 0 {
        let front = drawn.drop_last();
        lemma_shares(package, keys, front);
        let before = shares_of(package, keys, front)->0;
        let all = shares_of(package, keys, drawn)->0;
        assert forall|i: int| 0 <= i < front.len() implies #[trigger] all[i] == before[i] && drawn[i] == front[i] by {}
    }
}

} // verus!
