//! Threshold signatures: the calls into `frost_ed25519`. Keys, commitments, packages, shares and
//! signatures are held as the bytes that it serializes them to.

use frost_ed25519::keys::dkg::round1::Package as Round1Package;
use frost_ed25519::keys::dkg::round2::SecretPackage as Round2Secret;
use frost_ed25519::keys::dkg::round2::Package as Round2Package;
use frost_ed25519::keys::{dkg, generate_with_dealer, IdentifierList, KeyPackage, PublicKeyPackage};
use frost_ed25519::round1::{SigningCommitments, SigningNonces};
use frost_ed25519::round2::SignatureShare;
use frost_ed25519::{Error, Identifier, SigningPackage};
use rand::thread_rng;
use std::collections::BTreeMap;
use vstd::prelude::*;

pub mod demonstration;

verus! {

/// Values by participant: identifiers, each with a value.
pub open spec fn byte_pairs(pairs: Seq<(Vec<u8>, Vec<u8>)>) -> Seq<(Seq<u8>, Seq<u8>)> {
    Seq::new(pairs.len(), |i: int| (pairs[i].0@, pairs[i].1@))
}

/// The bytes, where there are any.
pub open spec fn bytes_in(bytes: Option<Vec<u8>>) -> Option<Seq<u8>> {
    match bytes {
        Some(bytes) => Some(bytes@),
        None => None,
    }
}

/// Whether two byte strings are the same.
pub fn same_bytes(a: &Vec<u8>, b: &Vec<u8>) -> (r: bool)
    ensures
        r == (a@ == b@),
{
    let r = *a == *b;
    assert(r ==> a@ =~= b@);
    r
}

/// A copy of the bytes.
pub fn copy_bytes(bytes: &Vec<u8>) -> (r: Vec<u8>)
    ensures
        r@ == bytes@,
{
    let r = bytes.clone();
    assert(r@ =~= bytes@);
    r
}

/// The identifier that a key package belongs to, how many signers its group asks for, and the key by which the group's
/// signatures are checked; nothing for bytes that are no key package.
pub uninterp spec fn key_parts(key: Seq<u8>) -> Option<(Seq<u8>, u16, Seq<u8>)>;

/// `KeyPackage::deserialize`, `KeyPackage::identifier`, `KeyPackage::min_signers` and `KeyPackage::verifying_key`.
#[verifier::external_body]
fn read_key_package(key: &[u8]) -> (r: Option<(Vec<u8>, u16, Vec<u8>)>)
    ensures
        r is Some <==> key_parts(key@) is Some,
        r is Some ==> key_parts(key@) == Some(((r->0).0@, (r->0).1, (r->0).2@)),
{
    let key = KeyPackage::deserialize(key).ok()?;
    Some((key.identifier().serialize(), *key.min_signers(), key.verifying_key().serialize().ok()?))
}

/// How many participants share a group's key, and the key by which the group's signatures are checked; nothing for bytes
/// that are no public key package.
pub uninterp spec fn group_parts(public_key: Seq<u8>) -> Option<(usize, Seq<u8>)>;

/// `PublicKeyPackage::deserialize`, the length of `PublicKeyPackage::verifying_shares`, and
/// `PublicKeyPackage::verifying_key`.
#[verifier::external_body]
fn read_public_key_package(public_key: &[u8]) -> (r: Option<(usize, Vec<u8>)>)
    ensures
        r is Some <==> group_parts(public_key@) is Some,
        r is Some ==> group_parts(public_key@) == Some(((r->0).0, (r->0).1@)),
{
    let public_key = PublicKeyPackage::deserialize(public_key).ok()?;
    Some((public_key.verifying_shares().len(), public_key.verifying_key().serialize().ok()?))
}

/// How many participants share a group's key.
pub open spec fn group_size(public_key: Seq<u8>) -> Option<usize> {
    match group_parts(public_key) {
        Some(parts) => Some(parts.0),
        None => None,
    }
}

/// The commitments to nonces; nothing for bytes that are no nonces.
pub uninterp spec fn nonce_commitments(nonces: Seq<u8>) -> Option<Seq<u8>>;

/// `SigningNonces::commitments`.
#[verifier::external_body]
fn read_commitments(nonces: &[u8]) -> (r: Option<Vec<u8>>)
    ensures
        bytes_in(r) == nonce_commitments(nonces@),
{
    SigningNonces::deserialize(nonces).ok()?.commitments().serialize().ok()
}

/// `round1::commit`, with nonces drawn at random. Nothing is stated of what was drawn but that there are commitments to
/// it; there is none for bytes that are no key package. Otherwise it rests on chance whether there are any, since a
/// commitment to zero cannot be serialized.
#[verifier::external_body]
fn draw_secret_nonces(key: &[u8]) -> (r: Option<Vec<u8>>)
    ensures
        key_parts(key@) is None ==> r is None,
        r is Some ==> nonce_commitments(r->0@) is Some,
{
    let key = KeyPackage::deserialize(key).ok()?;
    let (nonces, _) = frost_ed25519::round1::commit(key.signing_share(), &mut thread_rng());
    nonces.serialize().ok()
}

/// Draws nonces at random, and finds the commitments to them.
pub(crate) fn draw_nonces(key: &[u8]) -> (r: Option<(Vec<u8>, Vec<u8>)>)
    ensures
        key_parts(key@) is None ==> r is None,
        r matches Some((nonces, commitments)) ==> nonce_commitments(nonces@) == Some(commitments@),
{
    match draw_secret_nonces(key) {
        Some(nonces) => match read_commitments(nonces.as_slice()) {
            Some(commitments) => Some((nonces, commitments)),
            None => None,
        },
        None => None,
    }
}

/// The package that asks for signatures of a message; nothing where a part of it cannot be read.
pub uninterp spec fn signing_package(commitments: Seq<(Seq<u8>, Seq<u8>)>, message: Seq<u8>) -> Option<Seq<u8>>;

/// The message that a package asks to sign; nothing for bytes that are no package.
pub uninterp spec fn package_message(package: Seq<u8>) -> Option<Seq<u8>>;

/// `SigningPackage::new`. The package holds the message.
#[verifier::external_body]
pub(crate) fn make_package(commitments: &Vec<(Vec<u8>, Vec<u8>)>, message: &[u8]) -> (r: Option<Vec<u8>>)
    ensures
        bytes_in(r) == signing_package(byte_pairs(commitments@), message@),
        r is Some ==> package_message(r->0@) == Some(message@),
{
    let commitments = commitments
        .iter()
        .map(|(id, c)| Some((Identifier::deserialize(id).ok()?, SigningCommitments::deserialize(c).ok()?)))
        .collect::<Option<BTreeMap<_, _>>>()?;
    SigningPackage::new(commitments, message).serialize().ok()
}

/// `SigningPackage::message`.
#[verifier::external_body]
pub(crate) fn read_message(package: &[u8]) -> (r: Option<Vec<u8>>)
    ensures
        bytes_in(r) == package_message(package@),
{
    Some(SigningPackage::deserialize(package).ok()?.message().clone())
}

/// A participant's share of a signature; nothing where it cannot be computed.
pub uninterp spec fn signature_share(package: Seq<u8>, nonces: Seq<u8>, key: Seq<u8>) -> Option<Seq<u8>>;

/// `round2::sign`.
#[verifier::external_body]
pub(crate) fn sign_share(package: &[u8], nonces: &[u8], key: &[u8]) -> (r: Option<Vec<u8>>)
    ensures
        bytes_in(r) == signature_share(package@, nonces@, key@),
{
    let package = SigningPackage::deserialize(package).ok()?;
    let nonces = SigningNonces::deserialize(nonces).ok()?;
    let key = KeyPackage::deserialize(key).ok()?;
    Some(frost_ed25519::round2::sign(&package, &nonces, &key).ok()?.serialize())
}

/// The signature that shares add up to; nothing where they do not.
pub uninterp spec fn group_signature(
    package: Seq<u8>,
    shares: Seq<(Seq<u8>, Seq<u8>)>,
    public_key: Seq<u8>,
) -> Option<Seq<u8>>;

/// `aggregate`.
#[verifier::external_body]
pub(crate) fn add_shares(package: &[u8], shares: &Vec<(Vec<u8>, Vec<u8>)>, public_key: &[u8]) -> (r: Option<Vec<u8>>)
    ensures
        bytes_in(r) == group_signature(package@, byte_pairs(shares@), public_key@),
{
    let package = SigningPackage::deserialize(package).ok()?;
    let shares = shares
        .iter()
        .map(|(id, s)| Some((Identifier::deserialize(id).ok()?, SignatureShare::deserialize(s).ok()?)))
        .collect::<Option<BTreeMap<_, _>>>()?;
    let public_key = PublicKeyPackage::deserialize(public_key).ok()?;
    frost_ed25519::aggregate(&package, &shares, &public_key).ok()?.serialize().ok()
}

/// Whether a signature of a message is one of the group that a key belongs to.
pub uninterp spec fn is_signature(key: Seq<u8>, message: Seq<u8>, signature: Seq<u8>) -> bool;

/// `VerifyingKey::verify`, with the key package's verifying key.
#[verifier::external_body]
pub(crate) fn check_signature(key: &[u8], message: &[u8], signature: &[u8]) -> (r: bool)
    ensures
        r == is_signature(key@, message@, signature@),
{
    match (KeyPackage::deserialize(key), frost_ed25519::Signature::deserialize(signature)) {
        (Ok(key), Ok(signature)) => key.verifying_key().verify(message, &signature).is_ok(),
        _ => false,
    }
}

/// A participant's share of the group's key.
#[derive(Debug)]
pub struct SigningKey {
    bytes: Vec<u8>,
    identifier: Vec<u8>,
    min_signers: u16,
    group: Vec<u8>,
}

impl SigningKey {
    #[verifier::type_invariant]
    spec fn wf(&self) -> bool {
        key_parts(self.bytes@) == Some((self.identifier@, self.min_signers, self.group@))
    }

    /// The key package.
    pub closed spec fn key(&self) -> Seq<u8> {
        self.bytes@
    }

    /// The key that these bytes are, if they are one.
    pub fn parse(bytes: Vec<u8>) -> (r: Option<Self>)
        ensures
            r is Some <==> key_parts(bytes@) is Some,
            r is Some ==> r->0.key() == bytes@,
    {
        match read_key_package(bytes.as_slice()) {
            Some((identifier, min_signers, group)) => Some(SigningKey { bytes, identifier, min_signers, group }),
            None => None,
        }
    }

    pub fn bytes(&self) -> (r: &[u8])
        ensures
            r@ == self.key(),
    {
        self.bytes.as_slice()
    }

    /// The identifier of the participant.
    pub fn identifier(&self) -> (r: Vec<u8>)
        ensures
            key_parts(self.key()) matches Some(parts) && parts.0 == r@,
    {
        proof {
            use_type_invariant(self);
        }
        copy_bytes(&self.identifier)
    }

    /// How many participants have to sign.
    pub fn min_signers(&self) -> (r: u16)
        ensures
            key_parts(self.key()) matches Some(parts) && parts.1 == r,
    {
        proof {
            use_type_invariant(self);
        }
        self.min_signers
    }

    /// The key by which the signatures of the participant's group are checked.
    pub fn group(&self) -> (r: &[u8])
        ensures
            key_parts(self.key()) matches Some(parts) && parts.2 == r@,
    {
        proof {
            use_type_invariant(self);
        }
        self.group.as_slice()
    }
}

/// The group's public key.
#[derive(Debug)]
pub struct GroupKey {
    bytes: Vec<u8>,
    size: usize,
    group: Vec<u8>,
}

impl GroupKey {
    #[verifier::type_invariant]
    spec fn wf(&self) -> bool {
        group_parts(self.bytes@) == Some((self.size, self.group@))
    }

    /// The public key package.
    pub closed spec fn key(&self) -> Seq<u8> {
        self.bytes@
    }

    /// The key that these bytes are, if they are one.
    pub fn parse(bytes: Vec<u8>) -> (r: Option<Self>)
        ensures
            r is Some <==> group_parts(bytes@) is Some,
            r is Some ==> r->0.key() == bytes@,
    {
        match read_public_key_package(bytes.as_slice()) {
            Some((size, group)) => Some(GroupKey { bytes, size, group }),
            None => None,
        }
    }

    pub fn bytes(&self) -> (r: &[u8])
        ensures
            r@ == self.key(),
    {
        self.bytes.as_slice()
    }

    /// How many participants share the group's key.
    pub fn size(&self) -> (r: usize)
        ensures
            group_size(self.key()) == Some(r),
    {
        proof {
            use_type_invariant(self);
        }
        self.size
    }

    /// The key by which the group's signatures are checked.
    pub fn group(&self) -> (r: &[u8])
        ensures
            group_parts(self.key()) matches Some(parts) && parts.1 == r@,
    {
        proof {
            use_type_invariant(self);
        }
        self.group.as_slice()
    }
}

/// The identifier that a participant's name gives; nothing where it gives none.
pub uninterp spec fn derived_identifier(name: Seq<u8>) -> Option<Seq<u8>>;

/// Whether these bytes are an identifier (`Identifier::deserialize`).
pub uninterp spec fn is_identifier(bytes: Seq<u8>) -> bool;

/// `Identifier::derive`. What it gives can be read back.
#[verifier::external_body]
pub(crate) fn derive_identifier(name: &[u8]) -> (r: Option<Vec<u8>>)
    ensures
        bytes_in(r) == derived_identifier(name@),
        r is Some ==> is_identifier(r->0@),
{
    Some(Identifier::derive(name).ok()?.serialize())
}

/// Why no keys could be made.
#[derive(Debug, Clone, Copy, PartialEq, Eq, Structural)]
pub enum GenerationError {
    /// The bytes that should name a participant are no identifier.
    Identifier,
    /// Fewer than two would have to sign, or more than there are.
    MinSigners,
    /// There are fewer than two signers.
    MaxSigners,
    /// What was drawn cannot be written down.
    Draw,
}

/// What is wrong with these numbers of signers, if anything.
pub open spec fn signers_error(max_signers: u16, min_signers: u16) -> Option<GenerationError> {
    if min_signers < 2 {
        Some(GenerationError::MinSigners)
    } else if max_signers < 2 {
        Some(GenerationError::MaxSigners)
    } else if min_signers > max_signers {
        Some(GenerationError::MinSigners)
    } else {
        None
    }
}

/// What a secret of the first part of key generation is for: whose it is, how many participants there are
/// (`max_signers`), and how many of them have to sign (`min_signers`).
pub uninterp spec fn part1_parts(secret: Seq<u8>) -> Option<(Seq<u8>, u16, u16)>;

/// What the secret of the first part of key generation commits to; nothing for bytes that are no such secret.
pub uninterp spec fn secret_commitment(secret: Seq<u8>) -> Option<Seq<u8>>;

/// `SecretPackage::commitment`, of `dkg::round1`, in the form that `serialize_whole` gives it.
#[verifier::external_body]
fn read_secret_commitment(secret: &[u8]) -> (r: Option<Vec<u8>>)
    ensures
        bytes_in(r) == secret_commitment(secret@),
{
    dkg::round1::SecretPackage::deserialize(secret).ok()?.commitment().serialize_whole().ok()
}

/// What a package of the first part of key generation commits to; nothing for bytes that are no such package.
pub uninterp spec fn package_commitment(package: Seq<u8>) -> Option<Seq<u8>>;

/// `Package::commitment`, of `dkg::round1`, in the form that `serialize_whole` gives it.
#[verifier::external_body]
fn read_package_commitment(package: &[u8]) -> (r: Option<Vec<u8>>)
    ensures
        bytes_in(r) == package_commitment(package@),
{
    Round1Package::deserialize(package).ok()?.commitment().serialize_whole().ok()
}

/// Whether a package of the first part of key generation goes with a secret: both commit to the same.
pub open spec fn goes_with(package: Seq<u8>, secret: Seq<u8>) -> bool {
    secret_commitment(secret) is Some && package_commitment(package) == secret_commitment(secret)
}

/// What a secret of the second part of key generation is for: whose it is, how many participants there are
/// (`max_signers`), how many of them have to sign (`min_signers`), and what it commits to.
pub uninterp spec fn part2_parts(secret: Seq<u8>) -> Option<(Seq<u8>, u16, u16, Seq<u8>)>;

/// The error of the first part of key generation; with nothing wrong with what it is given, only what is drawn can
/// fail.
pub open spec fn part1_error(identifier: Seq<u8>, max_signers: u16, min_signers: u16) -> GenerationError {
    if !is_identifier(identifier) {
        GenerationError::Identifier
    } else {
        match signers_error(max_signers, min_signers) {
            Some(error) => error,
            None => GenerationError::Draw,
        }
    }
}

/// `dkg::part1`, with secrets drawn at random: a secret package and a package for the others. The secret package says
/// whom it is for, and both hold the same commitment. There are none for bytes that are no identifier, for fewer than two signers, or for more signers than
/// participants. Otherwise it rests on chance whether there are any, since a package that commits to zero cannot be
/// serialized; nothing more is stated of what was drawn.
#[verifier::external_body]
pub(crate) fn draw_part1(identifier: &[u8], max_signers: u16, min_signers: u16) -> (r: Result<
    (Vec<u8>, Vec<u8>),
    GenerationError,
>)
    ensures
        match r {
            Ok((secret, package)) => {
                &&& is_identifier(identifier@)
                &&& signers_error(max_signers, min_signers) is None
                &&& part1_parts(secret@) == Some((identifier@, max_signers, min_signers))
                &&& goes_with(package@, secret@)
            },
            Err(error) => error == part1_error(identifier@, max_signers, min_signers),
        },
{
    let identifier = Identifier::deserialize(identifier).map_err(|_| GenerationError::Identifier)?;
    let drawn = dkg::part1(identifier, max_signers, min_signers, thread_rng()).map_err(|error| match error {
        Error::InvalidMinSigners => GenerationError::MinSigners,
        Error::InvalidMaxSigners => GenerationError::MaxSigners,
        _ => GenerationError::Draw,
    });
    let (secret, package) = drawn?;
    let secret = secret.serialize().map_err(|_| GenerationError::Draw)?;
    Ok((secret, package.serialize().map_err(|_| GenerationError::Draw)?))
}

/// What the second part of key generation makes of a secret and the others' packages: a secret, and a
/// package for each of the others. Nothing where it fails.
pub uninterp spec fn part2_result(
    secret: Seq<u8>,
    packages: Seq<(Seq<u8>, Seq<u8>)>,
) -> Option<(Seq<u8>, Seq<(Seq<u8>, Seq<u8>)>)>;

/// Whether one of these pairs belongs to this identifier.
pub open spec fn has_identifier(pairs: Seq<(Seq<u8>, Seq<u8>)>, identifier: Seq<u8>) -> bool {
    exists|j: int| 0 <= j < pairs.len() && (#[trigger] pairs[j]).0 == identifier
}

/// Each of `outgoing` is for one of those who sent `packages`.
pub open spec fn for_senders(outgoing: Seq<(Seq<u8>, Seq<u8>)>, packages: Seq<(Seq<u8>, Seq<u8>)>) -> bool {
    forall|i: int| 0 <= i < outgoing.len() ==> has_identifier(packages, (#[trigger] outgoing[i]).0)
}

/// Whether a secret of the second part of key generation follows one of the first: it is for the same, and commits to
/// the same.
pub open spec fn continues(next: Seq<u8>, secret: Seq<u8>) -> bool {
    match (part1_parts(secret), secret_commitment(secret)) {
        (Some(parts), Some(commitment)) => part2_parts(next) == Some((parts.0, parts.1, parts.2, commitment)),
        _ => false,
    }
}

/// `dkg::part2`. The packages that it makes are for the participants whose packages it was given, and its
/// secret is for the same as the first one, and commits to the same. A secret for no participants, of which it would
/// take one away, is left out.
#[verifier::external_body]
pub(crate) fn run_part2(secret: &[u8], packages: &Vec<(Vec<u8>, Vec<u8>)>) -> (r: Option<
    (Vec<u8>, Vec<(Vec<u8>, Vec<u8>)>),
>)
    requires
        part1_parts(secret@) matches Some(parts) && parts.1 >= 1,
    ensures
        r is Some <==> part2_result(secret@, byte_pairs(packages@)) is Some,
        r matches Some((next, outgoing)) ==> part2_result(secret@, byte_pairs(packages@)) == Some(
            (next@, byte_pairs(outgoing@)),
        ) && for_senders(byte_pairs(outgoing@), byte_pairs(packages@)),
        r matches Some((next, _)) ==> part2_parts(next@) is Some && continues(next@, secret@),
{
    let secret = dkg::round1::SecretPackage::deserialize(secret).ok()?;
    let packages = packages
        .iter()
        .map(|(id, p)| Some((Identifier::deserialize(id).ok()?, Round1Package::deserialize(p).ok()?)))
        .collect::<Option<BTreeMap<_, _>>>()?;
    let (next, outgoing) = dkg::part2(secret, &packages).ok()?;
    let outgoing = outgoing
        .iter()
        .map(|(id, p)| Some((id.serialize(), p.serialize().ok()?)))
        .collect::<Option<Vec<_>>>()?;
    Some((next.serialize().ok()?, outgoing))
}

/// The keys that the third part of key generation makes: a key package and a public key package. Nothing
/// where it fails.
pub uninterp spec fn part3_result(
    secret: Seq<u8>,
    round1: Seq<(Seq<u8>, Seq<u8>)>,
    round2: Seq<(Seq<u8>, Seq<u8>)>,
) -> Option<(Seq<u8>, Seq<u8>)>;

/// The last of these pairs that belongs to an identifier stands at this place.
pub open spec fn is_last_pair(pairs: Seq<(Seq<u8>, Seq<u8>)>, identifier: Seq<u8>, at: int) -> bool {
    &&& 0 <= at < pairs.len()
    &&& pairs[at].0 == identifier
    &&& forall|j: int| at < j < pairs.len() ==> (#[trigger] pairs[j]).0 != identifier
}

/// What the packages of the first part of key generation commit to, by identifier; of several with the same identifier,
/// the last counts.
pub open spec fn commitments_in(packages: Seq<(Seq<u8>, Seq<u8>)>) -> Map<Seq<u8>, Seq<u8>> {
    Map::new(
        |identifier: Seq<u8>| has_identifier(packages, identifier),
        |identifier: Seq<u8>|
            package_commitment(packages[choose|at: int| is_last_pair(packages, identifier, at)].1)->0,
    )
}

/// The public key package of a group whose participants committed to this
/// (`PublicKeyPackage::from_dkg_commitments`).
pub uninterp spec fn committed_public_key(commitments: Map<Seq<u8>, Seq<u8>>) -> Seq<u8>;

/// What the participants committed to in the first part of key generation: the others in their packages, and the one
/// whose secret this is in that.
pub open spec fn joint_commitments(round1: Seq<(Seq<u8>, Seq<u8>)>, secret: Seq<u8>) -> Map<Seq<u8>, Seq<u8>> {
    commitments_in(round1).insert((part2_parts(secret)->0).0, (part2_parts(secret)->0).3)
}

/// Whether these keys are what the third part of key generation makes of a secret and of the packages of the first
/// part: the key is for the same as the secret, it belongs to the group of the public key, and the public key follows
/// from what the participants committed to.
pub open spec fn are_made_of(
    key: Seq<u8>,
    public_key: Seq<u8>,
    secret: Seq<u8>,
    round1: Seq<(Seq<u8>, Seq<u8>)>,
) -> bool {
    match (part2_parts(secret), group_parts(public_key)) {
        (Some(parts), Some(group)) => {
            &&& key_parts(key) == Some((parts.0, parts.2, group.1))
            &&& public_key == committed_public_key(joint_commitments(round1, secret))
        },
        _ => false,
    }
}

/// `dkg::part3`. The key is for the same as the secret and holds the verifying key of the public key package, and that
/// one is made of the commitments in the packages of the first part and in the secret. A secret for no participants, of
/// which it would take one away, is left out.
#[verifier::external_body]
pub(crate) fn run_part3(
    secret: &[u8],
    round1: &Vec<(Vec<u8>, Vec<u8>)>,
    round2: &Vec<(Vec<u8>, Vec<u8>)>,
) -> (r: Option<(Vec<u8>, Vec<u8>)>)
    requires
        part2_parts(secret@) matches Some(parts) && parts.1 >= 1,
    ensures
        r is Some <==> part3_result(secret@, byte_pairs(round1@), byte_pairs(round2@)) is Some,
        r matches Some((key, public_key)) ==> part3_result(secret@, byte_pairs(round1@), byte_pairs(round2@)) == Some(
            (key@, public_key@),
        ),
        r matches Some((key, public_key)) ==> are_made_of(key@, public_key@, secret@, byte_pairs(round1@)) && public_key@
            == committed_public_key(joint_commitments(byte_pairs(round1@), secret@)),
{
    let secret = Round2Secret::deserialize(secret).ok()?;
    let round1 = round1
        .iter()
        .map(|(id, p)| Some((Identifier::deserialize(id).ok()?, Round1Package::deserialize(p).ok()?)))
        .collect::<Option<BTreeMap<_, _>>>()?;
    let round2 = round2
        .iter()
        .map(|(id, p)| Some((Identifier::deserialize(id).ok()?, Round2Package::deserialize(p).ok()?)))
        .collect::<Option<BTreeMap<_, _>>>()?;
    let (key, public_key) = dkg::part3(&secret, &round1, &round2).ok()?;
    Some((key.serialize().ok()?, public_key.serialize().ok()?))
}

/// What a participant keeps to itself after the first part of key generation.
pub struct FirstSecret {
    bytes: Vec<u8>,
}

impl View for FirstSecret {
    type V = Seq<u8>;

    closed spec fn view(&self) -> Seq<u8> {
        self.bytes@
    }
}

impl FirstSecret {
    #[verifier::type_invariant]
    spec fn wf(&self) -> bool {
        part1_parts(self.bytes@) matches Some(parts) && parts.1 >= 1
    }

    /// Draws a secret at random, and the package for the others that goes with it. The secret is for this participant,
    /// of so many, of whom so many have to sign.
    pub fn draw(identifier: &Vec<u8>, max_signers: u16, min_signers: u16) -> (r: Result<
        (FirstSecret, Vec<u8>),
        GenerationError,
    >)
        ensures
            match r {
                Ok((secret, package)) => {
                    &&& is_identifier(identifier@)
                    &&& signers_error(max_signers, min_signers) is None
                    &&& part1_parts(secret@) == Some((identifier@, max_signers, min_signers))
                    &&& goes_with(package@, secret@)
                },
                Err(error) => error == part1_error(identifier@, max_signers, min_signers),
            },
    {
        match draw_part1(identifier.as_slice(), max_signers, min_signers) {
            Ok((bytes, package)) => Ok((FirstSecret { bytes }, package)),
            Err(error) => Err(error),
        }
    }

    /// Whether a package is the one that goes with this secret.
    pub fn matches_package(&self, package: &Vec<u8>) -> (r: bool)
        ensures
            r == goes_with(package@, self@),
    {
        match (read_secret_commitment(self.bytes.as_slice()), read_package_commitment(package.as_slice())) {
            (Some(ours), Some(theirs)) => same_bytes(&ours, &theirs),
            _ => false,
        }
    }

    /// Runs the second part of key generation on the packages of the other participants.
    pub fn begin_second(&self, packages: &Vec<(Vec<u8>, Vec<u8>)>) -> (r: Option<
        (SecondSecret, Vec<(Vec<u8>, Vec<u8>)>),
    >)
        ensures
            r is Some <==> part2_result(self@, byte_pairs(packages@)) is Some,
            r matches Some((next, outgoing)) ==> part2_result(self@, byte_pairs(packages@)) == Some(
                (next@, byte_pairs(outgoing@)),
            ),
            r matches Some((next, outgoing)) ==> continues(next@, self@) && for_senders(
                byte_pairs(outgoing@),
                byte_pairs(packages@),
            ),
    {
        proof {
            use_type_invariant(self);
        }
        match run_part2(self.bytes.as_slice(), packages) {
            Some((bytes, outgoing)) => Some((SecondSecret { bytes }, outgoing)),
            None => None,
        }
    }
}

/// What a participant keeps to itself after the second part of key generation.
pub struct SecondSecret {
    bytes: Vec<u8>,
}

impl View for SecondSecret {
    type V = Seq<u8>;

    closed spec fn view(&self) -> Seq<u8> {
        self.bytes@
    }
}

impl SecondSecret {
    #[verifier::type_invariant]
    spec fn wf(&self) -> bool {
        part2_parts(self.bytes@) matches Some(parts) && parts.1 >= 1
    }

    /// Runs the third part of key generation on the packages of the other participants.
    pub fn finish(&self, round1: &Vec<(Vec<u8>, Vec<u8>)>, round2: &Vec<(Vec<u8>, Vec<u8>)>) -> (r: Option<
        (Vec<u8>, Vec<u8>),
    >)
        ensures
            r is Some <==> part3_result(self@, byte_pairs(round1@), byte_pairs(round2@)) is Some,
            r matches Some((key, public_key)) ==> part3_result(self@, byte_pairs(round1@), byte_pairs(round2@))
                == Some((key@, public_key@)) && are_made_of(key@, public_key@, self@, byte_pairs(round1@)),
    {
        proof {
            use_type_invariant(self);
        }
        run_part3(self.bytes.as_slice(), round1, round2)
    }
}

/// Whether these are the keys of a group: one for each signer, each with an identifier of its own and with the key by
/// which the group's signatures are checked, and the public key that they share.
pub open spec fn are_group_keys(keys: Seq<Vec<u8>>, public_key: Seq<u8>, max_signers: u16, min_signers: u16) -> bool {
    &&& keys.len() == max_signers
    &&& forall|i: int|
        0 <= i < keys.len() ==> key_parts((#[trigger] keys[i])@) is Some && (key_parts(keys[i]@)->0).1 == min_signers
    &&& forall|i: int, j: int|
        0 <= i < j < keys.len() ==> (key_parts((#[trigger] keys[i])@)->0).0 != (key_parts((#[trigger] keys[j])@)->0).0
    &&& group_parts(public_key) is Some
    &&& (group_parts(public_key)->0).0 == max_signers
    &&& forall|i: int|
        0 <= i < keys.len() ==> (key_parts((#[trigger] keys[i])@)->0).2 == (group_parts(public_key)->0).1
}

/// The error of dealing keys; with nothing wrong with the numbers of signers, only what is drawn can fail.
pub open spec fn dealing_error(max_signers: u16, min_signers: u16) -> GenerationError {
    match signers_error(max_signers, min_signers) {
        Some(error) => error,
        None => GenerationError::Draw,
    }
}

/// `generate_with_dealer`, of `frost_ed25519::keys`, `KeyPackage::try_from` and `serialize`. The keys are random, but
/// each can be read back, has an identifier of its own, says how many signers it takes, and holds the same verifying key
/// as the public key package. There are none for fewer than
/// two signers, or for more that have to sign than there are. Otherwise it rests on chance whether there are any, since
/// the share of a signer whose secret is zero cannot be serialized.
#[verifier::external_body]
fn draw_dealt_keys(max_signers: u16, min_signers: u16) -> (r: Result<(Vec<Vec<u8>>, Vec<u8>), GenerationError>)
    ensures
        match r {
            Ok((keys, public_key)) => {
                &&& signers_error(max_signers, min_signers) is None
                &&& are_group_keys(keys@, public_key@, max_signers, min_signers)
            },
            Err(error) => error == dealing_error(max_signers, min_signers),
        },
{
    let dealt = generate_with_dealer(max_signers, min_signers, IdentifierList::Default, thread_rng());
    let (shares, public_key) = dealt.map_err(|error| match error {
        Error::InvalidMinSigners => GenerationError::MinSigners,
        Error::InvalidMaxSigners => GenerationError::MaxSigners,
        _ => GenerationError::Draw,
    })?;
    let keys: Option<Vec<Vec<u8>>> =
        shares.into_values().map(|share| KeyPackage::try_from(share).ok()?.serialize().ok()).collect();
    Ok((keys.ok_or(GenerationError::Draw)?, public_key.serialize().map_err(|_| GenerationError::Draw)?))
}

/// The keys of a group that one node made for all.
pub struct DealtKeys {
    /// The key packages of the signers.
    pub keys: Vec<Vec<u8>>,
    /// The public key package of the group.
    pub public_key: Vec<u8>,
}

/// Makes keys for a group in which `min_signers` of `max_signers` sign together.
pub fn deal_keys(max_signers: u16, min_signers: u16) -> (r: Result<DealtKeys, GenerationError>)
    ensures
        match r {
            Ok(dealt) => {
                &&& signers_error(max_signers, min_signers) is None
                &&& are_group_keys(dealt.keys@, dealt.public_key@, max_signers, min_signers)
            },
            Err(error) => error == dealing_error(max_signers, min_signers),
        },
{
    match draw_dealt_keys(max_signers, min_signers) {
        Ok((keys, public_key)) => Ok(DealtKeys { keys, public_key }),
        Err(error) => Err(error),
    }
}

} // verus!
