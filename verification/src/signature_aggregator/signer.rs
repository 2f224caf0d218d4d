//! A node's part in rounds of signing.

use vstd::prelude::*;

use crate::frost::{add_shares, byte_pairs, check_signature, copy_bytes, draw_nonces, make_package, nonce_commitments};
use crate::frost::{group_signature, is_signature, signature_share, read_message, same_bytes, sign_share, GroupKey, SigningKey};
use crate::names::{alphabetical, ascending, keys_of, lemma_alphabetical, lemma_entries_listed, lemma_entry};
use crate::names::{lemma_place, lists_map, map_of, names_of, NameMap};
use crate::network::{NodeId, NodeSet, OutgoingMessage};
use crate::price_feed::codec::models;
use crate::price_feed::synthetic::{texts, NamedFeedView};
use crate::price_feed::{copy_all, deserialize, serialize, views, SyntheticPriceFeed, Copied, GenericEntry, PlutusCompatible, PriceData, PriceDataView};
use crate::price_feed::{EntriesView, GenericPriceFeed, Signed, SignedEntries, SyntheticEntry};
use crate::plutus::cbor_bytes;
use crate::raft::{name_of, RaftLeader};
use crate::signature_aggregator::messages::{bytes_by_name, Commitment, CommitmentView, Signature, SignatureView};
use crate::signature_aggregator::messages::{MessageDataView, MessageView};
use crate::signature_aggregator::messages::{CommitmentRequest, SignatureRequest, SignerMessage, SignerMessageData};
use crate::signature_aggregator::price_comparator::{feeds, feeds_to_sign, Feed};
use crate::signature_aggregator::round::{feed_messages, feed_names, generic_message, has_support, holders};
use crate::signature_aggregator::round::{is_first_at, is_wanted, lemma_first_place, needs_more, package_of};
use crate::signature_aggregator::round::{identifier_of, packages, packages_fail, parsed_all, selected, shares, shares_fail};
use crate::signature_aggregator::round::{entry_names, fresh_generics, fresh_synthetics, generic_names, group_signatures};
use crate::signature_aggregator::round::{group_signatures_fail, is_covered, kept_synthetics, round_payload};
use crate::signature_aggregator::round::{supporters, synthetic_message, synthetic_names};
use crate::signature_aggregator::round::{is_signed, FollowerStateView, LeaderStateView, Outgoing, SignerError};
use crate::signature_aggregator::round::{are_drawn_for, recipients, signed_request, unnamed};
use crate::signature_aggregator::round::{EventView, SignerView, StateView, Step};

verus! {

enum LeaderState {
    Ready,
    CollectingCommitments {
        round: String,
        price_data: PriceData,
        commitments: Vec<(NodeId, Commitment)>,
        my_nonces: NameMap<String, Vec<u8>>,
    },
    CollectingSignatures {
        round: String,
        price_data: PriceData,
        signatures: Vec<Signature>,
        packages: NameMap<String, Vec<u8>>,
        waiting_for: NodeSet,
    },
}

enum FollowerState {
    Ready,
    Committed { round: String, price_data: PriceData, nonces: NameMap<String, Vec<u8>> },
}

enum SignerState {
    Leader(LeaderState),
    Follower(NodeId, FollowerState),
    Unknown,
}

/// The commitments, with nodes by name.
pub open spec fn commitment_views(commitments: Seq<(NodeId, Commitment)>) -> Seq<(Seq<char>, CommitmentView)> {
    Seq::new(commitments.len(), |i: int| (commitments[i].0@, commitments[i].1@))
}

/// What there is to these signatures.
pub open spec fn signature_views(signatures: Seq<Signature>) -> Seq<SignatureView> {
    Seq::new(signatures.len(), |i: int| signatures[i]@)
}

/// The commitments to sign a feed, each with the identifier of who made it.
fn supporters_of(commitments: &Vec<(NodeId, Commitment)>, name: &str) -> (r: Vec<(Vec<u8>, Vec<u8>)>)
    ensures
        byte_pairs(r@) == supporters(commitment_views(commitments@), name@),
{
    let ghost views = commitment_views(commitments@);
    let mut found: Vec<(Vec<u8>, Vec<u8>)> = Vec::new();
    let mut i: usize = 0;
    assert(byte_pairs(found@) =~= supporters(views.take(0), name@));
    while i < commitments.len()
        invariant
            i <= commitments.len(),
            views == commitment_views(commitments@),
            byte_pairs(found@) == supporters(views.take(i as int), name@),
        decreases commitments.len() - i,
    {
        let ghost before = found@;
        let commitment = &commitments[i].1;
        assert(views.take(i + 1).drop_last() =~= views.take(i as int));
        if let Some(bytes) = commitment.commitments.get(name) {
            found.push((copy_bytes(&commitment.identifier), copy_bytes(bytes)));
            assert(byte_pairs(found@) =~= byte_pairs(before).push((commitment.identifier@, bytes@)));
        }
        i += 1;
    }
    assert(views.take(i as int) =~= views);
    found
}

/// The shares of a feed's signature, each with the identifier of who made it.
fn holders_of(signatures: &Vec<Signature>, name: &str) -> (r: Vec<(Vec<u8>, Vec<u8>)>)
    ensures
        byte_pairs(r@) == holders(signature_views(signatures@), name@),
{
    let ghost views = signature_views(signatures@);
    let mut found: Vec<(Vec<u8>, Vec<u8>)> = Vec::new();
    let mut i: usize = 0;
    assert(byte_pairs(found@) =~= holders(views.take(0), name@));
    while i < signatures.len()
        invariant
            i <= signatures.len(),
            views == signature_views(signatures@),
            byte_pairs(found@) == holders(views.take(i as int), name@),
        decreases signatures.len() - i,
    {
        let ghost before = found@;
        let signature = &signatures[i];
        assert(views.take(i + 1).drop_last() =~= views.take(i as int));
        if let Some(bytes) = signature.signatures.get(name) {
            found.push((copy_bytes(&signature.identifier), copy_bytes(bytes)));
            assert(byte_pairs(found@) =~= byte_pairs(before).push((signature.identifier@, bytes@)));
        }
        i += 1;
    }
    assert(views.take(i as int) =~= views);
    found
}

/// Whether the leader should wait for more commitments.
pub fn needs_more_commitments(commitments: &Vec<(NodeId, Commitment)>, key: &SigningKey, public_key: &GroupKey) -> (r: bool)
    ensures
        r == needs_more(
            commitment_views(commitments@),
            crate::signature_aggregator::round::min_signers(key.key()),
            crate::frost::group_size(public_key.key())->0 as int,
        ),
{
    let ghost views = commitment_views(commitments@);
    let min_signers: usize = key.min_signers() as usize;
    let max_signers: usize = public_key.size();
    if commitments.len() < min_signers {
        // If not enough nodes have committed, we can't sign anything
        return true;
    }
    if commitments.len() == max_signers {
        // If every node has committed, there's no point in waiting for more commitments.
        // Just collect as many signatures as we can.
        return false;
    }
    let mut i: usize = 0;
    while i < commitments.len()
        invariant
            i <= commitments.len(),
            views == commitment_views(commitments@),
            commitments.len() >= min_signers,
            commitments.len() != max_signers,
            min_signers == crate::signature_aggregator::round::min_signers(key.key()),
            max_signers == crate::frost::group_size(public_key.key())->0,
            forall|k: int, name: Seq<char>|
                0 <= k < i && #[trigger] views[k].1.commitments.contains_key(name) ==> supporters(views, name).len()
                    >= min_signers,
        decreases commitments.len() - i,
    {
        let entries = commitments[i].1.commitments.entries();
        let mut j: usize = 0;
        while j < entries.len()
            invariant
                i < commitments.len(),
                j <= entries.len(),
                entries@ == commitments@[i as int].1.commitments.listed(),
                crate::names::ascending(crate::names::keys_of(entries@)),
                views == commitment_views(commitments@),
                commitments.len() >= min_signers,
                commitments.len() != max_signers,
                min_signers == crate::signature_aggregator::round::min_signers(key.key()),
                max_signers == crate::frost::group_size(public_key.key())->0,
                forall|k: int| 0 <= k < j ==> supporters(views, (#[trigger] entries@[k]).0@).len() >= min_signers,
            decreases entries.len() - j,
        {
            let count: usize = supporters_of(commitments, entries[j].0.as_str()).len();
            proof {
                crate::names::lemma_entry(entries@, j as int);
                assert(views[i as int].1.commitments.contains_key(entries@[j as int].0@));
            }
            if count < min_signers {
                return true;
            }
            j += 1;
        }
        assert forall|k: int, name: Seq<char>|
            0 <= k < i + 1 && #[trigger] views[k].1.commitments.contains_key(name) implies supporters(views, name).len()
            >= min_signers by {
            if k == i {
                let at = crate::names::lemma_place(entries@, name);
                assert(entries@[at].0@ == name);
            }
        }
        i += 1;
    }
    false
}

proof fn lemma_packages_step(
    prices: PriceDataView,
    commitments: Seq<(Seq<char>, CommitmentView)>,
    min: int,
    from: int,
    at: int,
)
    requires
        0 <= from <= at < feed_names(prices).len(),
    ensures
        ({
            let name = feed_names(prices)[at];
            let before = packages(prices, commitments, min, from, at);
            packages(prices, commitments, min, from, at + 1) == if is_first_at(feed_names(prices), name, at)
                && has_support(commitments, name, min) {
                before.insert(name, package_of(prices, commitments, name)->0)
            } else {
                before
            }
        }),
        forall|name: Seq<char>| #[trigger]
            is_wanted(prices, commitments, min, from, at + 1, name) ==> is_wanted(prices, commitments, min, from, at, name) || (
            is_first_at(feed_names(prices), name, at) && has_support(commitments, name, min)),
{
    let names = feed_names(prices);
    let name = names[at];
    let before = packages(prices, commitments, min, from, at);
    let after = packages(prices, commitments, min, from, at + 1);
    assert forall|n: Seq<char>| #[trigger] is_wanted(prices, commitments, min, from, at + 1, n) implies is_wanted(
        prices,
        commitments,
        min,
        from,
        at,
        n,
    ) || (is_first_at(names, n, at) && has_support(commitments, n, min)) by {
        let k = choose|k: int| from <= k < at + 1 && #[trigger] is_first_at(names, n, k);
        if k < at {
            assert(is_first_at(names, n, k));
        }
    }
    assert forall|n: Seq<char>| is_wanted(prices, commitments, min, from, at, n) implies is_wanted(
        prices,
        commitments,
        min,
        from,
        at + 1,
        n,
    ) by {
        let k = choose|k: int| from <= k < at && #[trigger] is_first_at(names, n, k);
        assert(is_first_at(names, n, k));
    }
    let expected = if is_first_at(names, name, at) && has_support(commitments, name, min) {
        before.insert(name, package_of(prices, commitments, name)->0)
    } else {
        before
    };
    assert(after =~= expected);
}

/// The packages that ask to sign a node's feeds, those of synthetics and of currencies apart and
/// together.
fn make_packages(prices: &PriceData, commitments: &Vec<(NodeId, Commitment)>, min_signers: usize) -> (r: Option<
    (SignatureRequest, NameMap<String, Vec<u8>>),
>)
    ensures
        r is None <==> packages_fail(prices@, commitment_views(commitments@), min_signers as int),
        r matches Some((request, all)) ==> {
            let split = prices@.synthetics.len() as int;
            let end = feed_names(prices@).len() as int;
            let commitments = commitment_views(commitments@);
            &&& bytes_by_name(request.synthetic_packages@) == packages(prices@, commitments, min_signers as int, 0, split)
            &&& bytes_by_name(request.generic_packages@) == packages(prices@, commitments, min_signers as int, split, end)
            &&& bytes_by_name(all@) == packages(prices@, commitments, min_signers as int, 0, end)
        },
{
    let ghost views = commitment_views(commitments@);
    let ghost names = feed_names(prices@);
    let ghost min = min_signers as int;
    let ghost split = prices@.synthetics.len() as int;
    let ghost end = names.len() as int;
    let mut seen: NameMap<String, ()> = NameMap::new();
    let mut synthetic_packages: NameMap<String, Vec<u8>> = NameMap::new();
    let mut generic_packages: NameMap<String, Vec<u8>> = NameMap::new();
    let mut all: NameMap<String, Vec<u8>> = NameMap::new();
    proof {
        assert(bytes_by_name(synthetic_packages@) =~= packages(prices@, views, min, 0, 0));
        assert(bytes_by_name(generic_packages@) =~= packages(prices@, views, min, split, split));
        assert(bytes_by_name(all@) =~= packages(prices@, views, min, 0, 0));
    }
    let mut i: usize = 0;
    while i < prices.synthetics.len()
        invariant
            i <= prices.synthetics.len(),
            names == feed_names(prices@),
            views == commitment_views(commitments@),
            min == min_signers,
            split == prices.synthetics.len(),
            end == names.len(),
            split <= end,
            forall|name: Seq<char>| #[trigger]
                seen@.contains_key(name) <==> exists|j: int| 0 <= j < i && #[trigger] names[j] == name,
            bytes_by_name(synthetic_packages@) == packages(prices@, views, min, 0, i as int),
            bytes_by_name(all@) == packages(prices@, views, min, 0, i as int),
            forall|name: Seq<char>| #[trigger]
                is_wanted(prices@, views, min, 0, i as int, name) ==> package_of(prices@, views, name) is Some,
        decreases prices.synthetics.len() - i,
    {
        let feed = &prices.synthetics[i].feed;
        let name = &feed.synthetic;
        let ghost known = seen@;
        proof {
            assert(names[i as int] == name@);
            lemma_packages_step(prices@, views, min, 0, i as int);
            if !seen@.contains_key(name@) {
                assert(is_first_at(names, name@, i as int));
                lemma_first_place(names, name@, i as int);
                assert(feed_messages(prices@)[i as int] == synthetic_message(feed@));
            }
        }
        if !seen.contains(name.as_str()) {
            let support = supporters_of(commitments, name.as_str());
            if support.len() > 0 && support.len() >= min_signers {
                let message = serialize(feed);
                match make_package(&support, message.as_slice()) {
                    Some(package) => {
                        let ghost before_all = all@;
                        let ghost before_synthetic = synthetic_packages@;
                        all.insert(name.clone(), copy_bytes(&package));
                        synthetic_packages.insert(name.clone(), package);
                        assert(bytes_by_name(all@) =~= bytes_by_name(before_all).insert(name@, package@));
                        assert(bytes_by_name(synthetic_packages@) =~= bytes_by_name(before_synthetic).insert(
                            name@,
                            package@,
                        ));
                    },
                    None => {
                        proof {
                            assert(is_wanted(prices@, views, min, 0, end, name@));
                        }
                        return None;
                    },
                }
            }
        }
        seen.insert(name.clone(), ());
        i += 1;
        proof {
            assert forall|n: Seq<char>| #[trigger]
                seen@.contains_key(n) <==> exists|j: int| 0 <= j < i && #[trigger] names[j] == n by {
                if n == name@ {
                    assert(names[i - 1] == n);
                } else if known.contains_key(n) {
                    let j = choose|j: int| 0 <= j < i - 1 && #[trigger] names[j] == n;
                    assert(names[j] == n);
                }
            }
        }
    }
    let mut j: usize = 0;
    while j < prices.generics.len()
        invariant
            i == prices.synthetics.len(),
            j <= prices.generics.len(),
            names == feed_names(prices@),
            views == commitment_views(commitments@),
            min == min_signers,
            split == prices.synthetics.len(),
            end == names.len(),
            end == split + prices.generics.len(),
            forall|name: Seq<char>| #[trigger]
                seen@.contains_key(name) <==> exists|k: int| 0 <= k < split + j && #[trigger] names[k] == name,
            bytes_by_name(synthetic_packages@) == packages(prices@, views, min, 0, split),
            bytes_by_name(generic_packages@) == packages(prices@, views, min, split, split + j),
            bytes_by_name(all@) == packages(prices@, views, min, 0, split + j),
            forall|name: Seq<char>| #[trigger]
                is_wanted(prices@, views, min, 0, split + j, name) ==> package_of(prices@, views, name) is Some,
        decreases prices.generics.len() - j,
    {
        let feed = &prices.generics[j];
        let name = &feed.name;
        let ghost known = seen@;
        let ghost at = split + j;
        proof {
            assert(names[at] == name@);
            lemma_packages_step(prices@, views, min, 0, at);
            lemma_packages_step(prices@, views, min, split, at);
            if !seen@.contains_key(name@) {
                assert(is_first_at(names, name@, at));
                lemma_first_place(names, name@, at);
                assert(feed_messages(prices@)[at] == generic_message(feed@));
            }
        }
        if !seen.contains(name.as_str()) {
            let support = supporters_of(commitments, name.as_str());
            if support.len() > 0 && support.len() >= min_signers {
                let message = serialize(feed);
                match make_package(&support, message.as_slice()) {
                    Some(package) => {
                        let ghost before_all = all@;
                        let ghost before_generic = generic_packages@;
                        all.insert(name.clone(), copy_bytes(&package));
                        generic_packages.insert(name.clone(), package);
                        assert(bytes_by_name(all@) =~= bytes_by_name(before_all).insert(name@, package@));
                        assert(bytes_by_name(generic_packages@) =~= bytes_by_name(before_generic).insert(
                            name@,
                            package@,
                        ));
                    },
                    None => {
                        proof {
                            assert(is_wanted(prices@, views, min, 0, end, name@));
                        }
                        return None;
                    },
                }
            }
        }
        seen.insert(name.clone(), ());
        j += 1;
        proof {
            assert forall|n: Seq<char>| #[trigger]
                seen@.contains_key(n) <==> exists|k: int| 0 <= k < split + j && #[trigger] names[k] == n by {
                if n == name@ {
                    assert(names[at] == n);
                } else if known.contains_key(n) {
                    let k = choose|k: int| 0 <= k < at && #[trigger] names[k] == n;
                    assert(names[k] == n);
                }
            }
        }
    }
    Some((SignatureRequest { synthetic_packages, generic_packages }, all))
}

/// Signs every package that there are nonces for.
fn sign_packages(
    packages: &NameMap<String, Vec<u8>>,
    nonces: &NameMap<String, Vec<u8>>,
    key: &SigningKey,
) -> (r: Option<Signature>)
    ensures
        r is None <==> shares_fail(bytes_by_name(packages@), bytes_by_name(nonces@), key.key()),
        r is Some ==> (r->0)@ == (SignatureView {
            identifier: identifier_of(key.key()),
            signatures: shares(bytes_by_name(packages@), bytes_by_name(nonces@), key.key()),
        }),
{
    let ghost all = shares(bytes_by_name(packages@), bytes_by_name(nonces@), key.key());
    let ghost p = bytes_by_name(packages@);
    let ghost n = bytes_by_name(nonces@);
    let entries = nonces.entries();
    let mut signatures: NameMap<String, Vec<u8>> = NameMap::new();
    let mut i: usize = 0;
    while i < entries.len()
        invariant
            i <= entries.len(),
            p == bytes_by_name(packages@),
            n == bytes_by_name(nonces@),
            all == shares(p, n, key.key()),
            entries@ == nonces.listed(),
            ascending(keys_of(entries@)),
            forall|name: Seq<char>| #[trigger]
                signatures@.contains_key(name) <==> all.contains_key(name) && exists|j: int|
                    0 <= j < i && (#[trigger] entries@[j]).0@ == name,
            forall|name: Seq<char>| #[trigger] signatures@.contains_key(name) ==> signatures@[name]@ == all[name],
            forall|j: int|
                0 <= j < i && p.contains_key((#[trigger] entries@[j]).0@) ==> signature_share(
                    p[entries@[j].0@],
                    entries@[j].1@,
                    key.key(),
                ) is Some,
        decreases entries.len() - i,
    {
        let ghost before = signatures@;
        let feed = &entries[i].0;
        proof {
            lemma_entry(entries@, i as int);
            assert(nonces@.contains_key(feed@));
            assert(n.contains_key(feed@) && n[feed@] == entries@[i as int].1@);
        }
        if let Some(package) = packages.get(feed.as_str()) {
            assert(p.contains_key(feed@) && p[feed@] == package@);
            match sign_share(package.as_slice(), entries[i].1.as_slice(), key.bytes()) {
                Some(share) => {
                    signatures.insert(feed.clone(), share);
                },
                None => {
                    proof {
                        assert(n.contains_key(feed@));
                    }
                    return None;
                },
            }
        }
        i += 1;
        proof {
            assert forall|name: Seq<char>| #[trigger]
                signatures@.contains_key(name) <==> all.contains_key(name) && exists|j: int|
                    0 <= j < i && (#[trigger] entries@[j]).0@ == name by {
                if name == feed@ {
                    assert(entries@[i - 1].0@ == name);
                } else if before.contains_key(name) {
                    let j = choose|j: int| 0 <= j < i - 1 && (#[trigger] entries@[j]).0@ == name;
                    assert(entries@[j].0@ == name);
                }
            }
        }
    }
    proof {
        assert forall|name: Seq<char>| all.contains_key(name) implies signatures@.contains_key(name) by {
            assert(nonces@.contains_key(name));
            let j = lemma_place(entries@, name);
            assert(entries@[j].0@ == name);
        }
        assert(bytes_by_name(signatures@) =~= all);
        assert forall|name: Seq<char>| #[trigger] n.contains_key(name) && p.contains_key(name) implies signature_share(
            p[name],
            n[name],
            key.key(),
        ) is Some by {
            assert(nonces@.contains_key(name));
            let j = lemma_place(entries@, name);
            lemma_entry(entries@, j);
            assert(entries@[j].0@ == name);
        }
    }
    Some(Signature { identifier: key.identifier(), signatures })
}

/// The feeds that packages ask to sign, in alphabetical order of the names they stand under.
fn parse_packages<T: PlutusCompatible>(packages: &NameMap<String, Vec<u8>>) -> (r: Result<Vec<T>, SignerError>)
    ensures
        match r {
            Ok(feeds) => parsed_all::<T>(alphabetical(bytes_by_name(packages@))) == Ok::<Seq<T::Model>, SignerError>(
                models(feeds@),
            ),
            Err(error) => parsed_all::<T>(alphabetical(bytes_by_name(packages@))) == Err::<Seq<T::Model>, SignerError>(
                error,
            ),
        },
{
    let entries = packages.entries();
    let ghost listed = Seq::new(entries@.len(), |i: int| entries@[i].1@);
    proof {
        lemma_entries_listed(entries@);
        let names = names_of(keys_of(entries@));
        assert forall|i: int| 0 <= i < names.len() implies bytes_by_name(packages@)[#[trigger] names[i]] == listed[i] by {
            lemma_entry(entries@, i);
        }
        assert forall|name: Seq<char>| #[trigger] bytes_by_name(packages@).contains_key(name) <==> names.contains(name) by {
            assert(packages@.contains_key(name) <==> names.contains(name));
        }
        assert(lists_map(bytes_by_name(packages@), names, listed));
        lemma_alphabetical(bytes_by_name(packages@), names, listed);
    }
    let mut feeds: Vec<T> = Vec::new();
    let mut i: usize = 0;
    assert(models(feeds@) =~= seq![]);
    while i < entries.len()
        invariant
            i <= entries.len(),
            feeds.len() == i,
            listed == Seq::new(entries@.len(), |i: int| entries@[i].1@),
            listed == alphabetical(bytes_by_name(packages@)),
            parsed_all::<T>(listed.take(i as int)) == Ok::<Seq<T::Model>, SignerError>(models(feeds@)),
        decreases entries.len() - i,
    {
        let ghost before = feeds@;
        proof {
            assert(listed.take(i + 1).drop_last() =~= listed.take(i as int));
            assert(listed.take(i + 1).last() == listed[i as int]);
        }
        let outcome = match read_message(entries[i].1.as_slice()) {
            Some(message) => match deserialize::<T>(message.as_slice()) {
                Ok(feed) => Ok(feed),
                Err(error) => Err(SignerError::Undecodable(error)),
            },
            None => Err(SignerError::Frost),
        };
        match outcome {
            Ok(feed) => {
                feeds.push(feed);
                assert(models(feeds@) =~= models(before).push(feed.model()));
            },
            Err(error) => {
                proof {
                    lemma_parse_fails::<T>(listed, i + 1);
                }
                return Err(error);
            },
        }
        i += 1;
    }
    assert(listed.take(i as int) =~= listed);
    Ok(feeds)
}

proof fn lemma_parse_fails<T: PlutusCompatible>(packages: Seq<Seq<u8>>, count: int)
    requires
        0 <= count <= packages.len(),
        parsed_all::<T>(packages.take(count)) is Err,
    ensures
        parsed_all::<T>(packages) == parsed_all::<T>(packages.take(count)),
    decreases packages.len(),
{
    if count == packages.len() {
        assert(packages.take(count) =~= packages);
    } else {
        assert(packages.drop_last().take(count) =~= packages.take(count));
        lemma_parse_fails::<T>(packages.drop_last(), count);
    }
}

/// The packages that stand under these names, if all of them do, together with `chosen`.
fn select_packages(
    packages: &NameMap<String, Vec<u8>>,
    names: &Vec<String>,
    chosen: NameMap<String, Vec<u8>>,
) -> (r: Option<NameMap<String, Vec<u8>>>)
    ensures
        r is Some <==> texts(names@).to_set().subset_of(packages@.dom()),
        r is Some ==> bytes_by_name((r->0)@) == bytes_by_name(chosen@).union_prefer_right(
            selected(bytes_by_name(packages@), texts(names@).to_set()),
        ),
{
    let ghost first = bytes_by_name(chosen@);
    let ghost all = bytes_by_name(packages@);
    let mut found = chosen;
    let mut i: usize = 0;
    assert(bytes_by_name(found@) =~= first.union_prefer_right(selected(all, texts(names@).take(0).to_set())));
    while i < names.len()
        invariant
            i <= names.len(),
            all == bytes_by_name(packages@),
            bytes_by_name(found@) == first.union_prefer_right(selected(all, texts(names@).take(i as int).to_set())),
            forall|j: int| 0 <= j < i ==> packages@.contains_key((#[trigger] names@[j])@),
        decreases names.len() - i,
    {
        let name = &names[i];
        let ghost before = bytes_by_name(found@);
        match packages.get(name.as_str()) {
            Some(package) => {
                found.insert(name.clone(), copy_bytes(package));
                proof {
                    let done = texts(names@).take(i as int);
                    assert(texts(names@).take(i + 1) =~= done.push(name@));
                    assert(done.push(name@).to_set() =~= done.to_set().insert(name@)) by {
                        assert(done.push(name@)[done.len() as int] == name@);
                        assert forall|n: Seq<char>| done.to_set().insert(name@).contains(n) implies done.push(
                            name@,
                        ).to_set().contains(n) by {
                            if done.contains(n) {
                                let k = choose|k: int| 0 <= k < done.len() && done[k] == n;
                                assert(done.push(name@)[k] == n);
                            }
                        }
                    }
                    assert(bytes_by_name(found@) =~= before.insert(name@, package@));
                    assert(all.contains_key(name@) && all[name@] == package@);
                    assert(bytes_by_name(found@) =~= first.union_prefer_right(
                        selected(all, texts(names@).take(i + 1).to_set()),
                    ));
                }
            },
            None => {
                proof {
                    assert(texts(names@)[i as int] == name@);
                    assert(texts(names@).to_set().contains(name@));
                }
                return None;
            },
        }
        i += 1;
    }
    proof {
        assert(texts(names@).take(i as int) =~= texts(names@));
        assert forall|n: Seq<char>| texts(names@).to_set().contains(n) implies packages@.dom().contains(n) by {
            let k = choose|k: int| 0 <= k < texts(names@).len() && texts(names@)[k] == n;
            assert(packages@.contains_key(names@[k]@));
        }
    }
    Some(found)
}

/// Nonces and commitments for each name, from what was drawn for it.
pub open spec fn paired(names: Seq<Seq<char>>, values: Seq<Seq<u8>>) -> Map<Seq<char>, Seq<u8>>
    decreases names.len(),
{
    if names.len() == 0 {
        Map::empty()
    } else {
        paired(names.drop_last(), values.drop_last()).insert(names.last(), values.last())
    }
}

/// Values have been paired with exactly these names.
pub proof fn lemma_paired_names(names: Seq<Seq<char>>, values: Seq<Seq<u8>>)
    requires
        names.len() == values.len(),
    ensures
        paired(names, values).dom() == names.to_set(),
    decreases names.len(),
{
    if names.len() == 0 {
        assert(names.to_set() =~= Set::empty());
    } else {
        lemma_paired_names(names.drop_last(), values.drop_last());
        let front = names.drop_last();
        assert(names =~= front.push(names.last()));
        assert(names.to_set() =~= front.to_set().insert(names.last())) by {
            assert(names[names.len() - 1] == names.last());
            assert forall|n: Seq<char>| front.to_set().insert(names.last()).contains(n) implies names.to_set().contains(
                n,
            ) by {
                if front.contains(n) {
                    let k = choose|k: int| 0 <= k < front.len() && front[k] == n;
                    assert(names[k] == n);
                }
            }
            assert forall|n: Seq<char>| names.to_set().contains(n) implies front.to_set().insert(
                names.last(),
            ).contains(n) by {
                let k = choose|k: int| 0 <= k < names.len() && names[k] == n;
                if k < front.len() {
                    assert(front[k] == n);
                }
            }
        }
    }
}

/// What belongs together before it is paired with names belongs together after.
proof fn lemma_paired_draws(names: Seq<Seq<char>>, nonces: Seq<Seq<u8>>, commitments: Seq<Seq<u8>>)
    requires
        names.len() == nonces.len(),
        names.len() == commitments.len(),
        forall|i: int| 0 <= i < nonces.len() ==> nonce_commitments(#[trigger] nonces[i]) == Some(commitments[i]),
    ensures
        are_drawn_for(names.to_set(), paired(names, nonces), paired(names, commitments)),
    decreases names.len(),
{
    lemma_paired_names(names, nonces);
    lemma_paired_names(names, commitments);
    if names.len() > 0 {
        let front = nonces.drop_last();
        assert forall|i: int| 0 <= i < front.len() implies nonce_commitments(#[trigger] front[i]) == Some(
            commitments.drop_last()[i],
        ) by {
            assert(front[i] == nonces[i]);
        }
        lemma_paired_draws(names.drop_last(), front, commitments.drop_last());
        assert(nonce_commitments(nonces[nonces.len() - 1]) == Some(commitments.last()));
    }
}

/// What was drawn for each name, nonces and commitments apart.
fn pair_draws(names: &Vec<String>, draws: &Vec<(Vec<u8>, Vec<u8>)>) -> (r: (
    NameMap<String, Vec<u8>>,
    NameMap<String, Vec<u8>>,
))
    requires
        names.len() == draws.len(),
    ensures
        bytes_by_name(r.0@) == paired(texts(names@), Seq::new(draws@.len(), |i: int| draws@[i].0@)),
        bytes_by_name(r.1@) == paired(texts(names@), Seq::new(draws@.len(), |i: int| draws@[i].1@)),
{
    let ghost all = texts(names@);
    let ghost first = Seq::new(draws@.len(), |i: int| draws@[i].0@);
    let ghost second = Seq::new(draws@.len(), |i: int| draws@[i].1@);
    let mut nonces: NameMap<String, Vec<u8>> = NameMap::new();
    let mut commitments: NameMap<String, Vec<u8>> = NameMap::new();
    let mut i: usize = 0;
    assert(bytes_by_name(nonces@) =~= paired(all.take(0), first.take(0)));
    assert(bytes_by_name(commitments@) =~= paired(all.take(0), second.take(0)));
    while i < names.len()
        invariant
            i <= names.len(),
            names.len() == draws.len(),
            all == texts(names@),
            first == Seq::new(draws@.len(), |i: int| draws@[i].0@),
            second == Seq::new(draws@.len(), |i: int| draws@[i].1@),
            bytes_by_name(nonces@) == paired(all.take(i as int), first.take(i as int)),
            bytes_by_name(commitments@) == paired(all.take(i as int), second.take(i as int)),
        decreases names.len() - i,
    {
        let ghost n = bytes_by_name(nonces@);
        let ghost c = bytes_by_name(commitments@);
        nonces.insert(names[i].clone(), copy_bytes(&draws[i].0));
        commitments.insert(names[i].clone(), copy_bytes(&draws[i].1));
        proof {
            assert(all.take(i + 1).drop_last() =~= all.take(i as int));
            assert(first.take(i + 1).drop_last() =~= first.take(i as int));
            assert(second.take(i + 1).drop_last() =~= second.take(i as int));
            assert(bytes_by_name(nonces@) =~= n.insert(names@[i as int]@, draws@[i as int].0@));
            assert(bytes_by_name(commitments@) =~= c.insert(names@[i as int]@, draws@[i as int].1@));
        }
        i += 1;
    }
    proof {
        assert(all.take(i as int) =~= all);
        assert(first.take(i as int) =~= first);
        assert(second.take(i as int) =~= second);
    }
    (nonces, commitments)
}

/// Draws nonces for each name, and commits to them.
fn draw_for(names: &Vec<String>, key: &SigningKey) -> (r: Option<(NameMap<String, Vec<u8>>, NameMap<String, Vec<u8>>)>)
    ensures
        names.len() == 0 ==> r is Some,
        r matches Some((nonces, commitments)) ==> are_drawn_for(
            texts(names@).to_set(),
            bytes_by_name(nonces@),
            bytes_by_name(commitments@),
        ),
{
    let mut draws: Vec<(Vec<u8>, Vec<u8>)> = Vec::new();
    let mut i: usize = 0;
    while i < names.len()
        invariant
            i <= names.len(),
            draws.len() == i,
            forall|j: int| 0 <= j < i ==> nonce_commitments((#[trigger] draws@[j]).0@) == Some(draws@[j].1@),
        decreases names.len() - i,
    {
        match draw_nonces(key.bytes()) {
            Some(draw) => draws.push(draw),
            None => return None,
        }
        i += 1;
    }
    let (nonces, commitments) = pair_draws(names, &draws);
    proof {
        let first = Seq::new(draws@.len(), |i: int| draws@[i].0@);
        let second = Seq::new(draws@.len(), |i: int| draws@[i].1@);
        assert forall|i: int| 0 <= i < first.len() implies nonce_commitments(#[trigger] first[i]) == Some(second[i]) by {
            assert(nonce_commitments(draws@[i].0@) == Some(draws@[i].1@));
        }
        lemma_paired_draws(texts(names@), first, second);
    }
    Some((nonces, commitments))
}

/// The group's signatures of all feeds that enough nodes have signed.
fn aggregate(
    packages: &NameMap<String, Vec<u8>>,
    signatures: &Vec<Signature>,
    min_signers: usize,
    public_key: &GroupKey,
) -> (r: Option<NameMap<String, Vec<u8>>>)
    ensures
        r is None <==> group_signatures_fail(
            bytes_by_name(packages@),
            signature_views(signatures@),
            min_signers as int,
            public_key.key(),
        ),
        r is Some ==> bytes_by_name((r->0)@) == group_signatures(
            bytes_by_name(packages@),
            signature_views(signatures@),
            min_signers as int,
            public_key.key(),
        ),
{
    let ghost p = bytes_by_name(packages@);
    let ghost views = signature_views(signatures@);
    let ghost min = min_signers as int;
    let ghost all = group_signatures(p, views, min, public_key.key());
    let entries = packages.entries();
    let mut signed: NameMap<String, Vec<u8>> = NameMap::new();
    let mut i: usize = 0;
    while i < entries.len()
        invariant
            i <= entries.len(),
            p == bytes_by_name(packages@),
            views == signature_views(signatures@),
            min == min_signers,
            all == group_signatures(p, views, min, public_key.key()),
            entries@ == packages.listed(),
            ascending(keys_of(entries@)),
            forall|name: Seq<char>| #[trigger]
                signed@.contains_key(name) <==> all.contains_key(name) && exists|j: int|
                    0 <= j < i && (#[trigger] entries@[j]).0@ == name,
            forall|name: Seq<char>| #[trigger] signed@.contains_key(name) ==> signed@[name]@ == all[name],
            forall|j: int|
                0 <= j < i && is_covered(p, views, min, (#[trigger] entries@[j]).0@) ==> group_signature(
                    p[entries@[j].0@],
                    holders(views, entries@[j].0@),
                    public_key.key(),
                ) is Some,
        decreases entries.len() - i,
    {
        let ghost before = signed@;
        let feed = &entries[i].0;
        proof {
            lemma_entry(entries@, i as int);
            assert(packages@.contains_key(feed@));
            assert(p.contains_key(feed@) && p[feed@] == entries@[i as int].1@);
        }
        let sigs = holders_of(signatures, feed.as_str());
        if sigs.len() > 0 && sigs.len() >= min_signers {
            match add_shares(entries[i].1.as_slice(), &sigs, public_key.bytes()) {
                Some(signature) => {
                    signed.insert(feed.clone(), signature);
                },
                None => {
                    proof {
                        assert(is_covered(p, views, min, feed@));
                    }
                    return None;
                },
            }
        }
        i += 1;
        proof {
            assert forall|name: Seq<char>| #[trigger]
                signed@.contains_key(name) <==> all.contains_key(name) && exists|j: int|
                    0 <= j < i && (#[trigger] entries@[j]).0@ == name by {
                if name == feed@ {
                    assert(entries@[i - 1].0@ == name);
                } else if before.contains_key(name) {
                    let j = choose|j: int| 0 <= j < i - 1 && (#[trigger] entries@[j]).0@ == name;
                    assert(entries@[j].0@ == name);
                }
            }
        }
    }
    proof {
        assert forall|name: Seq<char>| all.contains_key(name) implies signed@.contains_key(name) by {
            assert(packages@.contains_key(name));
            let j = lemma_place(entries@, name);
            assert(entries@[j].0@ == name);
        }
        assert(bytes_by_name(signed@) =~= all);
        assert forall|name: Seq<char>| #[trigger] is_covered(p, views, min, name) implies group_signature(
            p[name],
            holders(views, name),
            public_key.key(),
        ) is Some by {
            assert(packages@.contains_key(name));
            let j = lemma_place(entries@, name);
            assert(entries@[j].0@ == name);
        }
    }
    Some(signed)
}

/// What there is to the entries, by name.
pub open spec fn entries_by_name<T: View>(map: Map<Seq<char>, T>) -> Map<Seq<char>, T::V> {
    map.map_values(|entry: T| entry@)
}

/// Copies of the values of a map in alphabetical order.
pub fn list_values<T: Copied>(map: &NameMap<String, T>) -> (r: Vec<T>)
    ensures
        views(r@) == alphabetical(entries_by_name(map@)),
{
    let ghost model = entries_by_name(map@);
    let entries = map.entries();
    let ghost listed = Seq::new(entries@.len(), |i: int| entries@[i].1@);
    proof {
        lemma_entries_listed(entries@);
        let names = names_of(keys_of(entries@));
        assert forall|i: int| 0 <= i < names.len() implies model[#[trigger] names[i]] == listed[i] by {
            lemma_entry(entries@, i);
        }
        assert forall|name: Seq<char>| #[trigger] model.contains_key(name) <==> names.contains(name) by {
            assert(map@.contains_key(name) <==> names.contains(name));
        }
        assert(lists_map(model, names, listed));
        lemma_alphabetical(model, names, listed);
    }
    let mut values: Vec<T> = Vec::new();
    let mut i: usize = 0;
    while i < entries.len()
        invariant
            i <= entries.len(),
            values.len() == i,
            forall|j: int| 0 <= j < i ==> (#[trigger] values@[j])@ == entries@[j].1@,
        decreases entries.len() - i,
    {
        values.push(entries[i].1.copied());
        i += 1;
    }
    assert(views(values@) =~= listed);
    values
}

/// The values of a map in alphabetical order.
fn into_listed<T: View>(map: NameMap<String, T>) -> (r: Vec<T>)
    ensures
        views(r@) == alphabetical(entries_by_name(map@)),
{
    let ghost model = entries_by_name(map@);
    let entries = map.into_entries();
    let ghost all = entries@;
    let ghost listed = Seq::new(all.len(), |i: int| all[i].1@);
    proof {
        lemma_entries_listed(all);
        let names = names_of(keys_of(all));
        assert forall|i: int| 0 <= i < names.len() implies model[#[trigger] names[i]] == listed[i] by {
            lemma_entry(all, i);
        }
        assert forall|name: Seq<char>| #[trigger] model.contains_key(name) <==> names.contains(name) by {
            assert(map_of(all).contains_key(name) <==> names.contains(name));
        }
        assert(lists_map(model, names, listed));
        lemma_alphabetical(model, names, listed);
    }
    let mut values: Vec<T> = Vec::new();
    let mut rest = entries;
    while rest.len() > 0
        invariant
            rest@.len() + values@.len() == all.len(),
            forall|j: int| 0 <= j < rest@.len() ==> rest@[j] == #[trigger] all[j + values@.len()],
            forall|j: int| 0 <= j < values@.len() ==> #[trigger] values@[j] == all[j].1,
        decreases rest.len(),
    {
        let ghost k = values@.len() as int;
        assert(rest@[0] == all[0 + k]);
        let (_, value) = rest.remove(0);
        values.push(value);
        assert forall|j: int| 0 <= j < rest@.len() implies rest@[j] == #[trigger] all[j + values@.len()] by {
            assert(rest@[j] == all[(j + 1) + k]);
        }
    }
    assert(views(values@) =~= listed);
    values
}

/// The signed feeds of this round's synthetics, by name; their signatures are taken out of `signed`.
fn collect_synthetics(prices: &PriceData, signed: &mut NameMap<String, Vec<u8>>, now: u128) -> (r: NameMap<
    String,
    SyntheticEntry,
>)
    ensures
        entries_by_name(r@) == fresh_synthetics(prices@, bytes_by_name(old(signed)@), now),
        bytes_by_name(final(signed)@) == bytes_by_name(old(signed)@).remove_keys(synthetic_names(prices@).to_set()),
{
    let ghost start = bytes_by_name(signed@);
    let ghost names = synthetic_names(prices@);
    let ghost all = fresh_synthetics(prices@, start, now);
    let mut entries: NameMap<String, SyntheticEntry> = NameMap::new();
    let mut i: usize = 0;
    assert(bytes_by_name(signed@) =~= start.remove_keys(names.take(0).to_set()));
    while i < prices.synthetics.len()
        invariant
            i <= prices.synthetics.len(),
            names == synthetic_names(prices@),
            all == fresh_synthetics(prices@, start, now),
            bytes_by_name(signed@) == start.remove_keys(names.take(i as int).to_set()),
            forall|name: Seq<char>| #[trigger]
                entries@.contains_key(name) <==> start.contains_key(name) && names.take(i as int).contains(name),
            forall|name: Seq<char>| #[trigger] entries@.contains_key(name) ==> entries@[name]@ == all[name],
        decreases prices.synthetics.len() - i,
    {
        let data = &prices.synthetics[i];
        let name = &data.feed.synthetic;
        let ghost left = signed@;
        let ghost done = names.take(i as int);
        let ghost before = entries@;
        proof {
            assert(names[i as int] == name@);
            assert(names.take(i + 1) =~= done.push(name@));
            lemma_push_to_set(done, name@);
        }
        match signed.remove(name.as_str()) {
            Some(signature) => {
                let entry = SyntheticEntry {
                    price: data.price.clone(),
                    feed: Signed { data: data.feed.clone(), signature },
                    timestamp: Some(now),
                };
                proof {
                    assert(left.contains_key(name@));
                    assert(bytes_by_name(left).contains_key(name@));
                    assert(!done.to_set().contains(name@));
                    assert(is_first_at(names, name@, i as int)) by {
                        assert forall|j: int| 0 <= j < i implies #[trigger] names[j] != name@ by {
                            assert(done[j] == names[j]);
                        }
                    }
                    lemma_first_place(names, name@, i as int);
                    assert(bytes_by_name(left)[name@] == signature@);
                    assert(start.remove_keys(done.to_set())[name@] == start[name@]);
                    assert(start[name@] == signature@);
                    assert(names.contains(name@));
                    assert(entry@ == all[name@]);
                }
                entries.insert(name.clone(), entry);
            },
            None => {
                assert(!bytes_by_name(left).contains_key(name@));
            },
        }
        proof {
            assert(bytes_by_name(signed@) =~= bytes_by_name(left).remove(name@));
            assert(bytes_by_name(signed@) =~= start.remove_keys(names.take(i + 1).to_set()));
            assert forall|n: Seq<char>| #[trigger]
                entries@.contains_key(n) <==> start.contains_key(n) && names.take(i + 1).contains(n) by {
                assert(names.take(i + 1).contains(n) <==> done.contains(n) || n == name@) by {
                    assert(names.take(i + 1).to_set().contains(n) <==> done.to_set().insert(name@).contains(n));
                }
                if n == name@ && start.contains_key(n) && !bytes_by_name(left).contains_key(n) {
                    assert(done.to_set().contains(n));
                }
            }
        }
        i += 1;
    }
    proof {
        assert(names.take(i as int) =~= names);
        assert(entries_by_name(entries@) =~= all);
    }
    entries
}

proof fn lemma_push_to_set(names: Seq<Seq<char>>, name: Seq<char>)
    ensures
        names.push(name).to_set() == names.to_set().insert(name),
{
    let longer = names.push(name);
    assert forall|n: Seq<char>| longer.to_set().contains(n) == names.to_set().insert(name).contains(n) by {
        if longer.contains(n) {
            let k = choose|k: int| 0 <= k < longer.len() && longer[k] == n;
            if k < names.len() {
                assert(names[k] == n);
            }
        }
        if names.contains(n) {
            let k = choose|k: int| 0 <= k < names.len() && names[k] == n;
            assert(longer[k] == n);
        }
        assert(longer[names.len() as int] == name);
    }
    assert(longer.to_set() =~= names.to_set().insert(name));
}

/// The signed feeds of this round's currencies, by name.
fn collect_generics(prices: &PriceData, signed: &mut NameMap<String, Vec<u8>>, now: u128, Ghost(start): Ghost<
    Map<Seq<char>, Seq<u8>>,
>) -> (r: NameMap<String, GenericEntry>)
    requires
        bytes_by_name(old(signed)@) == start.remove_keys(synthetic_names(prices@).to_set()),
    ensures
        entries_by_name(r@) == fresh_generics(prices@, start, now),
{
    let ghost names = generic_names(prices@);
    let ghost all = fresh_generics(prices@, start, now);
    let ghost open = bytes_by_name(signed@);
    let mut entries: NameMap<String, GenericEntry> = NameMap::new();
    let mut i: usize = 0;
    assert(bytes_by_name(signed@) =~= open.remove_keys(names.take(0).to_set()));
    while i < prices.generics.len()
        invariant
            i <= prices.generics.len(),
            names == generic_names(prices@),
            all == fresh_generics(prices@, start, now),
            open == start.remove_keys(synthetic_names(prices@).to_set()),
            bytes_by_name(signed@) == open.remove_keys(names.take(i as int).to_set()),
            forall|name: Seq<char>| #[trigger]
                entries@.contains_key(name) <==> open.contains_key(name) && names.take(i as int).contains(name),
            forall|name: Seq<char>| #[trigger] entries@.contains_key(name) ==> entries@[name]@ == all[name],
        decreases prices.generics.len() - i,
    {
        let feed = &prices.generics[i];
        let name = &feed.name;
        let ghost left = signed@;
        let ghost done = names.take(i as int);
        proof {
            assert(names[i as int] == name@);
            assert(names.take(i + 1) =~= done.push(name@));
            lemma_push_to_set(done, name@);
        }
        match signed.remove(name.as_str()) {
            Some(signature) => {
                let entry = GenericEntry { feed: Signed { data: feed.clone(), signature }, timestamp: now };
                proof {
                    assert(bytes_by_name(left).contains_key(name@));
                    assert(!done.to_set().contains(name@));
                    assert(is_first_at(names, name@, i as int)) by {
                        assert forall|j: int| 0 <= j < i implies #[trigger] names[j] != name@ by {
                            assert(done[j] == names[j]);
                        }
                    }
                    lemma_first_place(names, name@, i as int);
                    assert(bytes_by_name(left)[name@] == signature@);
                    assert(open.remove_keys(done.to_set())[name@] == open[name@]);
                    assert(open[name@] == start[name@]);
                    assert(start[name@] == signature@);
                    assert(names.contains(name@));
                    assert(!synthetic_names(prices@).to_set().contains(name@));
                    assert(entry@ == all[name@]);
                }
                entries.insert(name.clone(), entry);
            },
            None => {
                assert(!bytes_by_name(left).contains_key(name@));
            },
        }
        proof {
            assert(bytes_by_name(signed@) =~= bytes_by_name(left).remove(name@));
            assert(bytes_by_name(signed@) =~= open.remove_keys(names.take(i + 1).to_set()));
            assert forall|n: Seq<char>| #[trigger]
                entries@.contains_key(n) <==> open.contains_key(n) && names.take(i + 1).contains(n) by {
                assert(names.take(i + 1).contains(n) <==> done.contains(n) || n == name@) by {
                    assert(names.take(i + 1).to_set().contains(n) <==> done.to_set().insert(name@).contains(n));
                }
                if n == name@ && open.contains_key(n) && !bytes_by_name(left).contains_key(n) {
                    assert(done.to_set().contains(n));
                }
            }
        }
        i += 1;
    }
    proof {
        assert(names.take(i as int) =~= names);
        assert(entries_by_name(entries@) =~= all);
    }
    entries
}

/// Adds the synthetics of the last payload that this round did not sign.
fn keep_old_synthetics(fresh: NameMap<String, SyntheticEntry>, latest: &SignedEntries) -> (r: NameMap<
    String,
    SyntheticEntry,
>)
    ensures
        entries_by_name(r@) == kept_synthetics(entries_by_name(fresh@), Some(latest@)),
{
    let ghost start = entries_by_name(fresh@);
    let ghost names = entry_names(latest@.synthetics);
    let ghost all = kept_synthetics(start, Some(latest@));
    let mut entries = fresh;
    let mut i: usize = 0;
    while i < latest.synthetics.len()
        invariant
            i <= latest.synthetics.len(),
            names == entry_names(latest@.synthetics),
            all == kept_synthetics(start, Some(latest@)),
            forall|name: Seq<char>| #[trigger]
                entries@.contains_key(name) <==> start.contains_key(name) || names.take(i as int).contains(name),
            forall|name: Seq<char>| #[trigger] entries@.contains_key(name) ==> entries@[name]@ == all[name],
        decreases latest.synthetics.len() - i,
    {
        let entry = &latest.synthetics[i];
        let name = &entry.feed.data.synthetic;
        let ghost done = names.take(i as int);
        proof {
            assert(names[i as int] == name@);
            assert(names.take(i + 1) =~= done.push(name@));
            lemma_push_to_set(done, name@);
        }
        if !entries.contains(name.as_str()) {
            proof {
                assert(is_first_at(names, name@, i as int)) by {
                    assert forall|j: int| 0 <= j < i implies #[trigger] names[j] != name@ by {
                        assert(done[j] == names[j]);
                    }
                }
                lemma_first_place(names, name@, i as int);
                assert(latest@.synthetics[i as int] == entry@);
            }
            entries.insert(name.clone(), entry.copied());
        }
        proof {
            assert forall|n: Seq<char>| #[trigger]
                entries@.contains_key(n) <==> start.contains_key(n) || names.take(i + 1).contains(n) by {
                assert(names.take(i + 1).contains(n) <==> done.contains(n) || n == name@) by {
                    assert(names.take(i + 1).to_set().contains(n) <==> done.to_set().insert(name@).contains(n));
                }
            }
        }
        i += 1;
    }
    proof {
        assert(names.take(i as int) =~= names);
        assert(entries_by_name(entries@) =~= all);
    }
    entries
}

/// What a round signed, in alphabetical order.
pub fn assemble_payload(
    prices: &PriceData,
    signed: NameMap<String, Vec<u8>>,
    latest: &Option<SignedEntries>,
    now: u128,
) -> (r: SignedEntries)
    ensures
        r@ == round_payload(
            prices@,
            bytes_by_name(signed@),
            match latest {
                Some(latest) => Some(latest@),
                None => None,
            },
            now,
        ),
{
    let ghost start = bytes_by_name(signed@);
    let mut signed = signed;
    let fresh = collect_synthetics(prices, &mut signed, now);
    let generics = collect_generics(prices, &mut signed, now, Ghost(start));
    let kept = match latest {
        Some(latest) => keep_old_synthetics(fresh, latest),
        None => fresh,
    };
    SignedEntries { timestamp: now, synthetics: into_listed(kept), generics: into_listed(generics) }
}

impl LeaderState {
    spec fn model(self) -> LeaderStateView {
        match self {
            LeaderState::Ready => LeaderStateView::Ready,
            LeaderState::CollectingCommitments { round, price_data, commitments, my_nonces } => {
                LeaderStateView::CollectingCommitments {
                    round: round@,
                    price_data: price_data@,
                    commitments: commitment_views(commitments@),
                    my_nonces: bytes_by_name(my_nonces@),
                }
            },
            LeaderState::CollectingSignatures { round, price_data, signatures, packages, waiting_for } => {
                LeaderStateView::CollectingSignatures {
                    round: round@,
                    price_data: price_data@,
                    signatures: signature_views(signatures@),
                    packages: bytes_by_name(packages@),
                    waiting_for: waiting_for@,
                }
            },
        }
    }
}

impl FollowerState {
    spec fn model(self) -> FollowerStateView {
        match self {
            FollowerState::Ready => FollowerStateView::Ready,
            FollowerState::Committed { round, price_data, nonces } => FollowerStateView::Committed {
                round: round@,
                price_data: price_data@,
                nonces: bytes_by_name(nonces@),
            },
        }
    }
}

impl SignerState {
    spec fn model(self) -> StateView {
        match self {
            SignerState::Leader(state) => StateView::Leader(state.model()),
            SignerState::Follower(leader, state) => StateView::Follower(leader@, state.model()),
            SignerState::Unknown => StateView::Unknown,
        }
    }
}

/// Something that a signer has to react to.
#[derive(Debug)]
pub enum SignerEvent {
    /// We are the leader, and a new round of distributed signing has begun.
    RoundStarted(String),
    /// We are the leader, and the "grace period" for the current round is over.
    /// We want to wrap up this round ASAP, even if we don't have enough signatures for everything.
    RoundGracePeriodEnded(String),
    /// A new message has arrived from another node.
    Message(NodeId, SignerMessage),
    /// There is a new leader (maybe this node, maybe another node, maybe we don't know).
    LeaderChanged(RaftLeader),
}

/// What a signer does in reaction to an event.
#[derive(Debug)]
pub struct SignerOutput {
    pub messages: Vec<OutgoingMessage<SignerMessage>>,
    pub published: Vec<(NodeId, SignedEntries)>,
    pub error: Option<SignerError>,
}

/// What there is to these messages.
pub open spec fn outgoing(messages: Seq<OutgoingMessage<SignerMessage>>) -> Seq<Outgoing> {
    Seq::new(messages.len(), |i: int| (name_of(messages[i].to), messages[i].data@))
}

/// What there is to these payloads.
pub open spec fn payloads(published: Seq<(NodeId, SignedEntries)>) -> Seq<(Seq<char>, EntriesView)> {
    Seq::new(published.len(), |i: int| (published[i].0@, published[i].1@))
}

impl SignerOutput {
    /// What was done, by a signer that is now `signer`.
    pub open spec fn step(&self, signer: SignerView) -> Step {
        Step { signer, messages: outgoing(self.messages@), published: payloads(self.published@), error: self.error }
    }

    fn nothing() -> (r: Self)
        ensures
            forall|signer: SignerView| #[trigger] r.step(signer) == signer.idle(),
    {
        let r = SignerOutput { messages: Vec::new(), published: Vec::new(), error: None };
        assert(outgoing(r.messages@) =~= seq![]);
        assert(payloads(r.published@) =~= seq![]);
        r
    }

    fn failure(error: SignerError) -> (r: Self)
        ensures
            forall|signer: SignerView| #[trigger] r.step(signer) == signer.failed(error),
    {
        let r = SignerOutput { messages: Vec::new(), published: Vec::new(), error: Some(error) };
        assert(outgoing(r.messages@) =~= seq![]);
        assert(payloads(r.published@) =~= seq![]);
        r
    }

    fn message(to: Option<NodeId>, message: SignerMessage) -> (r: Self)
        ensures
            forall|signer: SignerView| #[trigger]
                r.step(signer) == (Step { messages: seq![(name_of(to), message@)], ..signer.idle() }),
    {
        let mut messages: Vec<OutgoingMessage<SignerMessage>> = Vec::new();
        messages.push(OutgoingMessage { to, data: message });
        let r = SignerOutput { messages, published: Vec::new(), error: None };
        assert(outgoing(r.messages@) =~= seq![(name_of(to), message@)]);
        assert(payloads(r.published@) =~= seq![]);
        r
    }
}

/// A node's part in rounds of signing.
pub struct Signer {
    id: NodeId,
    key: SigningKey,
    public_key: GroupKey,
    state: SignerState,
    latest_payload: Option<SignedEntries>,
}

impl View for Signer {
    type V = SignerView;

    closed spec fn view(&self) -> SignerView {
        SignerView {
            id: self.id@,
            key: self.key.key(),
            public_key: self.public_key.key(),
            state: self.state.model(),
            latest_payload: match self.latest_payload {
                Some(payload) => Some(payload@),
                None => None,
            },
        }
    }
}

impl Signer {
    pub fn new(id: NodeId, key: SigningKey, public_key: GroupKey) -> (r: Self)
        ensures
            r@ == (SignerView {
                id: id@,
                key: key.key(),
                public_key: public_key.key(),
                state: StateView::Unknown,
                latest_payload: None,
            }),
    {
        Signer { id, key, public_key, state: SignerState::Unknown, latest_payload: None }
    }

    /// Whether we lead.
    pub fn is_leader(&self) -> (r: bool)
        ensures
            r == self@.state is Leader,
    {
        matches!(self.state, SignerState::Leader(_))
    }

    /// Whether the group has signed the feed.
    fn validate_feed_signature<T: PlutusCompatible>(&self, feed: &Signed<T>) -> (r: bool)
        ensures
            r == is_signature(self@.key, cbor_bytes(T::written(feed.data.model())), feed.signature@),
    {
        let data = serialize(&feed.data);
        check_signature(self.key.bytes(), data.as_slice(), feed.signature.as_slice())
    }

    /// Whether the group has signed every feed.
    fn validate(&self, payload: &SignedEntries) -> (r: bool)
        ensures
            r == is_signed(self@.key, payload@),
    {
        let mut i: usize = 0;
        while i < payload.synthetics.len()
            invariant
                i <= payload.synthetics.len(),
                forall|j: int|
                    0 <= j < i ==> is_signature(
                        self@.key,
                        synthetic_message((#[trigger] payload@.synthetics[j]).feed.data),
                        payload@.synthetics[j].feed.signature,
                    ),
            decreases payload.synthetics.len() - i,
        {
            assert(payload@.synthetics[i as int] == payload.synthetics@[i as int]@);
            if !self.validate_feed_signature(&payload.synthetics[i].feed) {
                return false;
            }
            i += 1;
        }
        let mut i: usize = 0;
        while i < payload.generics.len()
            invariant
                i <= payload.generics.len(),
                forall|j: int|
                    0 <= j < i ==> is_signature(
                        self@.key,
                        generic_message((#[trigger] payload@.generics[j]).feed.data),
                        payload@.generics[j].feed.signature,
                    ),
            decreases payload.generics.len() - i,
        {
            assert(payload@.generics[i as int] == payload.generics@[i as int]@);
            if !self.validate_feed_signature(&payload.generics[i].feed) {
                return false;
            }
            i += 1;
        }
        true
    }

    fn publish(&mut self, publisher: NodeId, payload: SignedEntries) -> (r: SignerOutput)
        ensures
            r.step(final(self)@) == old(self)@.publish(publisher@, payload@),
    {
        let ghost before = self@;
        if !self.validate(&payload) {
            return SignerOutput::failure(SignerError::InvalidSignature);
        }
        let is_newer = match &self.latest_payload {
            Some(latest) => latest.timestamp <= payload.timestamp,
            None => true,
        };
        let mut published: Vec<(NodeId, SignedEntries)> = Vec::new();
        published.push((publisher, payload.clone()));
        assert(payloads(published@) =~= seq![(publisher@, payload@)]);
        if is_newer {
            self.latest_payload = Some(payload);
        }
        let r = SignerOutput { messages: Vec::new(), published, error: None };
        assert(outgoing(r.messages@) =~= seq![]);
        assert(r.step(self@) == before.publish(publisher@, payload@));
        r
    }

    fn finish_round_early(&mut self, now: u128) -> (r: SignerOutput)
        ensures
            r.step(final(self)@) == old(self)@.finish_early(now),
    {
        let in_round = match &self.state {
            SignerState::Leader(LeaderState::Ready) => false,
            SignerState::Leader(_) => true,
            _ => false,
        };
        if in_round {
            let payload = SignedEntries { timestamp: now, synthetics: Vec::new(), generics: Vec::new() };
            assert(payload@.synthetics =~= seq![]);
            assert(payload@.generics =~= seq![]);
            self.publish(self.id.clone(), payload)
        } else {
            SignerOutput::nothing()
        }
    }
}

impl View for SignerEvent {
    type V = EventView;

    open spec fn view(&self) -> EventView {
        match self {
            SignerEvent::RoundStarted(round) => EventView::RoundStarted(round@),
            SignerEvent::RoundGracePeriodEnded(round) => EventView::RoundGracePeriodEnded(round@),
            SignerEvent::Message(from, message) => EventView::Message(from@, message@),
            SignerEvent::LeaderChanged(leader) => EventView::LeaderChanged(leader@),
        }
    }
}

/// The names of a node's feeds: of its synthetics, then of its currencies.
fn all_feed_names(prices: &PriceData) -> (r: Vec<String>)
    ensures
        texts(r@) == feed_names(prices@),
{
    let ghost names = feed_names(prices@);
    let mut found: Vec<String> = Vec::new();
    let mut i: usize = 0;
    while i < prices.synthetics.len()
        invariant
            i <= prices.synthetics.len(),
            names == feed_names(prices@),
            found.len() == i,
            forall|j: int| 0 <= j < i ==> (#[trigger] found@[j])@ == names[j],
        decreases prices.synthetics.len() - i,
    {
        found.push(prices.synthetics[i].feed.synthetic.clone());
        i += 1;
    }
    let mut j: usize = 0;
    while j < prices.generics.len()
        invariant
            i == prices.synthetics.len(),
            j <= prices.generics.len(),
            names == feed_names(prices@),
            found.len() == i + j,
            forall|k: int| 0 <= k < i + j ==> (#[trigger] found@[k])@ == names[k],
        decreases prices.generics.len() - j,
    {
        found.push(prices.generics[j].name.clone());
        j += 1;
    }
    assert(texts(found@) =~= names);
    found
}

/// These are a node's own feeds.
proof fn lemma_own_feeds(prices: PriceDataView, values: Seq<SyntheticPriceFeed>)
    requires
        prices.names_collateral(),
        feeds(values) == prices.feeds(),
    ensures
        forall|i: int| 0 <= i < values.len() ==> SyntheticPriceFeed::is_own((#[trigger] values[i]).feed()),
{
    assert(feeds(values).len() == values.len());
    assert(prices.feeds().len() == prices.synthetics.len());
    assert forall|i: int| 0 <= i < values.len() implies SyntheticPriceFeed::is_own((#[trigger] values[i]).feed()) by {
        assert(feeds(values)[i] == values[i].feed());
        assert(prices.feeds()[i] == prices.synthetics[i].feed);
    }
}

impl Signer {
    /// Our commitment to sign feeds, with our prices.
    fn commitment(&self, prices: &PriceData, commitments: NameMap<String, Vec<u8>>) -> (r: Commitment)
        ensures
            r@ == self@.commitment(prices@, bytes_by_name(commitments@)),
    {
        let synthetic_feeds = prices.synthetic_feeds();
        let generic_feeds = copy_all(&prices.generics);
        proof {
            assert(feeds(synthetic_feeds@) =~= prices@.feeds());
            assert(feeds(generic_feeds@) =~= views(generic_feeds@));
        }
        Commitment { identifier: self.key.identifier(), commitments, synthetic_feeds, generic_feeds }
    }

    /// Begins a round with nonces that have been drawn for each feed.
    pub fn begin_round_with(
        &mut self,
        round: String,
        prices: &PriceData,
        nonces: NameMap<String, Vec<u8>>,
        commitments: NameMap<String, Vec<u8>>,
    ) -> (r: SignerOutput)
        ensures
            r.step(final(self)@) == old(self)@.begin(
                round@,
                prices@,
                bytes_by_name(nonces@),
                bytes_by_name(commitments@),
            ),
    {
        let ghost before = self@;
        let ghost step = before.begin(round@, prices@, bytes_by_name(nonces@), bytes_by_name(commitments@));
        let synthetic_feeds = prices.synthetic_feeds();
        let generic_feeds = copy_all(&prices.generics);
        proof {
            assert(feeds(synthetic_feeds@) =~= prices@.feeds());
            assert(feeds(generic_feeds@) =~= views(generic_feeds@));
        }
        // request other folks commit
        let request = SignerMessage {
            round: round.clone(),
            data: SignerMessageData::RequestCommitment(CommitmentRequest { synthetic_feeds, generic_feeds }),
        };
        // And commit ourself
        let mut mine: Vec<(NodeId, Commitment)> = Vec::new();
        mine.push((self.id.clone(), self.commitment(prices, commitments)));
        proof {
            assert(commitment_views(mine@) =~= seq![
                (self.id@, before.commitment(prices@, bytes_by_name(commitments@))),
            ]);
        }
        self.state = SignerState::Leader(
            LeaderState::CollectingCommitments {
                round,
                price_data: prices.clone(),
                commitments: mine,
                my_nonces: nonces,
            },
        );
        let r = SignerOutput::message(None, request);
        assert(r.step(self@) == step);
        r
    }

    /// Begins a round: asks all others to commit to our prices, and commits ourself.
    fn begin_round(&mut self, round: String, prices: &PriceData) -> (r: SignerOutput)
        ensures
            r.error is Some ==> feed_names(prices@).len() > 0 && r.step(final(self)@) == old(self)@.failed(
                SignerError::Frost,
            ),
            r.error is None ==> exists|nonces: Map<Seq<char>, Seq<u8>>, commitments: Map<Seq<char>, Seq<u8>>|
                are_drawn_for(feed_names(prices@).to_set(), nonces, commitments) && r.step(final(self)@) == #[trigger] old(self)@.begin(round@, prices@, nonces, commitments),
    {
        let names = all_feed_names(prices);
        match draw_for(&names, &self.key) {
            Some((nonces, commitments)) => {
                self.begin_round_with(round, prices, nonces, commitments)
            },
            None => SignerOutput::failure(SignerError::Frost),
        }
    }

    /// A new round starts. If the last one is still going on, it ends with nothing new signed.
    fn start_round(&mut self, round: String, prices: &PriceData, now: u128) -> (r: SignerOutput)
        requires
            old(self)@.state is Leader,
        ensures
            old(self)@.may_start(round@, prices@, now, r.step(final(self)@)),
    {
        let ghost before = self@;
        let early = self.finish_round_early(now);
        let ghost middle = self@;
        let mut output = self.begin_round(round, prices);
        proof {
            assert(early.step(middle) == before.finish_early(now));
            if output.error is Some {
                assert(feed_names(prices@).to_set().contains(feed_names(prices@)[0]));
            }
        }
        let ghost begun = output.step(self@);
        output.published = early.published;
        proof {
            let step = output.step(self@);
            if output.error is None {
                let (nonces, commitments) = choose|
                    nonces: Map<Seq<char>, Seq<u8>>,
                    commitments: Map<Seq<char>, Seq<u8>>,
                |
                    are_drawn_for(feed_names(prices@).to_set(), nonces, commitments) && begun == #[trigger] middle.begin(round@, prices@, nonces, commitments);
                assert(step == before.start(round@, prices@, now, nonces, commitments));
            } else {
                assert(step == (Step { error: Some(SignerError::Frost), ..before.finish_early(now) }));
            }
        }
        output
    }

    /// The feeds that we would sign, given the leader's and our own prices.
    fn choose_feeds(request: &CommitmentRequest, prices: &PriceData) -> (r: Vec<String>)
        requires
            prices@.names_collateral(),
        ensures
            forall|signer: SignerView| texts(r@).to_set() == #[trigger] signer.signable_feeds(request@, prices@),
    {
        let my_synthetic_feeds = prices.synthetic_feeds();
        proof {
            assert(feeds(my_synthetic_feeds@) =~= prices@.feeds());
            lemma_own_feeds(prices@, my_synthetic_feeds@);
            assert(feeds(prices.generics@) =~= views(prices.generics@));
        }
        let mut names = feeds_to_sign(request.synthetic_feeds.as_slice(), my_synthetic_feeds.as_slice());
        let mut others = feeds_to_sign(request.generic_feeds.as_slice(), prices.generics.as_slice());
        let ghost a = names@;
        let ghost b = others@;
        names.append(&mut others);
        proof {
            assert(texts(names@) =~= texts(a) + texts(b));
            vstd::seq_lib::seq_to_set_distributes_over_add(texts(a), texts(b));
            assert(texts(names@).to_set() =~= texts(a).to_set() + texts(b).to_set());
        }
        names
    }

    /// Commits with nonces that have been drawn for each feed that we would sign.
    fn commit_with(
        &mut self,
        leader_id: NodeId,
        round: String,
        price_data: PriceData,
        nonces: NameMap<String, Vec<u8>>,
        commitments: NameMap<String, Vec<u8>>,
    ) -> (r: SignerOutput)
        ensures
            r.step(final(self)@) == old(self)@.commit(
                leader_id@,
                round@,
                price_data@,
                bytes_by_name(nonces@),
                bytes_by_name(commitments@),
            ),
    {
        let ghost before = self@;
        let ghost step = before.commit(
            leader_id@,
            round@,
            price_data@,
            bytes_by_name(nonces@),
            bytes_by_name(commitments@),
        );
        let message = SignerMessage {
            round: round.clone(),
            data: SignerMessageData::Commit(self.commitment(&price_data, commitments)),
        };
        // wait to be asked to sign
        self.state = SignerState::Follower(leader_id.clone(), FollowerState::Committed { round, price_data, nonces });
        let r = SignerOutput::message(Some(leader_id), message);
        assert(r.step(self@) == step);
        r
    }

    /// Commits to the leader's feeds that we would sign.
    fn send_commitment(&mut self, round: String, request: &CommitmentRequest, current: &PriceData) -> (r: SignerOutput)
        requires
            old(self)@.wf(),
            current@.names_collateral(),
        ensures
            final(self)@.wf(),
            old(self)@.may_commit(round@, request@, current@, r.step(final(self)@)),
    {
        let ghost before = self@;
        let (leader_id, price_data) = match &self.state {
            SignerState::Follower(leader_id, old_state) => {
                let price_data = match old_state {
                    FollowerState::Committed { round: curr_round, price_data, .. } => {
                        if *curr_round == round {
                            price_data.clone()
                        } else {
                            current.clone()
                        }
                    },
                    FollowerState::Ready => current.clone(),
                };
                (leader_id.clone(), price_data)
            },
            // we're not a follower ATM
            _ => return SignerOutput::nothing(),
        };
        assert(price_data@ == before.prices_for(round@, current@));
        let names = Self::choose_feeds(request, &price_data);
        match draw_for(&names, &self.key) {
            Some((nonces, commitments)) => {
                proof {
                    assert(before.signable_feeds(request@, price_data@) == texts(names@).to_set());
                }
                self.commit_with(leader_id, round, price_data, nonces, commitments)
            },
            None => {
                proof {
                    assert(before.signable_feeds(request@, price_data@) == texts(names@).to_set());
                    assert(texts(names@).to_set().contains(texts(names@)[0]));
                }
                SignerOutput::failure(SignerError::Frost)
            },
        }
    }
}

/// The nodes other than `id` that made commitments.
fn recipients_of(commitments: &Vec<(NodeId, Commitment)>, id: &NodeId) -> (r: Vec<NodeId>)
    ensures
        node_names(r@) == recipients(commitment_views(commitments@), id@),
{
    let ghost all = commitment_views(commitments@);
    let mut found: Vec<NodeId> = Vec::new();
    let mut i: usize = 0;
    assert(node_names(found@) =~= recipients(all.take(0), id@));
    while i < commitments.len()
        invariant
            i <= commitments.len(),
            all == commitment_views(commitments@),
            node_names(found@) == recipients(all.take(i as int), id@),
        decreases commitments.len() - i,
    {
        let ghost before = found@;
        assert(all.take(i + 1).drop_last() =~= all.take(i as int));
        let signer = &commitments[i].0;
        if *signer != *id {
            found.push(signer.clone());
            assert(node_names(found@) =~= node_names(before).push(signer@));
        }
        i += 1;
    }
    assert(all.take(i as int) =~= all);
    found
}

/// The names of these nodes.
pub open spec fn node_names(nodes: Seq<NodeId>) -> Seq<Seq<char>> {
    Seq::new(nodes.len(), |i: int| nodes[i]@)
}

/// The nodes as a set.
fn to_node_set(nodes: Vec<NodeId>) -> (r: NodeSet)
    ensures
        r@ == node_names(nodes@).to_set(),
{
    let ghost names = node_names(nodes@);
    let mut set = NodeSet::new();
    let mut i: usize = 0;
    assert(set@ =~= names.take(0).to_set());
    while i < nodes.len()
        invariant
            i <= nodes.len(),
            names == node_names(nodes@),
            set@ == names.take(i as int).to_set(),
        decreases nodes.len() - i,
    {
        set.insert(nodes[i].clone());
        proof {
            assert(names.take(i + 1) =~= names.take(i as int).push(names[i as int]));
            lemma_push_to_set(names.take(i as int), names[i as int]);
        }
        i += 1;
    }
    assert(names.take(i as int) =~= names);
    set
}

impl Signer {
    /// Asks the nodes that committed for signatures, and signs ourself.
    fn finish_collecting_commitments(&mut self, round: String) -> (r: SignerOutput)
        ensures
            r.step(final(self)@) == old(self)@.finish_collecting(round@),
    {
        let ghost before = self@;
        let ghost step = before.finish_collecting(round@);
        let (request, packages, my_signature, recipients, price_data) = match &self.state {
            SignerState::Leader(
                LeaderState::CollectingCommitments { round: curr_round, price_data, commitments, my_nonces },
            ) => {
                if *curr_round != round {
                    // Just double-checking that we're collecting sigs for the right round
                    return SignerOutput::nothing();
                }
                let recipients = recipients_of(commitments, &self.id);
                let min_signers: usize = self.key.min_signers() as usize;
                let (request, packages) = match make_packages(price_data, commitments, min_signers) {
                    Some(made) => made,
                    None => return SignerOutput::failure(SignerError::Frost),
                };
                let my_signature = sign_packages(&packages, my_nonces, &self.key);
                (request, packages, my_signature, recipients, price_data.clone())
            },
            // we're not the leader ATM, or not waiting for commitments
            _ => return SignerOutput::nothing(),
        };
        // Request signatures from all the committees
        let mut messages: Vec<OutgoingMessage<SignerMessage>> = Vec::new();
        let mut i: usize = 0;
        while i < recipients.len()
            invariant
                i <= recipients.len(),
                messages.len() == i,
                forall|j: int|
                    0 <= j < i ==> name_of((#[trigger] messages@[j]).to) == Some(recipients@[j]@) && messages@[j].data@
                        == (MessageView { round: round@, data: MessageDataView::RequestSignature(request@) }),
            decreases recipients.len() - i,
        {
            messages.push(
                OutgoingMessage {
                    to: Some(recipients[i].clone()),
                    data: SignerMessage {
                        round: round.clone(),
                        data: SignerMessageData::RequestSignature(request.copied()),
                    },
                },
            );
            i += 1;
        }
        assert(outgoing(messages@) =~= step.messages);
        match my_signature {
            None => {
                let r = SignerOutput { messages, published: Vec::new(), error: Some(SignerError::Frost) };
                assert(payloads(r.published@) =~= seq![]);
                r
            },
            Some(my_signature) => {
                let mut signatures: Vec<Signature> = Vec::new();
                signatures.push(my_signature);
                assert(signature_views(signatures@) =~= seq![my_signature@]);
                self.state = SignerState::Leader(
                    LeaderState::CollectingSignatures {
                        round,
                        price_data,
                        signatures,
                        packages,
                        waiting_for: to_node_set(recipients),
                    },
                );
                let r = SignerOutput { messages, published: Vec::new(), error: None };
                assert(payloads(r.published@) =~= seq![]);
                r
            },
        }
    }

    /// Takes in a commitment, and goes on to collecting signatures where there are enough.
    fn process_commitment(&mut self, round: String, from: NodeId, commitment: Commitment) -> (r: SignerOutput)
        ensures
            r.step(final(self)@) == old(self)@.receive_commitment(round@, from@, commitment@),
    {
        let ghost before = self@;
        let mut state = SignerState::Unknown;
        core::mem::swap(&mut self.state, &mut state);
        match state {
            SignerState::Leader(
                LeaderState::CollectingCommitments { round: curr_round, price_data, commitments, my_nonces },
            ) => {
                let mut commitments = commitments;
                let same_round = curr_round == round;
                let ghost known = commitment_views(commitments@);
                let mut seen = false;
                let mut i: usize = 0;
                while i < commitments.len()
                    invariant
                        i <= commitments.len(),
                        known == commitment_views(commitments@),
                        seen == exists|j: int| 0 <= j < i && (#[trigger] known[j]).1.identifier == commitment.identifier@,
                    decreases commitments.len() - i,
                {
                    assert(known[i as int].1.identifier == commitments@[i as int].1.identifier@);
                    if same_bytes(&commitments[i].1.identifier, &commitment.identifier) {
                        // we saw this one
                        seen = true;
                    }
                    i += 1;
                }
                let added = same_round && !seen;
                let mut needs_more = true;
                if added {
                    commitments.push((from, commitment));
                    assert(commitment_views(commitments@) =~= known.push((from@, commitment@)));
                    needs_more = needs_more_commitments(&commitments, &self.key, &self.public_key);
                }
                self.state = SignerState::Leader(
                    LeaderState::CollectingCommitments { round: curr_round, price_data, commitments, my_nonces },
                );
                if !added || needs_more {
                    // a commitment from a different round, or still collecting
                    return SignerOutput::nothing();
                }
                self.finish_collecting_commitments(round)
            },
            other => {
                // we're not the leader ATM, or not waiting for commitments
                self.state = other;
                SignerOutput::nothing()
            },
        }
    }

    /// Signs the packages that we would sign.
    fn send_signature(&mut self, round: String, request: &SignatureRequest) -> (r: SignerOutput)
        requires
            old(self)@.wf(),
        ensures
            final(self)@.wf(),
            r.step(final(self)@) == old(self)@.receive_signature_request(round@, request@),
    {
        let (leader_id, outcome) = match &self.state {
            SignerState::Follower(leader_id, FollowerState::Committed { round: curr_round, price_data, nonces }) => {
                if *curr_round != round {
                    // Signature requested from a different round
                    return SignerOutput::nothing();
                }
                (leader_id.clone(), self.sign_request(request, price_data, nonces))
            },
            // We're not a follower, or we aren't waiting to sign something
            _ => return SignerOutput::nothing(),
        };
        match outcome {
            Ok(signature) => {
                // Send our signature back to the leader
                let message = SignerMessage { round, data: SignerMessageData::Sign(signature) };
                // and vibe until we get back into the signature flow
                self.state = SignerState::Follower(leader_id.clone(), FollowerState::Ready);
                SignerOutput::message(Some(leader_id), message)
            },
            Err(error) => SignerOutput::failure(error),
        }
    }

    /// Our shares of the signatures of those of the leader's packages that we would sign.
    fn sign_request(
        &self,
        request: &SignatureRequest,
        price_data: &PriceData,
        nonces: &NameMap<String, Vec<u8>>,
    ) -> (r: Result<Signature, SignerError>)
        requires
            price_data@.names_collateral(),
        ensures
            signed_request(request@, price_data@, bytes_by_name(nonces@), self@.key) == (match r {
                Ok(signature) => Ok::<SignatureView, SignerError>(signature@),
                Err(error) => Err::<SignatureView, SignerError>(error),
            }),
    {
        // Find the set which we are OK with signing
        let leader_feed = match parse_packages::<SyntheticPriceFeed>(&request.synthetic_packages) {
            Ok(feeds) => feeds,
            Err(error) => return Err(error),
        };
        let leader_feed = without_names(leader_feed);
        let my_feed = price_data.synthetic_feeds();
        proof {
            assert(feeds(my_feed@) =~= price_data@.feeds());
            lemma_own_feeds(price_data@, my_feed@);
            assert(feeds(price_data.generics@) =~= views(price_data.generics@));
        }
        let names = feeds_to_sign(leader_feed.as_slice(), my_feed.as_slice());
        assert(request.synthetic_packages@.dom() =~= bytes_by_name(request.synthetic_packages@).dom());
        let nothing: NameMap<String, Vec<u8>> = NameMap::new();
        let ghost empty = bytes_by_name(nothing@);
        let packages = match select_packages(&request.synthetic_packages, &names, nothing) {
            Some(packages) => packages,
            None => return Err(SignerError::MismatchedPackage),
        };
        proof {
            let chosen = selected(bytes_by_name(request.synthetic_packages@), texts(names@).to_set());
            assert(empty.union_prefer_right(chosen) =~= chosen);
        }
        let leader_feed = match parse_packages::<GenericPriceFeed>(&request.generic_packages) {
            Ok(feeds) => feeds,
            Err(error) => return Err(error),
        };
        assert(feeds(leader_feed@) =~= models(leader_feed@));
        let names = feeds_to_sign(leader_feed.as_slice(), price_data.generics.as_slice());
        assert(request.generic_packages@.dom() =~= bytes_by_name(request.generic_packages@).dom());
        let packages = match select_packages(&request.generic_packages, &names, packages) {
            Some(packages) => packages,
            None => return Err(SignerError::MismatchedPackage),
        };
        match sign_packages(&packages, nonces, &self.key) {
            Some(signature) => Ok(signature),
            None => Err(SignerError::Frost),
        }
    }

    /// Takes in a signature, and publishes the round's feeds where it was the last one.
    fn process_signature(&mut self, round: String, from: NodeId, signature: Signature, now: u128) -> (r: SignerOutput)
        ensures
            r.step(final(self)@) == old(self)@.receive_signature(round@, from@, signature@, now),
    {
        let ghost before = self@;
        let mut state = SignerState::Unknown;
        core::mem::swap(&mut self.state, &mut state);
        let payload = match state {
            SignerState::Leader(
                LeaderState::CollectingSignatures { round: curr_round, price_data, signatures, packages, waiting_for },
            ) => {
                let mut signatures = signatures;
                let mut waiting_for = waiting_for;
                let same_round = curr_round == round;
                let ghost known = signature_views(signatures@);
                let mut seen = false;
                let mut i: usize = 0;
                while i < signatures.len()
                    invariant
                        i <= signatures.len(),
                        known == signature_views(signatures@),
                        seen == exists|j: int| 0 <= j < i && (#[trigger] known[j]).identifier == signature.identifier@,
                    decreases signatures.len() - i,
                {
                    assert(known[i as int].identifier == signatures@[i as int].identifier@);
                    if same_bytes(&signatures[i].identifier, &signature.identifier) {
                        // we saw this one
                        seen = true;
                    }
                    i += 1;
                }
                let added = same_round && !seen;
                let mut outcome = None;
                if added {
                    signatures.push(signature);
                    assert(signature_views(signatures@) =~= known.push(signature@));
                    waiting_for.remove(&from);
                    if waiting_for.len() == 0 {
                        assert(waiting_for@ =~= Set::<Seq<char>>::empty());
                        // We've finally collected all the signatures we need! Now just aggregate them
                        let min_signers: usize = self.key.min_signers() as usize;
                        outcome = match aggregate(&packages, &signatures, min_signers, &self.public_key) {
                            Some(signed) => Some(Ok(assemble_payload(&price_data, signed, &self.latest_payload, now))),
                            None => Some(Err(SignerError::Frost)),
                        };
                    }
                }
                self.state = SignerState::Leader(
                    LeaderState::CollectingSignatures { round: curr_round, price_data, signatures, packages, waiting_for },
                );
                match outcome {
                    None => return SignerOutput::nothing(),
                    Some(Err(error)) => return SignerOutput::failure(error),
                    Some(Ok(payload)) => payload,
                }
            },
            other => {
                // We're not a leader, or we're not waiting for signatures
                self.state = other;
                return SignerOutput::nothing();
            },
        };
        let mut output = self.publish(self.id.clone(), payload.clone());
        if output.error.is_none() {
            // Notify our peers that we've agreed to sign the payload
            output.messages.push(
                OutgoingMessage { to: None, data: SignerMessage { round, data: SignerMessageData::Publish(payload) } },
            );
            // And now that we've signed something, wait for the next round
            self.state = SignerState::Leader(LeaderState::Ready);
            proof {
                assert(outgoing(output.messages@) =~= seq![
                    (None::<Seq<char>>, MessageView { round: round@, data: MessageDataView::Publish(payload@) }),
                ]);
            }
        }
        output
    }

    /// Reacts to an event. `current` are the node's prices at the moment.
    pub fn process(&mut self, event: SignerEvent, current: &PriceData, now: u128) -> (r: SignerOutput)
        requires
            old(self)@.wf(),
            current@.names_collateral(),
        ensures
            final(self)@.wf(),
            old(self)@.may_process(event@, current@, now, r.step(final(self)@)),
    {
        match event {
            SignerEvent::LeaderChanged(leader) => {
                self.state = match leader {
                    RaftLeader::Myself => SignerState::Leader(LeaderState::Ready),
                    RaftLeader::Other(id) => SignerState::Follower(id, FollowerState::Ready),
                    RaftLeader::Unknown => SignerState::Unknown,
                };
                SignerOutput::nothing()
            },
            SignerEvent::RoundStarted(round) => {
                if self.is_leader() {
                    self.start_round(round, current, now)
                } else {
                    SignerOutput::nothing()
                }
            },
            SignerEvent::RoundGracePeriodEnded(round) => self.finish_collecting_commitments(round),
            SignerEvent::Message(from, SignerMessage { round, data }) => match data {
                SignerMessageData::RequestCommitment(request) => self.send_commitment(round, &request, current),
                SignerMessageData::Commit(commitment) => self.process_commitment(round, from, commitment),
                SignerMessageData::RequestSignature(request) => self.send_signature(round, &request),
                SignerMessageData::Sign(signature) => self.process_signature(round, from, signature, now),
                SignerMessageData::Publish(payload) => self.publish(from, payload),
            },
        }
    }
}

/// The feeds as they came over the wire, without the names of their collateral.
fn without_names(feeds_read: Vec<SyntheticPriceFeed>) -> (r: Vec<SyntheticPriceFeed>)
    ensures
        feeds(r@) == unnamed(models(feeds_read@)),
{
    let ghost all = feeds_read@;
    let mut rest = feeds_read;
    let mut plain: Vec<SyntheticPriceFeed> = Vec::new();
    while rest.len() > 0
        invariant
            rest@.len() + plain@.len() == all.len(),
            forall|j: int| 0 <= j < rest@.len() ==> rest@[j] == #[trigger] all[j + plain@.len()],
            forall|j: int|
                0 <= j < plain@.len() ==> (#[trigger] plain@[j]).named() == (NamedFeedView {
                    feed: all[j]@,
                    collateral_names: None,
                }),
        decreases rest.len(),
    {
        let ghost k = plain@.len() as int;
        assert(rest@[0] == all[0 + k]);
        let mut feed = rest.remove(0);
        feed.collateral_names = None;
        plain.push(feed);
        assert forall|j: int| 0 <= j < rest@.len() implies rest@[j] == #[trigger] all[j + plain@.len()] by {
            assert(rest@[j] == all[(j + 1) + k]);
        }
    }
    assert(feeds(plain@) =~= unnamed(models(all)));
    plain
}

} // verus!
