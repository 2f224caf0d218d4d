//! What holds of the steps of a round.

use vstd::prelude::*;

use crate::frost::{group_signature, group_size, key_parts, signature_share, signing_package};
use crate::names::{alphabetical, lemma_listing_exists};
use crate::plutus::cbor_bytes;
use crate::price_feed::{EntriesView, GenericPriceFeed, PlutusCompatible, PriceDataView, SyntheticEntryView};
use crate::price_feed::SyntheticPriceFeed;
use crate::raft::LeaderView;
use crate::signature_aggregator::messages::{
    CommitmentRequestView, CommitmentView, MessageDataView, SignatureRequestView, SignatureView,
};
use crate::signature_aggregator::price_comparator::signable;
use crate::signature_aggregator::round::{
    entry_names, feed_messages, feed_names, first_place, fresh_generics, fresh_synthetics, generic_names,
    group_signatures, holders, is_first_at, is_signed, kept_synthetics, lemma_first_place, min_signers, needs_more,
    package_of, packages, parsed_all, recipients, round_payload, shares, signed_request, supporters, synthetic_names,
    unnamed, FollowerStateView, LeaderStateView, SignerError, SignerView, StateView, Step,
};

verus! {

/// Whether an entry is a synthetic as it was just signed: with its price, its feed, this signature, and made now.
pub open spec fn is_newly_signed(
    entry: SyntheticEntryView,
    prices: PriceDataView,
    at: int,
    signature: Seq<u8>,
    now: u128,
) -> bool {
    &&& entry.price == prices.synthetics[at].price
    &&& entry.feed.data == prices.synthetics[at].feed.feed
    &&& entry.feed.signature == signature
    &&& entry.timestamp == Some(now)
}

/// A name that stands nowhere before this place stands here first.
proof fn lemma_first(names: Seq<Seq<char>>, name: Seq<char>, at: int)
    requires
        0 <= at < names.len(),
        names[at] == name,
        forall|j: int| 0 <= j < at ==> #[trigger] names[j] != name,
    ensures
        first_place(names, name) == at,
        names.contains(name),
{
    assert(is_first_at(names, name, at));
    lemma_first_place(names, name, at);
}

proof fn lemma_some_first(names: Seq<Seq<char>>, name: Seq<char>)
    requires
        names.contains(name),
    ensures
        is_first_at(names, name, first_place(names, name)),
{
    let at = choose|at: int| 0 <= at < names.len() && names[at] == name;
    let first = lemma_least(names, name, at);
    lemma_first_place(names, name, first);
}

proof fn lemma_least(names: Seq<Seq<char>>, name: Seq<char>, at: int) -> (r: int)
    requires
        0 <= at < names.len(),
        names[at] == name,
    ensures
        is_first_at(names, name, r),
    decreases at,
{
    if exists|j: int| 0 <= j < at && #[trigger] names[j] == name {
        let j = choose|j: int| 0 <= j < at && #[trigger] names[j] == name;
        lemma_least(names, name, j)
    } else {
        at
    }
}

proof fn lemma_kept_is_finite(
    prices: PriceDataView,
    signed: Map<Seq<char>, Seq<u8>>,
    latest: Option<EntriesView>,
    now: u128,
)
    ensures
        kept_synthetics(fresh_synthetics(prices, signed, now), latest).dom().finite(),
        fresh_generics(prices, signed, now).dom().finite(),
{
    let fresh = fresh_synthetics(prices, signed, now);
    let names = synthetic_names(prices);
    vstd::seq_lib::seq_to_set_is_finite(names);
    assert(fresh.dom().subset_of(names.to_set()));
    vstd::set_lib::lemma_set_subset_finite(names.to_set(), fresh.dom());
    if let Some(payload) = latest {
        let old_names = entry_names(payload.synthetics);
        vstd::seq_lib::seq_to_set_is_finite(old_names);
        let kept = kept_synthetics(fresh, latest);
        assert(kept.dom() =~= fresh.dom().union(old_names.to_set()));
    }
    let others = generic_names(prices);
    vstd::seq_lib::seq_to_set_is_finite(others);
    assert(fresh_generics(prices, signed, now).dom().subset_of(others.to_set()));
    vstd::set_lib::lemma_set_subset_finite(others.to_set(), fresh_generics(prices, signed, now).dom());
}

/// Every synthetic that was signed in a round is in its payload, with its own feed and signature, as made now.
pub proof fn law_every_signed_synthetic_is_in_the_payload(
    prices: PriceDataView,
    signed: Map<Seq<char>, Seq<u8>>,
    latest: Option<EntriesView>,
    now: u128,
    at: int,
)
    requires
        0 <= at < prices.synthetics.len(),
        signed.contains_key(prices.synthetics[at].feed.feed.synthetic),
        forall|j: int|
            0 <= j < at ==> (#[trigger] prices.synthetics[j]).feed.feed.synthetic
                != prices.synthetics[at].feed.feed.synthetic,
    ensures
        round_payload(prices, signed, latest, now).timestamp == now,
        exists|i: int|
            0 <= i < round_payload(prices, signed, latest, now).synthetics.len() && is_newly_signed(
                #[trigger] round_payload(prices, signed, latest, now).synthetics[i],
                prices,
                at,
                signed[prices.synthetics[at].feed.feed.synthetic],
                now,
            ),
{
    let name = prices.synthetics[at].feed.feed.synthetic;
    let names = synthetic_names(prices);
    assert forall|j: int| 0 <= j < at implies #[trigger] names[j] != name by {
        assert(prices.synthetics[j].feed.feed.synthetic != name);
    }
    lemma_first(names, name, at);
    let fresh = fresh_synthetics(prices, signed, now);
    let kept = kept_synthetics(fresh, latest);
    lemma_kept_is_finite(prices, signed, latest, now);
    let (listed, values) = lemma_listing_exists(kept);
    assert(kept.contains_key(name));
    assert(listed.contains(name));
    let i = choose|i: int| 0 <= i < listed.len() && listed[i] == name;
    assert(kept[listed[i]] == values[i]);
    let payload = round_payload(prices, signed, latest, now);
    assert(is_newly_signed(payload.synthetics[i], prices, at, signed[name], now));
}

/// Every feed that was signed in a round, and that goes by the name of no synthetic, is in its payload, with its own
/// signature, as made now.
pub proof fn law_every_signed_feed_is_in_the_payload(
    prices: PriceDataView,
    signed: Map<Seq<char>, Seq<u8>>,
    latest: Option<EntriesView>,
    now: u128,
    at: int,
)
    requires
        0 <= at < prices.generics.len(),
        signed.contains_key(prices.generics[at].name),
        forall|j: int| 0 <= j < at ==> (#[trigger] prices.generics[j]).name != prices.generics[at].name,
        forall|j: int|
            0 <= j < prices.synthetics.len() ==> (#[trigger] prices.synthetics[j]).feed.feed.synthetic
                != prices.generics[at].name,
    ensures
        exists|i: int|
            0 <= i < round_payload(prices, signed, latest, now).generics.len() && {
                let entry = #[trigger] round_payload(prices, signed, latest, now).generics[i];
                &&& entry.feed.data == prices.generics[at]
                &&& entry.feed.signature == signed[prices.generics[at].name]
                &&& entry.timestamp == now
            },
{
    let name = prices.generics[at].name;
    let names = generic_names(prices);
    assert forall|j: int| 0 <= j < at implies #[trigger] names[j] != name by {
        assert(prices.generics[j].name != name);
    }
    lemma_first(names, name, at);
    assert(!synthetic_names(prices).contains(name)) by {
        if synthetic_names(prices).contains(name) {
            let j = choose|j: int| 0 <= j < synthetic_names(prices).len() && synthetic_names(prices)[j] == name;
            assert(prices.synthetics[j].feed.feed.synthetic != name);
        }
    }
    let fresh = fresh_generics(prices, signed, now);
    lemma_kept_is_finite(prices, signed, latest, now);
    let (listed, values) = lemma_listing_exists(fresh);
    assert(fresh.contains_key(name));
    assert(listed.contains(name));
    let i = choose|i: int| 0 <= i < listed.len() && listed[i] == name;
    assert(fresh[listed[i]] == values[i]);
    let payload = round_payload(prices, signed, latest, now);
    assert(payload.generics[i] == fresh[name]);
}

/// Every synthetic in a payload was signed in its round, or is as it stood in the last payload and was not signed now.
pub proof fn law_payloads_hold_signed_and_kept_synthetics(
    prices: PriceDataView,
    signed: Map<Seq<char>, Seq<u8>>,
    latest: Option<EntriesView>,
    now: u128,
    i: int,
)
    requires
        0 <= i < round_payload(prices, signed, latest, now).synthetics.len(),
    ensures
        ({
            let entry = round_payload(prices, signed, latest, now).synthetics[i];
            let name = entry.feed.data.synthetic;
            ||| signed.contains_key(name) && exists|at: int|
                0 <= at < prices.synthetics.len() && (#[trigger] prices.synthetics[at]).feed.feed.synthetic == name
                    && is_newly_signed(entry, prices, at, signed[name], now)
            ||| latest matches Some(payload) && payload.synthetics.contains(entry) && !(signed.contains_key(name)
                && exists|at: int|
                0 <= at < prices.synthetics.len() && (#[trigger] prices.synthetics[at]).feed.feed.synthetic == name)
        }),
{
    let fresh = fresh_synthetics(prices, signed, now);
    let kept = kept_synthetics(fresh, latest);
    lemma_kept_is_finite(prices, signed, latest, now);
    let (listed, values) = lemma_listing_exists(kept);
    let entry = values[i];
    let name = listed[i];
    assert(listed.contains(name));
    assert(kept.contains_key(name));
    assert(kept[name] == entry);
    let names = synthetic_names(prices);
    if fresh.contains_key(name) {
        lemma_some_first(names, name);
        let at = first_place(names, name);
        assert(prices.synthetics[at].feed.feed.synthetic == name);
        assert(is_newly_signed(entry, prices, at, signed[name], now));
    } else {
        let payload = latest->0;
        let old_names = entry_names(payload.synthetics);
        lemma_some_first(old_names, name);
        let at = first_place(old_names, name);
        assert(payload.synthetics[at] == entry);
        if signed.contains_key(name) && exists|at: int|
            0 <= at < prices.synthetics.len() && (#[trigger] prices.synthetics[at]).feed.feed.synthetic == name {
            let other = choose|at: int|
                0 <= at < prices.synthetics.len() && (#[trigger] prices.synthetics[at]).feed.feed.synthetic == name;
            assert(names[other] == name);
        }
    }
}

/// A synthetic of the last payload that was not signed now stays as it was.
pub proof fn law_unsigned_synthetics_stay_as_they_were(
    prices: PriceDataView,
    signed: Map<Seq<char>, Seq<u8>>,
    latest: EntriesView,
    now: u128,
    at: int,
)
    requires
        0 <= at < latest.synthetics.len(),
        !signed.contains_key(latest.synthetics[at].feed.data.synthetic),
        forall|j: int|
            0 <= j < at ==> (#[trigger] latest.synthetics[j]).feed.data.synthetic
                != latest.synthetics[at].feed.data.synthetic,
    ensures
        round_payload(prices, signed, Some(latest), now).synthetics.contains(latest.synthetics[at]),
{
    let name = latest.synthetics[at].feed.data.synthetic;
    let names = entry_names(latest.synthetics);
    assert forall|j: int| 0 <= j < at implies #[trigger] names[j] != name by {
        assert(latest.synthetics[j].feed.data.synthetic != name);
    }
    lemma_first(names, name, at);
    let fresh = fresh_synthetics(prices, signed, now);
    let kept = kept_synthetics(fresh, Some(latest));
    lemma_kept_is_finite(prices, signed, Some(latest), now);
    let (listed, values) = lemma_listing_exists(kept);
    assert(kept.contains_key(name));
    assert(listed.contains(name));
    let i = choose|i: int| 0 <= i < listed.len() && listed[i] == name;
    assert(kept[listed[i]] == values[i]);
}

/// The commitments to a feed are those of all nodes that committed to it, each with the identifier of who made it.
pub proof fn law_all_commitments_support_a_feed(commitments: Seq<(Seq<char>, CommitmentView)>, name: Seq<char>)
    ensures
        ({
            let own = commitments.filter(
                |commitment: (Seq<char>, CommitmentView)| commitment.1.commitments.contains_key(name),
            );
            &&& supporters(commitments, name).len() == own.len()
            &&& forall|i: int|
                0 <= i < own.len() ==> #[trigger] supporters(commitments, name)[i] == (
                    own[i].1.identifier,
                    own[i].1.commitments[name],
                )
        }),
    decreases commitments.len(),
{
    reveal(Seq::filter);
    if commitments.len() > 0 {
        law_all_commitments_support_a_feed(commitments.drop_last(), name);
    }
}

/// The shares of a feed's signature are those of all nodes that signed it, each with the identifier of who made it.
pub proof fn law_all_shares_count(signatures: Seq<SignatureView>, name: Seq<char>)
    ensures
        ({
            let own = signatures.filter(|signature: SignatureView| signature.signatures.contains_key(name));
            &&& holders(signatures, name).len() == own.len()
            &&& forall|i: int|
                0 <= i < own.len() ==> #[trigger] holders(signatures, name)[i] == (
                    own[i].identifier,
                    own[i].signatures[name],
                )
        }),
    decreases signatures.len(),
{
    reveal(Seq::filter);
    if signatures.len() > 0 {
        law_all_shares_count(signatures.drop_last(), name);
    }
}

/// A leader asks for signatures of a feed if, and only if, enough nodes committed to it. The package is made of their
/// commitments and of the bytes of the leader's own feed, the first of its name.
pub proof fn law_supported_feeds_are_packaged(
    prices: PriceDataView,
    commitments: Seq<(Seq<char>, CommitmentView)>,
    min: int,
    name: Seq<char>,
    at: int,
)
    requires
        min > 0,
        is_first_at(feed_names(prices), name, at),
    ensures
        ({
            let all = packages(prices, commitments, min, 0, feed_names(prices).len() as int);
            &&& all.contains_key(name) <==> supporters(commitments, name).len() >= min
            &&& at < prices.synthetics.len() && all.contains_key(name) ==> all[name] == signing_package(
                supporters(commitments, name),
                cbor_bytes(SyntheticPriceFeed::written(prices.synthetics[at].feed.feed)),
            )->0
            &&& at >= prices.synthetics.len() && all.contains_key(name) ==> all[name] == signing_package(
                supporters(commitments, name),
                cbor_bytes(GenericPriceFeed::written(prices.generics[at - prices.synthetics.len()])),
            )->0
        }),
{
    lemma_first_place(feed_names(prices), name, at);
    let all = packages(prices, commitments, min, 0, feed_names(prices).len() as int);
    assert(is_first_at(feed_names(prices), name, at));
    assert(package_of(prices, commitments, name) == signing_package(
        supporters(commitments, name),
        feed_messages(prices)[at],
    ));
}

/// A feed has the group's signature if, and only if, it was packaged and enough nodes signed it. The signature is put
/// together from their shares.
pub proof fn law_enough_shares_make_a_signature(
    packed: Map<Seq<char>, Seq<u8>>,
    signatures: Seq<SignatureView>,
    min: int,
    public_key: Seq<u8>,
    name: Seq<char>,
)
    requires
        min > 0,
    ensures
        group_signatures(packed, signatures, min, public_key).contains_key(name) <==> packed.contains_key(name)
            && holders(signatures, name).len() >= min,
        group_signatures(packed, signatures, min, public_key).contains_key(name) ==> group_signatures(
            packed,
            signatures,
            min,
            public_key,
        )[name] == group_signature(packed[name], holders(signatures, name), public_key)->0,
{
}

/// A node signs each package that it has nonces for, with just these nonces and its own key.
pub proof fn law_packages_are_signed_with_their_nonces(
    packed: Map<Seq<char>, Seq<u8>>,
    nonces: Map<Seq<char>, Seq<u8>>,
    key: Seq<u8>,
    name: Seq<char>,
)
    ensures
        shares(packed, nonces, key).contains_key(name) <==> packed.contains_key(name) && nonces.contains_key(name),
        shares(packed, nonces, key).contains_key(name) ==> shares(packed, nonces, key)[name] == signature_share(
            packed[name],
            nonces[name],
            key,
        )->0,
{
}

/// The leader asks every other node that committed for signatures, and no one else.
pub proof fn law_all_other_committers_are_asked(
    commitments: Seq<(Seq<char>, CommitmentView)>,
    id: Seq<char>,
    node: Seq<char>,
)
    ensures
        recipients(commitments, id).contains(node) <==> node != id && exists|i: int|
            0 <= i < commitments.len() && (#[trigger] commitments[i]).0 == node,
    decreases commitments.len(),
{
    if commitments.len() > 0 {
        let front = commitments.drop_last();
        let last = commitments[commitments.len() - 1];
        law_all_other_committers_are_asked(front, id, node);
        let before = recipients(front, id);
        let all = recipients(commitments, id);
        if before.contains(node) {
            let k = choose|k: int| 0 <= k < before.len() && before[k] == node;
            assert(all[k] == node);
            let i = choose|i: int| 0 <= i < front.len() && (#[trigger] front[i]).0 == node;
            assert(commitments[i].0 == node);
        } else if node != id && last.0 == node {
            assert(all[all.len() - 1] == node);
        } else {
            assert forall|i: int| 0 <= i < commitments.len() implies (node == id || (#[trigger] commitments[i]).0
                != node) by {
                if i < front.len() {
                    assert(front[i] == commitments[i]);
                }
            }
            assert(!all.contains(node)) by {
                if all.contains(node) {
                    let k = choose|k: int| 0 <= k < all.len() && all[k] == node;
                    if k < before.len() {
                        assert(before[k] == node);
                    }
                }
            }
        }
    }
}

/// A leader goes on collecting while fewer nodes have committed than have to sign. It stops when all have, and before that
/// only once every feed that someone committed to has enough commitments.
pub proof fn law_leaders_wait_for_enough_commitments(
    commitments: Seq<(Seq<char>, CommitmentView)>,
    min: int,
    max: int,
)
    requires
        0 < min <= max,
    ensures
        commitments.len() < min ==> needs_more(commitments, min, max),
        commitments.len() == max ==> !needs_more(commitments, min, max),
        min <= commitments.len() && commitments.len() != max ==> (needs_more(commitments, min, max) <==> !(forall|i: int, name: Seq<char>|
            0 <= i < commitments.len() && #[trigger] commitments[i].1.commitments.contains_key(name) ==> supporters(
                commitments,
                name,
            ).len() >= min)),
{
}

/// A leader that goes on collecting has the new commitment, with who sent it, and says nothing. One that does not has the
/// same commitments, and goes on as when the time to collect is over.
pub proof fn law_commitments_are_collected(
    signer: SignerView,
    round: Seq<char>,
    from: Seq<char>,
    commitment: CommitmentView,
    prices: PriceDataView,
    commitments: Seq<(Seq<char>, CommitmentView)>,
    nonces: Map<Seq<char>, Seq<u8>>,
)
    requires
        signer.state == StateView::Leader(
            LeaderStateView::CollectingCommitments { round, price_data: prices, commitments, my_nonces: nonces },
        ),
        forall|i: int|
            0 <= i < commitments.len() ==> (#[trigger] commitments[i]).1.identifier != commitment.identifier,
    ensures
        ({
            let all = commitments.push((from, commitment));
            let next = SignerView {
                state: StateView::Leader(
                    LeaderStateView::CollectingCommitments {
                        round,
                        price_data: prices,
                        commitments: all,
                        my_nonces: nonces,
                    },
                ),
                ..signer
            };
            let step = signer.receive_commitment(round, from, commitment);
            if needs_more(all, min_signers(signer.key), group_size(signer.public_key)->0 as int) {
                &&& step.signer == next
                &&& step.messages.len() == 0
                &&& step.published.len() == 0
                &&& step.error is None
            } else {
                step == next.finish_collecting(round)
            }
        }),
{
}

/// When the time to collect commitments is over and nothing fails, the leader asks each other node that committed for
/// signatures, signs itself, and waits for just these nodes.
pub proof fn law_leaders_ask_for_signatures(
    signer: SignerView,
    round: Seq<char>,
    prices: PriceDataView,
    commitments: Seq<(Seq<char>, CommitmentView)>,
    nonces: Map<Seq<char>, Seq<u8>>,
)
    requires
        signer.state == StateView::Leader(
            LeaderStateView::CollectingCommitments { round, price_data: prices, commitments, my_nonces: nonces },
        ),
        signer.finish_collecting(round).error is None,
    ensures
        ({
            let step = signer.finish_collecting(round);
            let to = recipients(commitments, signer.id);
            let all = packages(prices, commitments, min_signers(signer.key), 0, feed_names(prices).len() as int);
            &&& step.messages.len() == to.len()
            &&& forall|i: int|
                0 <= i < to.len() ==> {
                    &&& (#[trigger] step.messages[i]).0 == Some(to[i])
                    &&& step.messages[i].1.round == round
                    &&& step.messages[i].1.data matches MessageDataView::RequestSignature(request)
                        && request.synthetic_packages.union_prefer_right(request.generic_packages) == all
                }
            &&& step.published.len() == 0
            &&& step.signer.state matches StateView::Leader(
                LeaderStateView::CollectingSignatures { round: r, price_data, signatures, packages: packed, waiting_for },
            ) && r == round && price_data == prices && packed == all && waiting_for == to.to_set() && signatures.len()
                == 1 && signatures[0].signatures == shares(all, nonces, signer.key)
        }),
{
    let min = min_signers(signer.key);
    let split = prices.synthetics.len() as int;
    let end = feed_names(prices).len() as int;
    let first = packages(prices, commitments, min, 0, split);
    let second = packages(prices, commitments, min, split, end);
    let all = packages(prices, commitments, min, 0, end);
    assert forall|name: Seq<char>| all.contains_key(name) <==> first.contains_key(name) || second.contains_key(
        name,
    ) by {
        if all.contains_key(name) {
            let at = choose|at: int| 0 <= at < end && #[trigger] is_first_at(feed_names(prices), name, at);
            assert(is_first_at(feed_names(prices), name, at));
            if at < split {
                assert(first.contains_key(name));
            } else {
                assert(second.contains_key(name));
            }
        }
        if first.contains_key(name) {
            let at = choose|at: int| 0 <= at < split && #[trigger] is_first_at(feed_names(prices), name, at);
            assert(is_first_at(feed_names(prices), name, at));
        }
        if second.contains_key(name) {
            let at = choose|at: int| split <= at < end && #[trigger] is_first_at(feed_names(prices), name, at);
            assert(is_first_at(feed_names(prices), name, at));
        }
    }
    assert(first.union_prefer_right(second) =~= all);
}

/// A leader that still waits for someone keeps each new signature and says nothing. Once it waits for no one, it publishes
/// what was signed, to all, under its own name, and is ready for the next round.
pub proof fn law_rounds_end_when_all_have_signed(
    signer: SignerView,
    round: Seq<char>,
    from: Seq<char>,
    signature: SignatureView,
    now: u128,
    prices: PriceDataView,
    signatures: Seq<SignatureView>,
    packed: Map<Seq<char>, Seq<u8>>,
    waiting_for: Set<Seq<char>>,
)
    requires
        signer.state == StateView::Leader(
            LeaderStateView::CollectingSignatures {
                round,
                price_data: prices,
                signatures,
                packages: packed,
                waiting_for,
            },
        ),
        forall|i: int|
            0 <= i < signatures.len() ==> (#[trigger] signatures[i]).identifier != signature.identifier,
    ensures
        ({
            let step = signer.receive_signature(round, from, signature, now);
            let all = signatures.push(signature);
            let signed = group_signatures(packed, all, min_signers(signer.key), signer.public_key);
            let payload = round_payload(prices, signed, signer.latest_payload, now);
            if exists|node: Seq<char>| node != from && #[trigger] waiting_for.contains(node) {
                &&& step.messages.len() == 0
                &&& step.published.len() == 0
                &&& step.error is None
                &&& step.signer.state matches StateView::Leader(
                    LeaderStateView::CollectingSignatures { round: r, price_data, signatures: kept, packages, waiting_for: rest },
                ) && r == round && price_data == prices && kept == all && packages == packed && !rest.contains(from)
                    && forall|node: Seq<char>| node != from ==> (#[trigger] rest.contains(node) <==> waiting_for.contains(
                    node,
                ))
            } else {
                step.error is None ==> {
                    &&& step.published == seq![(signer.id, payload)]
                    &&& step.messages.len() == 1
                    &&& step.messages[0].0 is None
                    &&& step.messages[0].1.round == round
                    &&& step.messages[0].1.data == MessageDataView::Publish(payload)
                    &&& step.signer.state == StateView::Leader(LeaderStateView::Ready)
                }
            }
        }),
{
    let rest = waiting_for.remove(from);
    if exists|node: Seq<char>| node != from && #[trigger] waiting_for.contains(node) {
        let node = choose|node: Seq<char>| node != from && #[trigger] waiting_for.contains(node);
        assert(rest.contains(node));
        assert(rest != Set::<Seq<char>>::empty());
    } else {
        assert(rest =~= Set::<Seq<char>>::empty()) by {
            assert forall|node: Seq<char>| !rest.contains(node) by {
                if rest.contains(node) {
                    assert(waiting_for.contains(node));
                }
            }
        }
    }
}

/// A payload is published if, and only if, the group has signed every feed in it; it is then the latest, unless a later one
/// is known. One that it has not signed changes nothing.
pub proof fn law_only_signed_payloads_are_published(signer: SignerView, publisher: Seq<char>, payload: EntriesView)
    ensures
        ({
            let step = signer.publish(publisher, payload);
            if is_signed(signer.key, payload) {
                &&& step.published == seq![(publisher, payload)]
                &&& step.error is None
                &&& step.signer.state == signer.state
                &&& step.signer.latest_payload == if signer.latest_payload matches Some(latest) && latest.timestamp
                    > payload.timestamp {
                    signer.latest_payload
                } else {
                    Some(payload)
                }
            } else {
                &&& step.published.len() == 0
                &&& step.error == Some(SignerError::InvalidSignature)
                &&& step.signer == signer
            }
        }),
{
}

/// A round that is still going on when the leader starts another ends with an empty payload of its own.
pub proof fn law_unfinished_rounds_end_empty(signer: SignerView, now: u128)
    ensures
        signer.state is Leader && signer.state->Leader_0 !is Ready ==> signer.finish_early(now).published == seq![
            (signer.id, EntriesView { timestamp: now, synthetics: seq![], generics: seq![] }),
        ],
        !(signer.state is Leader && signer.state->Leader_0 !is Ready) ==> signer.finish_early(now).published.len() == 0
            && signer.finish_early(now).signer == signer,
{
    assert(is_signed(signer.key, EntriesView { timestamp: now, synthetics: seq![], generics: seq![] }));
}

/// A node that becomes leader is ready to lead, one that gets another leader follows it, and one without a leader does
/// neither; whatever it was doing ends.
pub proof fn law_roles_follow_the_leader(signer: SignerView, leader: LeaderView)
    ensures
        signer.led_by(leader).state == (match leader {
            LeaderView::Myself => StateView::Leader(LeaderStateView::Ready),
            LeaderView::Other(id) => StateView::Follower(id, FollowerStateView::Ready),
            LeaderView::Unknown => StateView::Unknown,
        }),
        signer.led_by(leader).latest_payload == signer.latest_payload,
{
}

/// A follower sends its signatures to the leader only, in the same round, and is then ready for the next.
pub proof fn law_followers_answer_their_leader(
    signer: SignerView,
    round: Seq<char>,
    leader: Seq<char>,
    prices: PriceDataView,
    nonces: Map<Seq<char>, Seq<u8>>,
    request: SignatureRequestView,
)
    requires
        signer.state == StateView::Follower(
            leader,
            FollowerStateView::Committed { round, price_data: prices, nonces },
        ),
        signer.receive_signature_request(round, request).error is None,
    ensures
        ({
            let step = signer.receive_signature_request(round, request);
            &&& step.signer.state == StateView::Follower(leader, FollowerStateView::Ready)
            &&& step.messages.len() == 1
            &&& step.messages[0].0 == Some(leader)
            &&& step.messages[0].1.round == round
            &&& step.messages[0].1.data is Sign
            &&& step.published.len() == 0
        }),
{
}

/// A leader that begins a round asks all other nodes to commit, and tells them all of its own feeds.
pub proof fn law_leaders_ask_all_with_their_feeds(
    signer: SignerView,
    round: Seq<char>,
    prices: PriceDataView,
    now: u128,
    step: Step,
)
    requires
        signer.may_start(round, prices, now, step),
        step.error is None,
    ensures
        step.messages.len() == 1,
        step.messages[0].0 is None,
        step.messages[0].1.round == round,
        step.messages[0].1.data matches MessageDataView::RequestCommitment(request) && request.synthetic_feeds
            == prices.feeds() && request.generic_feeds == prices.generics,
{
}

/// A follower that is asked to commit answers its leader, with its own feeds, its own identifier, and commitments to just
/// those feeds that it would sign. Where it is asked again in the same round, it goes by the prices that it went by first.
pub proof fn law_followers_commit_with_their_feeds(
    signer: SignerView,
    leader: Seq<char>,
    state: FollowerStateView,
    round: Seq<char>,
    request: CommitmentRequestView,
    current: PriceDataView,
    step: Step,
)
    requires
        signer.state == StateView::Follower(leader, state),
        signer.may_commit(round, request, current, step),
        step.error is None,
    ensures
        ({
            let prices = match state {
                FollowerStateView::Committed { round: begun, price_data, .. } => if begun == round {
                    price_data
                } else {
                    current
                },
                FollowerStateView::Ready => current,
            };
            &&& step.messages.len() == 1
            &&& step.messages[0].0 == Some(leader)
            &&& step.messages[0].1.round == round
            &&& step.messages[0].1.data matches MessageDataView::Commit(commitment) && {
                &&& commitment.synthetic_feeds == prices.feeds()
                &&& commitment.generic_feeds == prices.generics
                &&& commitment.identifier == (key_parts(signer.key)->0).0
                &&& forall|name: Seq<char>| #[trigger]
                    commitment.commitments.contains_key(name) <==> signable::<SyntheticPriceFeed>(
                        request.synthetic_feeds,
                        prices.feeds(),
                    ).contains(name) || signable::<GenericPriceFeed>(request.generic_feeds, prices.generics).contains(
                        name,
                    )
            }
            &&& step.signer.state matches StateView::Follower(
                followed,
                FollowerStateView::Committed { round: begun, price_data, .. },
            ) && followed == leader && begun == round && price_data == prices
        }),
{
}

/// A follower signs every package that it would sign by its own prices, and that it has nonces for; and no other.
pub proof fn law_every_agreed_package_is_signed(
    request: SignatureRequestView,
    prices: PriceDataView,
    nonces: Map<Seq<char>, Seq<u8>>,
    key: Seq<u8>,
    name: Seq<char>,
)
    requires
        signed_request(request, prices, nonces, key) is Ok,
    ensures
        ({
            let signed = signed_request(request, prices, nonces, key)->Ok_0;
            let synthetics = parsed_all::<SyntheticPriceFeed>(alphabetical(request.synthetic_packages))->Ok_0;
            let generics = parsed_all::<GenericPriceFeed>(alphabetical(request.generic_packages))->Ok_0;
            let is_synthetic = signable::<SyntheticPriceFeed>(unnamed(synthetics), prices.feeds()).contains(name);
            let is_generic = signable::<GenericPriceFeed>(generics, prices.generics).contains(name);
            &&& signed.identifier == (key_parts(key)->0).0
            &&& signed.signatures.contains_key(name) <==> nonces.contains_key(name) && (is_synthetic || is_generic)
            &&& signed.signatures.contains_key(name) ==> Some(signed.signatures[name]) == signature_share(
                if is_generic {
                    request.generic_packages[name]
                } else {
                    request.synthetic_packages[name]
                },
                nonces[name],
                key,
            )
        }),
{
    let synthetics = parsed_all::<SyntheticPriceFeed>(alphabetical(request.synthetic_packages))->Ok_0;
    let generics = parsed_all::<GenericPriceFeed>(alphabetical(request.generic_packages))->Ok_0;
    let synthetic_names = signable::<SyntheticPriceFeed>(unnamed(synthetics), prices.feeds());
    let generic_names = signable::<GenericPriceFeed>(generics, prices.generics);
    assert(synthetic_names.subset_of(request.synthetic_packages.dom()));
    assert(generic_names.subset_of(request.generic_packages.dom()));
    if synthetic_names.contains(name) {
        assert(request.synthetic_packages.dom().contains(name));
    }
    if generic_names.contains(name) {
        assert(request.generic_packages.dom().contains(name));
    }
}

} // verus!
