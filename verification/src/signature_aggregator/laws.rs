//! What holds of every round of signing.

use vstd::prelude::*;

use crate::names::{alphabetical, lemma_listing_exists};
use crate::price_feed::{EntriesView, GenericPriceFeed, PriceDataView, SyntheticPriceFeed};
use crate::signature_aggregator::messages::{CommitmentView, MessageDataView, MessageView, SignatureRequestView};
use crate::signature_aggregator::messages::SignatureView;
use crate::signature_aggregator::price_comparator::signable;
use crate::signature_aggregator::round::{are_drawn_for, entry_names, feed_names, fresh_synthetics, group_signatures, holders};
use crate::signature_aggregator::round::{is_first_at, is_signed, kept_synthetics, lemma_first_place, packages, parsed_all};
use crate::signature_aggregator::round::{round_payload, signed_request, supporters, synthetic_names, unnamed, EventView};
use crate::signature_aggregator::round::{FollowerStateView, LeaderStateView, SignerView, StateView, Step};

verus! {

/// Whatever happens, a signer publishes nothing but feeds that the group has signed.
pub proof fn law_published_feeds_are_signed(
    signer: SignerView,
    event: EventView,
    prices: PriceDataView,
    now: u128,
    step: Step,
    at: int,
)
    requires
        signer.may_process(event, prices, now, step),
        0 <= at < step.published.len(),
    ensures
        is_signed(signer.key, step.published[at].1),
{
}

/// Whatever happens, a signer keeps its name and its keys, and its latest payload never gets older.
pub proof fn law_payloads_never_get_older(
    signer: SignerView,
    event: EventView,
    prices: PriceDataView,
    now: u128,
    step: Step,
)
    requires
        signer.may_process(event, prices, now, step),
    ensures
        step.signer.id == signer.id,
        step.signer.key == signer.key,
        step.signer.public_key == signer.public_key,
        signer.latest_payload is Some ==> step.signer.latest_payload is Some && step.signer.latest_payload->0.timestamp
            >= signer.latest_payload->0.timestamp,
{
}

/// The round that a signer is in; none where it is waiting for one.
pub open spec fn current_round(state: StateView) -> Option<Seq<char>> {
    match state {
        StateView::Leader(LeaderStateView::CollectingCommitments { round, .. }) => Some(round),
        StateView::Leader(LeaderStateView::CollectingSignatures { round, .. }) => Some(round),
        StateView::Follower(_, FollowerStateView::Committed { round, .. }) => Some(round),
        _ => None,
    }
}

/// Commitments, requests for signatures and signatures that belong to another round are ignored, and
/// so is the end of another round's grace period.
pub proof fn law_other_rounds_are_ignored(
    signer: SignerView,
    round: Seq<char>,
    from: Seq<char>,
    commitment: CommitmentView,
    request: SignatureRequestView,
    signature: SignatureView,
    now: u128,
)
    requires
        current_round(signer.state) != Some(round),
    ensures
        signer.receive_commitment(round, from, commitment) == signer.idle(),
        signer.receive_signature_request(round, request) == signer.idle(),
        signer.receive_signature(round, from, signature, now) == signer.idle(),
        signer.finish_collecting(round) == signer.idle(),
{
}

/// Only leaders take in commitments and signatures, and only followers answer requests for signatures.
pub proof fn law_roles_are_kept_apart(
    signer: SignerView,
    round: Seq<char>,
    from: Seq<char>,
    commitment: CommitmentView,
    request: SignatureRequestView,
    signature: SignatureView,
    now: u128,
)
    ensures
        !(signer.state is Leader) ==> signer.receive_commitment(round, from, commitment) == signer.idle()
            && signer.receive_signature(round, from, signature, now) == signer.idle(),
        !(signer.state is Follower) ==> signer.receive_signature_request(round, request) == signer.idle(),
{
}

/// The commitments that a leader has collected are of different participants.
pub open spec fn distinct_participants(state: StateView) -> bool {
    match state {
        StateView::Leader(LeaderStateView::CollectingCommitments { commitments, .. }) => forall|i: int, j: int|
            0 <= i < j < commitments.len() ==> (#[trigger] commitments[i]).1.identifier != (
            #[trigger] commitments[j]).1.identifier,
        StateView::Leader(LeaderStateView::CollectingSignatures { signatures, .. }) => forall|i: int, j: int|
            0 <= i < j < signatures.len() ==> (#[trigger] signatures[i]).identifier != (
            #[trigger] signatures[j]).identifier,
        _ => true,
    }
}

/// Whatever happens, a leader counts each participant once: the commitments and signatures that it has
/// collected are of different participants.
pub proof fn law_participants_count_once(
    signer: SignerView,
    event: EventView,
    prices: PriceDataView,
    now: u128,
    step: Step,
)
    requires
        distinct_participants(signer.state),
        signer.may_process(event, prices, now, step),
    ensures
        distinct_participants(step.signer.state),
{
    match event {
        EventView::Message(from, MessageView { round, data: MessageDataView::Commit(commitment) }) => {
            assert(step == signer.receive_commitment(round, from, commitment));
        },
        EventView::Message(from, MessageView { round, data: MessageDataView::Sign(signature) }) => {
            assert(step == signer.receive_signature(round, from, signature, now));
        },
        _ => {},
    }
}

/// A participant's second commitment changes nothing, nor does its second signature.
pub proof fn law_second_votes_are_ignored(
    signer: SignerView,
    round: Seq<char>,
    from: Seq<char>,
    commitment: CommitmentView,
    signature: SignatureView,
    now: u128,
)
    ensures
        signer.state matches StateView::Leader(LeaderStateView::CollectingCommitments { commitments, .. })
            && (exists|i: int|
            0 <= i < commitments.len() && (#[trigger] commitments[i]).1.identifier == commitment.identifier)
            ==> signer.receive_commitment(round, from, commitment) == signer.idle(),
        signer.state matches StateView::Leader(LeaderStateView::CollectingSignatures { signatures, .. })
            && (exists|i: int|
            0 <= i < signatures.len() && (#[trigger] signatures[i]).identifier == signature.identifier)
            ==> signer.receive_signature(round, from, signature, now) == signer.idle(),
{
}

/// A feed is packaged for signing only where enough participants committed to it, and has a signature
/// only where enough participants signed it.
pub proof fn law_signatures_need_a_quorum(
    prices: PriceDataView,
    commitments: Seq<(Seq<char>, CommitmentView)>,
    packed: Map<Seq<char>, Seq<u8>>,
    signatures: Seq<SignatureView>,
    min: int,
    public_key: Seq<u8>,
    from: int,
    to: int,
    name: Seq<char>,
)
    ensures
        packages(prices, commitments, min, from, to).contains_key(name) ==> supporters(commitments, name).len() >= min,
        group_signatures(packed, signatures, min, public_key).contains_key(name) ==> packed.contains_key(name)
            && holders(signatures, name).len() >= min,
{
}

/// A follower signs only feeds that it has a price for itself and whose comparison with its own prices
/// says to sign.
pub proof fn law_followers_sign_what_they_agree_with(
    request: SignatureRequestView,
    prices: PriceDataView,
    nonces: Map<Seq<char>, Seq<u8>>,
    key: Seq<u8>,
    name: Seq<char>,
)
    requires
        signed_request(request, prices, nonces, key) is Ok,
        signed_request(request, prices, nonces, key)->Ok_0.signatures.contains_key(name),
    ensures
        nonces.contains_key(name),
        ({
            let synthetics = parsed_all::<SyntheticPriceFeed>(alphabetical(request.synthetic_packages));
            let generics = parsed_all::<GenericPriceFeed>(alphabetical(request.generic_packages));
            ||| synthetics is Ok && signable::<SyntheticPriceFeed>(unnamed(synthetics->Ok_0), prices.feeds()).contains(
                name,
            )
            ||| generics is Ok && signable::<GenericPriceFeed>(generics->Ok_0, prices.generics).contains(name)
        }),
{
}

/// A node sends a commitment only when it is asked for one, and commits to just those feeds that it would sign.
pub proof fn law_commitments_cover_what_is_agreed(
    signer: SignerView,
    event: EventView,
    prices: PriceDataView,
    now: u128,
    step: Step,
    at: int,
)
    requires
        signer.may_process(event, prices, now, step),
        0 <= at < step.messages.len(),
        step.messages[at].1.data is Commit,
    ensures
        event matches EventView::Message(_, message) && message.data matches MessageDataView::RequestCommitment(request)
            && step.messages[at].1.data->Commit_0.commitments.dom() == signer.signable_feeds(
            request,
            signer.prices_for(message.round, prices),
        ),
{
}

/// The commitments that a follower sends are to the very nonces that it keeps to sign with.
pub proof fn law_commitments_are_to_nonces_that_are_kept(
    signer: SignerView,
    event: EventView,
    prices: PriceDataView,
    now: u128,
    step: Step,
    at: int,
)
    requires
        signer.may_process(event, prices, now, step),
        0 <= at < step.messages.len(),
        step.messages[at].1.data is Commit,
    ensures
        step.signer.state matches StateView::Follower(_, FollowerStateView::Committed { nonces, .. }) && are_drawn_for(
            nonces.dom(),
            nonces,
            step.messages[at].1.data->Commit_0.commitments,
        ),
{
}

/// A leader that begins a round commits to all of its own feeds, and keeps the nonces of just these commitments.
pub proof fn law_leaders_commit_to_their_feeds(
    signer: SignerView,
    round: Seq<char>,
    prices: PriceDataView,
    now: u128,
    step: Step,
)
    requires
        signer.state is Leader,
        signer.may_process(EventView::RoundStarted(round), prices, now, step),
        step.error is None,
    ensures
        step.signer.state matches StateView::Leader(
            LeaderStateView::CollectingCommitments { round: begun, price_data, commitments, my_nonces },
        ) && begun == round && price_data == prices && commitments.len() == 1 && commitments[0].0 == signer.id
            && are_drawn_for(feed_names(prices).to_set(), my_nonces, commitments[0].1.commitments),
{
}

proof fn lemma_kept_finite(prices: PriceDataView, signed: Map<Seq<char>, Seq<u8>>, latest: Option<EntriesView>, now: u128)
    ensures
        kept_synthetics(fresh_synthetics(prices, signed, now), latest).dom().finite(),
{
    let fresh = fresh_synthetics(prices, signed, now);
    let names = synthetic_names(prices);
    vstd::seq_lib::seq_to_set_is_finite(names);
    assert(fresh.dom().subset_of(names.to_set()));
    vstd::set_lib::lemma_set_subset_finite(names.to_set(), fresh.dom());
    if let Some(payload) = latest {
        let old_names = entry_names(payload.synthetics);
        vstd::seq_lib::seq_to_set_is_finite(old_names);
        let kept = kept_synthetics(fresh, latest);
        assert(kept.dom() =~= fresh.dom().union(old_names.to_set()));
    }
}

/// No synthetic gets lost: each one in the last payload is in the next one too, as it was or signed
/// anew.
pub proof fn law_old_synthetics_are_kept(
    prices: PriceDataView,
    signed: Map<Seq<char>, Seq<u8>>,
    latest: EntriesView,
    now: u128,
    which: int,
)
    requires
        0 <= which < latest.synthetics.len(),
    ensures
        ({
            let name = latest.synthetics[which].feed.data.synthetic;
            let payload = round_payload(prices, signed, Some(latest), now);
            exists|at: int|
                0 <= at < payload.synthetics.len() && (#[trigger] payload.synthetics[at]).feed.data.synthetic == name
        }),
{
    let name = latest.synthetics[which].feed.data.synthetic;
    let names = entry_names(latest.synthetics);
    let fresh = fresh_synthetics(prices, signed, now);
    let kept = kept_synthetics(fresh, Some(latest));
    lemma_kept_finite(prices, signed, Some(latest), now);
    let (listed, values) = lemma_listing_exists(kept);
    assert(names[which] == name);
    assert(kept.contains_key(name));
    let at = choose|at: int| 0 <= at < listed.len() && listed[at] == name;
    assert(kept[listed[at]] == values[at]);
    if fresh.contains_key(name) {
        let place = lemma_first_exists(synthetic_names(prices), name);
        lemma_first_place(synthetic_names(prices), name, place);
    } else {
        let place = lemma_first_exists(names, name);
        lemma_first_place(names, name, place);
    }
    let payload = round_payload(prices, signed, Some(latest), now);
    assert(payload.synthetics[at].feed.data.synthetic == name);
}

/// A name that occurs has a first place.
proof fn lemma_first_exists(names: Seq<Seq<char>>, name: Seq<char>) -> (at: int)
    requires
        names.contains(name),
    ensures
        is_first_at(names, name, at),
    decreases names.len(),
{
    let front = names.drop_last();
    if front.contains(name) {
        let at = lemma_first_exists(front, name);
        assert forall|j: int| 0 <= j < at implies #[trigger] names[j] != name by {
            assert(front[j] == names[j]);
        }
        at
    } else {
        let at = choose|at: int| 0 <= at < names.len() && names[at] == name;
        if at < names.len() - 1 {
            assert(front[at] == name);
        }
        assert forall|j: int| 0 <= j < at implies #[trigger] names[j] != name by {
            if names[j] == name {
                assert(front[j] == name);
            }
        }
        at
    }
}

} // verus!
