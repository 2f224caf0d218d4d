//! What a round of signing is: the states of a signer, and what each event makes of them.

use vstd::prelude::*;

use crate::frost::{group_signature, is_signature, key_parts, package_message, signature_share, signing_package};
use crate::frost::{group_size, nonce_commitments};
use crate::names::alphabetical;
use crate::plutus::cbor_bytes;
use crate::price_feed::codec::deserialized;
use crate::price_feed::generic::GenericFeedView;
use crate::price_feed::synthetic::{NamedFeedView, SyntheticDataView, SyntheticFeedView};
use crate::price_feed::{DecodeError, GenericPriceFeed, PlutusCompatible, SyntheticPriceFeed};
use crate::price_feed::{EntriesView, GenericEntryView, PriceDataView, SignedView, SyntheticEntryView};
use crate::raft::LeaderView;
use crate::signature_aggregator::messages::{CommitmentRequestView, CommitmentView, MessageDataView, MessageView};
use crate::signature_aggregator::messages::{SignatureRequestView, SignatureView};
use crate::signature_aggregator::price_comparator::signable;

pub mod laws;

verus! {

/// What went wrong while an event was processed.
#[derive(Debug, Clone, Copy, PartialEq, Eq, Structural)]
pub enum SignerError {
    /// A key, commitment, package or share could not be read or used.
    Frost,
    /// A package holds no feed.
    Undecodable(DecodeError),
    /// A package stands under the name of another feed.
    MismatchedPackage,
    /// A feed's signature is not one of the group.
    InvalidSignature,
}

/// What a leader is doing.
pub enum LeaderStateView {
    Ready,
    CollectingCommitments {
        round: Seq<char>,
        price_data: PriceDataView,
        commitments: Seq<(Seq<char>, CommitmentView)>,
        my_nonces: Map<Seq<char>, Seq<u8>>,
    },
    CollectingSignatures {
        round: Seq<char>,
        price_data: PriceDataView,
        signatures: Seq<SignatureView>,
        packages: Map<Seq<char>, Seq<u8>>,
        waiting_for: Set<Seq<char>>,
    },
}

/// What a follower is doing.
pub enum FollowerStateView {
    Ready,
    Committed { round: Seq<char>, price_data: PriceDataView, nonces: Map<Seq<char>, Seq<u8>> },
}

/// What a signer is doing.
pub enum StateView {
    Leader(LeaderStateView),
    Follower(Seq<char>, FollowerStateView),
    Unknown,
}

/// A signer.
pub struct SignerView {
    pub id: Seq<char>,
    pub key: Seq<u8>,
    pub public_key: Seq<u8>,
    pub state: StateView,
    pub latest_payload: Option<EntriesView>,
}

/// A message and the node it goes to; all of them where there is none.
pub type Outgoing = (Option<Seq<char>>, MessageView);

/// What an event makes of a signer, and what the signer does.
pub struct Step {
    pub signer: SignerView,
    pub messages: Seq<Outgoing>,
    pub published: Seq<(Seq<char>, EntriesView)>,
    pub error: Option<SignerError>,
}

/// The identifier that a key belongs to.
pub open spec fn identifier_of(key: Seq<u8>) -> Seq<u8> {
    (key_parts(key)->0).0
}

/// How many participants have to sign.
pub open spec fn min_signers(key: Seq<u8>) -> int {
    (key_parts(key)->0).1 as int
}

/// For each of these names there are nonces, and commitments to just these nonces.
pub open spec fn are_drawn_for(
    names: Set<Seq<char>>,
    nonces: Map<Seq<char>, Seq<u8>>,
    commitments: Map<Seq<char>, Seq<u8>>,
) -> bool {
    &&& nonces.dom() == names
    &&& commitments.dom() == names
    &&& forall|name: Seq<char>| #[trigger]
        nonces.contains_key(name) ==> nonce_commitments(nonces[name]) == Some(commitments[name])
}

/// The bytes that are signed of a synthetic's feed.
pub open spec fn synthetic_message(feed: SyntheticFeedView) -> Seq<u8> {
    cbor_bytes(SyntheticPriceFeed::written(feed))
}

/// The bytes that are signed of a currency's feed.
pub open spec fn generic_message(feed: GenericFeedView) -> Seq<u8> {
    cbor_bytes(GenericPriceFeed::written(feed))
}

/// Every feed is signed by the group.
pub open spec fn is_signed(key: Seq<u8>, payload: EntriesView) -> bool {
    &&& forall|i: int|
        0 <= i < payload.synthetics.len() ==> is_signature(
            key,
            synthetic_message((#[trigger] payload.synthetics[i]).feed.data),
            payload.synthetics[i].feed.signature,
        )
    &&& forall|i: int|
        0 <= i < payload.generics.len() ==> is_signature(
            key,
            generic_message((#[trigger] payload.generics[i]).feed.data),
            payload.generics[i].feed.signature,
        )
}

/// The first place at which a name stands.
pub open spec fn is_first_at(names: Seq<Seq<char>>, name: Seq<char>, at: int) -> bool {
    &&& 0 <= at < names.len()
    &&& names[at] == name
    &&& forall|j: int| 0 <= j < at ==> #[trigger] names[j] != name
}

/// The first place at which a name stands.
pub open spec fn first_place(names: Seq<Seq<char>>, name: Seq<char>) -> int {
    choose|at: int| is_first_at(names, name, at)
}

/// There is one first place.
pub proof fn lemma_first_place(names: Seq<Seq<char>>, name: Seq<char>, at: int)
    requires
        is_first_at(names, name, at),
    ensures
        first_place(names, name) == at,
{
    let other = first_place(names, name);
    assert(is_first_at(names, name, other));
    if other < at {
        assert(names[other] != name);
    } else if at < other {
        assert(names[at] != name);
    }
}

/// The names of a node's feeds: of its synthetics, then of its currencies.
pub open spec fn feed_names(prices: PriceDataView) -> Seq<Seq<char>> {
    synthetic_names(prices) + generic_names(prices)
}

/// The names of a node's synthetics.
pub open spec fn synthetic_names(prices: PriceDataView) -> Seq<Seq<char>> {
    Seq::new(prices.synthetics.len(), |i: int| prices.synthetics[i].feed.feed.synthetic)
}

/// The names of a node's feeds of currencies.
pub open spec fn generic_names(prices: PriceDataView) -> Seq<Seq<char>> {
    Seq::new(prices.generics.len(), |i: int| prices.generics[i].name)
}

/// What is signed of a node's feeds, in the order of `feed_names`.
pub open spec fn feed_messages(prices: PriceDataView) -> Seq<Seq<u8>> {
    Seq::new(prices.synthetics.len(), |i: int| synthetic_message(prices.synthetics[i].feed.feed)) + Seq::new(
        prices.generics.len(),
        |i: int| generic_message(prices.generics[i]),
    )
}

/// The commitments to sign a feed, each with the identifier of who made it.
pub open spec fn supporters(commitments: Seq<(Seq<char>, CommitmentView)>, name: Seq<char>) -> Seq<(Seq<u8>, Seq<u8>)>
    decreases commitments.len(),
{
    if commitments.len() == 0 {
        seq![]
    } else {
        let front = supporters(commitments.drop_last(), name);
        let last = commitments.last().1;
        if last.commitments.contains_key(name) {
            front.push((last.identifier, last.commitments[name]))
        } else {
            front
        }
    }
}

/// The shares of a feed's signature, each with the identifier of who made it.
pub open spec fn holders(signatures: Seq<SignatureView>, name: Seq<char>) -> Seq<(Seq<u8>, Seq<u8>)>
    decreases signatures.len(),
{
    if signatures.len() == 0 {
        seq![]
    } else {
        let front = holders(signatures.drop_last(), name);
        let last = signatures.last();
        if last.signatures.contains_key(name) {
            front.push((last.identifier, last.signatures[name]))
        } else {
            front
        }
    }
}

/// The leader should wait for more commitments: too few nodes have made any, or some have not and a
/// feed still has too few.
pub open spec fn needs_more(commitments: Seq<(Seq<char>, CommitmentView)>, min: int, max: int) -> bool {
    ||| commitments.len() < min
    ||| commitments.len() != max && exists|i: int, name: Seq<char>|
        0 <= i < commitments.len() && #[trigger] commitments[i].1.commitments.contains_key(name) && supporters(
            commitments,
            name,
        ).len() < min
}

/// Enough nodes have committed to sign the feed.
pub open spec fn has_support(commitments: Seq<(Seq<char>, CommitmentView)>, name: Seq<char>, min: int) -> bool {
    supporters(commitments, name).len() > 0 && supporters(commitments, name).len() >= min
}

/// The package that asks to sign a feed. Where several feeds have one name, the first counts.
pub open spec fn package_of(
    prices: PriceDataView,
    commitments: Seq<(Seq<char>, CommitmentView)>,
    name: Seq<char>,
) -> Option<Seq<u8>> {
    signing_package(supporters(commitments, name), feed_messages(prices)[first_place(feed_names(prices), name)])
}

/// The feeds, whose first places lie from `from` up to `to`, that enough nodes want to sign.
pub open spec fn is_wanted(
    prices: PriceDataView,
    commitments: Seq<(Seq<char>, CommitmentView)>,
    min: int,
    from: int,
    to: int,
    name: Seq<char>,
) -> bool {
    &&& exists|at: int| from <= at < to && #[trigger] is_first_at(feed_names(prices), name, at)
    &&& has_support(commitments, name, min)
}

/// The packages that ask to sign those feeds.
pub open spec fn packages(
    prices: PriceDataView,
    commitments: Seq<(Seq<char>, CommitmentView)>,
    min: int,
    from: int,
    to: int,
) -> Map<Seq<char>, Seq<u8>> {
    Map::new(
        |name: Seq<char>| is_wanted(prices, commitments, min, from, to, name),
        |name: Seq<char>| package_of(prices, commitments, name)->0,
    )
}

/// Some package cannot be made.
pub open spec fn packages_fail(
    prices: PriceDataView,
    commitments: Seq<(Seq<char>, CommitmentView)>,
    min: int,
) -> bool {
    exists|name: Seq<char>| #[trigger]
        is_wanted(prices, commitments, min, 0, feed_names(prices).len() as int, name) && package_of(
            prices,
            commitments,
            name,
        ) is None
}

/// The shares of signatures of all packages that there are nonces for.
pub open spec fn shares(
    packages: Map<Seq<char>, Seq<u8>>,
    nonces: Map<Seq<char>, Seq<u8>>,
    key: Seq<u8>,
) -> Map<Seq<char>, Seq<u8>> {
    Map::new(
        |name: Seq<char>| nonces.contains_key(name) && packages.contains_key(name),
        |name: Seq<char>| signature_share(packages[name], nonces[name], key)->0,
    )
}

/// Some share cannot be computed.
pub open spec fn shares_fail(
    packages: Map<Seq<char>, Seq<u8>>,
    nonces: Map<Seq<char>, Seq<u8>>,
    key: Seq<u8>,
) -> bool {
    exists|name: Seq<char>| #[trigger]
        nonces.contains_key(name) && packages.contains_key(name) && signature_share(
            packages[name],
            nonces[name],
            key,
        ) is None
}

/// The nodes other than the signer that made commitments.
pub open spec fn recipients(commitments: Seq<(Seq<char>, CommitmentView)>, id: Seq<char>) -> Seq<Seq<char>>
    decreases commitments.len(),
{
    if commitments.len() == 0 {
        seq![]
    } else {
        let front = recipients(commitments.drop_last(), id);
        if commitments.last().0 != id {
            front.push(commitments.last().0)
        } else {
            front
        }
    }
}

/// The feed that a package asks to sign.
pub open spec fn parsed<T: PlutusCompatible>(package: Seq<u8>) -> Result<T::Model, SignerError> {
    match package_message(package) {
        Some(message) => match deserialized::<T>(message) {
            Ok(feed) => Ok(feed),
            Err(error) => Err(SignerError::Undecodable(error)),
        },
        None => Err(SignerError::Frost),
    }
}

/// The feeds that packages ask to sign; the first that cannot be read says why there are none.
pub open spec fn parsed_all<T: PlutusCompatible>(packages: Seq<Seq<u8>>) -> Result<Seq<T::Model>, SignerError>
    decreases packages.len(),
{
    if packages.len() == 0 {
        Ok(seq![])
    } else {
        match parsed_all::<T>(packages.drop_last()) {
            Ok(front) => match parsed::<T>(packages.last()) {
                Ok(last) => Ok(front.push(last)),
                Err(error) => Err(error),
            },
            Err(error) => Err(error),
        }
    }
}

/// Feeds as they come over the wire, without the names of their collateral.
pub open spec fn unnamed(feeds: Seq<SyntheticFeedView>) -> Seq<NamedFeedView> {
    Seq::new(feeds.len(), |i: int| NamedFeedView { feed: feeds[i], collateral_names: None })
}

/// The packages of these names.
pub open spec fn selected(packages: Map<Seq<char>, Seq<u8>>, names: Set<Seq<char>>) -> Map<Seq<char>, Seq<u8>> {
    packages.restrict(names)
}

/// Enough nodes have signed the feed.
pub open spec fn is_covered(
    packages: Map<Seq<char>, Seq<u8>>,
    signatures: Seq<SignatureView>,
    min: int,
    name: Seq<char>,
) -> bool {
    packages.contains_key(name) && holders(signatures, name).len() > 0 && holders(signatures, name).len() >= min
}

/// The group's signatures, by the feed's name.
pub open spec fn group_signatures(
    packages: Map<Seq<char>, Seq<u8>>,
    signatures: Seq<SignatureView>,
    min: int,
    public_key: Seq<u8>,
) -> Map<Seq<char>, Seq<u8>> {
    Map::new(
        |name: Seq<char>| is_covered(packages, signatures, min, name),
        |name: Seq<char>| group_signature(packages[name], holders(signatures, name), public_key)->0,
    )
}

/// Some signature cannot be put together.
pub open spec fn group_signatures_fail(
    packages: Map<Seq<char>, Seq<u8>>,
    signatures: Seq<SignatureView>,
    min: int,
    public_key: Seq<u8>,
) -> bool {
    exists|name: Seq<char>| #[trigger]
        is_covered(packages, signatures, min, name) && group_signature(
            packages[name],
            holders(signatures, name),
            public_key,
        ) is None
}

/// The signed feed of a synthetic.
pub open spec fn synthetic_entry(data: SyntheticDataView, signature: Seq<u8>, now: u128) -> SyntheticEntryView {
    SyntheticEntryView {
        price: data.price,
        feed: SignedView { data: data.feed.feed, signature },
        timestamp: Some(now),
    }
}

/// The signed feeds of this round's synthetics, by name.
pub open spec fn fresh_synthetics(
    prices: PriceDataView,
    signed: Map<Seq<char>, Seq<u8>>,
    now: u128,
) -> Map<Seq<char>, SyntheticEntryView> {
    let names = synthetic_names(prices);
    Map::new(
        |name: Seq<char>| signed.contains_key(name) && names.contains(name),
        |name: Seq<char>| synthetic_entry(prices.synthetics[first_place(names, name)], signed[name], now),
    )
}

/// The names of the synthetics in a payload.
pub open spec fn entry_names(entries: Seq<SyntheticEntryView>) -> Seq<Seq<char>> {
    Seq::new(entries.len(), |i: int| entries[i].feed.data.synthetic)
}

/// The synthetics of this round, and those of the last payload that it did not sign.
pub open spec fn kept_synthetics(
    fresh: Map<Seq<char>, SyntheticEntryView>,
    latest: Option<EntriesView>,
) -> Map<Seq<char>, SyntheticEntryView> {
    match latest {
        Some(payload) => {
            let names = entry_names(payload.synthetics);
            Map::new(
                |name: Seq<char>| fresh.contains_key(name) || names.contains(name),
                |name: Seq<char>|
                    if fresh.contains_key(name) {
                        fresh[name]
                    } else {
                        payload.synthetics[first_place(names, name)]
                    },
            )
        },
        None => fresh,
    }
}

/// The signed feeds of this round's currencies, by name. A name that a synthetic has goes to it.
pub open spec fn fresh_generics(
    prices: PriceDataView,
    signed: Map<Seq<char>, Seq<u8>>,
    now: u128,
) -> Map<Seq<char>, GenericEntryView> {
    let names = generic_names(prices);
    Map::new(
        |name: Seq<char>| signed.contains_key(name) && names.contains(name) && !synthetic_names(prices).contains(name),
        |name: Seq<char>|
            GenericEntryView {
                feed: SignedView { data: prices.generics[first_place(names, name)], signature: signed[name] },
                timestamp: now,
            },
    )
}

/// What a round signed, in alphabetical order.
pub open spec fn round_payload(
    prices: PriceDataView,
    signed: Map<Seq<char>, Seq<u8>>,
    latest: Option<EntriesView>,
    now: u128,
) -> EntriesView {
    EntriesView {
        timestamp: now,
        synthetics: alphabetical(kept_synthetics(fresh_synthetics(prices, signed, now), latest)),
        generics: alphabetical(fresh_generics(prices, signed, now)),
    }
}

/// What a follower signs of the leader's packages, given its own prices.
pub open spec fn signed_request(
    request: SignatureRequestView,
    prices: PriceDataView,
    nonces: Map<Seq<char>, Seq<u8>>,
    key: Seq<u8>,
) -> Result<SignatureView, SignerError> {
    match parsed_all::<SyntheticPriceFeed>(alphabetical(request.synthetic_packages)) {
        Ok(synthetics) => {
            let synthetic_names = signable::<SyntheticPriceFeed>(unnamed(synthetics), prices.feeds());
            if !synthetic_names.subset_of(request.synthetic_packages.dom()) {
                Err(SignerError::MismatchedPackage)
            } else {
                match parsed_all::<GenericPriceFeed>(alphabetical(request.generic_packages)) {
                    Ok(generics) => {
                        let generic_names = signable::<GenericPriceFeed>(generics, prices.generics);
                        let chosen = selected(request.synthetic_packages, synthetic_names).union_prefer_right(
                            selected(request.generic_packages, generic_names),
                        );
                        if !generic_names.subset_of(request.generic_packages.dom()) {
                            Err(SignerError::MismatchedPackage)
                        } else if shares_fail(chosen, nonces, key) {
                            Err(SignerError::Frost)
                        } else {
                            Ok(
                                SignatureView {
                                    identifier: identifier_of(key),
                                    signatures: shares(chosen, nonces, key),
                                },
                            )
                        }
                    },
                    Err(error) => Err(error),
                }
            }
        },
        Err(error) => Err(error),
    }
}

impl SignerView {
    /// Nothing happens.
    pub open spec fn idle(self) -> Step {
        Step { signer: self, messages: seq![], published: seq![], error: None }
    }

    /// Nothing happens, because of an error.
    pub open spec fn failed(self, error: SignerError) -> Step {
        Step { error: Some(error), ..self.idle() }
    }

    pub open spec fn with_state(self, state: StateView) -> SignerView {
        SignerView { state, ..self }
    }

    /// There is a new leader.
    pub open spec fn led_by(self, leader: LeaderView) -> SignerView {
        self.with_state(
            match leader {
                LeaderView::Myself => StateView::Leader(LeaderStateView::Ready),
                LeaderView::Other(id) => StateView::Follower(id, FollowerStateView::Ready),
                LeaderView::Unknown => StateView::Unknown,
            },
        )
    }

    /// A payload is published, if the group has signed it.
    pub open spec fn publish(self, publisher: Seq<char>, payload: EntriesView) -> Step {
        if !is_signed(self.key, payload) {
            self.failed(SignerError::InvalidSignature)
        } else {
            let is_newer = match self.latest_payload {
                Some(latest) => latest.timestamp <= payload.timestamp,
                None => true,
            };
            Step {
                signer: SignerView { latest_payload: if is_newer { Some(payload) } else { self.latest_payload }, ..self },
                messages: seq![],
                published: seq![(publisher, payload)],
                error: None,
            }
        }
    }

    /// A round that is still going on ends with nothing new signed.
    pub open spec fn finish_early(self, now: u128) -> Step {
        match self.state {
            StateView::Leader(LeaderStateView::Ready) => self.idle(),
            StateView::Leader(_) => self.publish(
                self.id,
                EntriesView { timestamp: now, synthetics: seq![], generics: seq![] },
            ),
            _ => self.idle(),
        }
    }

    /// The leader's own commitment, or a follower's.
    pub open spec fn commitment(self, prices: PriceDataView, commitments: Map<Seq<char>, Seq<u8>>) -> CommitmentView {
        CommitmentView {
            identifier: identifier_of(self.key),
            commitments,
            synthetic_feeds: prices.feeds(),
            generic_feeds: prices.generics,
        }
    }

    /// The leader begins a round: it asks all others to commit, and commits itself.
    pub open spec fn begin(
        self,
        round: Seq<char>,
        prices: PriceDataView,
        nonces: Map<Seq<char>, Seq<u8>>,
        commitments: Map<Seq<char>, Seq<u8>>,
    ) -> Step {
        Step {
            signer: self.with_state(
                StateView::Leader(
                    LeaderStateView::CollectingCommitments {
                        round,
                        price_data: prices,
                        commitments: seq![(self.id, self.commitment(prices, commitments))],
                        my_nonces: nonces,
                    },
                ),
            ),
            messages: seq![
                (
                    None,
                    MessageView {
                        round,
                        data: MessageDataView::RequestCommitment(
                            CommitmentRequestView { synthetic_feeds: prices.feeds(), generic_feeds: prices.generics },
                        ),
                    },
                ),
            ],
            published: seq![],
            error: None,
        }
    }

    /// The prices that a follower compares with the leader's in this round: those it committed with,
    /// if it did, else its current ones.
    pub open spec fn prices_for(self, round: Seq<char>, current: PriceDataView) -> PriceDataView {
        match self.state {
            StateView::Follower(_, FollowerStateView::Committed { round: r, price_data, .. }) if r == round => price_data,
            _ => current,
        }
    }

    /// The feeds that a follower would sign.
    pub open spec fn signable_feeds(self, request: CommitmentRequestView, mine: PriceDataView) -> Set<Seq<char>> {
        signable::<SyntheticPriceFeed>(request.synthetic_feeds, mine.feeds()) + signable::<GenericPriceFeed>(
            request.generic_feeds,
            mine.generics,
        )
    }

    /// A follower commits to the feeds that it would sign.
    pub open spec fn commit(
        self,
        leader: Seq<char>,
        round: Seq<char>,
        prices: PriceDataView,
        nonces: Map<Seq<char>, Seq<u8>>,
        commitments: Map<Seq<char>, Seq<u8>>,
    ) -> Step {
        Step {
            signer: self.with_state(
                StateView::Follower(leader, FollowerStateView::Committed { round, price_data: prices, nonces }),
            ),
            messages: seq![
                (
                    Some(leader),
                    MessageView { round, data: MessageDataView::Commit(self.commitment(prices, commitments)) },
                ),
            ],
            published: seq![],
            error: None,
        }
    }

    /// The leader has waited long enough for commitments: it asks for signatures.
    pub open spec fn finish_collecting(self, round: Seq<char>) -> Step {
        match self.state {
            StateView::Leader(
                LeaderStateView::CollectingCommitments { round: r, price_data, commitments, my_nonces },
            ) if r == round => {
                let min = min_signers(self.key);
                let split = price_data.synthetics.len() as int;
                let end = feed_names(price_data).len() as int;
                let request = SignatureRequestView {
                    synthetic_packages: packages(price_data, commitments, min, 0, split),
                    generic_packages: packages(price_data, commitments, min, split, end),
                };
                let all = packages(price_data, commitments, min, 0, end);
                let to = recipients(commitments, self.id);
                let messages = Seq::new(
                    to.len(),
                    |i: int| (Some(to[i]), MessageView { round, data: MessageDataView::RequestSignature(request) }),
                );
                if packages_fail(price_data, commitments, min) {
                    self.failed(SignerError::Frost)
                } else if shares_fail(all, my_nonces, self.key) {
                    Step { messages, ..self.failed(SignerError::Frost) }
                } else {
                    Step {
                        signer: self.with_state(
                            StateView::Leader(
                                LeaderStateView::CollectingSignatures {
                                    round,
                                    price_data,
                                    signatures: seq![
                                        SignatureView {
                                            identifier: identifier_of(self.key),
                                            signatures: shares(all, my_nonces, self.key),
                                        },
                                    ],
                                    packages: all,
                                    waiting_for: to.to_set(),
                                },
                            ),
                        ),
                        messages,
                        published: seq![],
                        error: None,
                    }
                }
            },
            _ => self.idle(),
        }
    }

    /// A node has committed to sign feeds.
    pub open spec fn receive_commitment(self, round: Seq<char>, from: Seq<char>, commitment: CommitmentView) -> Step {
        match self.state {
            StateView::Leader(
                LeaderStateView::CollectingCommitments { round: r, price_data, commitments, my_nonces },
            ) if r == round => {
                let seen = exists|i: int|
                    0 <= i < commitments.len() && (#[trigger] commitments[i]).1.identifier == commitment.identifier;
                let commitments = commitments.push((from, commitment));
                let next = self.with_state(
                    StateView::Leader(
                        LeaderStateView::CollectingCommitments { round, price_data, commitments, my_nonces },
                    ),
                );
                if seen {
                    self.idle()
                } else if needs_more(commitments, min_signers(self.key), group_size(self.public_key)->0 as int) {
                    next.idle()
                } else {
                    next.finish_collecting(round)
                }
            },
            _ => self.idle(),
        }
    }

    /// The leader asks for signatures of packages.
    pub open spec fn receive_signature_request(self, round: Seq<char>, request: SignatureRequestView) -> Step {
        match self.state {
            StateView::Follower(leader, FollowerStateView::Committed { round: r, price_data, nonces }) if r == round => {
                match signed_request(request, price_data, nonces, self.key) {
                    Ok(signature) => Step {
                        signer: self.with_state(StateView::Follower(leader, FollowerStateView::Ready)),
                        messages: seq![(Some(leader), MessageView { round, data: MessageDataView::Sign(signature) })],
                        published: seq![],
                        error: None,
                    },
                    Err(error) => self.failed(error),
                }
            },
            _ => self.idle(),
        }
    }

    /// A node has signed feeds.
    pub open spec fn receive_signature(
        self,
        round: Seq<char>,
        from: Seq<char>,
        signature: SignatureView,
        now: u128,
    ) -> Step {
        match self.state {
            StateView::Leader(
                LeaderStateView::CollectingSignatures { round: r, price_data, signatures, packages, waiting_for },
            ) if r == round => {
                let seen = exists|i: int|
                    0 <= i < signatures.len() && (#[trigger] signatures[i]).identifier == signature.identifier;
                let signatures = signatures.push(signature);
                let waiting_for = waiting_for.remove(from);
                let next = self.with_state(
                    StateView::Leader(
                        LeaderStateView::CollectingSignatures { round, price_data, signatures, packages, waiting_for },
                    ),
                );
                let min = min_signers(self.key);
                if seen {
                    self.idle()
                } else if waiting_for != Set::<Seq<char>>::empty() {
                    next.idle()
                } else if group_signatures_fail(packages, signatures, min, self.public_key) {
                    next.failed(SignerError::Frost)
                } else {
                    let signed = group_signatures(packages, signatures, min, self.public_key);
                    let payload = round_payload(price_data, signed, self.latest_payload, now);
                    let step = next.publish(self.id, payload);
                    if step.error is Some {
                        step
                    } else {
                        Step {
                            signer: step.signer.with_state(StateView::Leader(LeaderStateView::Ready)),
                            messages: seq![(None, MessageView { round, data: MessageDataView::Publish(payload) })],
                            ..step
                        }
                    }
                }
            },
            _ => self.idle(),
        }
    }
}

/// Something that a signer has to react to.
pub enum EventView {
    RoundStarted(Seq<char>),
    RoundGracePeriodEnded(Seq<char>),
    Message(Seq<char>, MessageView),
    LeaderChanged(LeaderView),
}

impl SignerView {
    /// A follower that has committed knows the collateral of its prices.
    pub open spec fn wf(self) -> bool {
        self.state matches StateView::Follower(_, FollowerStateView::Committed { price_data, .. })
            ==> price_data.names_collateral()
    }

    /// The leader begins a round; one that was still going on ends.
    pub open spec fn start(
        self,
        round: Seq<char>,
        prices: PriceDataView,
        now: u128,
        nonces: Map<Seq<char>, Seq<u8>>,
        commitments: Map<Seq<char>, Seq<u8>>,
    ) -> Step {
        let early = self.finish_early(now);
        Step { published: early.published, ..early.signer.begin(round, prices, nonces, commitments) }
    }

    /// `step` is what becomes of a round that the leader starts, whatever nonces are drawn. Drawing
    /// can fail only where there is a feed to draw for.
    pub open spec fn may_start(self, round: Seq<char>, prices: PriceDataView, now: u128, step: Step) -> bool {
        let names = feed_names(prices).to_set();
        let early = self.finish_early(now);
        if step.error is Some {
            names != Set::<Seq<char>>::empty() && step == (Step { error: Some(SignerError::Frost), ..early })
        } else {
            exists|nonces: Map<Seq<char>, Seq<u8>>, commitments: Map<Seq<char>, Seq<u8>>|
                are_drawn_for(names, nonces, commitments) && step == #[trigger] self.start(
                    round,
                    prices,
                    now,
                    nonces,
                    commitments,
                )
        }
    }

    /// `step` is what becomes of a request for commitments, whatever nonces are drawn.
    pub open spec fn may_commit(
        self,
        round: Seq<char>,
        request: CommitmentRequestView,
        current: PriceDataView,
        step: Step,
    ) -> bool {
        match self.state {
            StateView::Follower(leader, _) => {
                let prices = self.prices_for(round, current);
                let names = self.signable_feeds(request, prices);
                if step.error is Some {
                    names != Set::<Seq<char>>::empty() && step == self.failed(SignerError::Frost)
                } else {
                    exists|nonces: Map<Seq<char>, Seq<u8>>, commitments: Map<Seq<char>, Seq<u8>>|
                        are_drawn_for(names, nonces, commitments) && step == #[trigger] self.commit(
                            leader,
                            round,
                            prices,
                            nonces,
                            commitments,
                        )
                }
            },
            _ => step == self.idle(),
        }
    }

    /// `step` is what an event makes of the signer. `current` are the node's prices at the moment.
    pub open spec fn may_process(self, event: EventView, current: PriceDataView, now: u128, step: Step) -> bool {
        match event {
            EventView::LeaderChanged(leader) => step == self.led_by(leader).idle(),
            EventView::RoundStarted(round) => {
                if self.state is Leader {
                    self.may_start(round, current, now, step)
                } else {
                    step == self.idle()
                }
            },
            EventView::RoundGracePeriodEnded(round) => step == self.finish_collecting(round),
            EventView::Message(from, MessageView { round, data }) => match data {
                MessageDataView::RequestCommitment(request) => self.may_commit(round, request, current, step),
                MessageDataView::Commit(commitment) => step == self.receive_commitment(round, from, commitment),
                MessageDataView::RequestSignature(request) => step == self.receive_signature_request(round, request),
                MessageDataView::Sign(signature) => step == self.receive_signature(round, from, signature, now),
                MessageDataView::Publish(payload) => step == self.publish(from, payload),
            },
        }
    }
}

} // verus!
