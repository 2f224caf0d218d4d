//! What signers say to each other.

use vstd::prelude::*;

use crate::frost::copy_bytes;
use crate::names::{ascending, keys_of, lemma_ascending_unique, lemma_entry, lemma_place, NameMap, Named};
use crate::price_feed::generic::GenericFeedView;
use crate::price_feed::synthetic::NamedFeedView;
use crate::price_feed::{copy_all, views, Copied, EntriesView, GenericPriceFeed, SignedEntries, SyntheticPriceFeed};
use crate::signature_aggregator::price_comparator::feeds;

verus! {

/// Bytes by name.
pub open spec fn bytes_by_name(map: Map<Seq<char>, Vec<u8>>) -> Map<Seq<char>, Seq<u8>> {
    map.map_values(|bytes: Vec<u8>| bytes@)
}

/// A copy of bytes by name.
pub fn copy_bytes_by_name(map: &NameMap<String, Vec<u8>>) -> (r: NameMap<String, Vec<u8>>)
    ensures
        bytes_by_name(r@) == bytes_by_name(map@),
{
    let entries = map.entries();
    let mut copy: NameMap<String, Vec<u8>> = NameMap::new();
    let mut i: usize = 0;
    proof {
        assert(bytes_by_name(copy@) =~= Map::empty());
    }
    while i < entries.len()
        invariant
            i <= entries.len(),
            entries@ == map.listed(),
            ascending(keys_of(entries@)),
            forall|name: Seq<char>| #[trigger]
                copy@.contains_key(name) <==> exists|j: int| 0 <= j < i && (#[trigger] entries@[j]).0@ == name,
            forall|j: int| 0 <= j < i ==> copy@[(#[trigger] entries@[j]).0@]@ == entries@[j].1@,
        decreases entries.len() - i,
    {
        let ghost before = copy@;
        copy.insert(entries[i].0.clone(), copy_bytes(&entries[i].1));
        i += 1;
        proof {
            assert forall|name: Seq<char>| #[trigger]
                copy@.contains_key(name) <==> exists|j: int| 0 <= j < i && (#[trigger] entries@[j]).0@ == name by {
                if name == entries@[i - 1].0@ {
                    assert(copy@.contains_key(name));
                } else if before.contains_key(name) {
                    let j = choose|j: int| 0 <= j < i - 1 && (#[trigger] entries@[j]).0@ == name;
                    assert(entries@[j].0@ == name);
                }
            }
            assert forall|j: int| 0 <= j < i implies copy@[(#[trigger] entries@[j]).0@]@ == entries@[j].1@ by {
                if j < i - 1 {
                    let keys = keys_of(entries@);
                    if entries@[j].0@ == entries@[i - 1].0@ {
                        assert(keys[j].name() == keys[i - 1].name());
                        lemma_ascending_unique(keys, j, i - 1);
                    }
                }
            }
        }
    }
    proof {
        assert forall|name: Seq<char>| copy@.contains_key(name) == map@.contains_key(name) by {
            if copy@.contains_key(name) {
                let j = choose|j: int| 0 <= j < i && (#[trigger] entries@[j]).0@ == name;
                lemma_entry(entries@, j);
            }
            if map@.contains_key(name) {
                let j = lemma_place(entries@, name);
                assert(entries@[j].0@ == name);
            }
        }
        assert forall|name: Seq<char>| map@.contains_key(name) implies copy@[name]@ == map@[name]@ by {
            let j = lemma_place(entries@, name);
            lemma_entry(entries@, j);
            assert(copy@[entries@[j].0@]@ == entries@[j].1@);
        }
        assert(bytes_by_name(copy@) =~= bytes_by_name(map@));
    }
    copy
}

/// A leader's prices, with the request to commit to signing them.
#[derive(Debug)]
pub struct CommitmentRequest {
    pub synthetic_feeds: Vec<SyntheticPriceFeed>,
    pub generic_feeds: Vec<GenericPriceFeed>,
}

/// A node's commitments to sign feeds, by the feed's name, and its own prices.
#[derive(Debug)]
pub struct Commitment {
    pub identifier: Vec<u8>,
    pub commitments: NameMap<String, Vec<u8>>,
    pub synthetic_feeds: Vec<SyntheticPriceFeed>,
    pub generic_feeds: Vec<GenericPriceFeed>,
}

/// The packages that the leader asks to sign, by the feed's name.
#[derive(Debug)]
pub struct SignatureRequest {
    pub synthetic_packages: NameMap<String, Vec<u8>>,
    pub generic_packages: NameMap<String, Vec<u8>>,
}

/// A node's shares of signatures, by the feed's name.
#[derive(Debug)]
pub struct Signature {
    pub identifier: Vec<u8>,
    pub signatures: NameMap<String, Vec<u8>>,
}

#[derive(Debug)]
pub enum SignerMessageData {
    RequestCommitment(CommitmentRequest),
    Commit(Commitment),
    RequestSignature(SignatureRequest),
    Sign(Signature),
    Publish(SignedEntries),
}

/// A message about one round.
#[derive(Debug)]
pub struct SignerMessage {
    pub round: String,
    pub data: SignerMessageData,
}

pub struct CommitmentRequestView {
    pub synthetic_feeds: Seq<NamedFeedView>,
    pub generic_feeds: Seq<GenericFeedView>,
}

pub struct CommitmentView {
    pub identifier: Seq<u8>,
    pub commitments: Map<Seq<char>, Seq<u8>>,
    pub synthetic_feeds: Seq<NamedFeedView>,
    pub generic_feeds: Seq<GenericFeedView>,
}

pub struct SignatureRequestView {
    pub synthetic_packages: Map<Seq<char>, Seq<u8>>,
    pub generic_packages: Map<Seq<char>, Seq<u8>>,
}

pub struct SignatureView {
    pub identifier: Seq<u8>,
    pub signatures: Map<Seq<char>, Seq<u8>>,
}

pub enum MessageDataView {
    RequestCommitment(CommitmentRequestView),
    Commit(CommitmentView),
    RequestSignature(SignatureRequestView),
    Sign(SignatureView),
    Publish(EntriesView),
}

pub struct MessageView {
    pub round: Seq<char>,
    pub data: MessageDataView,
}

impl View for CommitmentRequest {
    type V = CommitmentRequestView;

    open spec fn view(&self) -> CommitmentRequestView {
        CommitmentRequestView {
            synthetic_feeds: feeds(self.synthetic_feeds@),
            generic_feeds: feeds(self.generic_feeds@),
        }
    }
}

impl View for Commitment {
    type V = CommitmentView;

    open spec fn view(&self) -> CommitmentView {
        CommitmentView {
            identifier: self.identifier@,
            commitments: bytes_by_name(self.commitments@),
            synthetic_feeds: feeds(self.synthetic_feeds@),
            generic_feeds: feeds(self.generic_feeds@),
        }
    }
}

impl View for SignatureRequest {
    type V = SignatureRequestView;

    open spec fn view(&self) -> SignatureRequestView {
        SignatureRequestView {
            synthetic_packages: bytes_by_name(self.synthetic_packages@),
            generic_packages: bytes_by_name(self.generic_packages@),
        }
    }
}

impl View for Signature {
    type V = SignatureView;

    open spec fn view(&self) -> SignatureView {
        SignatureView { identifier: self.identifier@, signatures: bytes_by_name(self.signatures@) }
    }
}

impl View for SignerMessageData {
    type V = MessageDataView;

    open spec fn view(&self) -> MessageDataView {
        match self {
            SignerMessageData::RequestCommitment(request) => MessageDataView::RequestCommitment(request@),
            SignerMessageData::Commit(commitment) => MessageDataView::Commit(commitment@),
            SignerMessageData::RequestSignature(request) => MessageDataView::RequestSignature(request@),
            SignerMessageData::Sign(signature) => MessageDataView::Sign(signature@),
            SignerMessageData::Publish(entries) => MessageDataView::Publish(entries@),
        }
    }
}

impl View for SignerMessage {
    type V = MessageView;

    open spec fn view(&self) -> MessageView {
        MessageView { round: self.round@, data: self.data@ }
    }
}

/// A copy of these feeds.
fn copy_synthetic_feeds(values: &Vec<SyntheticPriceFeed>) -> (r: Vec<SyntheticPriceFeed>)
    ensures
        feeds(r@) == feeds(values@),
{
    let mut copies: Vec<SyntheticPriceFeed> = Vec::new();
    let mut i: usize = 0;
    while i < values.len()
        invariant
            i <= values.len(),
            copies.len() == i,
            forall|j: int| 0 <= j < i ==> (#[trigger] copies@[j]).named() == values@[j].named(),
        decreases values.len() - i,
    {
        copies.push(values[i].clone());
        i += 1;
    }
    assert(feeds(copies@) =~= feeds(values@));
    copies
}

/// A copy of these feeds.
fn copy_generic_feeds(values: &Vec<GenericPriceFeed>) -> (r: Vec<GenericPriceFeed>)
    ensures
        feeds(r@) == feeds(values@),
{
    let copies = copy_all(values);
    assert(views(copies@).len() == views(values@).len());
    assert forall|i: int| 0 <= i < values@.len() implies (#[trigger] copies@[i])@ == values@[i]@ by {
        assert(views(copies@)[i] == views(values@)[i]);
    }
    assert(feeds(copies@) =~= feeds(values@));
    copies
}

impl Copied for CommitmentRequest {
    fn copied(&self) -> (r: Self) {
        CommitmentRequest {
            synthetic_feeds: copy_synthetic_feeds(&self.synthetic_feeds),
            generic_feeds: copy_generic_feeds(&self.generic_feeds),
        }
    }
}

impl Copied for Commitment {
    fn copied(&self) -> (r: Self) {
        Commitment {
            identifier: copy_bytes(&self.identifier),
            commitments: copy_bytes_by_name(&self.commitments),
            synthetic_feeds: copy_synthetic_feeds(&self.synthetic_feeds),
            generic_feeds: copy_generic_feeds(&self.generic_feeds),
        }
    }
}

impl Copied for SignatureRequest {
    fn copied(&self) -> (r: Self) {
        SignatureRequest {
            synthetic_packages: copy_bytes_by_name(&self.synthetic_packages),
            generic_packages: copy_bytes_by_name(&self.generic_packages),
        }
    }
}

impl Copied for Signature {
    fn copied(&self) -> (r: Self) {
        Signature {
            identifier: copy_bytes(&self.identifier),
            signatures: copy_bytes_by_name(&self.signatures),
        }
    }
}

impl Copied for SignerMessage {
    fn copied(&self) -> (r: Self) {
        let data = match &self.data {
            SignerMessageData::RequestCommitment(request) => SignerMessageData::RequestCommitment(request.copied()),
            SignerMessageData::Commit(commitment) => SignerMessageData::Commit(commitment.copied()),
            SignerMessageData::RequestSignature(request) => SignerMessageData::RequestSignature(request.copied()),
            SignerMessageData::Sign(signature) => SignerMessageData::Sign(signature.copied()),
            SignerMessageData::Publish(entries) => SignerMessageData::Publish(entries.clone()),
        };
        SignerMessage { round: self.round.clone(), data }
    }
}

/// What kind of message this is.
pub open spec fn kind_of(data: MessageDataView) -> Seq<char> {
    match data {
        MessageDataView::RequestCommitment(_) => "RequestCommitment"@,
        MessageDataView::Commit(_) => "Commit"@,
        MessageDataView::RequestSignature(_) => "RequestSignature"@,
        MessageDataView::Sign(_) => "Sign"@,
        MessageDataView::Publish(_) => "Publish"@,
    }
}

impl SignerMessageData {
    /// What kind of message this is.
    pub fn describe(&self) -> (r: &'static str)
        ensures
            r@ == kind_of(self@),
    {
        match self {
            SignerMessageData::RequestCommitment(_) => "RequestCommitment",
            SignerMessageData::Commit(_) => "Commit",
            SignerMessageData::RequestSignature(_) => "RequestSignature",
            SignerMessageData::Sign(_) => "Sign",
            SignerMessageData::Publish(_) => "Publish",
        }
    }
}

impl SignerMessage {
    /// The message's round and kind.
    pub fn describe(&self) -> (r: String)
        ensures
            r@ == "{round:"@ + self.round@ + ",message="@ + kind_of(self.data@) + "}"@,
    {
        let kind = self.data.describe();
        let mut text = "{round:".to_owned();
        text.append(self.round.as_str());
        text.append(",message=");
        text.append(kind);
        text.append("}");
        text
    }
}

} // verus!
