//! Distributed key generation: how nodes make the group's key without any of them knowing it.

use vstd::prelude::*;
use vstd::utf8::encode_utf8;

use crate::config::OracleConfig;
use crate::encoding::{blake2b_160, hash_160, hex_digits, hex_encode};
use crate::frost::{byte_pairs, commitments_in, committed_public_key, continues, copy_bytes};
use crate::frost::{derive_identifier, derived_identifier, group_parts, is_last_pair, key_parts, package_commitment};
use crate::frost::{part2_result, secret_commitment};
use crate::frost::{goes_with, has_identifier, part1_parts, part3_result, same_bytes, FirstSecret, SecondSecret};
use crate::names::{alphabetical, keys_of, lemma_alphabetical, lemma_entries_listed, lemma_entry};
use crate::names::{lemma_listing_exists, lists_map};
use crate::names::{names_of, NameMap};
use crate::network::{NodeId, NodeSet, OutgoingMessage};
use crate::price_feed::Copied;
use crate::raft::name_of;

pub mod laws;

verus! {

/// The first package of a node, for all others.
#[derive(Debug, Clone, PartialEq, Eq)]
pub struct Part1Message {
    pub package: Vec<u8>,
}

/// The second package of a node, for one other.
#[derive(Debug, Clone, PartialEq, Eq)]
pub struct Part2Message {
    pub session_id: String,
    pub package: Vec<u8>,
}

/// A node has its keys.
#[derive(Debug, Clone, PartialEq, Eq)]
pub struct DoneMessage {
    pub session_id: String,
}

#[derive(Debug, Clone, PartialEq, Eq)]
pub enum KeygenMessage {
    Part1(Part1Message),
    Part2(Part2Message),
    Done(DoneMessage),
}

/// A key package and the public key package of its group.
#[derive(Debug, Clone, PartialEq, Eq)]
pub struct GeneratedKeys(pub Vec<u8>, pub Vec<u8>);

/// Why key generation ended without keys.
#[derive(Debug, Clone, Copy, PartialEq, Eq, Structural)]
pub enum KeygenError {
    /// A participant's name gives no identifier.
    Identifier,
    /// A package could not be read, or does not fit the others.
    Frost,
    /// The second packages are complete before the second round has begun.
    SecondRoundNotBegun,
    /// Every node is done, but this one has no keys.
    KeysMissing,
}

impl Copied for KeygenMessage {
    fn copied(&self) -> (r: Self) {
        match self {
            KeygenMessage::Part1(message) => KeygenMessage::Part1(
                Part1Message { package: copy_bytes(&message.package) },
            ),
            KeygenMessage::Part2(message) => KeygenMessage::Part2(
                Part2Message { session_id: message.session_id.clone(), package: copy_bytes(&message.package) },
            ),
            KeygenMessage::Done(message) => KeygenMessage::Done(
                DoneMessage { session_id: message.session_id.clone() },
            ),
        }
    }
}

impl View for KeygenMessage {
    type V = KeygenMessageView;

    open spec fn view(&self) -> KeygenMessageView {
        match self {
            KeygenMessage::Part1(message) => KeygenMessageView::Part1(message.package@),
            KeygenMessage::Part2(message) => KeygenMessageView::Part2(message.session_id@, message.package@),
            KeygenMessage::Done(message) => KeygenMessageView::Done(message.session_id@),
        }
    }
}

/// What a message says.
pub enum KeygenMessageView {
    Part1(Seq<u8>),
    Part2(Seq<char>, Seq<u8>),
    Done(Seq<char>),
}

/// What a node knows while keys are generated.
#[verifier::ext_equal]
pub struct KeygenView {
    pub id: Seq<char>,
    pub max_signers: nat,
    pub secret: Seq<u8>,
    pub package: Seq<u8>,
    /// The hash of the packages of the first round; nothing until there is one from every peer.
    pub session: Seq<char>,
    /// The packages of the first round, ours among them.
    pub round1_hashes: ById,
    /// The peers' packages of the first round.
    pub round1: ById,
    pub round2_secret: Option<Seq<u8>>,
    /// The peers' packages of the second round.
    pub round2: ById,
    /// Our packages of the second round, by the identifiers that they are for.
    pub outgoing: Seq<(Seq<u8>, Seq<u8>)>,
    /// The nodes by their labels.
    pub lookup: Map<Seq<char>, Seq<char>>,
    /// The nodes that are done in each session.
    pub done: Map<Seq<char>, Set<Seq<char>>>,
    pub keys: Option<(Seq<u8>, Seq<u8>)>,
    /// The packages of the first round that the keys were made with.
    pub made_with: Option<ById>,
}

/// What a message makes of a node.
pub struct KeygenStep {
    pub state: KeygenView,
    /// The session in which we tell everyone that we are done.
    pub announced: Option<Seq<char>>,
    /// The end of key generation.
    pub outcome: Option<Result<(Seq<u8>, Seq<u8>), KeygenError>>,
}

/// Values of participants by the participant's label.
pub type ById = Map<Seq<char>, (Seq<u8>, Seq<u8>)>;

/// A participant's label: its identifier in hexadecimal digits, the most significant first. Labels are
/// in alphabetical order as the identifiers are in numerical order.
pub open spec fn label_of(identifier: Seq<u8>) -> Seq<char> {
    hex_digits(identifier.reverse())
}

/// The identifiers and values by label.
pub open spec fn by_id(map: Map<Seq<char>, (Vec<u8>, Vec<u8>)>) -> ById {
    map.map_values(|entry: (Vec<u8>, Vec<u8>)| (entry.0@, entry.1@))
}

/// The identifiers and packages one after the other.
pub open spec fn joined(pairs: Seq<(Seq<u8>, Seq<u8>)>) -> Seq<u8>
    decreases pairs.len(),
{
    if pairs.len() == 0 {
        seq![]
    } else {
        joined(pairs.drop_last()) + pairs.last().0 + pairs.last().1
    }
}

/// A session is named by a hash of all the packages of its first round, in the order of the identifiers.
pub open spec fn session_of(packages: ById) -> Seq<char> {
    blake2b_160(joined(alphabetical(packages)))
}

/// What a node knows at the start.
pub open spec fn initial(
    id: Seq<char>,
    identifier: Seq<u8>,
    max_signers: nat,
    secret: Seq<u8>,
    package: Seq<u8>,
) -> KeygenView {
    KeygenView {
        id,
        max_signers,
        secret,
        package,
        session: seq![],
        round1_hashes: Map::empty().insert(label_of(identifier), (identifier, package)),
        round1: Map::empty(),
        round2_secret: None,
        round2: Map::empty(),
        outgoing: seq![],
        lookup: Map::empty(),
        done: Map::empty(),
        keys: None,
        made_with: None,
    }
}

/// Nothing more happens.
pub open spec fn waiting(state: KeygenView) -> KeygenStep {
    KeygenStep { state, announced: None, outcome: None }
}

/// Key generation fails.
pub open spec fn failed(state: KeygenView, error: KeygenError) -> KeygenStep {
    KeygenStep { state, announced: None, outcome: Some(Err(error)) }
}

/// Whether every node is done in the current session.
pub open spec fn everyone_done(state: KeygenView) -> bool {
    state.done.contains_key(state.session) && state.done[state.session].len() == state.max_signers
}

/// Key generation ends once every node is done in the current session.
pub open spec fn settled(state: KeygenView, announced: Option<Seq<char>>) -> KeygenStep {
    KeygenStep {
        state,
        announced,
        outcome: if !everyone_done(state) {
            None
        } else {
            match state.keys {
                Some(keys) => Some(Ok(keys)),
                None => Some(Err(KeygenError::KeysMissing)),
            }
        },
    }
}

/// The nodes that are done, with one more.
pub open spec fn with_done(
    done: Map<Seq<char>, Set<Seq<char>>>,
    session: Seq<char>,
    node: Seq<char>,
) -> Map<Seq<char>, Set<Seq<char>>> {
    done.insert(
        session,
        (if done.contains_key(session) {
            done[session]
        } else {
            Set::empty()
        }).insert(node),
    )
}

/// Whether this package of this participant is among those that were received.
pub open spec fn seen(received: ById, identifier: Seq<u8>, package: Seq<u8>) -> bool {
    received.contains_key(label_of(identifier)) && received[label_of(identifier)].1 == package
}

/// Whether there is a package from every peer.
pub open spec fn is_complete(received: ById, max_signers: nat) -> bool {
    received.dom().len() == max_signers - 1
}

/// A package of the first round arrives. With one from every peer, the second round begins, or begins anew.
pub open spec fn receive_part1(state: KeygenView, identifier: Seq<u8>, package: Seq<u8>) -> KeygenStep {
    let state = KeygenView {
        round1_hashes: state.round1_hashes.insert(label_of(identifier), (identifier, package)),
        round1: state.round1.insert(label_of(identifier), (identifier, package)),
        ..state
    };
    if !is_complete(state.round1, state.max_signers) {
        settled(state, None)
    } else {
        let state = KeygenView { session: session_of(state.round1_hashes), round2: Map::empty(), ..state };
        match part2_result(state.secret, alphabetical(state.round1)) {
            Some((secret, outgoing)) => settled(
                KeygenView { round2_secret: Some(secret), outgoing, ..state },
                None,
            ),
            None => failed(state, KeygenError::Frost),
        }
    }
}

/// A package of the second round arrives. With one from every peer, we have our keys.
pub open spec fn receive_part2(state: KeygenView, identifier: Seq<u8>, package: Seq<u8>) -> KeygenStep {
    let state = KeygenView {
        round2: state.round2.insert(label_of(identifier), (identifier, package)),
        ..state
    };
    if !is_complete(state.round2, state.max_signers) {
        settled(state, None)
    } else {
        match state.round2_secret {
            None => failed(state, KeygenError::SecondRoundNotBegun),
            Some(secret) => match part3_result(secret, alphabetical(state.round1), alphabetical(state.round2)) {
                None => failed(state, KeygenError::Frost),
                Some(keys) => settled(
                    KeygenView {
                        keys: Some(keys),
                        made_with: Some(state.round1_hashes),
                        done: with_done(state.done, state.session, state.id),
                        ..state
                    },
                    Some(state.session),
                ),
            },
        }
    }
}

/// A message arrives from a node.
pub open spec fn receive_message(state: KeygenView, from: Seq<char>, message: KeygenMessageView) -> KeygenStep {
    match derived_identifier(encode_utf8(from)) {
        None => failed(state, KeygenError::Identifier),
        Some(identifier) => {
            let state = KeygenView { lookup: state.lookup.insert(label_of(identifier), from), ..state };
            match message {
                KeygenMessageView::Part1(package) => if seen(state.round1, identifier, package) {
                    waiting(state)
                } else {
                    receive_part1(state, identifier, package)
                },
                KeygenMessageView::Part2(session, package) => if session != state.session || seen(
                    state.round2,
                    identifier,
                    package,
                ) {
                    waiting(state)
                } else {
                    receive_part2(state, identifier, package)
                },
                KeygenMessageView::Done(session) => settled(
                    KeygenView { done: with_done(state.done, session, from), ..state },
                    None,
                ),
            }
        },
    }
}

/// Every peer whose package we have, and every peer that we have a package for, is a node that we know.
pub open spec fn knows_peers(state: KeygenView) -> bool {
    &&& forall|label: Seq<char>| #[trigger]
        state.round1.contains_key(label) ==> label_of(state.round1[label].0) == label && state.lookup.contains_key(label)
    &&& forall|i: int| 0 <= i < state.outgoing.len() ==> state.lookup.contains_key(
        label_of((#[trigger] state.outgoing[i]).0),
    )
}

/// What the packages of the first round commit to, by identifier.
pub open spec fn commitments_by_id(packages: ById) -> Map<Seq<u8>, Seq<u8>> {
    Map::new(
        |identifier: Seq<u8>|
            packages.contains_key(label_of(identifier)) && packages[label_of(identifier)].0 == identifier,
        |identifier: Seq<u8>| package_commitment(packages[label_of(identifier)].1)->0,
    )
}

/// What a node knows hangs together: its package goes with its secret and stands among the others' packages, its second
/// secret follows the first, and its keys follow from the packages that they were made with.
pub open spec fn is_sound(state: KeygenView) -> bool {
    &&& part1_parts(state.secret) is Some
    &&& goes_with(state.package, state.secret)
    &&& ({
        let identifier = own_identifier(state);
        &&& !state.round1.contains_key(label_of(identifier))
        &&& state.round1_hashes == state.round1.insert(label_of(identifier), (identifier, state.package))
    })
    &&& state.round1.dom().finite()
    &&& forall|label: Seq<char>| #[trigger]
        state.round1.contains_key(label) ==> label_of(state.round1[label].0) == label
    &&& state.round2_secret matches Some(next) ==> continues(next, state.secret)
    &&& state.keys matches Some(keys) ==> state.made_with is Some && fit_packages(state, keys, state.made_with->0)
}

/// Whether a message comes from someone else: from a node with another label, if it has one.
pub open spec fn is_other_node(state: KeygenView, from: Seq<char>) -> bool {
    derived_identifier(encode_utf8(from)) matches Some(identifier) ==> label_of(identifier) != label_of(
        own_identifier(state),
    )
}

/// The identifier of the node itself.
pub open spec fn own_identifier(state: KeygenView) -> Seq<u8> {
    (part1_parts(state.secret)->0).0
}

/// These keys are for this node and its group, and the public key follows from what these packages commit to.
pub open spec fn fit_packages(state: KeygenView, keys: (Seq<u8>, Seq<u8>), packages: ById) -> bool {
    &&& keys.1 == committed_public_key(commitments_by_id(packages))
    &&& group_parts(keys.1) is Some
    &&& key_parts(keys.0) == Some(
        (own_identifier(state), (part1_parts(state.secret)->0).2, (group_parts(keys.1)->0).1),
    )
}

/// The commitments of the peers and of the node itself are those in all packages.
proof fn lemma_all_commitments(state: KeygenView)
    requires
        is_sound(state),
    ensures
        commitments_in(alphabetical(state.round1)).insert(own_identifier(state), secret_commitment(state.secret)->0)
            == commitments_by_id(state.round1_hashes),
{
    let own = own_identifier(state);
    let all = state.round1_hashes;
    let (names, values) = lemma_listing_exists(state.round1);
    let of_peers = commitments_in(values);
    assert forall|identifier: Seq<u8>| has_identifier(values, identifier) <==> state.round1.contains_key(
        label_of(identifier),
    ) && state.round1[label_of(identifier)].0 == identifier by {
        if has_identifier(values, identifier) {
            let j = choose|j: int| 0 <= j < values.len() && (#[trigger] values[j]).0 == identifier;
            assert(names.contains(names[j]));
            assert(state.round1.contains_key(names[j]));
            assert(state.round1[names[j]] == values[j]);
            assert(names[j] == label_of(identifier));
        }
        if state.round1.contains_key(label_of(identifier)) && state.round1[label_of(identifier)].0 == identifier {
            assert(names.contains(label_of(identifier)));
            let j = choose|j: int| 0 <= j < names.len() && names[j] == label_of(identifier);
            assert(state.round1[names[j]] == values[j]);
            assert(values[j].0 == identifier);
        }
    }
    assert forall|identifier: Seq<u8>| has_identifier(values, identifier) implies #[trigger] of_peers[identifier]
        == package_commitment(state.round1[label_of(identifier)].1)->0 by {
        let last = lemma_last_pair(values, identifier);
        let at = choose|at: int| is_last_pair(values, identifier, at);
        assert(is_last_pair(values, identifier, at));
        assert(names.contains(names[at]));
        assert(state.round1.contains_key(names[at]));
        assert(state.round1[names[at]] == values[at]);
        assert(names[at] == label_of(identifier));
    }
    let joint = of_peers.insert(own, secret_commitment(state.secret)->0);
    let expected = commitments_by_id(all);
    assert forall|identifier: Seq<u8>| #[trigger] joint.contains_key(identifier) <==> expected.contains_key(
        identifier,
    ) by {
        if identifier != own && label_of(identifier) == label_of(own) {
            assert(!state.round1.contains_key(label_of(identifier)));
        }
    }
    assert forall|identifier: Seq<u8>| #[trigger] joint.contains_key(identifier) implies joint[identifier]
        == expected[identifier] by {
        if identifier != own {
            assert(has_identifier(values, identifier));
            assert(of_peers[identifier] == package_commitment(state.round1[label_of(identifier)].1)->0);
            assert(label_of(identifier) != label_of(own));
        }
    }
    assert(joint =~= expected);
}

/// Where a pair belongs to an identifier, one is the last.
proof fn lemma_last_pair(pairs: Seq<(Seq<u8>, Seq<u8>)>, identifier: Seq<u8>) -> (at: int)
    requires
        has_identifier(pairs, identifier),
    ensures
        is_last_pair(pairs, identifier, at),
    decreases pairs.len(),
{
    let last = pairs.len() - 1;
    if pairs[last].0 == identifier {
        last
    } else {
        let front = pairs.drop_last();
        let j = choose|j: int| 0 <= j < pairs.len() && (#[trigger] pairs[j]).0 == identifier;
        assert(front[j].0 == identifier);
        let at = lemma_last_pair(front, identifier);
        assert forall|j: int| at < j < pairs.len() implies (#[trigger] pairs[j]).0 != identifier by {
            if j < last {
                assert(front[j] == pairs[j]);
            }
        }
        at
    }
}

/// The label of an identifier.
fn label(identifier: &Vec<u8>) -> (r: String)
    ensures
        r@ == label_of(identifier@),
{
    let mut reversed: Vec<u8> = Vec::new();
    let mut i: usize = identifier.len();
    while i > 0
        invariant
            i <= identifier.len(),
            reversed@ =~= identifier@.subrange(i as int, identifier@.len() as int).reverse(),
        decreases i,
    {
        i -= 1;
        reversed.push(identifier[i]);
    }
    assert(reversed@ =~= identifier@.reverse());
    hex_encode(reversed.as_slice())
}

/// The identifiers and values in the order of the identifiers.
fn list_pairs(map: &NameMap<String, (Vec<u8>, Vec<u8>)>) -> (r: Vec<(Vec<u8>, Vec<u8>)>)
    ensures
        byte_pairs(r@) == alphabetical(by_id(map@)),
{
    let ghost model = by_id(map@);
    let entries = map.entries();
    let ghost listed = Seq::new(entries@.len(), |i: int| (entries@[i].1.0@, entries@[i].1.1@));
    proof {
        lemma_entries_listed(entries@);
        let names = names_of(keys_of(entries@));
        assert forall|i: int| 0 <= i < names.len() implies model[#[trigger] names[i]] == listed[i] by {
            lemma_entry(entries@, i);
        }
        assert forall|name: Seq<char>| #[trigger] model.contains_key(name) <==> names.contains(name) by {
            assert(map@.contains_key(name) <==> names.contains(name));
        }
        assert(lists_map(model, names, listed));
        lemma_alphabetical(model, names, listed);
    }
    let mut pairs: Vec<(Vec<u8>, Vec<u8>)> = Vec::new();
    let mut i: usize = 0;
    while i < entries.len()
        invariant
            i <= entries.len(),
            pairs.len() == i,
            forall|j: int|
                0 <= j < i ==> (#[trigger] pairs@[j]).0@ == entries@[j].1.0@ && pairs@[j].1@ == entries@[j].1.1@,
        decreases entries.len() - i,
    {
        let value = &entries[i].1;
        pairs.push((copy_bytes(&value.0), copy_bytes(&value.1)));
        i += 1;
    }
    assert(byte_pairs(pairs@) =~= listed);
    pairs
}

/// The name of the session that these packages make.
fn compute_session_id(packages: &NameMap<String, (Vec<u8>, Vec<u8>)>) -> (r: String)
    ensures
        r@ == session_of(by_id(packages@)),
{
    let pairs = list_pairs(packages);
    let ghost all = byte_pairs(pairs@);
    let mut bytes: Vec<u8> = Vec::new();
    let mut i: usize = 0;
    assert(bytes@ =~= joined(all.take(0)));
    while i < pairs.len()
        invariant
            i <= pairs.len(),
            all == byte_pairs(pairs@),
            bytes@ == joined(all.take(i as int)),
        decreases pairs.len() - i,
    {
        let mut identifier = copy_bytes(&pairs[i].0);
        let mut package = copy_bytes(&pairs[i].1);
        bytes.append(&mut identifier);
        bytes.append(&mut package);
        proof {
            assert(all.take(i + 1).drop_last() =~= all.take(i as int));
            assert(all.take(i + 1).last() == all[i as int]);
        }
        i += 1;
    }
    assert(all.take(i as int) =~= all);
    hash_160(bytes.as_slice())
}

/// What a message leads to.
#[derive(Debug)]
pub struct KeygenOutput {
    /// What to tell everyone.
    pub broadcast: Option<KeygenMessage>,
    /// The end of key generation.
    pub outcome: Option<Result<GeneratedKeys, KeygenError>>,
}

/// A node that generates keys with its peers.
pub struct Keygen {
    id: NodeId,
    max_signers: u16,
    secret: FirstSecret,
    package: Vec<u8>,
    session: String,
    round1_hashes: NameMap<String, (Vec<u8>, Vec<u8>)>,
    round1: NameMap<String, (Vec<u8>, Vec<u8>)>,
    round2_secret: Option<SecondSecret>,
    round2: NameMap<String, (Vec<u8>, Vec<u8>)>,
    outgoing: Vec<(Vec<u8>, Vec<u8>)>,
    lookup: NameMap<String, NodeId>,
    done: NameMap<String, NodeSet>,
    keys: Option<GeneratedKeys>,
    made_with: Ghost<Option<ById>>,
}

/// The names of the nodes by label.
pub open spec fn node_names(lookup: Map<Seq<char>, NodeId>) -> Map<Seq<char>, Seq<char>> {
    lookup.map_values(|node: NodeId| node@)
}

/// The names of the nodes that are done.
pub open spec fn done_names(done: Map<Seq<char>, NodeSet>) -> Map<Seq<char>, Set<Seq<char>>> {
    done.map_values(|nodes: NodeSet| nodes@)
}

/// The bytes of the keys.
pub open spec fn key_bytes(keys: Option<GeneratedKeys>) -> Option<(Seq<u8>, Seq<u8>)> {
    match keys {
        Some(keys) => Some((keys.0@, keys.1@)),
        None => None,
    }
}

/// The bytes of the secret.
pub open spec fn secret_bytes(secret: Option<SecondSecret>) -> Option<Seq<u8>> {
    match secret {
        Some(secret) => Some(secret@),
        None => None,
    }
}

impl View for Keygen {
    type V = KeygenView;

    closed spec fn view(&self) -> KeygenView {
        KeygenView {
            id: self.id@,
            max_signers: self.max_signers as nat,
            secret: self.secret@,
            package: self.package@,
            session: self.session@,
            round1_hashes: by_id(self.round1_hashes@),
            round1: by_id(self.round1@),
            round2_secret: secret_bytes(self.round2_secret),
            round2: by_id(self.round2@),
            outgoing: byte_pairs(self.outgoing@),
            lookup: node_names(self.lookup@),
            done: done_names(self.done@),
            keys: key_bytes(self.keys),
            made_with: self.made_with@,
        }
    }
}

impl KeygenOutput {
    /// Whether this is what `step` calls for.
    pub open spec fn follows(&self, step: KeygenStep) -> bool {
        &&& match (self.broadcast, step.announced) {
            (Some(message), Some(session)) => message@ == KeygenMessageView::Done(session),
            (None, None) => true,
            _ => false,
        }
        &&& match (self.outcome, step.outcome) {
            (Some(Ok(keys)), Some(Ok(expected))) => (keys.0@, keys.1@) == expected,
            (Some(Err(error)), Some(Err(expected))) => error == expected,
            (None, None) => true,
            _ => false,
        }
    }
}

impl Keygen {
    /// A node that joins key generation, with a secret and the package that goes with it.
    pub fn begin(id: NodeId, identifier: Vec<u8>, max_signers: u16, secret: FirstSecret, package: Vec<u8>) -> (r: Self)
        requires
            max_signers >= 1,
        ensures
            r@ == initial(id@, identifier@, max_signers as nat, secret@, package@),
            knows_peers(r@),
            goes_with(package@, secret@) && part1_parts(secret@) is Some && (part1_parts(secret@)->0).0 == identifier@
                ==> is_sound(r@),
    {
        let mut round1_hashes: NameMap<String, (Vec<u8>, Vec<u8>)> = NameMap::new();
        round1_hashes.insert(label(&identifier), (copy_bytes(&identifier), copy_bytes(&package)));
        let r = Keygen {
            id,
            max_signers,
            secret,
            package,
            session: String::new(),
            round1_hashes,
            round1: NameMap::new(),
            round2_secret: None,
            round2: NameMap::new(),
            outgoing: Vec::new(),
            lookup: NameMap::new(),
            done: NameMap::new(),
            keys: None,
            made_with: Ghost(None),
        };
        assert(r@ =~= initial(id@, identifier@, max_signers as nat, secret@, package@));
        assert(r@.round1_hashes =~= r@.round1.insert(label_of(identifier@), (identifier@, package@)));
        r
    }

    /// Joins key generation, as `begin` does, with secrets drawn at random. There are none to draw for fewer
    /// than two signers, or for more signers than participants.
    pub fn new(id: NodeId, max_signers: u16, min_signers: u16) -> (r: Result<Self, KeygenError>)
        ensures
            r == Err::<Self, KeygenError>(KeygenError::Identifier) <==> derived_identifier(encode_utf8(id@)) is None,
            r matches Err(error) ==> error is Identifier || error is Frost,
            r is Ok ==> 2 <= min_signers <= max_signers,
            r matches Ok(keygen) ==> is_sound(keygen@),
            r matches Ok(keygen) ==> knows_peers(keygen@) && exists|secret: Seq<u8>, package: Seq<u8>|
                keygen@ == #[trigger] initial(
                    id@,
                    derived_identifier(encode_utf8(id@))->0,
                    max_signers as nat,
                    secret,
                    package,
                ) && part1_parts(secret) == Some((derived_identifier(encode_utf8(id@))->0, max_signers, min_signers))
                    && goes_with(package, secret),
    {
        let identifier = match derive_identifier(id.as_bytes()) {
            Some(identifier) => identifier,
            None => {
                return Err(KeygenError::Identifier);
            },
        };
        match FirstSecret::draw(&identifier, max_signers, min_signers) {
            Ok((secret, package)) => {
                let keygen = Keygen::begin(id, identifier, max_signers, secret, package);
                assert(keygen@ == initial(
                    id@,
                    derived_identifier(encode_utf8(id@))->0,
                    max_signers as nat,
                    secret@,
                    package@,
                ));
                assert(knows_peers(keygen@));
                Ok(keygen)
            },
            Err(_) => Err(KeygenError::Frost),
        }
    }

    /// What we keep telling everyone.
    pub fn round1_message(&self) -> (r: KeygenMessage)
        ensures
            r@ == KeygenMessageView::Part1(self@.package),
    {
        KeygenMessage::Part1(Part1Message { package: copy_bytes(&self.package) })
    }

    /// What we keep telling each of our peers, once the second round has begun.
    pub fn round2_messages(&self) -> (r: Vec<OutgoingMessage<KeygenMessage>>)
        requires
            knows_peers(self@),
        ensures
            r.len() == self@.outgoing.len(),
            forall|i: int|
                0 <= i < r.len() ==> {
                    &&& name_of((#[trigger] r@[i]).to) == Some(self@.lookup[label_of(self@.outgoing[i].0)])
                    &&& r@[i].data@ == KeygenMessageView::Part2(self@.session, self@.outgoing[i].1)
                },
    {
        let mut messages: Vec<OutgoingMessage<KeygenMessage>> = Vec::new();
        let mut i: usize = 0;
        while i < self.outgoing.len()
            invariant
                i <= self.outgoing.len(),
                messages.len() == i,
                knows_peers(self@),
                forall|j: int|
                    0 <= j < i ==> {
                        &&& name_of((#[trigger] messages@[j]).to) == Some(self@.lookup[label_of(self@.outgoing[j].0)])
                        &&& messages@[j].data@ == KeygenMessageView::Part2(self@.session, self@.outgoing[j].1)
                    },
            decreases self.outgoing.len() - i,
        {
            let pair = &self.outgoing[i];
            assert(self@.outgoing[i as int].0 == pair.0@);
            let to = match self.lookup.get(label(&pair.0).as_str()) {
                Some(node) => Some(node.clone()),
                None => None,
            };
            let message = Part2Message { session_id: self.session.clone(), package: copy_bytes(&pair.1) };
            messages.push(OutgoingMessage { to, data: KeygenMessage::Part2(message) });
            i += 1;
        }
        messages
    }

    /// Notes that a node is done in a session.
    fn note_done(&mut self, session: &String, node: NodeId)
        ensures
            final(self)@ == (KeygenView { done: with_done(old(self)@.done, session@, node@), ..old(self)@ }),
    {
        let ghost before = *self;
        let mut nodes = match self.done.remove(session.as_str()) {
            Some(nodes) => nodes,
            None => NodeSet::new(),
        };
        nodes.insert(node);
        self.done.insert(session.clone(), nodes);
        proof {
            assert(self@.done =~= with_done(before@.done, session@, node@));
        }
    }

    /// Whether key generation ends here.
    fn settle(&self, broadcast: Option<KeygenMessage>) -> (r: KeygenOutput)
        ensures
            r.broadcast == broadcast,
            (KeygenOutput { broadcast: None, outcome: r.outcome }).follows(settled(self@, None)),
    {
        let everyone = match self.done.get(self.session.as_str()) {
            Some(nodes) => nodes.len() == self.max_signers as usize,
            None => false,
        };
        let outcome = if !everyone {
            None
        } else {
            match &self.keys {
                Some(keys) => Some(Ok(GeneratedKeys(copy_bytes(&keys.0), copy_bytes(&keys.1)))),
                None => Some(Err(KeygenError::KeysMissing)),
            }
        };
        KeygenOutput { broadcast, outcome }
    }

    /// A new package of the first round.
    fn accept_part1(&mut self, identifier: &Vec<u8>, package: &Vec<u8>) -> (r: KeygenOutput)
        requires
            knows_peers(old(self)@) ==> old(self)@.lookup.contains_key(label_of(identifier@)),
        ensures
            final(self)@ == receive_part1(old(self)@, identifier@, package@).state,
            r.follows(receive_part1(old(self)@, identifier@, package@)),
            knows_peers(old(self)@) ==> knows_peers(final(self)@),
            is_sound(old(self)@) && label_of(identifier@) != label_of(own_identifier(old(self)@)) ==> is_sound(final(self)@),
    {
        let ghost before = self@;
        let ghost name = label_of(identifier@);
        self.round1_hashes.insert(label(identifier), (copy_bytes(identifier), copy_bytes(package)));
        self.round1.insert(label(identifier), (copy_bytes(identifier), copy_bytes(package)));
        let ghost noted = KeygenView {
            round1_hashes: before.round1_hashes.insert(name, (identifier@, package@)),
            round1: before.round1.insert(name, (identifier@, package@)),
            ..before
        };
        assert(self@ =~= noted);
        assert(knows_peers(before) ==> knows_peers(noted));
        proof {
            if is_sound(before) && name != label_of(own_identifier(before)) {
                let own = own_identifier(before);
                assert(noted.round1_hashes =~= noted.round1.insert(label_of(own), (own, before.package)));
                assert(is_sound(noted));
            }
        }
        assert(self@.round1.dom() =~= self.round1@.dom());
        let count: usize = self.round1.len();
        if self.max_signers == 0 || count != (self.max_signers - 1) as usize {
            return self.settle(None);
        }
        self.session = compute_session_id(&self.round1_hashes);
        self.round2 = NameMap::new();
        let packages = list_pairs(&self.round1);
        let ghost begun = KeygenView { session: session_of(noted.round1_hashes), round2: Map::empty(), ..noted };
        assert(self@ =~= begun);
        match self.secret.begin_second(&packages) {
            Some((secret, outgoing)) => {
                proof {
                    let pairs = byte_pairs(outgoing@);
                    let (names, values) = lemma_listing_exists(noted.round1);
                    if knows_peers(noted) {
                        assert forall|i: int| 0 <= i < pairs.len() implies noted.lookup.contains_key(
                            label_of((#[trigger] pairs[i]).0),
                        ) by {
                            assert(has_identifier(values, pairs[i].0));
                            let j = choose|j: int| 0 <= j < values.len() && (#[trigger] values[j]).0 == pairs[i].0;
                            assert(names.contains(names[j]));
                            assert(noted.round1.contains_key(names[j]));
                            assert(noted.round1[names[j]] == values[j]);
                        }
                    }
                }
                self.round2_secret = Some(secret);
                self.outgoing = outgoing;
                self.settle(None)
            },
            None => KeygenOutput { broadcast: None, outcome: Some(Err(KeygenError::Frost)) },
        }
    }

    /// A new package of the second round.
    fn accept_part2(&mut self, identifier: &Vec<u8>, package: &Vec<u8>) -> (r: KeygenOutput)
        ensures
            final(self)@ == receive_part2(old(self)@, identifier@, package@).state,
            r.follows(receive_part2(old(self)@, identifier@, package@)),
            knows_peers(old(self)@) ==> knows_peers(final(self)@),
            is_sound(old(self)@) ==> is_sound(final(self)@),
    {
        let ghost before = self@;
        self.round2.insert(label(identifier), (copy_bytes(identifier), copy_bytes(package)));
        let ghost noted = KeygenView {
            round2: before.round2.insert(label_of(identifier@), (identifier@, package@)),
            ..before
        };
        assert(self@ =~= noted);
        assert(self@.round2.dom() =~= self.round2@.dom());
        let count: usize = self.round2.len();
        if self.max_signers == 0 || count != (self.max_signers - 1) as usize {
            return self.settle(None);
        }
        let keys = match &self.round2_secret {
            Some(secret) => secret.finish(&list_pairs(&self.round1), &list_pairs(&self.round2)),
            None => {
                return KeygenOutput { broadcast: None, outcome: Some(Err(KeygenError::SecondRoundNotBegun)) };
            },
        };
        match keys {
            Some((key, public_key)) => {
                proof {
                    if is_sound(before) {
                        assert(is_sound(noted));
                        lemma_all_commitments(noted);
                    }
                }
                self.keys = Some(GeneratedKeys(key, public_key));
                self.made_with = Ghost(Some(self@.round1_hashes));
                let session = self.session.clone();
                let id = self.id.clone();
                self.note_done(&session, id);
                self.settle(Some(KeygenMessage::Done(DoneMessage { session_id: session })))
            },
            None => KeygenOutput { broadcast: None, outcome: Some(Err(KeygenError::Frost)) },
        }
    }

    /// A message arrives from a node.
    pub fn receive(&mut self, from: NodeId, message: KeygenMessage) -> (r: KeygenOutput)
        ensures
            final(self)@ == receive_message(old(self)@, from@, message@).state,
            r.follows(receive_message(old(self)@, from@, message@)),
            knows_peers(old(self)@) ==> knows_peers(final(self)@),
            is_sound(old(self)@) && is_other_node(old(self)@, from@) ==> is_sound(final(self)@),
    {
        let ghost before = self@;
        let identifier = match derive_identifier(from.as_bytes()) {
            Some(identifier) => identifier,
            None => {
                return KeygenOutput { broadcast: None, outcome: Some(Err(KeygenError::Identifier)) };
            },
        };
        self.lookup.insert(label(&identifier), from.clone());
        let ghost known = KeygenView { lookup: before.lookup.insert(label_of(identifier@), from@), ..before };
        assert(self@ =~= known);
        assert(knows_peers(before) ==> knows_peers(known));
        match message {
            KeygenMessage::Part1(Part1Message { package }) => {
                if is_seen(&self.round1, &identifier, &package) {
                    return KeygenOutput { broadcast: None, outcome: None };
                }
                self.accept_part1(&identifier, &package)
            },
            KeygenMessage::Part2(Part2Message { session_id, package }) => {
                if session_id != self.session || is_seen(&self.round2, &identifier, &package) {
                    return KeygenOutput { broadcast: None, outcome: None };
                }
                self.accept_part2(&identifier, &package)
            },
            KeygenMessage::Done(DoneMessage { session_id }) => {
                self.note_done(&session_id, from);
                self.settle(None)
            },
        }
    }
}

/// Whether this package of this participant is among those that were received.
fn is_seen(received: &NameMap<String, (Vec<u8>, Vec<u8>)>, identifier: &Vec<u8>, package: &Vec<u8>) -> (r: bool)
    ensures
        r == seen(by_id(received@), identifier@, package@),
{
    match received.get(label(identifier).as_str()) {
        Some(entry) => same_bytes(&entry.1, package),
        None => false,
    }
}

/// Key generation ends with keys only once every node is done in the current session, and the keys are those
/// that this node made.
pub proof fn law_keys_come_when_everyone_is_done(state: KeygenView, from: Seq<char>, message: KeygenMessageView)
    ensures
        receive_message(state, from, message).outcome matches Some(Ok(keys)) ==> everyone_done(
            receive_message(state, from, message).state,
        ) && receive_message(state, from, message).state.keys == Some(keys),
{
}

/// A package of another session's second round changes nothing but the nodes that we know.
pub proof fn law_other_sessions_are_ignored(state: KeygenView, from: Seq<char>, session: Seq<char>, package: Seq<u8>)
    requires
        derived_identifier(encode_utf8(from)) is Some,
        session != state.session,
    ensures
        receive_message(state, from, KeygenMessageView::Part2(session, package)) == waiting(
            KeygenView {
                lookup: state.lookup.insert(label_of(derived_identifier(encode_utf8(from))->0), from),
                ..state
            },
        ),
{
}

/// A message that arrives once more changes nothing more.
pub proof fn law_repeated_messages_change_nothing(state: KeygenView, from: Seq<char>, message: KeygenMessageView)
    ensures
        ({
            let after = receive_message(state, from, message).state;
            receive_message(after, from, message).state == after
        }),
{
    let after = receive_message(state, from, message).state;
    let again = receive_message(after, from, message).state;
    assert(again.lookup =~= after.lookup);
    assert(again.done =~= after.done) by {
        if let KeygenMessageView::Done(session) = message {
            if derived_identifier(encode_utf8(from)) is Some {
                assert(after.done[session].insert(from) =~= after.done[session]);
            }
        }
    }
    assert(again =~= after);
}

/// Whether the current session is named after the packages of the first round, once they are complete.
pub open spec fn session_is_current(state: KeygenView) -> bool {
    is_complete(state.round1, state.max_signers) ==> state.session == session_of(state.round1_hashes)
}

/// The current session is named after the packages of the first round, once they are complete: nodes with
/// the same packages are in the same session, and a node that joins anew, with another package, begins
/// another session.
pub proof fn law_session_is_current(state: KeygenView, from: Seq<char>, message: KeygenMessageView)
    requires
        session_is_current(state),
    ensures
        session_is_current(receive_message(state, from, message).state),
{
}

/// Nodes that made their keys with the same packages of the first round share a group: their public keys are the same,
/// and the key of each belongs to it.
pub proof fn law_same_packages_make_one_group(a: KeygenView, b: KeygenView)
    requires
        is_sound(a),
        is_sound(b),
        a.keys is Some,
        b.keys is Some,
        a.made_with == b.made_with,
    ensures
        (a.keys->0).1 == (b.keys->0).1,
        key_parts((a.keys->0).0) is Some,
        key_parts((b.keys->0).0) is Some,
        (key_parts((a.keys->0).0)->0).2 == (key_parts((b.keys->0).0)->0).2,
        group_parts((a.keys->0).1) matches Some(group) && group.1 == (key_parts((a.keys->0).0)->0).2,
{
}

/// A node that tells everyone that it is done has made its keys with the packages that the session is named after.
pub proof fn law_announced_keys_are_of_their_session(state: KeygenView, from: Seq<char>, message: KeygenMessageView)
    requires
        session_is_current(state),
        is_complete(state.round1, state.max_signers),
    ensures
        receive_message(state, from, message).announced matches Some(session) ==> {
            let after = receive_message(state, from, message).state;
            &&& after.keys is Some
            &&& after.made_with == Some(state.round1_hashes)
            &&& session == session_of(state.round1_hashes)
        },
{
}

/// How many signers there are, and how many of them have to sign: this node and its peers, and what is configured.
/// Nothing where that is not configured.
pub fn signers(config: &OracleConfig) -> (r: Option<(u16, u16)>)
    requires
        config.network.peers@.len() < u16::MAX,
    ensures
        r == match config.keygen.min_signers {
            Some(min_signers) => Some(((config.network.peers@.len() + 1) as u16, min_signers)),
            None => None,
        },
{
    match config.keygen.min_signers {
        Some(min_signers) => Some((config.network.peers.len() as u16 + 1, min_signers)),
        None => None,
    }
}

} // verus!
