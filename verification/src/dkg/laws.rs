//! What holds of the steps of key generation.

use vstd::prelude::*;

use crate::dkg::{
    joined, label_of, receive_part1, receive_part2, session_of, settled, with_done, KeygenError, KeygenView,
};
use crate::frost::{part2_result, part3_result};
use crate::names::alphabetical;

verus! {

/// A package of the first round is kept, in place of an earlier one of the same participant. With one from every peer the
/// second round begins anew: the session is named after all packages, our own too, and there is a package for each peer.
/// Before that the session stays as it is.
pub proof fn law_second_round_needs_every_package(state: KeygenView, identifier: Seq<u8>, package: Seq<u8>)
    ensures
        ({
            let label = label_of(identifier);
            let after = receive_part1(state, identifier, package).state;
            let received = state.round1.insert(label, (identifier, package));
            &&& after.round1 == received
            &&& after.round1_hashes == state.round1_hashes.insert(label, (identifier, package))
            &&& received.dom().len() + 1 != state.max_signers ==> after.session == state.session && after.round2
                == state.round2 && after.outgoing == state.outgoing
            &&& received.dom().len() + 1 == state.max_signers ==> {
                &&& after.session == session_of(after.round1_hashes)
                &&& after.round2.dom().is_empty()
                &&& match part2_result(state.secret, alphabetical(received)) {
                    Some((secret, outgoing)) => after.round2_secret == Some(secret) && after.outgoing == outgoing,
                    None => receive_part1(state, identifier, package).outcome matches Some(Err(error)) && error
                        == KeygenError::Frost,
                }
            }
        }),
{
}

/// A package of the second round is kept. With one from every peer the node has its keys, made of the packages of both
/// rounds, tells the others that it is done in this session, and counts itself among those that are. Before that it tells
/// no one anything.
pub proof fn law_keys_need_every_package(state: KeygenView, identifier: Seq<u8>, package: Seq<u8>)
    ensures
        ({
            let step = receive_part2(state, identifier, package);
            let received = state.round2.insert(label_of(identifier), (identifier, package));
            &&& step.state.round2 == received
            &&& received.dom().len() + 1 != state.max_signers ==> step.announced is None && step.state.keys == state.keys
            &&& step.announced is Some ==> {
                &&& received.dom().len() + 1 == state.max_signers
                &&& step.announced == Some(state.session)
                &&& state.round2_secret is Some
                &&& step.state.keys == part3_result(
                    state.round2_secret->0,
                    alphabetical(state.round1),
                    alphabetical(received),
                )
                &&& step.state.keys is Some
                &&& step.state.done.contains_key(state.session)
                &&& step.state.done[state.session].contains(state.id)
            }
        }),
{
}

/// The keys are handed over if, and only if, as many different nodes are done in the current session as there are signers,
/// and this node has its keys.
pub proof fn law_all_signers_have_to_be_done(state: KeygenView, announced: Option<Seq<char>>)
    ensures
        ({
            let step = settled(state, announced);
            let all_done = state.done.contains_key(state.session) && state.done[state.session].len()
                == state.max_signers;
            &&& step.outcome is None <==> !all_done
            &&& step.outcome matches Some(Ok(keys)) ==> state.keys == Some(keys)
            &&& step.outcome matches Some(Err(_)) ==> state.keys is None
            &&& step.announced == announced
            &&& step.state == state
        }),
{
}

/// Whoever is done in a session is counted there once, with those before, and in no other session.
pub proof fn law_nodes_are_done_in_one_session(
    done: Map<Seq<char>, Set<Seq<char>>>,
    session: Seq<char>,
    node: Seq<char>,
    other: Seq<char>,
)
    ensures
        with_done(done, session, node).contains_key(session),
        with_done(done, session, node)[session].contains(node),
        other != node ==> (with_done(done, session, node)[session].contains(other) <==> done.contains_key(session)
            && done[session].contains(other)),
        other != session ==> (with_done(done, session, node).contains_key(other) <==> done.contains_key(other)) && (
        done.contains_key(other) ==> with_done(done, session, node)[other] == done[other]),
{
}

/// What is hashed for the name of a session has every identifier and package, one pair right behind the other.
pub proof fn law_all_packages_are_hashed(front: Seq<(Seq<u8>, Seq<u8>)>, identifier: Seq<u8>, package: Seq<u8>)
    ensures
        joined(seq![]) == Seq::<u8>::empty(),
        joined(front.push((identifier, package))) == joined(front) + (identifier + package),
{
    assert(front.push((identifier, package)).drop_last() =~= front);
    assert(joined(front) + identifier + package =~= joined(front) + (identifier + package));
}

} // verus!
