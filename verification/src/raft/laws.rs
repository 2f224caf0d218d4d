//! What holds of every node of the election protocol.

use vstd::prelude::*;
use vstd::set_lib::{lemma_len_subset, lemma_set_disjoint_lens};

use crate::config::OracleConfig;
use crate::network::NodeId;
use crate::raft::{jitter_of, quorum_of, LeaderView, Raft, RaftMessage, RaftState, RaftView, Reply, StatusView};

verus! {

/// No message and no tick of the clock takes a node back to an earlier term.
pub proof fn law_terms_never_fall(node: RaftView, now: int, from: Seq<char>, message: RaftMessage, jitter: int)
    ensures
        node.received(now, from, message).term >= node.term,
        node.ticked(now, jitter).term >= node.term,
{
}

/// The leader that a node announces is always the one that its status gives, and its sets stay finite.
pub proof fn law_announced_leader_matches_status(
    node: RaftView,
    now: int,
    from: Seq<char>,
    message: RaftMessage,
    jitter: int,
)
    requires
        node.wf(),
    ensures
        node.received(now, from, message).wf(),
        node.ticked(now, jitter).wf(),
{
}

/// A heartbeat from an earlier term changes nothing: not the leader, and not the election timeout.
pub proof fn law_old_heartbeats_are_ignored(node: RaftView, now: int, from: Seq<char>, term: usize)
    requires
        term < node.term,
    ensures
        node.received(now, from, RaftMessage::Heartbeat { term }) == node,
        node.reply(now, from, RaftMessage::Heartbeat { term }) is Nothing,
{
}

/// Once a node has voted, another candidate of that term or of an earlier one is refused, and asking
/// changes nothing.
pub proof fn law_one_vote_per_term(
    node: RaftView,
    now: int,
    first: Seq<char>,
    term: int,
    later: int,
    second: Seq<char>,
    second_term: int,
)
    requires
        node.grants(first, term),
        second != first,
        second_term <= node.asked(now, first, term).term,
    ensures
        !node.asked(now, first, term).grants(second, second_term),
        node.asked(now, first, term).asked(later, second, second_term) == node.asked(now, first, term),
{
}

/// A candidate that asks again for a vote it got gets it again, and asking again changes nothing.
pub proof fn law_votes_are_idempotent(node: RaftView, now: int, from: Seq<char>, term: int, later: int)
    requires
        node.grants(from, term),
    ensures
        node.asked(now, from, term).grants(from, term),
        node.asked(now, from, term).asked(later, from, term) == node.asked(now, from, term),
{
}

/// A node becomes leader only as a candidate, by a vote that brings its voters to a quorum.
pub proof fn law_leaders_have_a_quorum(node: RaftView, now: int, from: Seq<char>, message: RaftMessage)
    requires
        !(node.status is Leader),
        node.received(now, from, message).status is Leader,
    ensures
        node.status matches StatusView::Candidate { votes } && votes.insert(from).len() >= node.quorum,
        message matches RaftMessage::RequestVoteResponse { term, vote } && vote && term >= node.term,
{
}

/// A second vote of the same node does not count.
pub proof fn law_votes_count_once(node: RaftView, from: Seq<char>, later: Set<Seq<char>>)
    requires
        node.status == (StatusView::Candidate { votes: later }),
        later.finite(),
        later.contains(from),
        later.len() < node.quorum,
        node.wf(),
    ensures
        node.answered(from, node.term, true) == node,
{
    assert(later.insert(from) =~= later);
}

/// A node that voted in a newer term, or that follows a heartbeat, no longer leads.
pub proof fn law_newer_terms_end_leadership(node: RaftView, now: int, from: Seq<char>, term: usize)
    requires
        term > node.term,
    ensures
        node.received(now, from, RaftMessage::RequestVote { term }).leader is Unknown,
        node.received(now, from, RaftMessage::Heartbeat { term }).leader == LeaderView::Other(from),
{
}

/// A node that loses its quorum, or the leader it follows, knows of no leader.
pub proof fn law_lost_leaders_are_forgotten(node: RaftView, now: int, from: Seq<char>)
    requires
        node.follows(from) || node.peers.remove(from).len() + 1 < node.quorum,
    ensures
        node.received(now, from, RaftMessage::Disconnect).leader is Unknown,
{
}

/// A leader that has stepped down sends no heartbeat, runs in no election and greets no newcomer.
pub proof fn law_abdicated_leaders_are_silent(node: RaftView, now: int, from: Seq<char>)
    requires
        node.status == (StatusView::Leader { abdicating: true }),
    ensures
        node.tick_reply(now) is Nothing,
        node.reply(now, from, RaftMessage::Connect) is Nothing,
        node.received(now, from, RaftMessage::Connect).status == node.status,
{
}

/// Until the moment that `next_event` gives, the clock makes the node send nothing.
pub proof fn law_nothing_is_due_before_the_next_event(node: RaftView, now: int, at: int)
    requires
        now <= at < node.next_event(now),
        node.election_timeout() >= 0,
        node.heartbeat_freq >= 0,
    ensures
        node.tick_reply(at) is Nothing,
{
}

/// A node that is missing prices lets at least one timeout more pass, for each of them, before it
/// runs for leader.
pub proof fn law_missing_prices_delay_elections(node: RaftView, now: int)
    requires
        node.election_due(now),
    ensures
        node.elapsed(now) > node.timeout_freq * (node.missing_payloads + 1) - node.jitter,
        node.tick_reply(now) == Reply::All(RaftMessage::RequestVote { term: (node.term + 1) as usize }),
{
}

/// Any two majorities of the nodes have a node in common.
pub proof fn law_majorities_overlap(nodes: Set<Seq<char>>, peers: nat, a: Set<Seq<char>>, b: Set<Seq<char>>)
    requires
        nodes.finite(),
        nodes.len() == peers + 1,
        a.subset_of(nodes),
        b.subset_of(nodes),
        a.len() >= quorum_of(peers),
        b.len() >= quorum_of(peers),
    ensures
        exists|node: Seq<char>| a.contains(node) && b.contains(node),
{
    lemma_len_subset(a, nodes);
    lemma_len_subset(b, nodes);
    if forall|node: Seq<char>| !(a.contains(node) && b.contains(node)) {
        assert(a.disjoint(b));
        lemma_set_disjoint_lens(a, b);
        assert((a + b).subset_of(nodes));
        lemma_len_subset(a + b, nodes);
    }
}

/// Where every node votes at most once in a term, at most one node gets a majority.
pub proof fn law_one_leader_per_term(
    nodes: Set<Seq<char>>,
    peers: nat,
    votes: Map<Seq<char>, Seq<char>>,
    first: Seq<char>,
    second: Seq<char>,
)
    requires
        nodes.finite(),
        nodes.len() == peers + 1,
        votes.dom().subset_of(nodes),
        voters_for(votes, first).len() >= quorum_of(peers),
        voters_for(votes, second).len() >= quorum_of(peers),
    ensures
        first == second,
{
    law_majorities_overlap(nodes, peers, voters_for(votes, first), voters_for(votes, second));
}

/// The nodes that vote for `candidate`.
pub open spec fn voters_for(votes: Map<Seq<char>, Seq<char>>, candidate: Seq<char>) -> Set<Seq<char>> {
    Set::new(|node: Seq<char>| votes.contains_key(node) && votes[node] == candidate)
}

/// A node that hears nothing of a leader for as long as an election takes to come up, and that can reach a quorum,
/// runs for the next term.
pub proof fn law_silent_leaders_are_replaced(node: RaftView, now: int, jitter: int)
    requires
        node.elapsed(now) > node.election_timeout(),
        node.can_reach_quorum(),
        node.status is Follower,
    ensures
        node.ticked(now, jitter).term == node.term + 1,
        node.ticked(now, jitter).status == (StatusView::Candidate { votes: set![node.id] }),
{
}

/// Something that happens to a node, and when. Elections come with the jitter that they draw.
pub enum Happening {
    Received { now: int, from: Seq<char>, message: RaftMessage },
    Ticked { now: int, jitter: int },
    Abdicated,
    ForcedElection { term: int, now: int, jitter: int },
    MissingPayloads(int),
}

/// What a node knows after something has happened to it.
pub open spec fn after_one(node: RaftView, happening: Happening) -> RaftView {
    match happening {
        Happening::Received { now, from, message } => node.received(now, from, message),
        Happening::Ticked { now, jitter } => node.ticked(now, jitter),
        Happening::Abdicated => node.abdicated(),
        Happening::ForcedElection { term, now, jitter } => node.campaigning(term, now, jitter),
        Happening::MissingPayloads(missing_payloads) => RaftView { missing_payloads, ..node },
    }
}

/// What a node knows after all of this has happened to it.
pub open spec fn after_all(node: RaftView, happenings: Seq<Happening>) -> RaftView
    decreases happenings.len(),
{
    if happenings.len() == 0 {
        node
    } else {
        after_one(after_all(node, happenings.drop_last()), happenings.last())
    }
}

/// Whatever happens to a node from its start on, the leader that it announces is the one that its status gives: itself
/// where it leads, the one that it follows where there is one, and otherwise nobody.
pub proof fn law_announced_leader_always_matches_status(
    id: Seq<char>,
    start_time: u128,
    quorum: usize,
    heartbeat_freq: u128,
    timeout_freq: u128,
    jitter: int,
    happenings: Seq<Happening>,
)
    ensures
        ({
            let start = RaftState::initial(id, start_time, quorum, heartbeat_freq, timeout_freq, jitter);
            let node = after_all(start, happenings);
            node.wf() && node.leader == match node.status {
                StatusView::Leader { .. } => LeaderView::Myself,
                StatusView::Follower { leader: Some(leader), .. } => LeaderView::Other(leader),
                _ => LeaderView::Unknown,
            }
        }),
    decreases happenings.len(),
{
    if happenings.len() > 0 {
        law_announced_leader_always_matches_status(
            id,
            start_time,
            quorum,
            heartbeat_freq,
            timeout_freq,
            jitter,
            happenings.drop_last(),
        );
    }
}

/// A candidate that has the votes of a quorum, with the one that it gets now, leads, and lets every peer know of it. With
/// fewer it goes on collecting them.
pub proof fn law_votes_of_a_quorum_make_a_leader(
    node: RaftView,
    now: int,
    from: Seq<char>,
    votes: Set<Seq<char>>,
    term: usize,
)
    requires
        node.status == (StatusView::Candidate { votes }),
        term >= node.term,
    ensures
        ({
            let message = RaftMessage::RequestVoteResponse { term, vote: true };
            let after = node.received(now, from, message);
            &&& after.term == term
            &&& votes.insert(from).len() >= node.quorum ==> after.status == (StatusView::Leader { abdicating: false })
                && after.leader is Myself && node.reply(now, from, message) == Reply::All(RaftMessage::Heartbeat { term })
            &&& votes.insert(from).len() < node.quorum ==> after.status == (StatusView::Candidate {
                votes: votes.insert(from),
            }) && after.leader is Unknown && node.reply(now, from, message) is Nothing
        }),
{
}

/// A vote that is refused, or from an earlier term, or that comes when the node does not run, brings no votes.
pub proof fn law_refusals_bring_no_votes(node: RaftView, now: int, from: Seq<char>, term: usize, vote: bool)
    requires
        !vote || term < node.term || !(node.status is Candidate),
    ensures
        ({
            let message = RaftMessage::RequestVoteResponse { term, vote };
            &&& node.received(now, from, message).status == node.status
            &&& node.reply(now, from, message) is Nothing
        }),
{
}

/// A node is asked for its vote: in a newer term it gives it; otherwise only as a follower that has not voted for anyone
/// else. It answers who asked, with whether it votes for them and the term it is then in; and if it does, it has voted for
/// them, and waits anew, unless it had voted for them before.
pub proof fn law_first_candidate_of_a_term_gets_the_vote(node: RaftView, now: int, from: Seq<char>, term: usize)
    requires
        0 <= node.term <= usize::MAX,
    ensures
        ({
            let message = RaftMessage::RequestVote { term };
            let after = node.received(now, from, message);
            let votes = term > node.term || (node.status matches StatusView::Follower { voted_for, .. } && (
            voted_for is None || voted_for == Some(from)));
            &&& node.reply(now, from, message) == Reply::One(
                from,
                RaftMessage::RequestVoteResponse { term: after.term as usize, vote: votes },
            )
            &&& votes ==> (after.status matches StatusView::Follower { voted_for, .. } && voted_for == Some(from))
            &&& term > node.term ==> after.term == term
            &&& term <= node.term ==> after.term == node.term && after.leader == (if votes {
                match node.status {
                    StatusView::Follower { leader: Some(leader), .. } => LeaderView::Other(leader),
                    _ => LeaderView::Unknown,
                }
            } else {
                node.leader
            })
            &&& !votes ==> after == node
            &&& votes ==> after.last_event == if node.status matches StatusView::Follower { voted_for, .. } && voted_for
                == Some(from) {
                node.last_event
            } else {
                now
            }
        }),
{
}

/// A heartbeat of this term or a newer one makes the node a follower of who sent it, free to vote again, and starts its
/// wait anew.
pub proof fn law_heartbeats_are_followed(node: RaftView, now: int, from: Seq<char>, term: usize)
    requires
        term >= node.term,
    ensures
        ({
            let after = node.received(now, from, RaftMessage::Heartbeat { term });
            &&& after.status == (StatusView::Follower { leader: Some(from), voted_for: None })
            &&& after.leader == LeaderView::Other(from)
            &&& after.term == term
            &&& after.last_event == now
            &&& after.elapsed(now) == 0
        }),
{
}

/// Nodes that connect become peers, and are told at once of a leader; nodes that disconnect are none any more. As long as
/// a quorum is left, and it was not the leader that went, nothing else changes.
pub proof fn law_peers_come_and_go(node: RaftView, now: int, from: Seq<char>)
    ensures
        node.received(now, from, RaftMessage::Connect) == (RaftView { peers: node.peers.insert(from), ..node }),
        node.status == (StatusView::Leader { abdicating: false }) ==> node.reply(now, from, RaftMessage::Connect)
            == Reply::One(from, RaftMessage::Heartbeat { term: node.term as usize }),
        !(node.status == (StatusView::Leader { abdicating: false })) ==> node.reply(now, from, RaftMessage::Connect)
            is Nothing,
        node.received(now, from, RaftMessage::Disconnect).peers == node.peers.remove(from),
        node.peers.remove(from).len() + 1 >= node.quorum && !node.follows(from) ==> node.received(
            now,
            from,
            RaftMessage::Disconnect,
        ) == (RaftView { peers: node.peers.remove(from), ..node }),
{
}

/// A leader with peers that has let nothing be heard for longer than between two heartbeats sends one to all, and waits
/// anew; before that it sends nothing.
pub proof fn law_leaders_send_heartbeats(node: RaftView, now: int, jitter: int)
    requires
        node.status == (StatusView::Leader { abdicating: false }),
        node.peers.len() > 0,
        now - node.last_event <= node.timeout_freq * (node.missing_payloads + 1) - node.jitter,
        node.heartbeat_freq >= 0,
    ensures
        now - node.last_event > node.heartbeat_freq && node.election_timeout() >= 0 ==> node.tick_reply(now)
            == Reply::All(RaftMessage::Heartbeat { term: node.term as usize }) && node.ticked(now, jitter) == (RaftView {
            last_event: now,
            ..node
        }),
        now - node.last_event <= node.heartbeat_freq && node.election_timeout() >= 0 ==> node.tick_reply(now) is Nothing
            && node.ticked(now, jitter) == node,
{
}

/// A node runs for leader if, and only if, it has heard nothing for longer than a timeout, and one more for each price that
/// it is missing, less its jitter; it can reach a quorum; and it has not stepped down. It then votes for itself, in the
/// next term, and asks all peers for their votes.
pub proof fn law_elections_come_after_the_timeout(node: RaftView, now: int, jitter: int)
    requires
        now >= node.last_event,
    ensures
        node.election_due(now) <==> {
            &&& now - node.last_event > node.timeout_freq + node.timeout_freq * node.missing_payloads - node.jitter
            &&& node.peers.len() + 1 >= node.quorum
            &&& node.status != (StatusView::Leader { abdicating: true })
        },
        node.election_due(now) ==> {
            &&& node.ticked(now, jitter).status == (StatusView::Candidate { votes: set![node.id] })
            &&& node.ticked(now, jitter).term == node.term + 1
            &&& node.ticked(now, jitter).last_event == now
            &&& node.ticked(now, jitter).jitter == jitter
            &&& node.tick_reply(now) == Reply::All(RaftMessage::RequestVote { term: (node.term + 1) as usize })
        },
        !node.election_due(now) ==> node.ticked(now, jitter).term == node.term && node.ticked(now, jitter).status
            == node.status,
{
    assert(node.timeout_freq * (node.missing_payloads + 1) == node.timeout_freq + node.timeout_freq
        * node.missing_payloads) by (nonlinear_arith);
}

/// A node looks at the clock again no later than an election can come up, and as a leader no later than a heartbeat is due;
/// never in the past.
pub proof fn law_nodes_wake_up_in_time(node: RaftView, now: int)
    ensures
        node.next_event(now) >= now,
        node.peers.len() + 1 >= node.quorum && node.last_event + node.election_timeout() >= now ==> node.next_event(now)
            <= node.last_event + node.election_timeout(),
        node.status is Leader && node.last_event + node.heartbeat_freq >= now ==> node.next_event(now) <= node.last_event
            + node.heartbeat_freq,
{
}

/// A quorum is more than half of the nodes, and one node less is not.
pub proof fn law_a_quorum_is_a_majority(peers: nat)
    ensures
        2 * quorum_of(peers) > peers + 1,
        2 * (quorum_of(peers) - 1) <= peers + 1,
{
}

/// The jitter of an election is at least 50 milliseconds and less than 100.
pub proof fn law_jitter_is_short(sample: u8)
    ensures
        50_000_000 <= jitter_of(sample) < 100_000_000,
{
}

/// A leader that is told to step down does, and goes on being known as the leader until another comes; to others it means
/// nothing.
pub proof fn law_only_leaders_step_down(node: RaftView)
    ensures
        node.status is Leader ==> node.abdicated().status == (StatusView::Leader { abdicating: true }),
        !(node.status is Leader) ==> node.abdicated() == node,
        node.abdicated().leader == node.leader,
        node.abdicated().term == node.term,
{
}

/// A node that starts asks more than half of the nodes for their votes, expects a price of every synthetic, and knows of no
/// leader.
pub proof fn law_nodes_start_without_a_leader(config: &OracleConfig, id: NodeId, now: u128, raft: Raft)
    requires
        call_ensures(Raft::new, (config, id, now), raft),
        config.network.peers@.len() < usize::MAX,
    ensures
        2 * raft.state@.quorum > config.network.peers@.len() + 1,
        2 * (raft.state@.quorum - 1) <= config.network.peers@.len() + 1,
        raft.expected_payloads == config.synthetics@.len(),
        raft.state@.leader is Unknown,
        raft.state@.term == 0,
        raft.state@.heartbeat_freq == config.heartbeat,
        raft.state@.timeout_freq == config.timeout,
        raft.state@.last_event == now,
{
}

} // verus!
