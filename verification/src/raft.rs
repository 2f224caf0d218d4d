//! Leader election. Moments and durations are counted in nanoseconds.

use vstd::prelude::*;

use crate::config::OracleConfig;
use crate::names::{ascending, has_name};
use crate::network::{IncomingMessage, NodeId, NodeSet};
use crate::price_feed::PriceData;

pub mod laws;

verus! {

pub const NANOS_PER_MILLI: u128 = 1_000_000;

/// How long a node that has nothing to do waits before it looks around again.
pub const IDLE_WAIT: u128 = 10_000_000_000;

#[derive(Debug, Clone, Copy, PartialEq, Eq, Structural)]
pub enum RaftMessage {
    Connect,
    Disconnect,
    RequestVote { term: usize },
    RequestVoteResponse { term: usize, vote: bool },
    Heartbeat { term: usize },
}

#[derive(Debug, Clone, Copy, PartialEq, Eq, Structural)]
pub enum RaftCommand {
    /// If we are currently leader, step down.
    /// Stop sending heartbeats, so that another node triggers election and wins.
    Abdicate,
    /// Trigger a new election for the given term.
    ForceElection(usize),
}

pub enum RaftStatus {
    Follower { leader: Option<NodeId>, voted_for: Option<NodeId> },
    Candidate { votes: NodeSet },
    Leader { abdicating: bool },
}

#[derive(Debug, Eq)]
pub enum RaftLeader {
    Myself,
    Other(NodeId),
    Unknown,
}

/// What a node is in the current term, with nodes by name.
pub enum StatusView {
    Follower { leader: Option<Seq<char>>, voted_for: Option<Seq<char>> },
    Candidate { votes: Set<Seq<char>> },
    Leader { abdicating: bool },
}

/// Whom a node takes for the leader, by name.
pub enum LeaderView {
    Myself,
    Other(Seq<char>),
    Unknown,
}

/// The name of a node, if there is one.
pub open spec fn name_of(node: Option<NodeId>) -> Option<Seq<char>> {
    match node {
        Some(id) => Some(id@),
        None => None,
    }
}

impl View for RaftStatus {
    type V = StatusView;

    open spec fn view(&self) -> StatusView {
        match self {
            RaftStatus::Follower { leader, voted_for } => StatusView::Follower {
                leader: name_of(*leader),
                voted_for: name_of(*voted_for),
            },
            RaftStatus::Candidate { votes } => StatusView::Candidate { votes: votes@ },
            RaftStatus::Leader { abdicating } => StatusView::Leader { abdicating: *abdicating },
        }
    }
}

impl View for RaftLeader {
    type V = LeaderView;

    open spec fn view(&self) -> LeaderView {
        match self {
            RaftLeader::Myself => LeaderView::Myself,
            RaftLeader::Other(id) => LeaderView::Other(id@),
            RaftLeader::Unknown => LeaderView::Unknown,
        }
    }
}

impl Clone for RaftLeader {
    fn clone(&self) -> (r: Self)
        ensures
            r == *self,
    {
        match self {
            RaftLeader::Myself => RaftLeader::Myself,
            RaftLeader::Other(id) => RaftLeader::Other(id.clone()),
            RaftLeader::Unknown => RaftLeader::Unknown,
        }
    }
}

impl PartialEq for RaftLeader {
    fn eq(&self, other: &RaftLeader) -> (r: bool) {
        match (self, other) {
            (RaftLeader::Myself, RaftLeader::Myself) => true,
            (RaftLeader::Other(a), RaftLeader::Other(b)) => *a == *b,
            (RaftLeader::Unknown, RaftLeader::Unknown) => true,
            _ => false,
        }
    }
}

impl vstd::std_specs::cmp::PartialEqSpecImpl for RaftLeader {
    open spec fn obeys_eq_spec() -> bool {
        true
    }

    open spec fn eq_spec(&self, other: &RaftLeader) -> bool {
        self@ == other@
    }
}

/// The state of one node's part in the protocol.
pub struct RaftState {
    pub id: NodeId,
    pub quorum: usize,
    pub peers: NodeSet,
    pub warned_about_quorum: bool,
    pub last_event: u128,
    pub heartbeat_freq: u128,
    pub timeout_freq: u128,
    pub jitter: u128,
    pub missing_payloads: usize,
    pub status: RaftStatus,
    pub term: usize,
    /// The leader as last announced to the rest of the node.
    pub leader: RaftLeader,
}

/// What a node knows, with nodes by name.
pub struct RaftView {
    pub id: Seq<char>,
    pub quorum: int,
    pub peers: Set<Seq<char>>,
    pub warned_about_quorum: bool,
    pub last_event: int,
    pub heartbeat_freq: int,
    pub timeout_freq: int,
    pub jitter: int,
    pub missing_payloads: int,
    pub status: StatusView,
    pub term: int,
    pub leader: LeaderView,
}

impl View for RaftState {
    type V = RaftView;

    open spec fn view(&self) -> RaftView {
        RaftView {
            id: self.id@,
            quorum: self.quorum as int,
            peers: self.peers@,
            warned_about_quorum: self.warned_about_quorum,
            last_event: self.last_event as int,
            heartbeat_freq: self.heartbeat_freq as int,
            timeout_freq: self.timeout_freq as int,
            jitter: self.jitter as int,
            missing_payloads: self.missing_payloads as int,
            status: self.status@,
            term: self.term as int,
            leader: self.leader@,
        }
    }
}

/// What a node sends in answer to an event.
pub enum Reply {
    Nothing,
    One(Seq<char>, RaftMessage),
    /// To every peer.
    All(RaftMessage),
}

/// Whom a node in this status takes for the leader.
pub open spec fn leader_of(status: StatusView) -> LeaderView {
    match status {
        StatusView::Leader { .. } => LeaderView::Myself,
        StatusView::Follower { leader: Some(leader), .. } => LeaderView::Other(leader),
        _ => LeaderView::Unknown,
    }
}

impl RaftView {
    /// Peers and votes are finitely many, and the leader that is announced is the one that the status gives.
    pub open spec fn wf(self) -> bool {
        &&& self.peers.finite()
        &&& self.status matches StatusView::Candidate { votes } ==> votes.finite()
        &&& self.leader == leader_of(self.status)
    }

    pub open spec fn with_status(self, status: StatusView) -> RaftView {
        RaftView { status, leader: leader_of(status), ..self }
    }

    /// The node no longer knows of a leader and has not voted.
    pub open spec fn cleared(self) -> RaftView {
        self.with_status(StatusView::Follower { leader: None, voted_for: None })
    }

    /// How long without an event until the node runs for leader: each price that it is missing
    /// makes it wait for one timeout more.
    pub open spec fn election_timeout(self) -> int {
        self.timeout_freq * (self.missing_payloads + 1) - self.jitter
    }

    pub open spec fn can_reach_quorum(self) -> bool {
        self.peers.len() + 1 >= self.quorum
    }

    /// Whether this node takes that one for the leader: itself, if it leads, or the one whose heartbeats it heard.
    pub open spec fn follows(self, node: Seq<char>) -> bool {
        match self.status {
            StatusView::Leader { .. } => self.id == node,
            StatusView::Follower { leader, .. } => leader == Some(node),
            StatusView::Candidate { .. } => false,
        }
    }

    /// Whether the node votes for `from` when asked in `term`.
    pub open spec fn grants(self, from: Seq<char>, term: int) -> bool {
        term > self.term || match self.status {
            StatusView::Follower { voted_for, .. } => voted_for is None || voted_for == Some(from),
            _ => false,
        }
    }

    /// The state after a vote for `from` was asked in `term`.
    pub open spec fn asked(self, now: int, from: Seq<char>, term: int) -> RaftView {
        if !self.grants(from, term) {
            self
        } else {
            let is_new_term = term > self.term;
            let (leader, voted_for) = match self.status {
                StatusView::Follower { leader, voted_for } => (leader, voted_for),
                _ => (None, None),
            };
            RaftView {
                term: if is_new_term { term } else { self.term },
                last_event: if voted_for == Some(from) { self.last_event } else { now },
                ..self.with_status(
                    StatusView::Follower {
                        leader: if is_new_term { None } else { leader },
                        voted_for: Some(from),
                    },
                )
            }
        }
    }

    /// The state after `from` answered a request for its vote.
    pub open spec fn answered(self, from: Seq<char>, term: int, vote: bool) -> RaftView {
        match self.status {
            StatusView::Candidate { votes } if term >= self.term => {
                let at_term = RaftView { term, ..self };
                if !vote {
                    at_term
                } else if votes.insert(from).len() >= self.quorum {
                    at_term.with_status(StatusView::Leader { abdicating: false })
                } else {
                    at_term.with_status(StatusView::Candidate { votes: votes.insert(from) })
                }
            },
            _ => self,
        }
    }

    /// The state after a message.
    pub open spec fn received(self, now: int, from: Seq<char>, message: RaftMessage) -> RaftView {
        match message {
            RaftMessage::Connect => RaftView { peers: self.peers.insert(from), ..self },
            RaftMessage::Disconnect => {
                let left = RaftView { peers: self.peers.remove(from), ..self };
                if !left.can_reach_quorum() || self.follows(from) {
                    left.cleared()
                } else {
                    left
                }
            },
            RaftMessage::Heartbeat { term } => {
                if term >= self.term {
                    RaftView {
                        term: term as int,
                        warned_about_quorum: false,
                        last_event: now,
                        ..self.with_status(StatusView::Follower { leader: Some(from), voted_for: None })
                    }
                } else {
                    self
                }
            },
            RaftMessage::RequestVote { term } => self.asked(now, from, term as int),
            RaftMessage::RequestVoteResponse { term, vote } => self.answered(from, term as int, vote),
        }
    }

    /// What is sent in answer to a message.
    pub open spec fn reply(self, now: int, from: Seq<char>, message: RaftMessage) -> Reply {
        match message {
            RaftMessage::Connect => {
                if self.status == (StatusView::Leader { abdicating: false }) {
                    Reply::One(from, RaftMessage::Heartbeat { term: self.term as usize })
                } else {
                    Reply::Nothing
                }
            },
            RaftMessage::RequestVote { term } => Reply::One(
                from,
                RaftMessage::RequestVoteResponse {
                    term: self.asked(now, from, term as int).term as usize,
                    vote: self.grants(from, term as int),
                },
            ),
            RaftMessage::RequestVoteResponse { term, vote } => {
                if self.status is Candidate && self.answered(from, term as int, vote).status is Leader {
                    Reply::All(RaftMessage::Heartbeat { term })
                } else {
                    Reply::Nothing
                }
            },
            _ => Reply::Nothing,
        }
    }

    /// The state after the node has started an election for `term`.
    pub open spec fn campaigning(self, term: int, now: int, jitter: int) -> RaftView {
        RaftView {
            term,
            last_event: now,
            jitter,
            ..self.with_status(StatusView::Candidate { votes: set![self.id] })
        }
    }

    /// The state after the node was told to step down.
    pub open spec fn abdicated(self) -> RaftView {
        RaftView {
            status: if self.status is Leader {
                StatusView::Leader { abdicating: true }
            } else {
                self.status
            },
            ..self
        }
    }

    /// How long nothing has happened.
    pub open spec fn elapsed(self, now: int) -> int {
        if now > self.last_event { now - self.last_event } else { 0 }
    }

    /// Whether it is time to start an election.
    pub open spec fn election_due(self, now: int) -> bool {
        &&& self.elapsed(now) > self.election_timeout()
        &&& self.can_reach_quorum()
        &&& self.status != (StatusView::Leader { abdicating: true })
    }

    /// Whether it is time for the leader to let its peers know of it.
    pub open spec fn heartbeat_due(self, now: int) -> bool {
        &&& self.status == (StatusView::Leader { abdicating: false })
        &&& self.elapsed(now) > self.heartbeat_freq
        &&& self.elapsed(now) <= self.election_timeout()
        &&& self.peers.len() > 0
    }

    /// The state after the clock was read; `jitter` is what an election drew.
    pub open spec fn ticked(self, now: int, jitter: int) -> RaftView {
        if self.election_due(now) {
            self.campaigning(self.term + 1, now, jitter)
        } else if self.elapsed(now) > self.election_timeout() && !self.can_reach_quorum() {
            RaftView { warned_about_quorum: true, ..self }
        } else if self.heartbeat_due(now) {
            RaftView { last_event: now, ..self }
        } else {
            self
        }
    }

    /// What is sent when the clock is read.
    pub open spec fn tick_reply(self, now: int) -> Reply {
        if self.election_due(now) {
            Reply::All(RaftMessage::RequestVote { term: (self.term + 1) as usize })
        } else if self.heartbeat_due(now) {
            Reply::All(RaftMessage::Heartbeat { term: self.term as usize })
        } else {
            Reply::Nothing
        }
    }

    /// When the node next has to act on its own.
    pub open spec fn next_event(self, now: int) -> int {
        let idle = now + IDLE_WAIT;
        let election = self.last_event + self.election_timeout();
        let heartbeat = self.last_event + self.heartbeat_freq;
        let first = if self.can_reach_quorum() && election < idle { election } else { idle };
        let next = if self.status is Leader && heartbeat < first { heartbeat } else { first };
        if next < now { now } else { next }
    }
}

/// The messages carry out the reply: to one node, or in alphabetical order to every peer.
pub open spec fn carries_out(messages: Seq<(NodeId, RaftMessage)>, reply: Reply, peers: Set<Seq<char>>) -> bool {
    match reply {
        Reply::Nothing => messages.len() == 0,
        Reply::One(to, message) => messages.len() == 1 && messages[0].0@ == to && messages[0].1 == message,
        Reply::All(message) => {
            let to = Seq::new(messages.len(), |i: int| messages[i].0);
            &&& ascending(to)
            &&& forall|name: Seq<char>| #[trigger] peers.contains(name) <==> has_name(to, name)
            &&& forall|i: int| 0 <= i < messages.len() ==> (#[trigger] messages[i]).1 == message
        },
    }
}

/// `rand`'s `gen_range(50..100)`: a number from fifty up to and without one hundred.
#[verifier::external_body]
fn random_first_jitter() -> (r: u64)
    ensures
        50 <= r < 100,
{
    rand::Rng::gen_range(&mut rand::thread_rng(), 50..100)
}

/// `rand`'s `random`: any byte.
#[verifier::external_body]
fn random_byte() -> (r: u8) {
    rand::random::<u8>()
}

/// The jitter, in nanoseconds, that an election makes of a random byte: from 50 up to 99 milliseconds.
pub open spec fn jitter_of(sample: u8) -> int {
    (sample % 50 + 50) * NANOS_PER_MILLI
}

impl RaftState {
    pub open spec fn wf(&self) -> bool {
        self.leader@ == leader_of(self.status@)
    }

    /// The election timeout can be computed: it is not negative and not too large.
    pub open spec fn timeout_fits(&self) -> bool {
        &&& self.timeout_freq * (self.missing_payloads + 1) <= u128::MAX
        &&& self@.election_timeout() >= 0
    }

    pub fn new(id: NodeId, start_time: u128, quorum: usize, heartbeat_freq: u128, timeout_freq: u128) -> (r: Self)
        ensures
            50 * NANOS_PER_MILLI <= r.jitter < 100 * NANOS_PER_MILLI,
            r.wf(),
            r@ == RaftState::initial(id@, start_time, quorum, heartbeat_freq, timeout_freq, r.jitter as int),
    {
        let millis: u64 = random_first_jitter();
        Self::with_jitter(id, start_time, quorum, heartbeat_freq, timeout_freq, millis as u128 * NANOS_PER_MILLI)
    }

    /// A node that has just started: no peers, no leader, no vote.
    pub open spec fn initial(
        id: Seq<char>,
        start_time: u128,
        quorum: usize,
        heartbeat_freq: u128,
        timeout_freq: u128,
        jitter: int,
    ) -> RaftView {
        RaftView {
            id,
            quorum: quorum as int,
            peers: Set::empty(),
            warned_about_quorum: false,
            last_event: start_time as int,
            heartbeat_freq: heartbeat_freq as int,
            timeout_freq: timeout_freq as int,
            jitter,
            missing_payloads: 0,
            status: StatusView::Follower { leader: None, voted_for: None },
            term: 0,
            leader: LeaderView::Unknown,
        }
    }

    /// `new`, with the jitter given.
    pub fn with_jitter(
        id: NodeId,
        start_time: u128,
        quorum: usize,
        heartbeat_freq: u128,
        timeout_freq: u128,
        jitter: u128,
    ) -> (r: Self)
        ensures
            r.wf(),
            r@ == RaftState::initial(id@, start_time, quorum, heartbeat_freq, timeout_freq, jitter as int),
    {
        RaftState {
            id,
            quorum,
            peers: NodeSet::new(),
            warned_about_quorum: false,
            last_event: start_time,
            heartbeat_freq,
            timeout_freq,
            jitter,
            missing_payloads: 0,
            status: RaftStatus::Follower { leader: None, voted_for: None },
            term: 0,
            leader: RaftLeader::Unknown,
        }
    }

    fn can_reach_quorum(&self) -> (r: bool)
        ensures
            r == self@.can_reach_quorum(),
    {
        let peers: usize = self.peers.len();
        self.quorum == 0 || peers >= self.quorum - 1
    }

    fn election_timeout(&self) -> (r: u128)
        requires
            self.timeout_fits(),
        ensures
            r == self@.election_timeout(),
    {
        let waits: u128 = self.missing_payloads as u128 + 1;
        assert(self.timeout_freq * waits <= u128::MAX);
        let total: u128 = self.timeout_freq * waits;
        total - self.jitter
    }

    /// How long until the next time we need to take action on our own?
    pub fn next_event(&self, now: u128) -> (r: u128)
        requires
            self.timeout_fits(),
            now + IDLE_WAIT <= u128::MAX,
            self.last_event + self@.election_timeout() <= u128::MAX,
            self.last_event + self.heartbeat_freq <= u128::MAX,
        ensures
            r == self@.next_event(now as int),
            r >= now,
    {
        // This is only relevant when there aren't enough nodes connected to do raft,
        // and it just controls how long we wait to warn about not having quorum.
        let mut next: u128 = now + IDLE_WAIT;
        if self.can_reach_quorum() {
            // If we can reach quorum, this is when we'll hold our next election.
            let election: u128 = self.last_event + self.election_timeout();
            if election < next {
                next = election;
            }
        }
        if matches!(self.status, RaftStatus::Leader { .. }) {
            // If we're the leader, this is when we'll send our next heartbeat.
            let heartbeat: u128 = self.last_event + self.heartbeat_freq;
            if heartbeat < next {
                next = heartbeat;
            }
        }
        if next < now {
            now
        } else {
            next
        }
    }

    fn set_status(&mut self, status: RaftStatus)
        ensures
            final(self).wf(),
            final(self)@ == old(self)@.with_status(status@),
    {
        self.leader = match &status {
            RaftStatus::Leader { .. } => RaftLeader::Myself,
            RaftStatus::Follower { leader: Some(leader), .. } => RaftLeader::Other(leader.clone()),
            _ => RaftLeader::Unknown,
        };
        self.status = status;
    }

    fn clear_status(&mut self)
        ensures
            final(self).wf(),
            final(self)@ == old(self)@.cleared(),
    {
        self.set_status(RaftStatus::Follower { leader: None, voted_for: None });
    }

    /// One message for every peer.
    fn to_all(&self, message: RaftMessage) -> (r: Vec<(NodeId, RaftMessage)>)
        ensures
            carries_out(r@, Reply::All(message), self@.peers),
    {
        let ids = self.peers.ids();
        let mut messages: Vec<(NodeId, RaftMessage)> = Vec::new();
        let mut i: usize = 0;
        while i < ids.len()
            invariant
                i <= ids.len(),
                messages.len() == i,
                forall|j: int| 0 <= j < i ==> (#[trigger] messages@[j]).0 == ids@[j] && messages@[j].1 == message,
            decreases ids.len() - i,
        {
            messages.push((ids[i].clone(), message));
            i += 1;
        }
        assert(Seq::new(messages@.len(), |i: int| messages@[i].0) =~= ids@);
        messages
    }

    fn to_one(to: &NodeId, message: RaftMessage) -> (r: Vec<(NodeId, RaftMessage)>)
        ensures
            r.len() == 1,
            r@[0].0 == *to,
            r@[0].1 == message,
    {
        let mut messages: Vec<(NodeId, RaftMessage)> = Vec::new();
        messages.push((to.clone(), message));
        messages
    }

    /// Whether the current leader, if any is known, is `node`.
    fn follows(&self, node: &NodeId) -> (r: bool)
        ensures
            r == self@.follows(node@),
    {
        match &self.status {
            RaftStatus::Leader { .. } => self.id == *node,
            RaftStatus::Follower { leader: Some(leader), .. } => *leader == *node,
            _ => false,
        }
    }

    /// If we are currently leader, stop acting as one.
    pub fn abdicate(&mut self) -> (r: Vec<(NodeId, RaftMessage)>)
        requires
            old(self).wf(),
        ensures
            final(self).wf(),
            final(self)@ == old(self)@.abdicated(),
            r.len() == 0,
    {
        if matches!(self.status, RaftStatus::Leader { .. }) {
            self.status = RaftStatus::Leader { abdicating: true };
        }
        Vec::new()
    }

    /// Notes how many prices we cannot report.
    pub fn set_missing_payloads(&mut self, missing_payloads: usize) -> (r: Vec<(NodeId, RaftMessage)>)
        requires
            old(self).wf(),
        ensures
            final(self).wf(),
            final(self)@ == (RaftView { missing_payloads: missing_payloads as int, ..old(self)@ }),
            r.len() == 0,
    {
        self.missing_payloads = missing_payloads;
        Vec::new()
    }

    /// Takes in a message, and answers it.
    pub fn receive(&mut self, timestamp: u128, message: IncomingMessage<RaftMessage>) -> (r: Vec<(NodeId, RaftMessage)>)
        requires
            old(self).wf(),
            message.data is Disconnect ==> old(self).quorum >= 1,
        ensures
            final(self).wf(),
            final(self)@ == old(self)@.received(timestamp as int, message.from@, message.data),
            carries_out(
                r@,
                old(self)@.reply(timestamp as int, message.from@, message.data),
                old(self)@.peers,
            ),
    {
        let from = message.from;
        match message.data {
            RaftMessage::Connect => {
                let to = from.clone();
                self.peers.insert(from);
                if matches!(self.status, RaftStatus::Leader { abdicating: false }) {
                    // Let them know right away that we're the leader
                    Self::to_one(&to, RaftMessage::Heartbeat { term: self.term })
                } else {
                    Vec::new()
                }
            },
            RaftMessage::Disconnect => {
                self.peers.remove(&from);
                if !self.can_reach_quorum() || self.follows(&from) {
                    self.clear_status();
                }
                Vec::new()
            },
            RaftMessage::Heartbeat { term } => {
                if term >= self.term {
                    self.term = term;
                    self.set_status(RaftStatus::Follower { leader: Some(from), voted_for: None });
                    self.warned_about_quorum = false;
                    self.last_event = timestamp;
                }
                Vec::new()
            },
            RaftMessage::RequestVote { term } => {
                let vote = self.cast_vote(timestamp, &from, term);
                Self::to_one(&from, RaftMessage::RequestVoteResponse { term: self.term, vote })
            },
            RaftMessage::RequestVoteResponse { term, vote } => {
                if self.count_vote(from, term, vote) {
                    // Immediately send a heartbeat to make leader election stable
                    self.to_all(RaftMessage::Heartbeat { term })
                } else {
                    Vec::new()
                }
            },
        }
    }

    /// Decides whether to vote for `from`, and notes it.
    fn cast_vote(&mut self, timestamp: u128, from: &NodeId, requested_term: usize) -> (vote: bool)
        requires
            old(self).wf(),
        ensures
            final(self).wf(),
            vote == old(self)@.grants(from@, requested_term as int),
            final(self)@ == old(self)@.asked(timestamp as int, from@, requested_term as int),
    {
        let is_new_term = requested_term > self.term;
        let already_voted = match &self.status {
            RaftStatus::Follower { voted_for: Some(candidate), .. } => *candidate == *from,
            _ => false,
        };
        let vote = is_new_term || already_voted || matches!(self.status, RaftStatus::Follower { voted_for: None, .. });
        if vote {
            let leader = match &self.status {
                RaftStatus::Follower { leader: Some(leader), .. } if !is_new_term => Some(leader.clone()),
                _ => None,
            };
            if is_new_term {
                self.term = requested_term;
            }
            if !already_voted {
                // If we're newly voting for someone, reset the election timeout
                self.last_event = timestamp;
            }
            self.set_status(RaftStatus::Follower { leader, voted_for: Some(from.clone()) });
        }
        vote
    }

    /// Counts a vote, and says whether it won us the election.
    fn count_vote(&mut self, from: NodeId, term: usize, vote: bool) -> (won: bool)
        requires
            old(self).wf(),
        ensures
            final(self).wf(),
            final(self)@ == old(self)@.answered(from@, term as int, vote),
            won == (old(self)@.status is Candidate && final(self)@.status is Leader),
    {
        if !matches!(self.status, RaftStatus::Candidate { .. }) || term < self.term {
            return false;
        }
        self.term = term;
        if !vote {
            return false;
        }
        let mut status = RaftStatus::Leader { abdicating: false };
        core::mem::swap(&mut self.status, &mut status);
        match status {
            RaftStatus::Candidate { mut votes } => {
                votes.insert(from);
                if votes.len() >= self.quorum {
                    self.set_status(RaftStatus::Leader { abdicating: false });
                    true
                } else {
                    self.set_status(RaftStatus::Candidate { votes });
                    false
                }
            },
            _ => false,
        }
    }

    /// Looks at the clock: starts an election or sends heartbeats when it is time to.
    pub fn tick(&mut self, timestamp: u128) -> (r: Vec<(NodeId, RaftMessage)>)
        requires
            old(self).wf(),
            old(self).timeout_fits(),
            old(self)@.election_due(timestamp as int) ==> old(self).term < usize::MAX,
        ensures
            final(self).wf(),
            exists|sample: u8| final(self)@ == old(self)@.ticked(timestamp as int, #[trigger] jitter_of(sample)),
            carries_out(r@, old(self)@.tick_reply(timestamp as int), old(self)@.peers),
    {
        let actual_timeout: u128 = self.election_timeout();
        let elapsed: u128 = if timestamp > self.last_event { timestamp - self.last_event } else { 0 };
        let can_reach_quorum = self.can_reach_quorum();
        let abdicating = matches!(self.status, RaftStatus::Leader { abdicating: true });
        let leading = matches!(self.status, RaftStatus::Leader { abdicating: false });
        let ghost before = self@;
        if elapsed > actual_timeout && can_reach_quorum && !abdicating {
            return self.run_election(self.term + 1, timestamp);
        }
        let mut messages: Vec<(NodeId, RaftMessage)> = Vec::new();
        if elapsed > actual_timeout && !can_reach_quorum {
            self.warned_about_quorum = true;
        } else if leading && elapsed <= actual_timeout && elapsed > self.heartbeat_freq && self.peers.len() > 0 {
            self.last_event = timestamp;
            messages = self.to_all(RaftMessage::Heartbeat { term: self.term });
        }
        assert(self@ == before.ticked(timestamp as int, jitter_of(0)));
        messages
    }

    /// Starts an election for `term`, with a jitter drawn anew to avoid aggressive election cycles.
    pub fn run_election(&mut self, term: usize, timestamp: u128) -> (r: Vec<(NodeId, RaftMessage)>)
        requires
            old(self).wf(),
        ensures
            final(self).wf(),
            exists|sample: u8| final(self)@ == old(self)@.campaigning(term as int, timestamp as int, #[trigger] jitter_of(sample)),
            carries_out(r@, Reply::All(RaftMessage::RequestVote { term }), old(self)@.peers),
    {
        let sample: u8 = random_byte();
        self.start_election(term, timestamp, sample)
    }

    /// Starts an election for `term`; `sample` is the random byte that its jitter is made of.
    pub fn start_election(&mut self, term: usize, timestamp: u128, sample: u8) -> (r: Vec<(NodeId, RaftMessage)>)
        requires
            old(self).wf(),
        ensures
            final(self).wf(),
            final(self)@ == old(self)@.campaigning(term as int, timestamp as int, jitter_of(sample)),
            carries_out(r@, Reply::All(RaftMessage::RequestVote { term }), old(self)@.peers),
    {
        let millis: u8 = sample % 50 + 50;
        self.jitter = millis as u128 * NANOS_PER_MILLI;
        let mut votes = NodeSet::new();
        votes.insert(self.id.clone());
        assert(votes@ =~= set![self.id@]);
        self.set_status(RaftStatus::Candidate { votes });
        self.term = term;
        self.last_event = timestamp;
        self.to_all(RaftMessage::RequestVote { term })
    }

    /// Carries out a command from the rest of the node.
    pub fn execute(&mut self, command: RaftCommand, timestamp: u128) -> (r: Vec<(NodeId, RaftMessage)>)
        requires
            old(self).wf(),
        ensures
            final(self).wf(),
            match command {
                RaftCommand::Abdicate => r.len() == 0 && final(self)@ == old(self)@.abdicated(),
                RaftCommand::ForceElection(term) => {
                    &&& exists|sample: u8| final(self)@ == old(self)@.campaigning(
                        term as int,
                        timestamp as int,
                        #[trigger] jitter_of(sample),
                    )
                    &&& carries_out(r@, Reply::All(RaftMessage::RequestVote { term }), old(self)@.peers)
                },
            },
    {
        match command {
            RaftCommand::Abdicate => self.abdicate(),
            RaftCommand::ForceElection(term) => self.run_election(term, timestamp),
        }
    }
}

/// A majority of the nodes: of this many peers and this node.
pub open spec fn quorum_of(peers: nat) -> nat {
    (peers + 1) / 2 + 1
}

/// What can happen to a node.
pub enum RaftEvent {
    Message(IncomingMessage<RaftMessage>),
    Command(RaftCommand),
    /// The prices that this node can report have changed.
    Prices(PriceData),
    /// The moment of the next event is there.
    Tick,
}

/// A node's part in the protocol, with its configuration.
pub struct Raft {
    pub id: NodeId,
    pub expected_payloads: usize,
    pub state: RaftState,
}

impl Raft {
    /// A node that starts now. It expects a price for every synthetic, and asks a majority of the nodes for votes.
    pub fn new(config: &OracleConfig, id: NodeId, now: u128) -> (r: Self)
        requires
            config.network.peers@.len() < usize::MAX,
        ensures
            r.id == id,
            r.expected_payloads == config.synthetics@.len(),
            50 * NANOS_PER_MILLI <= r.state.jitter < 100 * NANOS_PER_MILLI,
            r.state.wf(),
            r.state@ == RaftState::initial(
                id@,
                now,
                quorum_of(config.network.peers@.len()) as usize,
                config.heartbeat,
                config.timeout,
                r.state.jitter as int,
            ),
    {
        let quorum: usize = (config.network.peers.len() + 1) / 2 + 1;
        let state = RaftState::new(id.clone(), now, quorum, config.heartbeat, config.timeout);
        Raft { id, expected_payloads: config.synthetics.len(), state }
    }

    /// Whether what happens can be dealt with.
    pub open spec fn admits(&self, event: RaftEvent, now: u128) -> bool {
        &&& self.state.wf()
        &&& match event {
            RaftEvent::Message(message) => message.data is Disconnect ==> self.state.quorum >= 1,
            RaftEvent::Command(_) => true,
            RaftEvent::Prices(prices) => prices.synthetics@.len() <= self.expected_payloads,
            RaftEvent::Tick => {
                &&& self.state.timeout_fits()
                &&& self.state@.election_due(now as int) ==> self.state.term < usize::MAX
            },
        }
    }

    /// What a node knows after something has happened to it; elections draw their jitter from `sample`.
    pub open spec fn handled(&self, event: RaftEvent, now: u128, sample: u8) -> RaftView {
        match event {
            RaftEvent::Message(message) => self.state@.received(now as int, message.from@, message.data),
            RaftEvent::Command(RaftCommand::Abdicate) => self.state@.abdicated(),
            RaftEvent::Command(RaftCommand::ForceElection(term)) => self.state@.campaigning(
                term as int,
                now as int,
                jitter_of(sample),
            ),
            RaftEvent::Prices(prices) => RaftView {
                missing_payloads: self.expected_payloads - prices.synthetics@.len(),
                ..self.state@
            },
            RaftEvent::Tick => self.state@.ticked(now as int, jitter_of(sample)),
        }
    }

    /// What a node sends when something has happened to it.
    pub open spec fn response(&self, event: RaftEvent, now: u128) -> Reply {
        match event {
            RaftEvent::Message(message) => self.state@.reply(now as int, message.from@, message.data),
            RaftEvent::Command(RaftCommand::ForceElection(term)) => Reply::All(RaftMessage::RequestVote { term }),
            RaftEvent::Tick => self.state@.tick_reply(now as int),
            _ => Reply::Nothing,
        }
    }

    /// What those who were told of this leader have to be told now, if anything: who leads, where that has changed.
    pub fn announcement(&self, told: &RaftLeader) -> (r: Option<RaftLeader>)
        ensures
            r is Some <==> told@ != self.state@.leader,
            r matches Some(leader) ==> leader@ == self.state@.leader,
    {
        if *told == self.state.leader {
            None
        } else {
            Some(self.state.leader.clone())
        }
    }

    /// Something has happened to the node. Gives the messages to send.
    pub fn handle(&mut self, event: RaftEvent, now: u128) -> (r: Vec<(NodeId, RaftMessage)>)
        requires
            old(self).admits(event, now),
        ensures
            final(self).id == old(self).id,
            final(self).expected_payloads == old(self).expected_payloads,
            final(self).state.wf(),
            exists|sample: u8| final(self).state@ == #[trigger] old(self).handled(event, now, sample),
            carries_out(r@, old(self).response(event, now), old(self).state@.peers),
    {
        let ghost before = *self;
        match event {
            RaftEvent::Message(message) => {
                let messages = self.state.receive(now, message);
                assert(self.state@ == before.handled(event, now, 0));
                messages
            },
            RaftEvent::Command(command) => {
                let messages = self.state.execute(command, now);
                proof {
                    if let RaftCommand::ForceElection(term) = command {
                        let sample = choose|sample: u8| self.state@ == before.state@.campaigning(
                            term as int,
                            now as int,
                            #[trigger] jitter_of(sample),
                        );
                        assert(self.state@ == before.handled(event, now, sample));
                    } else {
                        assert(self.state@ == before.handled(event, now, 0));
                    }
                }
                messages
            },
            RaftEvent::Prices(prices) => {
                let missing_payloads: usize = self.expected_payloads - prices.synthetics.len();
                let messages = self.state.set_missing_payloads(missing_payloads);
                assert(self.state@ == before.handled(event, now, 0));
                messages
            },
            RaftEvent::Tick => {
                let messages = self.state.tick(now);
                proof {
                    let sample = choose|sample: u8| self.state@ == before.state@.ticked(
                        now as int,
                        #[trigger] jitter_of(sample),
                    );
                    assert(self.state@ == before.handled(event, now, sample));
                }
                messages
            },
        }
    }
}

} // verus!
