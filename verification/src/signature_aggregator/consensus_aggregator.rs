//! When rounds of signing begin and end.

use vstd::prelude::*;

use crate::config::OracleConfig;
use crate::raft::RaftLeader;
use crate::signature_aggregator::signer::SignerEvent;

verus! {

/// Half a round passes between two ticks.
pub enum RoundClock {
    /// No round is under way.
    Idle,
    /// This round has begun.
    Started(String),
}

/// The round that has begun, if one has.
pub open spec fn round_in(clock: RoundClock) -> Option<Seq<char>> {
    match clock {
        RoundClock::Idle => None,
        RoundClock::Started(round) => Some(round@),
    }
}

/// What a leader tells its signer.
pub enum RoundEvent {
    Started(Seq<char>),
    GracePeriodEnded(Seq<char>),
}

/// The event that a tick brings: every other tick a new round begins, and half a round later its grace period is
/// over. Both are for the leader only.
pub open spec fn round_event(round: Option<Seq<char>>, is_leader: bool, next: Seq<char>) -> Option<RoundEvent> {
    if !is_leader {
        None
    } else {
        match round {
            None => Some(RoundEvent::Started(next)),
            Some(round) => Some(RoundEvent::GracePeriodEnded(round)),
        }
    }
}

/// The round that is under way after a tick.
pub open spec fn round_after(round: Option<Seq<char>>, is_leader: bool, next: Seq<char>) -> Option<Seq<char>> {
    if is_leader && round is None {
        Some(next)
    } else {
        None
    }
}

/// Whether this is what the signer is to be told.
pub open spec fn is_round_event(event: Option<SignerEvent>, expected: Option<RoundEvent>) -> bool {
    match (event, expected) {
        (Some(SignerEvent::RoundStarted(round)), Some(RoundEvent::Started(expected))) => round@ == expected,
        (Some(SignerEvent::RoundGracePeriodEnded(round)), Some(RoundEvent::GracePeriodEnded(expected))) => round@
            == expected,
        (None, None) => true,
        _ => false,
    }
}

impl RoundClock {
    pub fn new() -> (r: Self)
        ensures
            round_in(r) is None,
    {
        RoundClock::Idle
    }

    /// Half a round has passed. If a round begins, it is called `next`.
    pub fn tick(&mut self, leader: &RaftLeader, next: String) -> (r: Option<SignerEvent>)
        ensures
            round_in(*final(self)) == round_after(round_in(*old(self)), leader is Myself, next@),
            is_round_event(r, round_event(round_in(*old(self)), leader is Myself, next@)),
    {
        let is_leader = match leader {
            RaftLeader::Myself => true,
            _ => false,
        };
        let mut clock = RoundClock::Idle;
        core::mem::swap(self, &mut clock);
        if !is_leader {
            return None;
        }
        match clock {
            RoundClock::Idle => {
                *self = RoundClock::Started(next.clone());
                Some(SignerEvent::RoundStarted(next))
            },
            RoundClock::Started(round) => Some(SignerEvent::RoundGracePeriodEnded(round)),
        }
    }
}

/// A round's grace period ends half a round after it began, if the leader is still the same.
pub proof fn law_rounds_end_after_they_begin(first: Seq<char>, second: Seq<char>)
    ensures
        round_event(None, true, first) == Some(RoundEvent::Started(first)),
        round_event(round_after(None, true, first), true, second) == Some(RoundEvent::GracePeriodEnded(first)),
        round_after(round_after(None, true, first), true, second) is None,
{
}

/// What the keys of the group are kept under; nothing where that is not configured, and keys have to be made first.
pub fn load_keys_from(config: &OracleConfig) -> (r: Result<String, String>)
    ensures
        match (config.frost_address, r) {
            (Some(address), Ok(name)) => name@ == address@,
            (None, Err(reason)) => reason@ == "No frost_address found in config. Please generate frost keys."@,
            _ => false,
        },
{
    match &config.frost_address {
        Some(address) => Ok(address.clone()),
        None => Err("No frost_address found in config. Please generate frost keys.".to_owned()),
    }
}

/// Only a leader begins or ends rounds, and a node that does not lead any more has none under way. A leader has one under
/// way after every other tick.
pub proof fn law_only_leaders_have_rounds(round: Option<Seq<char>>, next: Seq<char>)
    ensures
        round_event(round, false, next) is None,
        round_after(round, false, next) is None,
        round_event(round, true, next) is Some,
        round_after(round, true, next) is Some <==> round is None,
        round_after(round, true, next) matches Some(begun) ==> round_event(round, true, next) == Some(
            RoundEvent::Started(begun),
        ),
{
}

} // verus!
