//! The round-based voting state machine of one chain.
//!
//! For the height at the tip, the manager moves through the phases
//! open, proposed, validated, committed: a proposal for the current round
//! produces a vote for a validated block; a validated-block certificate
//! produces the final vote for a confirmed block and locks the certified
//! value; a timeout certificate for the current round or a later one opens
//! the next round.  A newer round always wins, and once a value is locked at
//! a round, no different value is voted for at that round or an earlier one.

use vstd::prelude::*;
use crate::block::{TimeoutCertificate, ValidatedBlockCertificate};
use crate::types::CryptoHash;

verus! {

/// The kind of a vote the worker may issue.
#[derive(Clone, Copy, PartialEq, Eq, Structural, Debug)]
pub enum VoteKind {
    ValidatedBlock,
    ConfirmedBlock,
    Timeout,
    Fallback,
}

/// A vote: what kind, for which height and round, and — for block votes —
/// the hash of the value voted for.
#[derive(Clone, Copy, PartialEq, Eq, Structural, Debug)]
pub struct Vote {
    pub kind: VoteKind,
    pub height: u64,
    pub round: u64,
    pub value_hash: Option<CryptoHash>,
}

/// A proposal registered for the current height.
#[derive(Clone, Copy, PartialEq, Eq, Structural, Debug)]
pub struct ProposalRecord {
    pub round: u64,
    pub block_hash: CryptoHash,
}

/// The value locked by the final vote: the round and the hash of the
/// validated-block certificate that produced it.
#[derive(Clone, Copy, PartialEq, Eq, Structural, Debug)]
pub struct LockedValue {
    pub round: u64,
    pub hash: CryptoHash,
}

/// The outcome of checking a validated-block certificate against the
/// manager's state.
#[derive(Clone, Copy, PartialEq, Eq, Structural, Debug)]
pub enum Outcome {
    Accept,
    Skip,
}

/// The consensus manager of one chain, for the height at the tip.
#[derive(Clone, Copy, PartialEq, Eq, Structural, Debug)]
pub struct ConsensusManager {
    /// The current voting round.
    pub current_round: u64,
    /// The proposal seen for the current height, if any.
    pub proposed: Option<ProposalRecord>,
    /// The value locked by a final vote, if any.
    pub locked: Option<LockedValue>,
    /// The newest block vote issued.
    pub pending_vote: Option<Vote>,
    /// The timeout vote issued for the current round, if any.
    pub timeout_vote: Option<Vote>,
    /// The fallback vote issued, if any.
    pub fallback_vote: Option<Vote>,
}

impl ConsensusManager {
    /// The manager of a freshly opened height: round 0, nothing seen.
    pub open spec fn spec_fresh() -> ConsensusManager {
        ConsensusManager {
            current_round: 0,
            proposed: None,
            locked: None,
            pending_vote: None,
            timeout_vote: None,
            fallback_vote: None,
        }
    }

    /// Whether a validated-block certificate at `round` is to be skipped:
    /// a value is already locked at that round or a later one.
    pub open spec fn spec_should_skip(&self, round: u64) -> bool {
        match self.locked {
            Some(l) => l.round >= round,
            None => false,
        }
    }

    /// The manager of a freshly opened height.
    pub fn fresh() -> (r: ConsensusManager)
        ensures
            r == ConsensusManager::spec_fresh(),
    {
        ConsensusManager {
            current_round: 0,
            proposed: None,
            locked: None,
            pending_vote: None,
            timeout_vote: None,
            fallback_vote: None,
        }
    }

    /// The current round.
    pub fn current_round(&self) -> (r: u64)
        ensures
            r == self.current_round,
    {
        self.current_round
    }

    /// Handles a timeout certificate: a timeout for the current round or a
    /// later one opens the round after the certificate's round and discards
    /// the proposal it supersedes.  An older round's timeout changes nothing.
    /// At the largest representable round the manager stays where it is.
    pub fn handle_timeout_certificate(&mut self, certificate: &TimeoutCertificate)
        ensures
            certificate.value.round >= old(self).current_round && certificate.value.round
                < u64::MAX ==> *final(self) == (ConsensusManager {
                current_round: (certificate.value.round + 1) as u64,
                proposed: None,
                timeout_vote: None,
                ..*old(self)
            }),
            !(certificate.value.round >= old(self).current_round && certificate.value.round
                < u64::MAX) ==> *final(self) == *old(self),
            final(self).current_round >= old(self).current_round,
            final(self).locked == old(self).locked,
    {
        if certificate.value.round >= self.current_round && certificate.value.round < u64::MAX {
            self.current_round = certificate.value.round + 1;
            self.proposed = None;
            self.timeout_vote = None;
        }
    }

    /// Checks whether a validated-block certificate should be skipped.
    pub fn check_validated_block(&self, certificate: &ValidatedBlockCertificate) -> (r: Outcome)
        ensures
            r == (if self.spec_should_skip(certificate.round) {
                Outcome::Skip
            } else {
                Outcome::Accept
            }),
    {
        match &self.locked {
            Some(l) => if l.round >= certificate.round {
                Outcome::Skip
            } else {
                Outcome::Accept
            },
            None => Outcome::Accept,
        }
    }

    /// Registers a proposal for the current round and issues the vote for the
    /// validated block, or returns `None` when the proposal is not for the
    /// current round, a proposal was already registered, or a value is
    /// already locked at this round or a later one.
    pub fn create_vote(&mut self, round: u64, block_hash: CryptoHash, height: u64) -> (r: Option<
        Vote,
    >)
        ensures
            ({
                let accepted = round == old(self).current_round && old(self).proposed is None
                    && !old(self).spec_should_skip(round);
                match r {
                    Some(v) => {
                        &&& accepted
                        &&& v == (Vote {
                            kind: VoteKind::ValidatedBlock,
                            height,
                            round,
                            value_hash: Some(block_hash),
                        })
                        &&& *final(self) == (ConsensusManager {
                            proposed: Some(ProposalRecord { round, block_hash }),
                            pending_vote: Some(v),
                            ..*old(self)
                        })
                    },
                    None => !accepted && *final(self) == *old(self),
                }
            }),
    {
        let skip = match &self.locked {
            Some(l) => l.round >= round,
            None => false,
        };
        if round == self.current_round && self.proposed.is_none() && !skip {
            let vote = Vote {
                kind: VoteKind::ValidatedBlock,
                height,
                round,
                value_hash: Some(block_hash),
            };
            self.proposed = Some(ProposalRecord { round, block_hash });
            self.pending_vote = Some(vote);
            Some(vote)
        } else {
            None
        }
    }

    /// Locks the certified value and issues the final vote for the confirmed
    /// block.  The caller must have checked that the certificate is not to be
    /// skipped.
    pub fn create_final_vote(&mut self, certificate: &ValidatedBlockCertificate) -> (v: Vote)
        requires
            !old(self).spec_should_skip(certificate.round),
        ensures
            v == (Vote {
                kind: VoteKind::ConfirmedBlock,
                height: certificate.block.header.height,
                round: certificate.round,
                value_hash: Some(certificate.hash),
            }),
            *final(self) == (ConsensusManager {
                current_round: if certificate.round > old(self).current_round {
                    certificate.round
                } else {
                    old(self).current_round
                },
                locked: Some(LockedValue { round: certificate.round, hash: certificate.hash }),
                pending_vote: Some(v),
                ..*old(self)
            }),
            final(self).spec_should_skip(certificate.round),
    {
        let vote = Vote {
            kind: VoteKind::ConfirmedBlock,
            height: certificate.block.header.height,
            round: certificate.round,
            value_hash: Some(certificate.hash),
        };
        if certificate.round > self.current_round {
            self.current_round = certificate.round;
        }
        self.locked = Some(LockedValue { round: certificate.round, hash: certificate.hash });
        self.pending_vote = Some(vote);
        vote
    }

    /// Issues a vote for a leader timeout of the current round, once per
    /// round.  Returns whether a new vote was issued.
    pub fn vote_timeout(&mut self, height: u64) -> (r: bool)
        ensures
            r == !(old(self).timeout_vote matches Some(v) && v.round == old(self).current_round),
            r ==> *final(self) == (ConsensusManager {
                timeout_vote: Some(Vote {
                    kind: VoteKind::Timeout,
                    height,
                    round: old(self).current_round,
                    value_hash: None,
                }),
                ..*old(self)
            }),
            !r ==> *final(self) == *old(self),
    {
        let already = match &self.timeout_vote {
            Some(v) => v.round == self.current_round,
            None => false,
        };
        if already {
            false
        } else {
            self.timeout_vote = Some(Vote {
                kind: VoteKind::Timeout,
                height,
                round: self.current_round,
                value_hash: None,
            });
            true
        }
    }

    /// Issues a vote for falling back to a public chain, once.  Returns
    /// whether a new vote was issued.
    pub fn vote_fallback(&mut self, height: u64) -> (r: bool)
        ensures
            r == (old(self).fallback_vote is None),
            r ==> *final(self) == (ConsensusManager {
                fallback_vote: Some(Vote {
                    kind: VoteKind::Fallback,
                    height,
                    round: old(self).current_round,
                    value_hash: None,
                }),
                ..*old(self)
            }),
            !r ==> *final(self) == *old(self),
    {
        if self.fallback_vote.is_none() {
            self.fallback_vote = Some(Vote {
                kind: VoteKind::Fallback,
                height,
                round: self.current_round,
                value_hash: None,
            });
            true
        } else {
            false
        }
    }

    /// Resets the manager when a block commits and the next height opens.
    pub fn reset(&mut self)
        ensures
            *final(self) == ConsensusManager::spec_fresh(),
    {
        *self = ConsensusManager::fresh();
    }
}

/// Once a final vote locks a value at a round, a validated-block certificate
/// for the same round — or an earlier one — is skipped, and the locked value
/// stays what the final vote made it.  The same worker therefore never
/// accepts two different validated-block certificates for one round.
pub proof fn lemma_no_equivocation(
    pre: ConsensusManager,
    post: ConsensusManager,
    vote: Vote,
    round: u64,
    hash: CryptoHash,
    height: u64,
    other_round: u64,
)
    requires
        !pre.spec_should_skip(round),
        vote == (Vote {
            kind: VoteKind::ConfirmedBlock,
            height,
            round,
            value_hash: Some(hash),
        }),
        post == (ConsensusManager {
            current_round: if round > pre.current_round {
                round
            } else {
                pre.current_round
            },
            locked: Some(LockedValue { round, hash }),
            pending_vote: Some(vote),
            ..pre
        }),
        other_round <= round,
    ensures
        post.spec_should_skip(other_round),
        post.locked == Some(LockedValue { round, hash }),
        post.pending_vote == Some(vote),
{
}

} // verus!
