//! The chain worker: one request handler per protocol message, each an
//! all-or-nothing transaction on the chain's state.
//!
//! Every handler validates its input against the chain's current state and
//! the committee of the relevant epoch, stages its changes, and commits them
//! by saving the chain to storage; a handler that fails leaves the chain as
//! it was, except where it records pending blobs on purpose before failing
//! with `BlobsNotFound`.

use vstd::prelude::*;
use crate::block::{
    BlockExecutionOutcome, ConfirmedBlockCertificate, MessageBundle, ProposedBlock,
    TimeoutCertificate, ValidatedBlockCertificate, outcomes_eq, published_blob_ids_spec,
};
use crate::chain::{
    ChainDescription, ChainState, OutboxState, PendingBlobs, dest_in, found_has, inbox_added,
    inbox_anticipated, inbox_cursor, outbox_queue, pending_of, sched_spec,
};
use crate::committee::Committee;
use crate::errors::{EventId, WorkerError};
use crate::execution::{compute_state_digest, execute_block, state_digest, ExecutionState};
use crate::manager::{ConsensusManager, Outcome};
use crate::notifier::DeliveryNotifier;
use crate::selector::{heights_nondecreasing, selected_bundles, CrossChainUpdateHelper};
use crate::storage::{find_chain, BlobState, Storage};
use crate::types::{AccountOwner, Blob, BlobId, ChainId, CryptoHash, ValidatorPublicKey};

verus! {

/// Static configuration of a chain worker.
#[derive(Clone, Copy, PartialEq, Eq, Structural, Debug)]
pub struct ChainWorkerConfig {
    /// Accept cross-chain bundles from epochs the chain no longer trusts.
    pub allow_messages_from_deprecated_epochs: bool,
    /// Accept cross-chain bundles for chains that are not initialized yet.
    pub allow_inactive_chains: bool,
    /// Whether the chain accepts proposals from any owner in open rounds; in
    /// that case only one pending proposal is kept at a time.
    pub open_multi_leader_rounds: bool,
    /// How long an unskippable bundle may wait before the worker votes for
    /// falling back to a public chain.
    pub fallback_duration: u64,
}

impl ChainWorkerConfig {
    /// A configuration with everything at its strictest.
    pub fn new() -> (r: ChainWorkerConfig)
        ensures
            !r.allow_messages_from_deprecated_epochs,
            !r.allow_inactive_chains,
            !r.open_multi_leader_rounds,
            r.fallback_duration == 0,
    {
        ChainWorkerConfig {
            allow_messages_from_deprecated_epochs: false,
            allow_inactive_chains: false,
            open_multi_leader_rounds: false,
            fallback_duration: 0,
        }
    }
}

/// A block proposal: an owner proposes the content of the next block.
#[derive(Debug)]
pub struct BlockProposal {
    /// The proposing owner.
    pub owner: AccountOwner,
    /// The round the proposal is made in.
    pub round: u64,
    /// The hash of the proposed value, as certified by the proposer.
    pub block_hash: CryptoHash,
    /// The proposed content.
    pub block: ProposedBlock,
}

/// A summary of the chain's state, returned by every handler.
#[derive(Clone, Copy, PartialEq, Eq, Structural, Debug)]
pub struct ChainInfoResponse {
    pub chain_id: ChainId,
    pub epoch: u64,
    pub next_block_height: u64,
    pub block_hash: Option<CryptoHash>,
    pub manager: ConsensusManager,
    pub timestamp: u64,
}

/// The summary a chain state yields.
pub open spec fn info_of(c: &ChainState) -> ChainInfoResponse {
    ChainInfoResponse {
        chain_id: c.chain_id,
        epoch: c.execution_state.epoch,
        next_block_height: c.tip_state.next_block_height,
        block_hash: c.tip_state.block_hash,
        manager: c.manager,
        timestamp: c.execution_state.timestamp,
    }
}

/// Builds the summary of a chain state.
pub fn make_chain_info(c: &ChainState) -> (r: ChainInfoResponse)
    ensures
        r == info_of(c),
{
    ChainInfoResponse {
        chain_id: c.chain_id,
        epoch: c.execution_state.epoch,
        next_block_height: c.tip_state.next_block_height,
        block_hash: c.tip_state.block_hash,
        manager: c.manager,
        timestamp: c.execution_state.timestamp,
    }
}

/// Why a notification is broadcast.
#[derive(Clone, Copy, PartialEq, Eq, Structural, Debug)]
pub enum Reason {
    /// A block was confirmed at this height.
    NewBlock { height: u64, hash: CryptoHash },
    /// The consensus round advanced at this height.
    NewRound { height: u64, round: u64 },
}

/// A notification to broadcast to subscribers.
#[derive(Clone, Copy, PartialEq, Eq, Structural, Debug)]
pub struct Notification {
    pub chain_id: ChainId,
    pub reason: Reason,
}

/// A cross-chain request to send to another chain's worker: the heights of
/// the blocks whose messages await delivery to `recipient`.
#[derive(Debug)]
pub struct CrossChainRequest {
    pub recipient: ChainId,
    pub heights: Vec<u64>,
}

impl CrossChainRequest {
    /// Whether the request carries messages at `height` or below.
    pub fn has_messages_lower_or_equal_than(&self, height: u64) -> (r: bool)
        ensures
            r == exists|i: int| 0 <= i < self.heights@.len() && self.heights@[i] <= height,
    {
        let mut i: usize = 0;
        while i < self.heights.len()
            invariant
                0 <= i <= self.heights@.len(),
                forall|j: int| 0 <= j < i ==> (#[trigger] self.heights@[j]) > height,
            decreases self.heights@.len() - i,
        {
            if self.heights[i] <= height {
                return true;
            }
            i += 1;
        }
        false
    }
}

/// What a handler asks the network layer to do: forward cross-chain
/// requests, and broadcast notifications.
#[derive(Debug)]
pub struct NetworkActions {
    pub cross_chain_requests: Vec<CrossChainRequest>,
    pub notifications: Vec<Notification>,
}

impl NetworkActions {
    /// No actions.
    pub fn new() -> (r: NetworkActions)
        ensures
            r.cross_chain_requests@.len() == 0,
            r.notifications@.len() == 0,
    {
        NetworkActions { cross_chain_requests: Vec::new(), notifications: Vec::new() }
    }
}

/// The outboxes that still hold undelivered messages.
pub open spec fn nonempty_outboxes(s: Seq<(ChainId, OutboxState)>) -> Seq<(ChainId, OutboxState)> {
    s.filter(|e: (ChainId, OutboxState)| e.1.queue@.len() > 0)
}

/// Congruence between cross-chain requests and the outboxes they come from.
pub open spec fn requests_match_outboxes(
    requests: Seq<CrossChainRequest>,
    s: Seq<(ChainId, OutboxState)>,
) -> bool {
    let ne = nonempty_outboxes(s);
    &&& requests.len() == ne.len()
    &&& forall|i: int|
        0 <= i < requests.len() ==> (#[trigger] requests[i]).recipient == ne[i].0
            && requests[i].heights@ == ne[i].1.queue@
}

/// Builds one cross-chain request per outbox that still holds undelivered
/// messages.
pub fn create_network_actions(chain: &ChainState) -> (r: NetworkActions)
    ensures
        requests_match_outboxes(r.cross_chain_requests@, chain.outboxes@),
        r.notifications@.len() == 0,
{
    let mut requests: Vec<CrossChainRequest> = Vec::new();
    let mut i: usize = 0;
    while i < chain.outboxes.len()
        invariant
            0 <= i <= chain.outboxes@.len(),
            requests_match_outboxes(requests@, chain.outboxes@.take(i as int)),
        decreases chain.outboxes@.len() - i,
    {
        proof {
            assert(chain.outboxes@.take(i as int + 1).drop_last() =~= chain.outboxes@.take(
                i as int,
            ));
            assert(chain.outboxes@.take(i as int + 1).last() == chain.outboxes@[i as int]);
            reveal(Seq::filter);
        }
        if chain.outboxes[i].1.queue.len() > 0 {
            requests.push(
                CrossChainRequest {
                    recipient: chain.outboxes[i].0,
                    heights: chain.outboxes[i].1.queue.clone(),
                },
            );
            proof {
                assert(nonempty_outboxes(chain.outboxes@.take(i as int + 1))
                    =~= nonempty_outboxes(chain.outboxes@.take(i as int)).push(
                    chain.outboxes@[i as int],
                ));
            }
        } else {
            proof {
                assert(nonempty_outboxes(chain.outboxes@.take(i as int + 1))
                    =~= nonempty_outboxes(chain.outboxes@.take(i as int)));
            }
        }
        i += 1;
    }
    proof {
        assert(chain.outboxes@.take(chain.outboxes@.len() as int) =~= chain.outboxes@);
    }
    NetworkActions { cross_chain_requests: requests, notifications: Vec::new() }
}

/// The epoch a handler verifies certificates against: the chain's, or the
/// description's when the chain is only now being initialized.
pub open spec fn eff_epoch(chain: &ChainState, activation: &Option<ChainDescription>) -> u64 {
    match activation {
        Some(d) => d.epoch,
        None => chain.execution_state.epoch,
    }
}

/// Whether the chain is active or storage holds the description that would
/// initialize it.
pub open spec fn can_activate(w: &ChainWorkerState) -> bool {
    w.chain.execution_state.active || crate::storage::stored_description(
        &w.storage,
        w.chain.chain_id,
    ) is Some
}

/// The epoch the worker holds certificates for the chain's current epoch
/// to: the chain's own, or the genesis description's while initializing.
pub open spec fn worker_eff_epoch(w: &ChainWorkerState) -> u64 {
    if w.chain.execution_state.active {
        w.chain.execution_state.epoch
    } else {
        match crate::storage::stored_description(&w.storage, w.chain.chain_id) {
            Some(d) => d.epoch,
            None => 0,
        }
    }
}

/// The committee of the chain's current epoch, as the worker would find it:
/// in the chain's own committee map, or in the genesis description while
/// initializing.  `None` when the chain cannot serve the request.
pub open spec fn worker_eff_committee(w: &ChainWorkerState) -> Option<Committee> {
    if w.chain.execution_state.active {
        match crate::committee::find_epoch(
            w.chain.execution_state.committees.entries@,
            w.chain.execution_state.epoch,
        ) {
            Some(i) => Some(w.chain.execution_state.committees.entries@[i].1),
            None => None,
        }
    } else {
        match crate::storage::stored_description(&w.storage, w.chain.chain_id) {
            Some(d) => Some(d.committee),
            None => None,
        }
    }
}

/// Whether the signers of a certificate for the chain's current epoch form
/// a quorum of the committee the worker would check it against.
pub open spec fn eff_quorum(w: &ChainWorkerState, signers: Seq<ValidatorPublicKey>) -> bool {
    match worker_eff_committee(w) {
        Some(c) => c.spec_quorum(signers),
        None => false,
    }
}

/// The state of one chain worker: its configuration, the chain it owns, the
/// storage it persists to, and its caches.
pub struct ChainWorkerState {
    /// Static configuration.
    pub config: ChainWorkerConfig,
    /// The chain's in-memory state, matching what was last saved.
    pub chain: ChainState,
    /// The persistent storage.
    pub storage: Storage,
    /// The delivery notification registry.
    pub delivery_notifier: DeliveryNotifier,
    /// The hashes of certified values kept for client replay.
    pub block_values: Vec<CryptoHash>,
    /// Execution states kept from the worker's own votes, keyed by their
    /// digest.  A cached state is only ever adopted when its key equals the
    /// certified state hash.
    pub execution_state_cache: Vec<(CryptoHash, ExecutionState)>,
}

impl ChainWorkerState {
    /// Well-formedness: the chain, the storage, and the cache invariant that
    /// every cached execution state is keyed by its own digest.
    pub open spec fn wf(&self) -> bool {
        &&& self.chain.wf()
        &&& self.storage.wf()
        &&& forall|i: int|
            0 <= i < self.execution_state_cache@.len() ==> state_digest(
                &(#[trigger] self.execution_state_cache@[i]).1,
            ) == self.execution_state_cache@[i].0 && self.execution_state_cache@[i].1.wf()
    }

    /// Creates a worker for `chain_id`: the saved chain state is loaded, or
    /// a fresh one is made for a chain nothing has happened on.
    pub fn new(config: ChainWorkerConfig, chain_id: ChainId, storage: Storage) -> (r:
        ChainWorkerState)
        requires
            storage.wf(),
        ensures
            r.wf(),
            r.config == config,
            r.storage == storage,
            match find_chain(storage.chain_states@, chain_id) {
                Some(i) => crate::chain::chain_state_matches(
                    &r.chain,
                    &storage.chain_states@[i].1,
                ),
                None => r.chain.chain_id == chain_id && r.chain.tip_state.next_block_height == 0,
            },
    {
        let chain = match storage.load_chain(chain_id) {
            Some(c) => c,
            None => ChainState::new(chain_id),
        };
        ChainWorkerState {
            config,
            chain,
            storage,
            delivery_notifier: DeliveryNotifier::new(),
            block_values: Vec::new(),
            execution_state_cache: Vec::new(),
        }
    }

    /// Keeps an execution state for later adoption, keyed by its digest.
    pub fn cache_execution_state(&mut self, state: ExecutionState)
        requires
            old(self).wf(),
            state.wf(),
        ensures
            final(self).wf(),
            *final(self) == (ChainWorkerState {
                execution_state_cache: final(self).execution_state_cache,
                ..*old(self)
            }),
            final(self).execution_state_cache@.len() == old(self).execution_state_cache@.len()
                + 1,
    {
        let digest = compute_state_digest(&state);
        let ghost pre = self.execution_state_cache@;
        self.execution_state_cache.push((digest, state));
        proof {
            assert forall|i: int|
                0 <= i < self.execution_state_cache@.len() implies state_digest(
                &(#[trigger] self.execution_state_cache@[i]).1,
            ) == self.execution_state_cache@[i].0 && self.execution_state_cache@[i].1.wf() by {
                if i < pre.len() {
                    assert(self.execution_state_cache@[i] == pre[i]);
                }
            }
        }
    }

    /// How the chain would become active: `None` when it already is, the
    /// genesis description when storage holds one, and `InactiveChain` when
    /// nothing can initialize it.
    fn activation_plan(&self) -> (r: Result<Option<ChainDescription>, WorkerError>)
        requires
            self.wf(),
        ensures
            r is Ok <==> can_activate(self),
            match r {
                Ok(None) => self.chain.execution_state.active,
                Ok(Some(d)) => {
                    &&& !self.chain.execution_state.active
                    &&& d.committee.well_formed()
                    &&& (crate::storage::stored_description(
                        &self.storage,
                        self.chain.chain_id,
                    ) matches Some(d0) && crate::storage::description_matches(&d, &d0))
                },
                Err(e) => e is InactiveChain,
            },
    {
        if self.chain.is_active() {
            Ok(None)
        } else {
            match self.storage.chain_description(self.chain.chain_id) {
                Some(d) => Ok(Some(d)),
                None => Err(WorkerError::InactiveChain(self.chain.chain_id)),
            }
        }
    }

    /// The committee a certificate for the chain's current epoch must be
    /// checked against, under the given activation plan.
    fn committee_for_epoch(&self, activation: &Option<ChainDescription>) -> (r: Result<
        (u64, Committee),
        WorkerError,
    >)
        requires
            self.wf(),
            match activation {
                None => self.chain.execution_state.active,
                Some(d) => {
                    &&& !self.chain.execution_state.active
                    &&& d.committee.well_formed()
                    &&& (crate::storage::stored_description(
                        &self.storage,
                        self.chain.chain_id,
                    ) matches Some(d0) && crate::storage::description_matches(&d, &d0))
                },
            },
        ensures
            r is Ok <==> worker_eff_committee(self) is Some,
            match r {
                Ok((e, c)) => {
                    &&& e == worker_eff_epoch(self)
                    &&& c.well_formed()
                    &&& (worker_eff_committee(self) matches Some(c0)
                        && crate::committee::committee_matches(&c, &c0))
                },
                Err(err) => err is InactiveChain,
            },
    {
        match activation {
            Some(d) => Ok((d.epoch, d.committee.duplicate())),
            None => {
                match self.chain.current_committee() {
                    Ok((e, c)) => {
                        let dup = c.duplicate();
                        proof {
                            crate::committee::lemma_find_epoch_sound(
                                self.chain.execution_state.committees.entries@,
                                self.chain.execution_state.epoch,
                            );
                        }
                        Ok((e, dup))
                    },
                    Err(e) => Err(e),
                }
            },
        }
    }

    /// Saves the chain to storage; the handler's changes become durable.
    fn save(&mut self)
        requires
            old(self).wf(),
        ensures
            final(self).wf(),
            crate::worker::storage_saved(&old(self).storage, &final(self).storage, &old(self).chain),
            *final(self) == (ChainWorkerState { storage: final(self).storage, ..*old(self) }),
    {
        self.storage.save_chain(&self.chain);
    }

    /// Processes a leader timeout certificate for this chain.  The
    /// certificate must carry the chain's current epoch and a quorum of its
    /// committee; a timeout for an already finished height returns the
    /// current information unchanged.
    pub fn process_timeout(&mut self, certificate: &TimeoutCertificate) -> (r: Result<
        (ChainInfoResponse, NetworkActions),
        WorkerError,
    >)
        requires
            old(self).wf(),
        ensures
            final(self).wf(),
            r is Err ==> *final(self) == *old(self),
            r is Ok <==> worker_eff_committee(old(self)) is Some && certificate.value.epoch
                == worker_eff_epoch(old(self)) && eff_quorum(
                old(self),
                certificate.signatures@,
            ),
            match r {
                Err(e) => {
                    &&& (e is InactiveChain <==> worker_eff_committee(old(self)) is None)
                    &&& (e is InvalidEpoch <==> worker_eff_committee(old(self)) is Some
                        && certificate.value.epoch != worker_eff_epoch(old(self)))
                    &&& (e is InvalidCertificate <==> worker_eff_committee(old(self)) is Some
                        && certificate.value.epoch == worker_eff_epoch(old(self)) && !eff_quorum(
                        old(self),
                        certificate.signatures@,
                    ))
                },
                Ok((info, actions)) => {
                    &&& actions.cross_chain_requests@.len() == 0
                    &&& if certificate.value.height < old(self).chain.tip_state.next_block_height {
                        // Already past this height: nothing changes.
                        &&& *final(self) == *old(self)
                        &&& info == info_of(&old(self).chain)
                        &&& actions.notifications@.len() == 0
                    } else {
                        // The timeout is fed to the manager and the chain is
                        // saved, activating it first when needed.
                        &&& final(self).chain.manager == ({
                            let mut m = old(self).chain.manager;
                            if certificate.value.round >= m.current_round
                                && certificate.value.round < u64::MAX {
                                ConsensusManager {
                                    current_round: (certificate.value.round + 1) as u64,
                                    proposed: None,
                                    timeout_vote: None,
                                    ..m
                                }
                            } else {
                                m
                            }
                        })
                        &&& final(self).chain.tip_state == old(self).chain.tip_state
                        &&& info == info_of(&final(self).chain)
                        &&& storage_saved(
                            &old(self).storage,
                            &final(self).storage,
                            &final(self).chain,
                        )
                        &&& if final(self).chain.manager.current_round
                            > old(self).chain.manager.current_round {
                            actions.notifications@ == seq![
                                Notification {
                                    chain_id: certificate.value.chain_id,
                                    reason: Reason::NewRound {
                                        height: certificate.value.height,
                                        round: final(self).chain.manager.current_round,
                                    },
                                },
                            ]
                        } else {
                            actions.notifications@.len() == 0
                        }
                    }
                },
            },
    {
        let activation = match self.activation_plan() {
            Ok(a) => a,
            Err(e) => {
                return Err(e);
            },
        };
        let (chain_epoch, committee) = match self.committee_for_epoch(&activation) {
            Ok(p) => p,
            Err(e) => {
                return Err(e);
            },
        };
        if certificate.value.epoch != chain_epoch {
            return Err(WorkerError::InvalidEpoch {
                chain_id: certificate.value.chain_id,
                chain_epoch,
                epoch: certificate.value.epoch,
            });
        }
        proof {
            match worker_eff_committee(&*self) {
                Some(c0) => {
                    crate::committee::lemma_quorum_congruent(
                        &committee,
                        &c0,
                        certificate.signatures@,
                    );
                },
                None => {},
            }
        }
        match certificate.check(&committee) {
            Ok(()) => {},
            Err(e) => {
                return Err(e);
            },
        }
        if self.chain.tip_state.already_validated_block(certificate.value.height) {
            let info = make_chain_info(&self.chain);
            return Ok((info, NetworkActions::new()));
        }
        if let Some(d) = &activation {
            self.chain.activate(d);
        }
        let old_round = self.chain.manager.current_round();
        self.chain.manager.handle_timeout_certificate(certificate);
        let round = self.chain.manager.current_round();
        let mut actions = NetworkActions::new();
        if round > old_round {
            actions.notifications.push(
                Notification {
                    chain_id: certificate.value.chain_id,
                    reason: Reason::NewRound { height: certificate.value.height, round },
                },
            );
        }
        let info = make_chain_info(&self.chain);
        self.save();
        Ok((info, actions))
    }

    /// Raises the received-certificate trackers and saves the chain.
    pub fn update_received_certificate_trackers(
        &mut self,
        new_trackers: &Vec<(ValidatorPublicKey, u64)>,
    ) -> (r: Result<(), WorkerError>)
        requires
            old(self).wf(),
            forall|i: int, j: int|
                0 <= i < j < new_trackers@.len() ==> (#[trigger] new_trackers@[i]).0 != (
                #[trigger] new_trackers@[j]).0,
        ensures
            final(self).wf(),
            r is Ok,
            forall|k: ValidatorPublicKey|
                #![trigger crate::chain::tracker_of(&final(self).chain, k)]
                crate::chain::tracker_of(&final(self).chain, k) == (match crate::chain::find_tracker(
                    new_trackers@,
                    k,
                ) {
                    Some(ni) => Some(
                        crate::chain::merge_tracker(
                            crate::chain::tracker_of(&old(self).chain, k),
                            new_trackers@[ni].1,
                        ),
                    ),
                    None => crate::chain::tracker_of(&old(self).chain, k),
                }),
            storage_saved(&old(self).storage, &final(self).storage, &final(self).chain),
            final(self).chain == (ChainState {
                received_certificate_trackers: final(self).chain.received_certificate_trackers,
                ..old(self).chain
            }),
            final(self).config == old(self).config,
            final(self).delivery_notifier == old(self).delivery_notifier,
            final(self).block_values == old(self).block_values,
            final(self).execution_state_cache == old(self).execution_state_cache,
    {
        self.chain.update_received_certificate_trackers(new_trackers);
        self.save();
        Ok(())
    }

    /// Votes for a leader timeout of the current round, if none was issued
    /// yet, and saves the chain when a vote was issued.
    pub fn vote_for_leader_timeout(&mut self) -> (r: Result<(), WorkerError>)
        requires
            old(self).wf(),
        ensures
            final(self).wf(),
            r is Ok,
            ({
                let height = old(self).chain.tip_state.next_block_height;
                let voted = !(old(self).chain.manager.timeout_vote matches Some(v) && v.round
                    == old(self).chain.manager.current_round);
                if voted {
                    &&& final(self).chain.manager == (ConsensusManager {
                        timeout_vote: Some(
                            crate::manager::Vote {
                                kind: crate::manager::VoteKind::Timeout,
                                height,
                                round: old(self).chain.manager.current_round,
                                value_hash: None,
                            },
                        ),
                        ..old(self).chain.manager
                    })
                    &&& storage_saved(
                        &old(self).storage,
                        &final(self).storage,
                        &final(self).chain,
                    )
                } else {
                    *final(self) == *old(self)
                }
            }),
    {
        let height = self.chain.tip_state.next_block_height;
        if self.chain.manager.vote_timeout(height) {
            self.save();
        }
        Ok(())
    }

    /// Votes for falling back to a public chain once the oldest unskippable
    /// bundle has waited longer than the configured duration, and saves the
    /// chain when a vote was issued.
    pub fn vote_for_fallback(&mut self) -> (r: Result<(), WorkerError>)
        requires
            old(self).wf(),
        ensures
            final(self).wf(),
            r is Ok,
            ({
                let due = old(self).chain.unskippable_bundles@.len() > 0
                    && old(self).storage.clock >= old(
                    self,
                ).chain.unskippable_bundles@[0].seen && old(self).storage.clock - old(
                    self,
                ).chain.unskippable_bundles@[0].seen >= old(self).config.fallback_duration;
                let voted = due && old(self).chain.manager.fallback_vote is None;
                if voted {
                    &&& final(self).chain.manager == (ConsensusManager {
                        fallback_vote: Some(
                            crate::manager::Vote {
                                kind: crate::manager::VoteKind::Fallback,
                                height: old(self).chain.tip_state.next_block_height,
                                round: old(self).chain.manager.current_round,
                                value_hash: None,
                            },
                        ),
                        ..old(self).chain.manager
                    })
                    &&& storage_saved(
                        &old(self).storage,
                        &final(self).storage,
                        &final(self).chain,
                    )
                } else {
                    *final(self) == *old(self)
                }
            }),
    {
        if self.chain.unskippable_bundles.len() == 0 {
            return Ok(());
        }
        let seen = self.chain.unskippable_bundles[0].seen;
        let now = self.storage.current_time();
        if now < seen {
            return Ok(());
        }
        let elapsed = now - seen;
        if elapsed < self.config.fallback_duration {
            return Ok(());
        }
        let height = self.chain.tip_state.next_block_height;
        if self.chain.manager.vote_fallback(height) {
            self.save();
        }
        Ok(())
    }
}

/// Finds a blob with this id in a list.
fn find_blob_in(blobs: &Vec<Blob>, id: BlobId) -> (r: Option<usize>)
    ensures
        match r {
            Some(i) => i < blobs@.len() && blobs@[i as int].id == id && found_has(blobs@, id),
            None => !found_has(blobs@, id),
        },
{
    let mut k: usize = 0;
    while k < blobs.len()
        invariant
            0 <= k <= blobs@.len(),
            forall|j: int| 0 <= j < k ==> (#[trigger] blobs@[j]).id != id,
        decreases blobs@.len() - k,
    {
        if blobs[k].id == id {
            return Some(k);
        }
        k += 1;
    }
    None
}

/// Whether a blob is available from an already collected set or storage.
pub open spec fn blob_available(id: BlobId, extra: Seq<Blob>, store: Seq<Blob>) -> bool {
    found_has(extra, id) || crate::storage::storage_has_blob(store, id)
}

/// The required ids whose blobs are available nowhere.
pub open spec fn missing_with(required: Seq<BlobId>, extra: Seq<Blob>, store: Seq<Blob>) -> Seq<
    BlobId,
> {
    required.filter(|id: BlobId| !blob_available(id, extra, store))
}

/// The required ids whose blobs are available.
pub open spec fn available_ids(required: Seq<BlobId>, extra: Seq<Blob>, store: Seq<Blob>) -> Seq<
    BlobId,
> {
    required.filter(|id: BlobId| blob_available(id, extra, store))
}

impl ChainWorkerState {
    /// Resolves each required blob against an already collected set and
    /// storage: the blobs found, in order, and the ids still missing.
    fn resolve_blobs(&self, required: &Vec<BlobId>, extra: &Vec<Blob>) -> (r: (
        Vec<Blob>,
        Vec<BlobId>,
    ))
        ensures
            r.1@ == missing_with(required@, extra@, self.storage.blobs@),
            r.0@.len() == available_ids(required@, extra@, self.storage.blobs@).len(),
            forall|i: int|
                0 <= i < r.0@.len() ==> (#[trigger] r.0@[i]).id == available_ids(
                    required@,
                    extra@,
                    self.storage.blobs@,
                )[i],
    {
        let mut found: Vec<Blob> = Vec::new();
        let mut missing: Vec<BlobId> = Vec::new();
        let mut i: usize = 0;
        while i < required.len()
            invariant
                0 <= i <= required@.len(),
                missing@ == missing_with(required@.take(i as int), extra@, self.storage.blobs@),
                found@.len() == available_ids(
                    required@.take(i as int),
                    extra@,
                    self.storage.blobs@,
                ).len(),
                forall|j: int|
                    0 <= j < found@.len() ==> (#[trigger] found@[j]).id == available_ids(
                        required@.take(i as int),
                        extra@,
                        self.storage.blobs@,
                    )[j],
            decreases required@.len() - i,
        {
            let id = required[i];
            proof {
                assert(required@.take(i as int + 1).drop_last() =~= required@.take(i as int));
                assert(required@.take(i as int + 1).last() == required@[i as int]);
                reveal(Seq::filter);
            }
            // Look in the collected set first, then in storage.
            match find_blob_in(extra, id) {
                Some(k2) => {
                    found.push(extra[k2].duplicate());
                },
                None => {
                    match self.storage.read_blob(id) {
                        Some(b) => {
                            found.push(b);
                        },
                        None => {
                            missing.push(id);
                        },
                    }
                },
            }
            i += 1;
        }
        proof {
            assert(required@.take(required@.len() as int) =~= required@);
        }
        (found, missing)
    }
}

impl ChainWorkerState {
    /// Tries to collect the blobs a proposal publishes, from the owner's
    /// earlier uploads and storage.  When some are missing, the partial set
    /// is recorded under the owner — so the client can upload the missing
    /// blobs one by one — the chain is saved, and the handler fails with the
    /// missing ids.  On chains with open multi-leader rounds only one
    /// pending proposal is kept at a time.
    pub fn load_proposal_blobs(&mut self, proposal: &BlockProposal) -> (r: Result<
        Vec<Blob>,
        WorkerError,
    >)
        requires
            old(self).wf(),
        ensures
            final(self).wf(),
            ({
                let required = published_blob_ids_spec(proposal.block.operations@);
                let extra = match pending_of(&old(self).chain, proposal.owner) {
                    Some(p) => p.found@,
                    None => Seq::empty(),
                };
                let missing = missing_with(required, extra, old(self).storage.blobs@);
                match r {
                    Ok(blobs) => {
                        &&& missing.len() == 0
                        &&& *final(self) == *old(self)
                        &&& blobs@.len() == required.len()
                        &&& forall|i: int|
                            0 <= i < blobs@.len() ==> (#[trigger] blobs@[i]).id == required[i]
                    },
                    Err(e) => {
                        &&& e matches WorkerError::BlobsNotFound(ids) && ids@ == missing
                        &&& missing.len() > 0
                        &&& (match pending_of(&final(self).chain, proposal.owner) {
                            Some(p) => {
                                &&& p.round == proposal.round
                                &&& !p.validated
                                &&& p.expected@ == required
                                &&& p.found@.len() == available_ids(
                                    required,
                                    extra,
                                    old(self).storage.blobs@,
                                ).len()
                                &&& forall|i: int|
                                    0 <= i < p.found@.len() ==> (#[trigger] p.found@[i]).id
                                        == available_ids(
                                        required,
                                        extra,
                                        old(self).storage.blobs@,
                                    )[i]
                            },
                            None => false,
                        })
                        &&& if old(self).config.open_multi_leader_rounds {
                            // Only one pending proposal is kept at a time.
                            final(self).chain.pending_proposed_blobs@.len() == 1
                        } else {
                            forall|o: AccountOwner|
                                o != proposal.owner ==> #[trigger] pending_of(
                                    &final(self).chain,
                                    o,
                                ) == pending_of(&old(self).chain, o)
                        }
                        &&& storage_saved(
                            &old(self).storage,
                            &final(self).storage,
                            &final(self).chain,
                        )
                    },
                }
            }),
    {
        let required = crate::block::published_blob_ids(&proposal.block.operations);
        let ghost required_v = required@;
        let extra: Vec<Blob> = match self.find_pending_found(proposal.owner) {
            Some(v) => v,
            None => Vec::new(),
        };
        let (found, missing) = self.resolve_blobs(&required, &extra);
        proof {
            match pending_of(&self.chain, proposal.owner) {
                Some(p) => {
                    lemma_resolution_congruent(required_v, extra@, p.found@, self.storage.blobs@);
                },
                None => {
                    assert(extra@ =~= Seq::<Blob>::empty());
                },
            }
        }
        if missing.len() > 0 {
            if self.config.open_multi_leader_rounds {
                self.chain.pending_proposed_blobs = Vec::new();
            }
            let pending = PendingBlobs::new(proposal.round, false, required, found);
            self.chain.set_pending_proposed(proposal.owner, pending);
            self.save();
            return Err(WorkerError::BlobsNotFound(missing));
        }
        proof {
            lemma_available_all(required_v, extra@, self.storage.blobs@);
        }
        Ok(found)
    }

    /// The blobs already uploaded for the owner's pending proposal, if any.
    fn find_pending_found(&self, owner: AccountOwner) -> (r: Option<Vec<Blob>>)
        ensures
            match r {
                Some(v) => pending_of(&self.chain, owner) matches Some(p) && crate::chain::blobs_match(
                    v@,
                    p.found@,
                ) && forall|i: int|
                    0 <= i < v@.len() ==> ((#[trigger] v@[i]).id == p.found@[i].id),
                None => pending_of(&self.chain, owner) is None,
            },
    {
        let mut k: usize = 0;
        while k < self.chain.pending_proposed_blobs.len()
            invariant
                0 <= k <= self.chain.pending_proposed_blobs@.len(),
                forall|j: int|
                    0 <= j < k ==> (#[trigger] self.chain.pending_proposed_blobs@[j]).0 != owner,
            decreases self.chain.pending_proposed_blobs@.len() - k,
        {
            if self.chain.pending_proposed_blobs[k].0 == owner {
                proof {
                    crate::chain::lemma_find_pending_at(
                        self.chain.pending_proposed_blobs@,
                        owner,
                        k as int,
                    );
                }
                let p = self.chain.pending_proposed_blobs[k].1.duplicate();
                return Some(p.found);
            }
            k += 1;
        }
        proof {
            crate::chain::lemma_find_pending_none(self.chain.pending_proposed_blobs@, owner);
        }
        None
    }

    /// Gathers the blobs a vote needs — all must be present — and asks the
    /// manager to vote for the proposal; the voted-on value's hash is cached
    /// for client replay, and the chain is saved.  The executed outcome is
    /// taken as the caller computed it: the proposal's certified hash
    /// already binds the value voted for.
    pub fn vote_for_block_proposal(
        &mut self,
        proposal: &BlockProposal,
        outcome: &BlockExecutionOutcome,
        local_time: u64,
    ) -> (r: Result<(), WorkerError>)
        requires
            old(self).wf(),
        ensures
            final(self).wf(),
            ({
                let required = published_blob_ids_spec(proposal.block.operations@);
                let missing = missing_with(required, Seq::empty(), old(self).storage.blobs@);
                match r {
                    Err(e) => {
                        &&& e matches WorkerError::BlobsNotFound(ids) && ids@ == missing
                        &&& missing.len() > 0
                        &&& *final(self) == *old(self)
                    },
                    Ok(()) => {
                        &&& missing.len() == 0
                        &&& ({
                            let accepted = proposal.round == old(self).chain.manager.current_round
                                && old(self).chain.manager.proposed is None && !old(
                                self,
                            ).chain.manager.spec_should_skip(proposal.round);
                            if accepted {
                                &&& final(self).chain.manager == (ConsensusManager {
                                    proposed: Some(
                                        crate::manager::ProposalRecord {
                                            round: proposal.round,
                                            block_hash: proposal.block_hash,
                                        },
                                    ),
                                    pending_vote: final(self).chain.manager.pending_vote,
                                    ..old(self).chain.manager
                                })
                                &&& final(self).block_values@ == old(self).block_values@.push(
                                    proposal.block_hash,
                                )
                            } else {
                                final(self).chain.manager == old(self).chain.manager
                                    && final(self).block_values@ == old(self).block_values@
                            }
                        })
                        &&& storage_saved(
                            &old(self).storage,
                            &final(self).storage,
                            &final(self).chain,
                        )
                    },
                }
            }),
    {
        let _ = outcome;
        let _ = local_time;
        let required = crate::block::published_blob_ids(&proposal.block.operations);
        let empty: Vec<Blob> = Vec::new();
        let (_found, missing) = self.resolve_blobs(&required, &empty);
        if missing.len() > 0 {
            return Err(WorkerError::BlobsNotFound(missing));
        }
        let height = self.chain.tip_state.next_block_height;
        let vote = self.chain.manager.create_vote(proposal.round, proposal.block_hash, height);
        if vote.is_some() {
            self.block_values.push(proposal.block_hash);
        }
        self.save();
        Ok(())
    }

    /// Accepts a blob uploaded by a client for a pending validated block or
    /// a pending proposal.  Uploads for plain proposals are held to the
    /// committee's policy: the blob's size and the number of blobs already
    /// collected.  A blob nothing waits for is refused.
    pub fn handle_pending_blob(&mut self, blob: &Blob) -> (r: Result<
        ChainInfoResponse,
        WorkerError,
    >)
        requires
            old(self).wf(),
        ensures
            final(self).wf(),
            r is Err ==> *final(self) == *old(self),
            r is Ok <==> upload_policy_ok(&old(self).chain, blob) && blob_expected_somewhere(
                &old(self).chain,
                blob,
            ),
            match r {
                Err(e) => {
                    &&& (e is InactiveChain <==> upload_needs_policy(&old(self).chain)
                        && current_policy_of(&old(self).chain) is None)
                    &&& (e is BlobTooLarge <==> upload_needs_policy(&old(self).chain) && (
                    current_policy_of(&old(self).chain) matches Some(p) && blob.data@.len()
                        > p.maximum_blob_size))
                    &&& (e is TooManyPublishedBlobs <==> upload_needs_policy(&old(self).chain)
                        && (current_policy_of(&old(self).chain) matches Some(p)
                        && blob.data@.len() <= p.maximum_blob_size && !upload_count_ok(
                        &old(self).chain,
                        p.maximum_published_blobs,
                    )))
                    &&& (e is UnexpectedBlob <==> upload_policy_ok(&old(self).chain, blob)
                        && !blob_expected_somewhere(&old(self).chain, blob))
                },
                Ok(info) => {
                    &&& info == info_of(&final(self).chain)
                    &&& storage_saved(
                        &old(self).storage,
                        &final(self).storage,
                        &final(self).chain,
                    )
                    &&& (match (
                        old(self).chain.pending_validated_blobs,
                        final(self).chain.pending_validated_blobs,
                    ) {
                        (Some(p0), Some(p1)) => pending_took_blob(&p0, &p1, blob),
                        (None, None) => true,
                        _ => false,
                    })
                    &&& final(self).chain.pending_proposed_blobs@.len() == old(
                        self,
                    ).chain.pending_proposed_blobs@.len()
                    &&& forall|j: int|
                        0 <= j < old(self).chain.pending_proposed_blobs@.len() ==> (
                        #[trigger] final(self).chain.pending_proposed_blobs@[j]).0 == old(
                        self,
                    ).chain.pending_proposed_blobs@[j].0 && pending_took_blob(
                        &old(self).chain.pending_proposed_blobs@[j].1,
                        &final(self).chain.pending_proposed_blobs@[j].1,
                        blob,
                    )
                },
            },
    {
        // Enforce the committee's policy for plain proposals before touching
        // anything.
        let mut needs_policy: bool = false;
        let mut k: usize = 0;
        while k < self.chain.pending_proposed_blobs.len()
            invariant
                *self == *old(self),
                old(self).wf(),
                0 <= k <= self.chain.pending_proposed_blobs@.len(),
                needs_policy == exists|j: int|
                    0 <= j < k && !(#[trigger] self.chain.pending_proposed_blobs@[j]).1.validated,
            decreases self.chain.pending_proposed_blobs@.len() - k,
        {
            if !self.chain.pending_proposed_blobs[k].1.validated {
                needs_policy = true;
            }
            k += 1;
        }
        proof {
            assert(needs_policy == upload_needs_policy(&self.chain));
        }
        if needs_policy {
            let policy = match self.chain.current_committee() {
                Ok((_, c)) => {
                    proof {
                        assert(current_policy_of(&self.chain) == Some(c.policy));
                    }
                    c.policy()
                },
                Err(e) => {
                    proof {
                        assert(current_policy_of(&self.chain) is None);
                    }
                    return Err(e);
                },
            };
            if blob.data.len() as u64 > policy.maximum_blob_size {
                return Err(WorkerError::BlobTooLarge);
            }
            let mut k2: usize = 0;
            while k2 < self.chain.pending_proposed_blobs.len()
                invariant
                    *self == *old(self),
                    old(self).wf(),
                    0 <= k2 <= self.chain.pending_proposed_blobs@.len(),
                    current_policy_of(&self.chain) == Some(policy),
                    upload_needs_policy(&self.chain),
                    blob.data@.len() <= policy.maximum_blob_size,
                    forall|j: int|
                        0 <= j < k2 && !(
                        #[trigger] self.chain.pending_proposed_blobs@[j]).1.validated
                            ==> self.chain.pending_proposed_blobs@[j].1.found@.len()
                            < policy.maximum_published_blobs,
                decreases self.chain.pending_proposed_blobs@.len() - k2,
            {
                let entry = &self.chain.pending_proposed_blobs[k2].1;
                if !entry.validated && entry.found.len() as u64 >= policy.maximum_published_blobs {
                    proof {
                        assert(!upload_count_ok(&self.chain, policy.maximum_published_blobs));
                    }
                    return Err(WorkerError::TooManyPublishedBlobs(
                        policy.maximum_published_blobs,
                    ));
                }
                k2 += 1;
            }
            proof {
                assert(upload_count_ok(&self.chain, policy.maximum_published_blobs));
            }
        }
        // Offer the blob to every pending set.
        let mut was_expected: bool = false;
        match &mut self.chain.pending_validated_blobs {
            Some(p) => {
                if p.maybe_insert(blob) {
                    was_expected = true;
                }
            },
            None => {},
        }
        proof {
            assert(match (
                old(self).chain.pending_validated_blobs,
                self.chain.pending_validated_blobs,
            ) {
                (Some(p0), Some(p1)) => pending_took_blob(&p0, &p1, blob),
                (None, None) => true,
                _ => false,
            });
        }
        let mut k3: usize = 0;
        while k3 < self.chain.pending_proposed_blobs.len()
            invariant
                old(self).wf(),
                0 <= k3 <= self.chain.pending_proposed_blobs@.len(),
                self.config == old(self).config,
                self.storage == old(self).storage,
                self.delivery_notifier == old(self).delivery_notifier,
                self.block_values == old(self).block_values,
                self.execution_state_cache == old(self).execution_state_cache,
                self.chain.chain_id == old(self).chain.chain_id,
                self.chain.tip_state == old(self).chain.tip_state,
                self.chain.execution_state == old(self).chain.execution_state,
                self.chain.manager == old(self).chain.manager,
                self.chain.inboxes == old(self).chain.inboxes,
                self.chain.outboxes == old(self).chain.outboxes,
                self.chain.unskippable_bundles == old(self).chain.unskippable_bundles,
                self.chain.received_log == old(self).chain.received_log,
                self.chain.received_certificate_trackers == old(
                    self,
                ).chain.received_certificate_trackers,
                ({
                    let vexp = old(self).chain.pending_validated_blobs matches Some(p)
                        && p.expected@.contains(blob.id) && !found_has(p.found@, blob.id);
                    &&& (vexp ==> was_expected)
                    &&& (!was_expected ==> !vexp && self.chain.pending_validated_blobs == old(
                        self,
                    ).chain.pending_validated_blobs)
                }),
                was_expected ==> blob_expected_somewhere(&old(self).chain, blob),
                !was_expected ==> forall|j: int|
                    0 <= j < k3 ==> !((#[trigger] old(
                        self,
                    ).chain.pending_proposed_blobs@[j]).1.expected@.contains(blob.id) && !found_has(
                        old(self).chain.pending_proposed_blobs@[j].1.found@,
                        blob.id,
                    )),
                !was_expected ==> self.chain.pending_proposed_blobs == old(
                    self,
                ).chain.pending_proposed_blobs,
                self.chain.pending_proposed_blobs@.len() == old(
                    self,
                ).chain.pending_proposed_blobs@.len(),
                forall|j: int|
                    0 <= j < self.chain.pending_proposed_blobs@.len() ==> (
                    #[trigger] self.chain.pending_proposed_blobs@[j]).0 == old(
                    self,
                ).chain.pending_proposed_blobs@[j].0,
                forall|j: int|
                    k3 <= j < self.chain.pending_proposed_blobs@.len() ==> (
                    #[trigger] self.chain.pending_proposed_blobs@[j]) == old(
                    self,
                ).chain.pending_proposed_blobs@[j],
                (match (
                    old(self).chain.pending_validated_blobs,
                    self.chain.pending_validated_blobs,
                ) {
                    (Some(p0), Some(p1)) => pending_took_blob(&p0, &p1, blob),
                    (None, None) => true,
                    _ => false,
                }),
                forall|j: int|
                    0 <= j < k3 ==> pending_took_blob(
                        &old(self).chain.pending_proposed_blobs@[j].1,
                        &(#[trigger] self.chain.pending_proposed_blobs@[j]).1,
                        blob,
                    ),
                self.chain.wf(),
                self.storage.wf(),
            decreases self.chain.pending_proposed_blobs@.len() - k3,
        {
            let mut entry = self.chain.pending_proposed_blobs[k3].1.duplicate();
            let owner = self.chain.pending_proposed_blobs[k3].0;
            let ghost pre = self.chain.pending_proposed_blobs@;
            let ghost dup0 = entry;
            proof {
                lemma_found_has_congruent(
                    dup0.found@,
                    old(self).chain.pending_proposed_blobs@[k3 as int].1.found@,
                    blob.id,
                );
            }
            if entry.maybe_insert(blob) {
                was_expected = true;
                proof {
                    assert(self.chain.pending_proposed_blobs@[k3 as int] == old(
                        self,
                    ).chain.pending_proposed_blobs@[k3 as int]);
                    lemma_found_has_congruent(
                        dup0.found@,
                        old(self).chain.pending_proposed_blobs@[k3 as int].1.found@,
                        blob.id,
                    );
                    assert(old(self).chain.pending_proposed_blobs@[
                        k3 as int].1.expected@.contains(blob.id));
                    assert(!found_has(
                        old(self).chain.pending_proposed_blobs@[k3 as int].1.found@,
                        blob.id,
                    ));
                    assert(blob_expected_somewhere(&old(self).chain, blob));
                }
                self.chain.pending_proposed_blobs.set(k3, (owner, entry));
                proof {
                    assert(pending_took_blob(
                        &old(self).chain.pending_proposed_blobs@[k3 as int].1,
                        &self.chain.pending_proposed_blobs@[k3 as int].1,
                        blob,
                    ));
                    if old(self).wf() {
                        assert forall|a: int, b: int|
                            0 <= a < b < self.chain.pending_proposed_blobs@.len() implies (
                        #[trigger] self.chain.pending_proposed_blobs@[a]).0 != (
                        #[trigger] self.chain.pending_proposed_blobs@[b]).0 by {
                            assert(self.chain.pending_proposed_blobs@[a].0 == old(
                                self,
                            ).chain.pending_proposed_blobs@[a].0);
                            assert(self.chain.pending_proposed_blobs@[b].0 == old(
                                self,
                            ).chain.pending_proposed_blobs@[b].0);
                        }
                    }
                }
            } else {
                proof {
                    assert(pending_took_blob(
                        &old(self).chain.pending_proposed_blobs@[k3 as int].1,
                        &self.chain.pending_proposed_blobs@[k3 as int].1,
                        blob,
                    ));
                }
            }
            k3 += 1;
        }
        if !was_expected {
            return Err(WorkerError::UnexpectedBlob);
        }
        self.save();
        Ok(make_chain_info(&self.chain))
    }
}

/// The committee a confirmed certificate's declared epoch resolves to: the
/// chain's own map first, then the storage registry.
pub open spec fn declared_epoch_committee(w: &ChainWorkerState, epoch: u64) -> Option<Committee> {
    match crate::committee::find_epoch(
        w.chain.execution_state.committees.entries@,
        epoch,
    ) {
        Some(i) => Some(w.chain.execution_state.committees.entries@[i].1),
        None => match crate::committee::find_epoch(w.storage.committees@, epoch) {
            Some(j) => Some(w.storage.committees@[j].1),
            None => None,
        },
    }
}

/// The committee representation a confirmed block at the tip executes on:
/// the chain's own, or the genesis description's single committee while
/// the chain initializes.
pub open spec fn base_rep_of(w: &ChainWorkerState) -> Seq<(u64, Committee)> {
    if w.chain.execution_state.active {
        w.chain.execution_state.committees.entries@
    } else {
        match crate::storage::stored_description(&w.storage, w.chain.chain_id) {
            Some(d) => seq![(d.epoch, d.committee)],
            None => Seq::empty(),
        }
    }
}

/// Whether a confirmed block at the tip commits: its state hash names a
/// cached execution state, or its outcome is what re-execution derives.
pub open spec fn confirmed_outcome_ok(w: &ChainWorkerState, block: &crate::block::Block) -> bool {
    cache_has(w.execution_state_cache@, block.state_hash)
        || crate::execution::certified_outcome_matches(
        true,
        base_rep_of(w),
        worker_eff_epoch(w),
        block,
    )
}

/// Whether the execution-state cache holds an entry for this digest.
pub open spec fn cache_has(cache: Seq<(CryptoHash, ExecutionState)>, key: CryptoHash) -> bool {
    exists|i: int| 0 <= i < cache.len() && (#[trigger] cache[i]).0 == key
}

/// How the notifier changes when a handler registers a delivery sink: the
/// sink is parked under its height when some outstanding cross-chain
/// request still carries messages at that height or below; otherwise it is
/// fired immediately and the registry is unchanged.
pub open spec fn notifier_after_register(
    pre: Seq<(u64, tokio::sync::oneshot::Sender<()>)>,
    post: Seq<(u64, tokio::sync::oneshot::Sender<()>)>,
    height: u64,
    had_sender: bool,
    requests: Seq<CrossChainRequest>,
) -> bool {
    let waiting = exists|i: int, j: int|
        0 <= i < requests.len() && 0 <= j < requests[i].heights@.len() && (
        #[trigger] requests[i].heights@[j]) <= height;
    if had_sender && waiting {
        post.len() == pre.len() + 1 && post[post.len() - 1].0 == height && forall|k: int|
            0 <= k < pre.len() ==> post[k] == pre[k]
    } else {
        post == pre
    }
}

impl ChainWorkerState {
    /// Schedules a notification for when cross-chain messages are delivered
    /// up to `height`: the sink is registered when some outstanding request
    /// still carries such messages, and fired at once when nothing is left
    /// to wait for.
    fn register_delivery_notifier(
        &mut self,
        height: u64,
        actions: &NetworkActions,
        notify_when_messages_are_delivered: Option<tokio::sync::oneshot::Sender<()>>,
    )
        ensures
            notifier_after_register(
                old(self).delivery_notifier.entries@,
                final(self).delivery_notifier.entries@,
                height,
                notify_when_messages_are_delivered is Some,
                actions.cross_chain_requests@,
            ),
            *final(self) == (ChainWorkerState {
                delivery_notifier: final(self).delivery_notifier,
                ..*old(self)
            }),
    {
        if let Some(notifier) = notify_when_messages_are_delivered {
            let mut waiting: bool = false;
            let mut i: usize = 0;
            while i < actions.cross_chain_requests.len()
                invariant
                    *self == *old(self),
                    0 <= i <= actions.cross_chain_requests@.len(),
                    waiting == exists|a: int, j: int|
                        0 <= a < i && 0 <= j < actions.cross_chain_requests@[a].heights@.len()
                            && (#[trigger] actions.cross_chain_requests@[a].heights@[j])
                            <= height,
                decreases actions.cross_chain_requests@.len() - i,
            {
                if actions.cross_chain_requests[i].has_messages_lower_or_equal_than(height) {
                    waiting = true;
                }
                i += 1;
            }
            if waiting {
                self.delivery_notifier.register(height, notifier);
            } else {
                // Nothing outstanding: fire at once, the registry stays as
                // it was.
                let _ = crate::notifier::fire_sink(notifier);
            }
        }
    }

    /// The blobs already uploaded for the pending validated block, if any.
    fn find_validated_found(&self) -> (r: Option<Vec<Blob>>)
        ensures
            match r {
                Some(v) => self.chain.pending_validated_blobs matches Some(p)
                    && crate::chain::blobs_match(v@, p.found@) && forall|i: int|
                    0 <= i < v@.len() ==> ((#[trigger] v@[i]).id == p.found@[i].id),
                None => self.chain.pending_validated_blobs is None,
            },
    {
        match &self.chain.pending_validated_blobs {
            Some(p) => {
                let d = p.duplicate();
                Some(d.found)
            },
            None => None,
        }
    }

    /// Processes a validated-block certificate: the certificate is checked
    /// against the chain's current committee; one the manager has already
    /// locked past is returned with the skip flag; otherwise the required
    /// blobs are collected — recording a partial set on failure — and the
    /// manager issues the final vote for the confirmed block.
    pub fn process_validated_block(&mut self, certificate: &ValidatedBlockCertificate) -> (r:
        Result<(ChainInfoResponse, NetworkActions, bool), WorkerError>)
        requires
            old(self).wf(),
        ensures
            final(self).wf(),
            ({
                let checks_ok = worker_eff_committee(old(self)) is Some
                    && certificate.block.header.epoch == worker_eff_epoch(old(self))
                    && eff_quorum(old(self), certificate.signatures@);
                let skip_case = certificate.block.header.height < old(
                    self,
                ).chain.tip_state.next_block_height || old(self).chain.manager.spec_should_skip(
                    certificate.round,
                );
                let required = published_blob_ids_spec(certificate.block.operations@);
                let extra = match old(self).chain.pending_validated_blobs {
                    Some(p) => p.found@,
                    None => Seq::empty(),
                };
                let missing = missing_with(required, extra, old(self).storage.blobs@);
                &&& (r is Ok <==> checks_ok && (skip_case || missing.len() == 0))
                &&& match r {
                    Err(e) => {
                        &&& (e is InactiveChain <==> worker_eff_committee(old(self)) is None)
                        &&& (e is InvalidEpoch <==> worker_eff_committee(old(self)) is Some
                            && certificate.block.header.epoch != worker_eff_epoch(old(self)))
                        &&& (e is InvalidCertificate <==> worker_eff_committee(old(self)) is Some
                            && certificate.block.header.epoch == worker_eff_epoch(old(self))
                            && !eff_quorum(old(self), certificate.signatures@))
                        &&& (e is BlobsNotFound <==> checks_ok && !skip_case && missing.len()
                            > 0)
                        &&& (e is InactiveChain || e is InvalidEpoch || e is InvalidCertificate)
                            ==> *final(self) == *old(self)
                        &&& e matches WorkerError::BlobsNotFound(ids) ==> {
                            &&& ids@ == missing
                            &&& (final(self).chain.pending_validated_blobs matches Some(p) && {
                                &&& p.round == certificate.round
                                &&& p.validated
                                &&& p.expected@ == required
                                &&& p.found@.len() == available_ids(
                                    required,
                                    extra,
                                    old(self).storage.blobs@,
                                ).len()
                                &&& forall|i: int|
                                    0 <= i < p.found@.len() ==> (#[trigger] p.found@[i]).id
                                        == available_ids(
                                        required,
                                        extra,
                                        old(self).storage.blobs@,
                                    )[i]
                            })
                            &&& final(self).chain.tip_state == old(self).chain.tip_state
                            &&& final(self).chain.manager == old(self).chain.manager
                            &&& storage_saved(
                                &old(self).storage,
                                &final(self).storage,
                                &final(self).chain,
                            )
                        }
                    },
                    Ok((info, actions, skipped)) => {
                        &&& skipped == skip_case
                        &&& actions.cross_chain_requests@.len() == 0
                        &&& if skipped {
                            &&& *final(self) == *old(self)
                            &&& info == info_of(&old(self).chain)
                            &&& actions.notifications@.len() == 0
                        } else {
                            &&& final(self).chain.manager.locked == Some(
                                crate::manager::LockedValue {
                                    round: certificate.round,
                                    hash: certificate.hash,
                                },
                            )
                            &&& final(self).chain.manager.pending_vote == Some(
                                crate::manager::Vote {
                                    kind: crate::manager::VoteKind::ConfirmedBlock,
                                    height: certificate.block.header.height,
                                    round: certificate.round,
                                    value_hash: Some(certificate.hash),
                                },
                            )
                            &&& final(self).chain.tip_state == old(self).chain.tip_state
                            &&& final(self).block_values@ == old(self).block_values@.push(
                                certificate.hash,
                            )
                            &&& storage_saved(
                                &old(self).storage,
                                &final(self).storage,
                                &final(self).chain,
                            )
                            &&& info == info_of(&final(self).chain)
                            &&& if final(self).chain.manager.current_round > old(
                                self,
                            ).chain.manager.current_round {
                                actions.notifications@ == seq![
                                    Notification {
                                        chain_id: final(self).chain.chain_id,
                                        reason: Reason::NewRound {
                                            height: certificate.block.header.height,
                                            round: final(self).chain.manager.current_round,
                                        },
                                    },
                                ]
                            } else {
                                actions.notifications@.len() == 0
                            }
                        }
                    },
                }
            }),
    {
        let height = certificate.block.header.height;
        let activation = match self.activation_plan() {
            Ok(a) => a,
            Err(e) => {
                return Err(e);
            },
        };
        let (chain_epoch, committee) = match self.committee_for_epoch(&activation) {
            Ok(p) => p,
            Err(e) => {
                return Err(e);
            },
        };
        if certificate.block.header.epoch != chain_epoch {
            return Err(WorkerError::InvalidEpoch {
                chain_id: certificate.block.header.chain_id,
                chain_epoch,
                epoch: certificate.block.header.epoch,
            });
        }
        proof {
            match worker_eff_committee(&*self) {
                Some(c0) => {
                    crate::committee::lemma_quorum_congruent(
                        &committee,
                        &c0,
                        certificate.signatures@,
                    );
                },
                None => {},
            }
        }
        match certificate.check(&committee) {
            Ok(()) => {},
            Err(e) => {
                return Err(e);
            },
        }
        let already = self.chain.tip_state.already_validated_block(height);
        let should_skip = match self.chain.manager.check_validated_block(certificate) {
            Outcome::Skip => true,
            Outcome::Accept => false,
        };
        if already || should_skip {
            let info = make_chain_info(&self.chain);
            return Ok((info, NetworkActions::new(), true));
        }
        // Collect the required blobs; record a partial set when some are
        // missing, so the client can upload them.
        let required = crate::block::published_blob_ids(&certificate.block.operations);
        let extra: Vec<Blob> = match self.find_validated_found() {
            Some(v) => v,
            None => Vec::new(),
        };
        let (found, missing) = self.resolve_blobs(&required, &extra);
        proof {
            match &self.chain.pending_validated_blobs {
                Some(p) => {
                    lemma_resolution_congruent(
                        required@,
                        extra@,
                        p.found@,
                        self.storage.blobs@,
                    );
                },
                None => {
                    assert(extra@ =~= Seq::<Blob>::empty());
                },
            }
        }
        if missing.len() > 0 {
            if let Some(d) = &activation {
                self.chain.activate(d);
            }
            self.chain.pending_validated_blobs = Some(
                PendingBlobs::new(certificate.round, true, required, found),
            );
            self.save();
            return Err(WorkerError::BlobsNotFound(missing));
        }
        if let Some(d) = &activation {
            self.chain.activate(d);
        }
        self.block_values.push(certificate.hash);
        let old_round = self.chain.manager.current_round();
        let _vote = self.chain.manager.create_final_vote(certificate);
        let info = make_chain_info(&self.chain);
        self.save();
        let round = self.chain.manager.current_round();
        let mut actions = NetworkActions::new();
        if round > old_round {
            actions.notifications.push(
                Notification {
                    chain_id: self.chain.chain_id,
                    reason: Reason::NewRound { height, round },
                },
            );
        }
        Ok((info, actions, false))
    }
}

impl ChainWorkerState {
    /// Processes a confirmed block — the commit path.  An already processed
    /// block returns the current information; the certificate is verified
    /// against the committee of its declared epoch, consulting storage for
    /// epochs the chain has not caught up with; the required blobs and the
    /// blob states are written before anything else, so late-uploaded blobs
    /// can be accepted; a block above the tip only updates the outboxes; a
    /// block at the tip is re-executed and committed only when the computed
    /// outcome equals the certified one.
    pub fn process_confirmed_block(
        &mut self,
        certificate: &ConfirmedBlockCertificate,
        notify_when_messages_are_delivered: Option<tokio::sync::oneshot::Sender<()>>,
    ) -> (r: Result<(ChainInfoResponse, NetworkActions), WorkerError>)
        requires
            old(self).wf(),
            certificate.block.header.height < u64::MAX,
        ensures
            final(self).wf(),
            r is Err ==> final(self).chain == old(self).chain && final(self).delivery_notifier
                == old(self).delivery_notifier && final(self).block_values == old(
                self,
            ).block_values,
            ({
                let height = certificate.block.header.height;
                let epoch = certificate.block.header.epoch;
                let already = old(self).chain.tip_state.next_block_height > height;
                let committee_src = declared_epoch_committee(old(self), epoch);
                let quorum = committee_src matches Some(c) && c.spec_quorum(
                    certificate.signatures@,
                );
                let required = published_blob_ids_spec(certificate.block.operations@);
                let missing = missing_with(
                    required,
                    Seq::empty(),
                    old(self).storage.blobs@,
                );
                let resolved = missing.len() == 0;
                let gap = old(self).chain.tip_state.next_block_height < height;
                let chaining = old(self).chain.tip_state.block_hash
                    == certificate.block.header.previous_block_hash;
                let activatable = can_activate(old(self));
                let epoch_current = epoch == worker_eff_epoch(old(self));
                let outcome_ok = confirmed_outcome_ok(old(self), &certificate.block);
                &&& (r is Ok <==> already || (committee_src is Some && quorum && resolved && (
                gap || (chaining && activatable && epoch_current && outcome_ok))))
                &&& match r {
                    Err(e) => {
                        &&& (e is EventsNotFound <==> !already && committee_src is None && old(
                            self,
                        ).storage.network_description is Some)
                        &&& (e is MissingNetworkDescription <==> !already && committee_src
                            is None && old(self).storage.network_description is None)
                        &&& (e is InvalidCertificate <==> !already && committee_src is Some
                            && !quorum)
                        &&& (e is BlobsNotFound <==> !already && committee_src is Some && quorum
                            && !resolved)
                        &&& (e is InvalidBlockChaining <==> !already && committee_src is Some
                            && quorum && resolved && !gap && !chaining)
                        &&& (e is InactiveChain <==> !already && committee_src is Some && quorum
                            && resolved && !gap && chaining && !activatable)
                        &&& (e is InvalidEpoch <==> !already && committee_src is Some && quorum
                            && resolved && !gap && chaining && activatable && !epoch_current)
                        &&& (e is IncorrectOutcome <==> !already && committee_src is Some
                            && quorum && resolved && !gap && chaining && activatable
                            && epoch_current && !outcome_ok)
                        &&& (e is InvalidCertificate || e is EventsNotFound
                            || e is MissingNetworkDescription) ==> *final(self) == *old(self)
                        &&& e matches WorkerError::BlobsNotFound(ids) ==> {
                            &&& ids@ == missing
                            &&& (forall|j: int|
                                0 <= j < required.len()
                                    ==> crate::storage::storage_has_blob_state(
                                    final(self).storage.blob_states@,
                                    #[trigger] required[j],
                                ))
                            // The certificate and its events are written
                            // only when every blob resolves.
                            &&& final(self).storage.certificates == old(
                                self,
                            ).storage.certificates
                            &&& final(self).storage.events == old(self).storage.events
                        }
                    },
                    Ok((info, actions)) => {
                    if already {
                        // Already processed: nothing changes but the
                        // delivery registration.
                        &&& final(self).chain == old(self).chain
                        &&& final(self).storage == old(self).storage
                        &&& info == info_of(&old(self).chain)
                        &&& requests_match_outboxes(
                            actions.cross_chain_requests@,
                            old(self).chain.outboxes@,
                        )
                        &&& actions.notifications@.len() == 0
                        &&& notifier_after_register(
                            old(self).delivery_notifier.entries@,
                            final(self).delivery_notifier.entries@,
                            height,
                            notify_when_messages_are_delivered is Some,
                            actions.cross_chain_requests@,
                        )
                    } else if gap {
                        // A gap: only the outboxes move, so downstream
                        // chains can receive.
                        &&& final(self).chain.tip_state == old(self).chain.tip_state
                        &&& final(self).chain.manager == old(self).chain.manager
                        &&& final(self).chain.execution_state == old(self).chain.execution_state
                        &&& final(self).chain.inboxes == old(self).chain.inboxes
                        &&& forall|d: ChainId|
                            #![trigger outbox_queue(&final(self).chain, d)]
                            outbox_queue(&final(self).chain, d) == sched_spec(
                                outbox_queue(&old(self).chain, d),
                                dest_in(certificate.block.messages@, d),
                                height,
                            )
                        &&& crate::storage::storage_has_certificate(
                            final(self).storage.certificates@,
                            certificate.hash,
                        )
                        &&& (match find_chain(
                            final(self).storage.chain_states@,
                            final(self).chain.chain_id,
                        ) {
                            Some(i) => crate::chain::chain_state_matches(
                                &final(self).storage.chain_states@[i].1,
                                &final(self).chain,
                            ),
                            None => false,
                        })
                        &&& info == info_of(&final(self).chain)
                        &&& requests_match_outboxes(
                            actions.cross_chain_requests@,
                            final(self).chain.outboxes@,
                        )
                        &&& actions.notifications@.len() == 0
                    } else {
                        // Committed at the tip: the frontier moves past the
                        // block and records its hash, and the execution
                        // state the chain now holds is exactly the one the
                        // certificate's state hash commits to.
                        &&& final(self).chain.tip_state == (crate::types::TipState {
                            next_block_height: (height + 1) as u64,
                            block_hash: Some(certificate.hash),
                        })
                        &&& final(self).chain.manager == ConsensusManager::spec_fresh()
                        &&& state_digest(&final(self).chain.execution_state)
                            == certificate.block.state_hash
                        &&& final(self).chain.pending_validated_blobs is None
                        &&& final(self).chain.pending_proposed_blobs@.len() == 0
                        &&& crate::storage::storage_has_certificate(
                            final(self).storage.certificates@,
                            certificate.hash,
                        )
                        &&& forall|j: int|
                            0 <= j < published_blob_ids_spec(
                                certificate.block.operations@,
                            ).len() ==> crate::storage::storage_has_blob_state(
                                final(self).storage.blob_states@,
                                #[trigger] published_blob_ids_spec(
                                    certificate.block.operations@,
                                )[j],
                            )
                        &&& (match find_chain(
                            final(self).storage.chain_states@,
                            final(self).chain.chain_id,
                        ) {
                            Some(i) => crate::chain::chain_state_matches(
                                &final(self).storage.chain_states@[i].1,
                                &final(self).chain,
                            ),
                            None => false,
                        })
                        &&& final(self).block_values@ == old(self).block_values@.push(
                            certificate.hash,
                        )
                        &&& actions.notifications@ == seq![
                            Notification {
                                chain_id: certificate.block.header.chain_id,
                                reason: Reason::NewBlock { height, hash: certificate.hash },
                            },
                        ]
                        &&& requests_match_outboxes(
                            actions.cross_chain_requests@,
                            final(self).chain.outboxes@,
                        )
                        &&& info == info_of(&final(self).chain)
                    }
                    },
                }
            }),
    {
        let height = certificate.block.header.height;
        let chain_id = certificate.block.header.chain_id;
        let epoch = certificate.block.header.epoch;

        // (A) Idempotence: an already processed block changes nothing.
        if self.chain.tip_state.next_block_height > height {
            let actions = create_network_actions(&self.chain);
            let info = make_chain_info(&self.chain);
            self.register_delivery_notifier(
                height,
                &actions,
                notify_when_messages_are_delivered,
            );
            return Ok((info, actions));
        }

        // (B) Find the committee of the block's declared epoch: in the
        // chain's own committees, or in storage for epochs the chain has
        // not caught up with.
        let committee: Committee = match self.chain.execution_state.committees.get(epoch) {
            Some(c) => {
                let d = c.duplicate();
                proof {
                    crate::committee::lemma_find_epoch_sound(
                        self.chain.execution_state.committees.entries@,
                        epoch,
                    );
                }
                d
            },
            None => {
                match self.storage.committees_for(epoch) {
                    Some(c) => c,
                    None => {
                        let net = match self.storage.read_network_description() {
                            Some(n) => n,
                            None => {
                                return Err(WorkerError::MissingNetworkDescription);
                            },
                        };
                        let mut events: Vec<EventId> = Vec::new();
                        events.push(
                            EventId {
                                chain_id: net.admin_chain_id,
                                stream_id: crate::block::EPOCH_STREAM_ID,
                                index: epoch,
                            },
                        );
                        return Err(WorkerError::EventsNotFound(events));
                    },
                }
            },
        };
        proof {
            match declared_epoch_committee(&*self, epoch) {
                Some(c0) => {
                    crate::committee::lemma_quorum_congruent(
                        &committee,
                        &c0,
                        certificate.signatures@,
                    );
                },
                None => {},
            }
        }
        match certificate.check(&committee) {
            Ok(()) => {},
            Err(e) => {
                return Err(e);
            },
        }

        // (C) Write the blob states first — the certificate legitimizes its
        // required blobs, so late uploads can be accepted — and, when every
        // blob is present, the blobs and the certificate in one step.
        let required = certificate.block.required_blob_ids();
        let empty: Vec<Blob> = Vec::new();
        let (found, missing) = self.resolve_blobs(&required, &empty);
        proof {
            assert(empty@ =~= Seq::<Blob>::empty());
        }
        let resolved = missing.len() == 0;
        if resolved {
            self.storage.write_blobs_and_certificate(&found, certificate.hash, &certificate.block);
            self.storage.write_events(chain_id, &certificate.block.events);
        }
        let blob_state = BlobState {
            certificate_hash: certificate.hash,
            block_height: height,
            epoch,
        };
        self.storage.maybe_write_blob_states(&required, blob_state);
        if !resolved {
            return Err(WorkerError::BlobsNotFound(missing));
        }

        // (D) A gap: do not execute, only update the outboxes.
        if self.chain.tip_state.next_block_height < height {
            self.chain.preprocess_block(&certificate.block);
            self.save();
            let actions = create_network_actions(&self.chain);
            let info = make_chain_info(&self.chain);
            self.register_delivery_notifier(
                height,
                &actions,
                notify_when_messages_are_delivered,
            );
            return Ok((info, actions));
        }

        // (E) The block extends the tip: its previous hash must match.
        if !option_hash_eq(
            self.chain.tip_state.block_hash,
            certificate.block.header.previous_block_hash,
        ) {
            return Err(WorkerError::InvalidBlockChaining);
        }

        // (F) Check the epoch against the chain's own, initializing the
        // chain from its description when this is the genesis block.
        let activation = match self.activation_plan() {
            Ok(a) => a,
            Err(e) => {
                return Err(e);
            },
        };
        let base_state: ExecutionState = match &activation {
            Some(d) => make_activated_state(d),
            None => self.chain.execution_state.duplicate(),
        };
        proof {
            assert(base_state.epoch == worker_eff_epoch(old(self)));
            assert(crate::committee::committee_rep_matches(
                base_state.committees.entries@,
                base_rep_of(old(self)),
            ));
            assert(base_state.active);
        }
        if epoch != base_state.epoch {
            return Err(WorkerError::InvalidEpoch {
                chain_id,
                chain_epoch: base_state.epoch,
                epoch,
            });
        }

        // Re-execute, or adopt the cached state whose digest equals the
        // certified state hash.
        let (proposed, claimed) = certificate.block.into_proposal();
        let local_time = self.storage.current_time();
        proof {
            assert(self.execution_state_cache@ == old(self).execution_state_cache@);
            assert(claimed.state_hash == certificate.block.state_hash);
        }
        let cached = self.take_cached_state(claimed.state_hash);
        let new_state: ExecutionState = match cached {
            Some(state) => {
                proof {
                    assert(cache_has(
                        old(self).execution_state_cache@,
                        certificate.block.state_hash,
                    ));
                }
                state
            },
            None => {
                let (computed_state, computed_outcome) = execute_block(
                    &base_state,
                    &proposed,
                    local_time,
                    &claimed.oracle_responses,
                );
                proof {
                    assert forall|i: int|
                        0 <= i < certificate.block.operations@.len() implies (
                    #[trigger] computed_outcome.messages@[i]@) == crate::execution::op_messages(
                        &certificate.block.operations@[i],
                    ) && (computed_outcome.events@[i]@) == crate::execution::op_events(
                        &certificate.block.operations@[i],
                    ) by {
                        crate::execution::lemma_op_outputs_congruent(
                            &proposed.operations@[i],
                            &certificate.block.operations@[i],
                        );
                    }
                    crate::execution::lemma_executed_digest_congruent(
                        true,
                        base_state.committees.entries@,
                        base_rep_of(old(self)),
                        base_state.epoch,
                        proposed.operations@,
                        certificate.block.operations@,
                        certificate.block.header.timestamp,
                    );
                    crate::execution::lemma_outcome_equivalence(
                        &computed_outcome,
                        &claimed,
                        &certificate.block,
                        true,
                        base_rep_of(old(self)),
                        worker_eff_epoch(old(self)),
                    );
                }
                if !outcomes_eq(&computed_outcome, &claimed) {
                    proof {
                        assert(!confirmed_outcome_ok(old(self), &certificate.block));
                    }
                    return Err(WorkerError::IncorrectOutcome);
                }
                proof {
                    assert(confirmed_outcome_ok(old(self), &certificate.block));
                }
                computed_state
            },
        };

        // (G) Commit: claim the incoming bundles, adopt the new execution
        // state, move the tip, and persist.
        self.chain.remove_bundles_from_inboxes(&certificate.block.incoming_bundles);
        self.chain.execution_state = new_state;
        self.chain.apply_confirmed_block(certificate.hash, &certificate.block);
        let mut actions = create_network_actions(&self.chain);
        actions.notifications.push(
            Notification {
                chain_id,
                reason: Reason::NewBlock { height, hash: certificate.hash },
            },
        );
        self.save();
        self.block_values.push(certificate.hash);
        let info = make_chain_info(&self.chain);
        self.register_delivery_notifier(height, &actions, notify_when_messages_are_delivered);
        proof {
            assert(actions.notifications@ =~= seq![
                Notification {
                    chain_id: certificate.block.header.chain_id,
                    reason: Reason::NewBlock { height, hash: certificate.hash },
                },
            ]);
        }
        Ok((info, actions))
    }

    /// Takes the cached execution state keyed by `key`, if one is held.
    fn take_cached_state(&mut self, key: CryptoHash) -> (r: Option<ExecutionState>)
        requires
            old(self).wf(),
        ensures
            final(self).wf(),
            r is Some <==> cache_has(old(self).execution_state_cache@, key),
            match r {
                Some(state) => state_digest(&state) == key && state.wf(),
                None => true,
            },
            *final(self) == (ChainWorkerState {
                execution_state_cache: final(self).execution_state_cache,
                ..*old(self)
            }),
            r is None ==> *final(self) == *old(self),
    {
        let mut k: usize = 0;
        while k < self.execution_state_cache.len()
            invariant
                *self == *old(self),
                old(self).wf(),
                0 <= k <= self.execution_state_cache@.len(),
                forall|j: int|
                    0 <= j < k ==> (#[trigger] self.execution_state_cache@[j]).0 != key,
            decreases self.execution_state_cache@.len() - k,
        {
            if self.execution_state_cache[k].0 == key {
                let ghost pre = self.execution_state_cache@;
                let (_, state) = self.execution_state_cache.remove(k);
                proof {
                    pre.remove_ensures(k as int);
                    assert forall|i: int|
                        0 <= i < self.execution_state_cache@.len() implies state_digest(
                        &(#[trigger] self.execution_state_cache@[i]).1,
                    ) == self.execution_state_cache@[i].0
                        && self.execution_state_cache@[i].1.wf() by {
                        assert(self.execution_state_cache@[i] == if i < k as int {
                            pre[i]
                        } else {
                            pre[i + 1]
                        });
                    }
                }
                return Some(state);
            }
            k += 1;
        }
        None
    }
}

/// The execution state a chain starts from, per its genesis description.
fn make_activated_state(d: &ChainDescription) -> (r: ExecutionState)
    requires
        d.committee.well_formed(),
    ensures
        r.active,
        r.epoch == d.epoch,
        r.timestamp == d.timestamp,
        r.wf(),
        r.committees.entries@.len() == 1,
        r.committees.entries@[0].0 == d.epoch,
        crate::committee::committee_matches(&r.committees.entries@[0].1, &d.committee),
{
    let mut committees = crate::committee::CommitteeMap::empty();
    committees.insert_if_absent(d.epoch, d.committee.duplicate());
    ExecutionState { active: true, epoch: d.epoch, timestamp: d.timestamp, committees }
}

/// Compares two optional hashes.
fn option_hash_eq(a: Option<CryptoHash>, b: Option<CryptoHash>) -> (r: bool)
    ensures
        r == (a == b),
{
    match (a, b) {
        (None, None) => true,
        (Some(x), Some(y)) => x == y,
        _ => false,
    }
}

/// The bundles of a selected window that are actually staged: those not
/// already consumed in advance.
pub open spec fn staged_bundles(bs: Seq<MessageBundle>, ant: Option<u64>) -> Seq<MessageBundle> {
    bs.filter(|b: MessageBundle| !crate::chain::is_anticipated(ant, b.height))
}

/// The received-log entries a selected window adds: one per distinct
/// height, in order.
pub open spec fn log_entries(origin: ChainId, bs: Seq<MessageBundle>) -> Seq<(ChainId, u64)>
    decreases bs.len(),
{
    if bs.len() == 0 {
        Seq::empty()
    } else {
        log_entries(origin, bs.drop_last()) + (if bs.len() >= 2 && bs[bs.len() - 2].height
            == bs.last().height {
            Seq::empty()
        } else {
            seq![(origin, bs.last().height)]
        })
    }
}

/// The unskippable entries a selected window adds.
pub open spec fn unskippable_entries(
    origin: ChainId,
    bs: Seq<MessageBundle>,
    ant: Option<u64>,
    seen: u64,
) -> Seq<crate::chain::UnskippableEntry>
    decreases bs.len(),
{
    if bs.len() == 0 {
        Seq::empty()
    } else {
        unskippable_entries(origin, bs.drop_last(), ant, seen) + (if !crate::chain::is_anticipated(
            ant,
            bs.last().height,
        ) && !bs.last().skippable {
            seq![
                crate::chain::UnskippableEntry { seen, origin, bundle: bs.last() },
            ]
        } else {
            Seq::empty()
        })
    }
}

impl ChainWorkerState {
    /// Receives a cross-chain bundle stream from `origin`: the selector
    /// picks the window that is new and trusted, each accepted bundle is
    /// staged into the inbox, and the chain is saved.  A stream for a chain
    /// that is still inactive is refused without saving, so the sender
    /// retries; nothing is confirmed then.  Returns the highest accepted
    /// height, or `None` when nothing was accepted.
    pub fn process_cross_chain_update(
        &mut self,
        origin: ChainId,
        bundles: &Vec<(u64, MessageBundle)>,
    ) -> (r: Result<Option<u64>, WorkerError>)
        requires
            old(self).wf(),
        ensures
            final(self).wf(),
            ({
                let selected = selected_bundles(
                    bundles@,
                    inbox_cursor(&old(self).chain, origin),
                    old(self).config.allow_messages_from_deprecated_epochs,
                    old(self).chain.execution_state.epoch,
                    old(self).chain.execution_state.committees.entries@.map_values(
                        |e: (u64, Committee)| e.0,
                    ),
                    inbox_anticipated(&old(self).chain, origin),
                );
                let ant0 = inbox_anticipated(&old(self).chain, origin);
                match r {
                    Err(e) => {
                        &&& e is InvalidCrossChainRequest
                        &&& !heights_nondecreasing(bundles@)
                        &&& *final(self) == *old(self)
                    },
                    Ok(None) => {
                        &&& *final(self) == *old(self)
                        &&& heights_nondecreasing(bundles@)
                        &&& (selected.len() == 0 || (!old(self).config.allow_inactive_chains
                            && !old(self).chain.execution_state.active))
                    },
                    Ok(Some(h)) => {
                        &&& heights_nondecreasing(bundles@)
                        &&& selected.len() > 0
                        &&& (old(self).config.allow_inactive_chains || old(
                            self,
                        ).chain.execution_state.active)
                        &&& h == selected.last().height
                        &&& inbox_added(&final(self).chain, origin) == inbox_added(
                            &old(self).chain,
                            origin,
                        ) + staged_bundles(selected, ant0)
                        &&& inbox_anticipated(&final(self).chain, origin) == ant0
                        &&& final(self).chain.received_log@ == old(self).chain.received_log@
                            + log_entries(origin, selected)
                        &&& final(self).chain.unskippable_bundles@ == old(
                            self,
                        ).chain.unskippable_bundles@ + unskippable_entries(
                            origin,
                            selected,
                            ant0,
                            old(self).storage.clock,
                        )
                        &&& forall|o: ChainId|
                            o != origin ==> inbox_added(&final(self).chain, o) == inbox_added(
                                &old(self).chain,
                                o,
                            ) && inbox_cursor(&final(self).chain, o) == inbox_cursor(
                                &old(self).chain,
                                o,
                            )
                        &&& final(self).chain.tip_state == old(self).chain.tip_state
                        &&& final(self).chain.manager == old(self).chain.manager
                        &&& final(self).chain.outboxes == old(self).chain.outboxes
                        &&& storage_saved(
                            &old(self).storage,
                            &final(self).storage,
                            &final(self).chain,
                        )
                    },
                }
            }),
    {
        let next_height_to_receive = self.chain.next_block_height_to_receive(origin);
        let last_anticipated = self.chain.last_anticipated_block_height(origin);
        let helper = CrossChainUpdateHelper::new(&self.config, &self.chain);
        let recipient = self.chain.chain_id;
        let selected = match helper.select_message_bundles(
            origin,
            recipient,
            next_height_to_receive,
            last_anticipated,
            bundles,
        ) {
            Ok(v) => v,
            Err(e) => {
                return Err(e);
            },
        };
        proof {
            assert(helper.committee_epochs@
                =~= self.chain.execution_state.committees.entries@.map_values(
                |e: (u64, Committee)| e.0,
            ));
        }
        if selected.len() == 0 {
            return Ok(None);
        }
        if !self.config.allow_inactive_chains && !self.chain.is_active() {
            // Refuse to create state for an inactive chain; do not save and
            // do not confirm, so the sender retries later.
            return Ok(None);
        }
        let last_updated_height = selected[selected.len() - 1].height;
        let local_time = self.storage.current_time();
        let ghost sel = selected@;
        let ghost ant0 = inbox_anticipated(&self.chain, origin);
        let mut prev_height: Option<u64> = None;
        let mut k: usize = 0;
        while k < selected.len()
            invariant
                old(self).wf(),
                self.chain.wf(),
                self.storage == old(self).storage,
                self.config == old(self).config,
                self.delivery_notifier == old(self).delivery_notifier,
                self.block_values == old(self).block_values,
                self.execution_state_cache == old(self).execution_state_cache,
                0 <= k <= sel.len(),
                selected@ == sel,
                local_time == old(self).storage.clock,
                ant0 == inbox_anticipated(&old(self).chain, origin),
                prev_height == (if k == 0 {
                    None
                } else {
                    Some(sel[k as int - 1].height)
                }),
                inbox_added(&self.chain, origin) == inbox_added(&old(self).chain, origin)
                    + staged_bundles(sel.take(k as int), ant0),
                inbox_anticipated(&self.chain, origin) == ant0,
                self.chain.received_log@ == old(self).chain.received_log@ + log_entries(
                    origin,
                    sel.take(k as int),
                ),
                self.chain.unskippable_bundles@ == old(self).chain.unskippable_bundles@
                    + unskippable_entries(origin, sel.take(k as int), ant0, local_time),
                forall|o: ChainId|
                    o != origin ==> inbox_added(&self.chain, o) == inbox_added(
                        &old(self).chain,
                        o,
                    ) && inbox_cursor(&self.chain, o) == inbox_cursor(&old(self).chain, o)
                        && inbox_anticipated(&self.chain, o) == inbox_anticipated(
                        &old(self).chain,
                        o,
                    ),
                self.chain.chain_id == old(self).chain.chain_id,
                self.chain.tip_state == old(self).chain.tip_state,
                self.chain.execution_state == old(self).chain.execution_state,
                self.chain.manager == old(self).chain.manager,
                self.chain.outboxes == old(self).chain.outboxes,
                self.chain.received_certificate_trackers == old(
                    self,
                ).chain.received_certificate_trackers,
                self.chain.pending_validated_blobs == old(self).chain.pending_validated_blobs,
                self.chain.pending_proposed_blobs == old(self).chain.pending_proposed_blobs,
            decreases sel.len() - k,
        {
            let bundle = selected[k];
            let add_to_received_log = match prev_height {
                Some(p) => p != bundle.height,
                None => true,
            };
            proof {
                assert(sel.take(k as int + 1).drop_last() =~= sel.take(k as int));
                assert(sel.take(k as int + 1).last() == sel[k as int]);
                reveal(Seq::filter);
            }
            self.chain.receive_message_bundle(origin, bundle, local_time, add_to_received_log);
            proof {
                assert(staged_bundles(sel.take(k as int + 1), ant0) =~= staged_bundles(
                    sel.take(k as int),
                    ant0,
                ) + (if !crate::chain::is_anticipated(ant0, sel[k as int].height) {
                    seq![sel[k as int]]
                } else {
                    Seq::<MessageBundle>::empty()
                }));
                assert(self.chain.received_log@ =~= old(self).chain.received_log@ + log_entries(
                    origin,
                    sel.take(k as int + 1),
                ));
                assert(self.chain.unskippable_bundles@ =~= old(self).chain.unskippable_bundles@
                    + unskippable_entries(origin, sel.take(k as int + 1), ant0, local_time));
                assert(inbox_added(&self.chain, origin) =~= inbox_added(&old(self).chain, origin)
                    + staged_bundles(sel.take(k as int + 1), ant0));
            }
            prev_height = Some(bundle.height);
            k += 1;
        }
        proof {
            assert(sel.take(sel.len() as int) =~= sel);
        }
        self.save();
        Ok(Some(last_updated_height))
    }

    /// Handles the acknowledgment that `recipient` received messages up to
    /// `latest_height`: the outbox entries up to that height are removed,
    /// and when every tracked recipient is served through it, the delivery
    /// sinks waiting at that height or below fire.
    pub fn confirm_updated_recipient(&mut self, recipient: ChainId, latest_height: u64) -> (r:
        Result<(), WorkerError>)
        requires
            old(self).wf(),
        ensures
            final(self).wf(),
            r is Ok,
            outbox_queue(&final(self).chain, recipient) == outbox_queue(
                &old(self).chain,
                recipient,
            ).filter(|h: u64| h > latest_height),
            forall|d: ChainId|
                d != recipient ==> outbox_queue(&final(self).chain, d) == outbox_queue(
                    &old(self).chain,
                    d,
                ),
            storage_saved(&old(self).storage, &final(self).storage, &final(self).chain),
            ({
                let removed = exists|i: int|
                    0 <= i < outbox_queue(&old(self).chain, recipient).len() && outbox_queue(
                        &old(self).chain,
                        recipient,
                    )[i] <= latest_height;
                let all_done = forall|i: int, j: int|
                    0 <= i < final(self).chain.outboxes@.len() && 0 <= j < (
                    #[trigger] final(self).chain.outboxes@[i]).1.queue@.len() ==> (
                    #[trigger] final(self).chain.outboxes@[i].1.queue@[j]) > latest_height;
                if removed && all_done {
                    final(self).delivery_notifier.entries@ == old(
                        self,
                    ).delivery_notifier.entries@.filter(
                        |e: (u64, tokio::sync::oneshot::Sender<()>)| e.0 > latest_height,
                    )
                } else {
                    final(self).delivery_notifier == old(self).delivery_notifier
                }
            }),
    {
        let removed = self.chain.mark_messages_as_received(recipient, latest_height);
        let all_done = self.chain.all_messages_delivered_up_to(latest_height);
        let fully_delivered = removed && all_done;
        self.save();
        if fully_delivered {
            let _ = self.delivery_notifier.notify(latest_height);
        }
        Ok(())
    }
}

/// The law of idempotent confirmation: once a confirmed block is committed,
/// handling the same certificate again takes the already-processed path,
/// whose summary and cross-chain requests are computed from the same
/// unchanged chain state — so both calls agree and nothing is applied
/// twice.  The hypotheses are exactly what the two calls' contracts give:
/// the first call's summary and requests over the committed state, and the
/// second call's over the same state, which it leaves unchanged.
pub proof fn lemma_confirmed_idempotent(
    committed: &ChainState,
    info1: ChainInfoResponse,
    requests1: Seq<CrossChainRequest>,
    info2: ChainInfoResponse,
    requests2: Seq<CrossChainRequest>,
)
    requires
        info1 == info_of(committed),
        requests_match_outboxes(requests1, committed.outboxes@),
        info2 == info_of(committed),
        requests_match_outboxes(requests2, committed.outboxes@),
    ensures
        info1 == info2,
        requests1.len() == requests2.len(),
        forall|i: int|
            0 <= i < requests1.len() ==> (#[trigger] requests1[i]).recipient
                == requests2[i].recipient && requests1[i].heights@ == requests2[i].heights@,
{
}

/// Whether some pending proposal belongs to a plain (not yet validated)
/// block, so the committee's publication policy applies to uploads.
pub open spec fn upload_needs_policy(c: &ChainState) -> bool {
    exists|j: int|
        0 <= j < c.pending_proposed_blobs@.len() && !(
        #[trigger] c.pending_proposed_blobs@[j]).1.validated
}

/// The resource policy of the chain's current committee, when the chain is
/// active and knows that committee.
pub open spec fn current_policy_of(c: &ChainState) -> Option<
    crate::committee::ResourceControlPolicy,
> {
    if c.execution_state.active {
        match crate::committee::find_epoch(
            c.execution_state.committees.entries@,
            c.execution_state.epoch,
        ) {
            Some(i) => Some(c.execution_state.committees.entries@[i].1.policy),
            None => None,
        }
    } else {
        None
    }
}

/// Whether every plain pending proposal still has room for one more blob
/// under the policy's publication limit.
pub open spec fn upload_count_ok(c: &ChainState, max: u64) -> bool {
    forall|j: int|
        0 <= j < c.pending_proposed_blobs@.len() && !(
        #[trigger] c.pending_proposed_blobs@[j]).1.validated
            ==> c.pending_proposed_blobs@[j].1.found@.len() < max
}

/// The pending set after a blob was offered to it: a set that expected the
/// blob holds it appended at the end; any other set keeps its contents.
pub open spec fn pending_took_blob(p_old: &PendingBlobs, p_new: &PendingBlobs, blob: &Blob) -> bool {
    if p_old.expected@.contains(blob.id) && !found_has(p_old.found@, blob.id) {
        &&& p_new.round == p_old.round
        &&& p_new.validated == p_old.validated
        &&& p_new.expected@ == p_old.expected@
        &&& p_new.found@.len() == p_old.found@.len() + 1
        &&& (forall|i: int|
            0 <= i < p_old.found@.len() ==> (#[trigger] p_new.found@[i]).id == p_old.found@[i].id
                && p_new.found@[i].data@ == p_old.found@[i].data@)
        &&& p_new.found@.last().id == blob.id
        &&& p_new.found@.last().data@ == blob.data@
    } else {
        crate::chain::pending_matches(p_new, p_old)
    }
}

/// Whether an upload passes the publication policy: no plain proposal is
/// pending, or the current committee is known, the blob fits its size
/// limit, and every plain proposal has room for one more blob.
pub open spec fn upload_policy_ok(c: &ChainState, blob: &Blob) -> bool {
    !upload_needs_policy(c) || (match current_policy_of(c) {
        Some(p) => blob.data@.len() <= p.maximum_blob_size && upload_count_ok(
            c,
            p.maximum_published_blobs,
        ),
        None => false,
    })
}

/// Whether any pending set still waits for this blob.
pub open spec fn blob_expected_somewhere(c: &ChainState, blob: &Blob) -> bool {
    ||| (c.pending_validated_blobs matches Some(p) && p.expected@.contains(blob.id)
        && !found_has(p.found@, blob.id))
    ||| exists|j: int|
        0 <= j < c.pending_proposed_blobs@.len() && (
        #[trigger] c.pending_proposed_blobs@[j]).1.expected@.contains(blob.id) && !found_has(
            c.pending_proposed_blobs@[j].1.found@,
            blob.id,
        )
}

/// Every required id is available when none is missing.
/// Every required id is available when none is missing.
proof fn lemma_available_all(required: Seq<BlobId>, extra: Seq<Blob>, store: Seq<Blob>)
    requires
        missing_with(required, extra, store).len() == 0,
    ensures
        available_ids(required, extra, store) == required,
    decreases required.len(),
{
    reveal(Seq::filter);
    if required.len() > 0 {
        assert(missing_with(required.drop_last(), extra, store).len() <= missing_with(
            required,
            extra,
            store,
        ).len());
        lemma_available_all(required.drop_last(), extra, store);
        assert(available_ids(required, extra, store) =~= required);
    } else {
        assert(available_ids(required, extra, store) =~= required);
    }
}

/// Two blob lists with the same ids hold the same ids.
proof fn lemma_found_has_congruent(a: Seq<Blob>, b: Seq<Blob>, id: BlobId)
    requires
        a.len() == b.len(),
        forall|i: int| 0 <= i < a.len() ==> (#[trigger] a[i]).id == b[i].id,
    ensures
        found_has(a, id) == found_has(b, id),
{
    if found_has(a, id) {
        let i = choose|i: int| 0 <= i < a.len() && a[i].id == id;
        assert(b[i].id == id);
    }
    if found_has(b, id) {
        let i = choose|i: int| 0 <= i < b.len() && b[i].id == id;
        assert(a[i].id == id);
    }
}

/// Resolution sees only the ids of the collected blobs: two collections
/// with the same ids resolve the same.
proof fn lemma_resolution_congruent(
    required: Seq<BlobId>,
    a: Seq<Blob>,
    b: Seq<Blob>,
    store: Seq<Blob>,
)
    requires
        a.len() == b.len(),
        forall|i: int| 0 <= i < a.len() ==> (#[trigger] a[i]).id == b[i].id,
    ensures
        missing_with(required, a, store) == missing_with(required, b, store),
        available_ids(required, a, store) == available_ids(required, b, store),
    decreases required.len(),
{
    reveal(Seq::filter);
    if required.len() > 0 {
        lemma_resolution_congruent(required.drop_last(), a, b, store);
        lemma_found_has_congruent(a, b, required.last());
        assert(missing_with(required, a, store) =~= missing_with(required, b, store));
        assert(available_ids(required, a, store) =~= available_ids(required, b, store));
    } else {
        assert(missing_with(required, a, store) =~= missing_with(required, b, store));
        assert(available_ids(required, a, store) =~= available_ids(required, b, store));
    }
}

/// That `post` is `pre` with `chain` saved: the chain stands under its id,
/// other chains and the rest of storage are untouched.
pub open spec fn storage_saved(pre: &Storage, post: &Storage, chain: &ChainState) -> bool {
    &&& match find_chain(post.chain_states@, chain.chain_id) {
        Some(i) => crate::chain::chain_state_matches(&post.chain_states@[i].1, chain),
        None => false,
    }
    &&& forall|other: ChainId|
        other != chain.chain_id ==> #[trigger] find_chain(post.chain_states@, other) == find_chain(
            pre.chain_states@,
            other,
        ) && (match find_chain(pre.chain_states@, other) {
            Some(i) => post.chain_states@[i] == pre.chain_states@[i],
            None => true,
        })
    &&& post.blobs == pre.blobs
    &&& post.blob_states == pre.blob_states
    &&& post.certificates == pre.certificates
    &&& post.events == pre.events
    &&& post.committees == pre.committees
    &&& post.chain_descriptions == pre.chain_descriptions
    &&& post.network_description == pre.network_description
    &&& post.clock == pre.clock
}

} // verus!
