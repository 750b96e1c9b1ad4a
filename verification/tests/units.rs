//! Unit tests of the components: quorum arithmetic, the consensus manager,
//! the cross-chain selector, policy errors on blob uploads, the execution
//! digest, and the flat interface conversions.

use chain_worker::api::{
    account_owner_to_api, chain_id_to_api, hash_to_api, height_to_api, level_from_log,
    log_level_to_api, message_id_to_api, ApiAccountOwner, ApiLogLevel, LogLevel,
};
use chain_worker::block::{
    Block, BlockHeader, MessageBundle, Operation, TimeoutCertificate, Timeout,
    ValidatedBlockCertificate,
};
use chain_worker::chain::{ChainDescription, PendingBlobs};
use chain_worker::committee::{Committee, CommitteeMap, ResourceControlPolicy};
use chain_worker::errors::WorkerError;
use chain_worker::execution::{compute_state_digest, ExecutionState};
use chain_worker::manager::{ConsensusManager, Outcome};
use chain_worker::selector::CrossChainUpdateHelper;
use chain_worker::storage::{NetworkDescription, Storage};
use chain_worker::types::{Blob, BlobId, ChainId, CryptoHash, ValidatorPublicKey, ValidatorState};
use chain_worker::worker::{ChainWorkerConfig, ChainWorkerState};

fn hash(v: u64) -> CryptoHash {
    CryptoHash::from_u64(v)
}

fn key(v: u64) -> ValidatorPublicKey {
    ValidatorPublicKey(hash(v))
}

fn committee_of_four() -> Committee {
    let validators = vec![
        ValidatorState { public_key: key(1), votes: 1 },
        ValidatorState { public_key: key(2), votes: 1 },
        ValidatorState { public_key: key(3), votes: 1 },
        ValidatorState { public_key: key(4), votes: 1 },
    ];
    let policy = ResourceControlPolicy { maximum_blob_size: 4, maximum_published_blobs: 1 };
    Committee::new(validators, policy).unwrap()
}

#[test]
fn quorum_needs_more_than_two_thirds() {
    // Four validators of weight one: the threshold is 2 * 4 / 3 + 1 = 3.
    let committee = committee_of_four();
    assert!(committee.check_quorum(&vec![key(1), key(2), key(3)]));
    assert!(!committee.check_quorum(&vec![key(1), key(2)]));
    // A repeated signer carries no extra weight.
    assert!(!committee.check_quorum(&vec![key(1), key(1), key(2)]));
    // An outsider invalidates the set.
    assert!(!committee.check_quorum(&vec![key(1), key(2), key(9)]));
}

#[test]
fn committee_rejects_duplicate_keys() {
    let validators = vec![
        ValidatorState { public_key: key(1), votes: 1 },
        ValidatorState { public_key: key(1), votes: 2 },
    ];
    let policy = ResourceControlPolicy { maximum_blob_size: 4, maximum_published_blobs: 1 };
    assert!(Committee::new(validators, policy).is_none());
}

#[test]
fn manager_round_machine() {
    let mut manager = ConsensusManager::fresh();
    assert_eq!(manager.current_round(), 0);
    // A proposal for the current round is voted for.
    let vote = manager.create_vote(0, hash(5), 3);
    assert!(vote.is_some());
    // A second proposal in the same round is not.
    assert!(manager.create_vote(0, hash(6), 3).is_none());
    // A timeout for the current round opens the next one and clears the
    // proposal.
    let timeout = TimeoutCertificate {
        value: Timeout { chain_id: ChainId(hash(9)), epoch: 0, height: 3, round: 0 },
        hash: hash(7),
        signatures: vec![],
    };
    manager.handle_timeout_certificate(&timeout);
    assert_eq!(manager.current_round(), 1);
    assert!(manager.proposed.is_none());
    // A validated certificate locks its value; an earlier-round one is then
    // skipped.
    let block = Block {
        header: BlockHeader {
            chain_id: ChainId(hash(9)),
            epoch: 0,
            height: 3,
            timestamp: 0,
            previous_block_hash: None,
        },
        incoming_bundles: vec![],
        operations: vec![],
        messages: vec![],
        events: vec![],
        oracle_responses: vec![],
        state_hash: hash(0),
    };
    let validated = ValidatedBlockCertificate {
        block,
        round: 1,
        hash: hash(8),
        signatures: vec![],
    };
    assert_eq!(manager.check_validated_block(&validated), Outcome::Accept);
    let final_vote = manager.create_final_vote(&validated);
    assert_eq!(final_vote.value_hash, Some(hash(8)));
    assert_eq!(manager.check_validated_block(&validated), Outcome::Skip);
    // One timeout vote per round.
    assert!(manager.vote_timeout(3));
    assert!(!manager.vote_timeout(3));
    manager.reset();
    assert_eq!(manager, ConsensusManager::fresh());
}

#[test]
fn selector_cuts_skipped_and_untrusted_ends() {
    let config = ChainWorkerConfig::new();
    let mut chain = chain_worker::chain::ChainState::new(ChainId(hash(9)));
    let mut committees = CommitteeMap::empty();
    let validators = vec![ValidatorState { public_key: key(1), votes: 1 }];
    let policy = ResourceControlPolicy { maximum_blob_size: 4, maximum_published_blobs: 1 };
    committees.insert_if_absent(5, Committee::new(validators, policy).unwrap());
    chain.execution_state = ExecutionState {
        active: true,
        epoch: 5,
        timestamp: 0,
        committees,
    };
    let helper = CrossChainUpdateHelper::new(&config, &chain);
    let bundle = |height: u64| MessageBundle {
        height,
        timestamp: 0,
        certificate_hash: hash(height),
        skippable: true,
    };
    // Heights 1 and 2 are already received; the bundle of epoch 3 at the
    // end is untrusted and cuts the window.
    let bundles = vec![(5, bundle(1)), (5, bundle(2)), (5, bundle(3)), (3, bundle(4))];
    let origin = ChainId(hash(1));
    let recipient = ChainId(hash(9));
    let selected = helper
        .select_message_bundles(origin, recipient, 3, None, &bundles)
        .unwrap();
    let heights: Vec<u64> = selected.iter().map(|b| b.height).collect();
    assert_eq!(heights, vec![3]);
    // An anticipated height makes even an untrusted epoch acceptable.
    let selected2 = helper
        .select_message_bundles(origin, recipient, 3, Some(4), &bundles)
        .unwrap();
    let heights2: Vec<u64> = selected2.iter().map(|b| b.height).collect();
    assert_eq!(heights2, vec![3, 4]);
    // Decreasing heights are an invalid request.
    let unsorted = vec![(5, bundle(2)), (5, bundle(1))];
    assert!(matches!(
        helper.select_message_bundles(origin, recipient, 0, None, &unsorted),
        Err(WorkerError::InvalidCrossChainRequest)
    ));
}

#[test]
fn blob_upload_policy_is_enforced() {
    let mut storage = Storage::new();
    let id = ChainId(hash(9));
    storage.chain_descriptions.push((
        id,
        ChainDescription {
            chain_id: id,
            epoch: 0,
            timestamp: 0,
            committee: committee_of_four(),
        },
    ));
    storage.network_description = Some(NetworkDescription { admin_chain_id: ChainId(hash(2)) });
    let mut worker = ChainWorkerState::new(ChainWorkerConfig::new(), id, storage);
    worker.chain.activate(&ChainDescription {
        chain_id: id,
        epoch: 0,
        timestamp: 0,
        committee: committee_of_four(),
    });
    // A plain proposal waits for two blobs; the policy allows blobs of at
    // most 4 bytes and one published blob in all.
    worker.chain.set_pending_proposed(
        chain_worker::types::AccountOwner(hash(77)),
        PendingBlobs::new(
            0,
            false,
            vec![BlobId(hash(50)), BlobId(hash(51))],
            vec![],
        ),
    );
    let too_large = Blob { id: BlobId(hash(50)), data: vec![0; 5] };
    assert!(matches!(
        worker.handle_pending_blob(&too_large),
        Err(WorkerError::BlobTooLarge)
    ));
    let first = Blob { id: BlobId(hash(50)), data: vec![0; 3] };
    worker.handle_pending_blob(&first).unwrap();
    let second = Blob { id: BlobId(hash(51)), data: vec![0; 3] };
    assert!(matches!(
        worker.handle_pending_blob(&second),
        Err(WorkerError::TooManyPublishedBlobs(1))
    ));
}

#[test]
fn digest_distinguishes_states_and_is_stable() {
    let mut committees = CommitteeMap::empty();
    committees.insert_if_absent(0, committee_of_four());
    let s1 = ExecutionState { active: true, epoch: 0, timestamp: 0, committees };
    let s1_again = s1.duplicate();
    let mut s2 = s1.duplicate();
    s2.timestamp = 1;
    assert_eq!(compute_state_digest(&s1), compute_state_digest(&s1_again));
    assert_ne!(compute_state_digest(&s1), compute_state_digest(&s2));
}

#[test]
fn execution_applies_committee_rotation() {
    let mut committees = CommitteeMap::empty();
    committees.insert_if_absent(0, committee_of_four());
    let state = ExecutionState { active: true, epoch: 0, timestamp: 0, committees };
    let proposed = chain_worker::block::ProposedBlock {
        header: BlockHeader {
            chain_id: ChainId(hash(9)),
            epoch: 0,
            height: 1,
            timestamp: 4,
            previous_block_hash: None,
        },
        incoming_bundles: vec![],
        operations: vec![
            Operation::CreateCommittee { epoch: 1, committee: committee_of_four() },
            Operation::RemoveCommittee { epoch: 0 },
            Operation::User { tag: 7 },
        ],
    };
    let (new_state, outcome) = chain_worker::execution::execute_block(
        &state,
        &proposed,
        0,
        &vec![vec![], vec![], vec![]],
    );
    assert_eq!(new_state.epoch, 1);
    assert!(new_state.committees.contains_key(1));
    assert!(!new_state.committees.contains_key(0));
    assert_eq!(new_state.timestamp, 4);
    // One event on the epoch stream for the new committee, nothing else.
    assert_eq!(outcome.events.len(), 3);
    assert_eq!(outcome.events[0].len(), 1);
    assert_eq!(outcome.events[0][0].index, 1);
    assert!(outcome.events[1].is_empty());
    assert_eq!(outcome.state_hash, compute_state_digest(&new_state));
}

#[test]
fn trackers_keep_the_maximum() {
    let mut storage = Storage::new();
    let id = ChainId(hash(9));
    storage.chain_descriptions.push((
        id,
        ChainDescription {
            chain_id: id,
            epoch: 0,
            timestamp: 0,
            committee: committee_of_four(),
        },
    ));
    let mut worker = ChainWorkerState::new(ChainWorkerConfig::new(), id, storage);
    worker
        .update_received_certificate_trackers(&vec![(key(1), 5), (key(2), 2)])
        .unwrap();
    worker
        .update_received_certificate_trackers(&vec![(key(1), 3), (key(3), 9)])
        .unwrap();
    let mut trackers = worker.chain.received_certificate_trackers.clone();
    trackers.sort_by_key(|t| t.1);
    assert_eq!(trackers, vec![(key(2), 2), (key(1), 5), (key(3), 9)]);
}

#[test]
fn flat_interface_conversions_keep_every_field() {
    let h = hash(3);
    let flat = hash_to_api(h);
    assert_eq!(
        (flat.part1, flat.part2, flat.part3, flat.part4),
        (3, 3, 3, 3)
    );
    assert_eq!(height_to_api(11).inner0, 11);
    assert_eq!(chain_id_to_api(ChainId(h)).inner0, flat);
    let owner = account_owner_to_api(chain_worker::types::AccountOwner(h));
    assert!(matches!(owner, ApiAccountOwner::User(o) if o.inner0 == flat));
    let m = message_id_to_api(ChainId(h), 11, 2);
    assert_eq!(m.height.inner0, 11);
    assert_eq!(m.index, 2);
    assert_eq!(level_from_log(log::Level::Warn), LogLevel::Warn);
    assert_eq!(level_from_log(log::Level::Trace), LogLevel::Trace);
    assert_eq!(log_level_to_api(LogLevel::Error), ApiLogLevel::Error);
    assert_eq!(log_level_to_api(LogLevel::Info), ApiLogLevel::Info);
}

#[test]
fn proposal_with_missing_blob_records_a_pending_set() {
    let mut storage = Storage::new();
    let id = ChainId(hash(9));
    storage.chain_descriptions.push((
        id,
        ChainDescription {
            chain_id: id,
            epoch: 0,
            timestamp: 0,
            committee: committee_of_four(),
        },
    ));
    let mut worker = ChainWorkerState::new(ChainWorkerConfig::new(), id, storage);
    let owner = chain_worker::types::AccountOwner(hash(77));
    let proposal = chain_worker::worker::BlockProposal {
        owner,
        round: 0,
        block_hash: hash(60),
        block: chain_worker::block::ProposedBlock {
            header: BlockHeader {
                chain_id: id,
                epoch: 0,
                height: 0,
                timestamp: 0,
                previous_block_hash: None,
            },
            incoming_bundles: vec![],
            operations: vec![Operation::PublishBlob { blob_id: BlobId(hash(50)) }],
        },
    };
    match worker.load_proposal_blobs(&proposal) {
        Err(WorkerError::BlobsNotFound(ids)) => assert_eq!(ids, vec![BlobId(hash(50))]),
        other => panic!("unexpected result: {:?}", other.map(|_| ())),
    }
    assert_eq!(worker.chain.pending_proposed_blobs.len(), 1);
    // The blob arrives in storage; the proposal now loads and the manager
    // votes for it.
    worker.storage.blobs.push(Blob { id: BlobId(hash(50)), data: vec![1, 2] });
    let blobs = worker.load_proposal_blobs(&proposal).unwrap();
    assert_eq!(blobs.len(), 1);
    assert_eq!(blobs[0].id, BlobId(hash(50)));
    let outcome = chain_worker::block::BlockExecutionOutcome {
        messages: vec![vec![]],
        events: vec![vec![]],
        oracle_responses: vec![vec![]],
        state_hash: hash(61),
    };
    worker.vote_for_block_proposal(&proposal, &outcome, 0).unwrap();
    assert_eq!(worker.chain.manager.proposed.unwrap().block_hash, hash(60));
    assert_eq!(worker.block_values, vec![hash(60)]);
}
