//! End-to-end scenarios on the chain worker: genesis, gap preprocessing,
//! missing blobs, equivocation, the cross-chain trust filter, outcome
//! mismatch, idempotent confirmation, and rollback on error.

use chain_worker::block::{
    Block, BlockHeader, ConfirmedBlockCertificate, MessageBundle, Operation, OutgoingMessage,
    TimeoutCertificate, Timeout, ValidatedBlockCertificate,
};
use chain_worker::chain::{ChainDescription, InboxState};
use chain_worker::committee::{Committee, CommitteeMap, ResourceControlPolicy};
use chain_worker::errors::WorkerError;
use chain_worker::execution::{compute_state_digest, ExecutionState};
use chain_worker::storage::{NetworkDescription, Storage};
use chain_worker::types::{Blob, BlobId, ChainId, CryptoHash, ValidatorPublicKey, ValidatorState};
use chain_worker::worker::{ChainWorkerConfig, ChainWorkerState, Reason};

fn hash(v: u64) -> CryptoHash {
    CryptoHash::from_u64(v)
}

fn single_committee() -> Committee {
    let validators = vec![ValidatorState { public_key: ValidatorPublicKey(hash(1)), votes: 1 }];
    let policy = ResourceControlPolicy { maximum_blob_size: 1024, maximum_published_blobs: 10 };
    Committee::new(validators, policy).unwrap()
}

fn signers() -> Vec<ValidatorPublicKey> {
    vec![ValidatorPublicKey(hash(1))]
}

fn chain_id() -> ChainId {
    ChainId(hash(9))
}

fn fresh_worker() -> ChainWorkerState {
    let mut storage = Storage::new();
    storage.chain_descriptions.push((
        chain_id(),
        ChainDescription {
            chain_id: chain_id(),
            epoch: 0,
            timestamp: 0,
            committee: single_committee(),
        },
    ));
    storage.network_description = Some(NetworkDescription { admin_chain_id: ChainId(hash(2)) });
    storage.committees.push((0, single_committee()));
    ChainWorkerState::new(ChainWorkerConfig::new(), chain_id(), storage)
}

fn empty_block(height: u64, previous: Option<CryptoHash>, state_hash: CryptoHash) -> Block {
    Block {
        header: BlockHeader {
            chain_id: chain_id(),
            epoch: 0,
            height,
            timestamp: 0,
            previous_block_hash: previous,
        },
        incoming_bundles: vec![],
        operations: vec![],
        messages: vec![],
        events: vec![],
        oracle_responses: vec![],
        state_hash,
    }
}

fn genesis_state_hash() -> CryptoHash {
    let mut committees = CommitteeMap::empty();
    committees.insert_if_absent(0, single_committee());
    let state = ExecutionState { active: true, epoch: 0, timestamp: 0, committees };
    compute_state_digest(&state)
}

fn run_genesis(worker: &mut ChainWorkerState) -> CryptoHash {
    let cert_hash = hash(100);
    let cert = ConfirmedBlockCertificate {
        block: empty_block(0, None, genesis_state_hash()),
        hash: cert_hash,
        signatures: signers(),
    };
    let (_info, actions) = worker.process_confirmed_block(&cert, None).unwrap();
    assert!(actions
        .notifications
        .iter()
        .any(|n| matches!(n.reason, Reason::NewBlock { height: 0, .. })));
    cert_hash
}

#[test]
fn genesis_block_creates_the_chain() {
    let mut worker = fresh_worker();
    let cert_hash = run_genesis(&mut worker);
    assert_eq!(worker.chain.tip_state.next_block_height, 1);
    assert_eq!(worker.chain.tip_state.block_hash, Some(cert_hash));
    assert!(worker.chain.execution_state.active);
    assert!(worker.storage.certificates.iter().any(|c| c.0 == cert_hash));
}

#[test]
fn gap_block_updates_outboxes_without_execution() {
    let mut worker = fresh_worker();
    run_genesis(&mut worker);
    let downstream = ChainId(hash(42));
    let mut block = empty_block(3, Some(hash(77)), hash(78));
    block.operations = vec![Operation::SendMessage { recipient: downstream, payload: 7 }];
    block.messages = vec![vec![OutgoingMessage { destination: downstream, payload: 7 }]];
    let cert = ConfirmedBlockCertificate { block, hash: hash(101), signatures: signers() };
    let (_info, _actions) = worker.process_confirmed_block(&cert, None).unwrap();
    // The tip did not move and nothing was executed, but the outbox knows
    // the block's height so downstream delivery can proceed.
    assert_eq!(worker.chain.tip_state.next_block_height, 1);
    let outbox = worker.chain.outboxes.iter().find(|o| o.0 == downstream).unwrap();
    assert_eq!(outbox.1.queue, vec![3]);
    assert!(worker.storage.certificates.iter().any(|c| c.0 == hash(101)));
}

#[test]
fn missing_blob_is_recorded_then_uploaded_then_accepted() {
    let mut worker = fresh_worker();
    run_genesis(&mut worker);
    let blob_id = BlobId(hash(55));
    let mut block = empty_block(1, Some(hash(100)), hash(79));
    block.operations = vec![Operation::PublishBlob { blob_id }];
    let cert = ValidatedBlockCertificate {
        block,
        round: 0,
        hash: hash(102),
        signatures: signers(),
    };
    match worker.process_validated_block(&cert) {
        Err(WorkerError::BlobsNotFound(ids)) => assert_eq!(ids, vec![blob_id]),
        other => panic!("unexpected result: {:?}", other.map(|_| ())),
    }
    assert!(worker.chain.pending_validated_blobs.is_some());
    // The client uploads the blob; the pending set accepts it.
    let blob = Blob { id: blob_id, data: vec![1, 2, 3] };
    worker.handle_pending_blob(&blob).unwrap();
    // Re-submitting the certificate now goes through and the final vote is
    // issued.
    let cert2 = ValidatedBlockCertificate {
        block: cert.block.duplicate(),
        round: 0,
        hash: hash(102),
        signatures: signers(),
    };
    let (_info, _actions, skipped) = worker.process_validated_block(&cert2).unwrap();
    assert!(!skipped);
    assert_eq!(worker.chain.manager.locked.unwrap().hash, hash(102));
}

#[test]
fn equivocating_validated_certificate_is_skipped() {
    let mut worker = fresh_worker();
    run_genesis(&mut worker);
    let v1 = ValidatedBlockCertificate {
        block: empty_block(1, Some(hash(100)), hash(80)),
        round: 0,
        hash: hash(103),
        signatures: signers(),
    };
    let (_i1, _a1, skipped1) = worker.process_validated_block(&v1).unwrap();
    assert!(!skipped1);
    // A different certificate for the same height and round is not voted
    // for: the first vote stands.
    let v2 = ValidatedBlockCertificate {
        block: empty_block(1, Some(hash(100)), hash(81)),
        round: 0,
        hash: hash(104),
        signatures: signers(),
    };
    let (_i2, _a2, skipped2) = worker.process_validated_block(&v2).unwrap();
    assert!(skipped2);
    assert_eq!(worker.chain.manager.locked.unwrap().hash, hash(103));
}

#[test]
fn cross_chain_trust_filter_accepts_the_window() {
    let mut worker = fresh_worker();
    run_genesis(&mut worker);
    // The chain knows committees for epochs 2 and 3 and is in epoch 3.
    let mut committees = CommitteeMap::empty();
    committees.insert_if_absent(2, single_committee());
    committees.insert_if_absent(3, single_committee());
    worker.chain.execution_state = ExecutionState {
        active: true,
        epoch: 3,
        timestamp: 0,
        committees,
    };
    let origin = ChainId(hash(70));
    worker.chain.inboxes.push((
        origin,
        InboxState {
            next_height_to_receive: 11,
            last_anticipated_height: None,
            added_bundles: vec![],
        },
    ));
    let bundle = |height: u64| MessageBundle {
        height,
        timestamp: 0,
        certificate_hash: hash(200 + height),
        skippable: true,
    };
    let bundles = vec![(2, bundle(10)), (3, bundle(11)), (4, bundle(12))];
    let last = worker.process_cross_chain_update(origin, &bundles).unwrap();
    // Height 10 was already received; 11 (epoch 3) and 12 (epoch 4, at or
    // above the current epoch) are accepted.
    assert_eq!(last, Some(12));
    let inbox = worker.chain.inboxes.iter().find(|e| e.0 == origin).unwrap();
    let heights: Vec<u64> = inbox.1.added_bundles.iter().map(|b| b.height).collect();
    assert_eq!(heights, vec![11, 12]);
    assert_eq!(worker.chain.received_log, vec![(origin, 11), (origin, 12)]);
}

#[test]
fn unsorted_cross_chain_bundles_are_refused() {
    let mut worker = fresh_worker();
    run_genesis(&mut worker);
    let origin = ChainId(hash(70));
    let bundle = |height: u64| MessageBundle {
        height,
        timestamp: 0,
        certificate_hash: hash(1),
        skippable: true,
    };
    let bundles = vec![(0, bundle(5)), (0, bundle(4))];
    match worker.process_cross_chain_update(origin, &bundles) {
        Err(WorkerError::InvalidCrossChainRequest) => {},
        other => panic!("unexpected result: {:?}", other),
    }
}

#[test]
fn outcome_mismatch_is_rejected_and_state_kept() {
    let mut worker = fresh_worker();
    let cert_hash = run_genesis(&mut worker);
    // The certified state hash does not match what re-execution computes.
    let cert = ConfirmedBlockCertificate {
        block: empty_block(1, Some(cert_hash), hash(0xdead)),
        hash: hash(105),
        signatures: signers(),
    };
    match worker.process_confirmed_block(&cert, None) {
        Err(WorkerError::IncorrectOutcome) => {},
        other => panic!("unexpected result: {:?}", other.map(|_| ())),
    }
    assert_eq!(worker.chain.tip_state.next_block_height, 1);
    assert_eq!(worker.chain.tip_state.block_hash, Some(cert_hash));
    // The blob-state write for the required blobs already happened, which
    // is deliberate; the chain itself is untouched.
}

#[test]
fn wrong_chaining_is_rejected() {
    let mut worker = fresh_worker();
    run_genesis(&mut worker);
    let cert = ConfirmedBlockCertificate {
        block: empty_block(1, Some(hash(0xbad)), hash(81)),
        hash: hash(106),
        signatures: signers(),
    };
    match worker.process_confirmed_block(&cert, None) {
        Err(WorkerError::InvalidBlockChaining) => {},
        other => panic!("unexpected result: {:?}", other.map(|_| ())),
    }
    assert_eq!(worker.chain.tip_state.next_block_height, 1);
}

#[test]
fn confirmed_certificate_is_idempotent() {
    let mut worker = fresh_worker();
    let cert_hash = run_genesis(&mut worker);
    let tip_after_first = worker.chain.tip_state;
    // Handling the same certificate again takes the already-processed path:
    // the state stays as it is and the summary agrees.
    let cert = ConfirmedBlockCertificate {
        block: empty_block(0, None, genesis_state_hash()),
        hash: cert_hash,
        signatures: signers(),
    };
    let (info, actions) = worker.process_confirmed_block(&cert, None).unwrap();
    assert_eq!(worker.chain.tip_state, tip_after_first);
    assert_eq!(info.next_block_height, 1);
    assert_eq!(info.block_hash, Some(cert_hash));
    assert!(actions.notifications.is_empty());
}

#[test]
fn timeout_with_wrong_epoch_rolls_back() {
    let mut worker = fresh_worker();
    run_genesis(&mut worker);
    let round_before = worker.chain.manager.current_round;
    let cert = TimeoutCertificate {
        value: Timeout { chain_id: chain_id(), epoch: 7, height: 1, round: 0 },
        hash: hash(107),
        signatures: signers(),
    };
    match worker.process_timeout(&cert) {
        Err(WorkerError::InvalidEpoch { chain_epoch, epoch, .. }) => {
            assert_eq!(chain_epoch, 0);
            assert_eq!(epoch, 7);
        },
        other => panic!("unexpected result: {:?}", other.map(|_| ())),
    }
    assert_eq!(worker.chain.manager.current_round, round_before);
}

#[test]
fn timeout_advances_the_round() {
    let mut worker = fresh_worker();
    run_genesis(&mut worker);
    let cert = TimeoutCertificate {
        value: Timeout { chain_id: chain_id(), epoch: 0, height: 1, round: 0 },
        hash: hash(108),
        signatures: signers(),
    };
    let (_info, actions) = worker.process_timeout(&cert).unwrap();
    assert_eq!(worker.chain.manager.current_round, 1);
    assert!(actions
        .notifications
        .iter()
        .any(|n| matches!(n.reason, Reason::NewRound { round: 1, .. })));
}

#[test]
fn bad_signature_set_is_rejected() {
    let mut worker = fresh_worker();
    run_genesis(&mut worker);
    let cert = TimeoutCertificate {
        value: Timeout { chain_id: chain_id(), epoch: 0, height: 1, round: 0 },
        hash: hash(109),
        signatures: vec![ValidatorPublicKey(hash(999))],
    };
    match worker.process_timeout(&cert) {
        Err(WorkerError::InvalidCertificate) => {},
        other => panic!("unexpected result: {:?}", other.map(|_| ())),
    }
}

#[test]
fn inactive_chain_without_description_is_refused() {
    let storage = Storage::new();
    let mut worker = ChainWorkerState::new(ChainWorkerConfig::new(), chain_id(), storage);
    let cert = TimeoutCertificate {
        value: Timeout { chain_id: chain_id(), epoch: 0, height: 0, round: 0 },
        hash: hash(110),
        signatures: signers(),
    };
    match worker.process_timeout(&cert) {
        Err(WorkerError::InactiveChain(id)) => assert_eq!(id, chain_id()),
        other => panic!("unexpected result: {:?}", other.map(|_| ())),
    }
}

#[test]
fn unknown_epoch_asks_for_the_defining_event() {
    let mut worker = fresh_worker();
    run_genesis(&mut worker);
    let mut block = empty_block(1, Some(hash(100)), hash(82));
    block.header.epoch = 6;
    let cert = ConfirmedBlockCertificate { block, hash: hash(111), signatures: signers() };
    match worker.process_confirmed_block(&cert, None) {
        Err(WorkerError::EventsNotFound(events)) => {
            assert_eq!(events.len(), 1);
            assert_eq!(events[0].index, 6);
        },
        other => panic!("unexpected result: {:?}", other.map(|_| ())),
    }
}

#[test]
fn missing_network_description_is_fatal() {
    let mut worker = fresh_worker();
    run_genesis(&mut worker);
    worker.storage.network_description = None;
    let mut block = empty_block(1, Some(hash(100)), hash(83));
    block.header.epoch = 6;
    let cert = ConfirmedBlockCertificate { block, hash: hash(112), signatures: signers() };
    match worker.process_confirmed_block(&cert, None) {
        Err(WorkerError::MissingNetworkDescription) => {},
        other => panic!("unexpected result: {:?}", other.map(|_| ())),
    }
}

#[test]
fn unexpected_blob_upload_is_refused() {
    let mut worker = fresh_worker();
    run_genesis(&mut worker);
    let blob = Blob { id: BlobId(hash(500)), data: vec![1] };
    match worker.handle_pending_blob(&blob) {
        Err(WorkerError::UnexpectedBlob) => {},
        other => panic!("unexpected result: {:?}", other.map(|_| ())),
    }
}
