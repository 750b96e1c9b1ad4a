//! The delivery notifier with real one-shot channels, executed cross-chain
//! delivery, the storage round trip, and the in-memory key-value store.

use chain_worker::block::{
    Block, BlockHeader, ConfirmedBlockCertificate, Operation, OutgoingMessage,
};
use chain_worker::chain::{ChainDescription, ChainState};
use chain_worker::committee::{Committee, CommitteeMap, ResourceControlPolicy};
use chain_worker::execution::{compute_state_digest, ExecutionState};
use chain_worker::kvstore::{
    AdminKeyValueStore, Batch, MemoryStore, MemoryStoreConfig, ReadableKeyValueStore,
    TestKeyValueStore, WritableKeyValueStore, WriteOperation,
};
use chain_worker::notifier::DeliveryNotifier;
use chain_worker::storage::{NetworkDescription, Storage};
use chain_worker::types::{ChainId, CryptoHash, ValidatorPublicKey, ValidatorState};
use chain_worker::worker::{ChainWorkerConfig, ChainWorkerState};

fn hash(v: u64) -> CryptoHash {
    CryptoHash::from_u64(v)
}

fn single_committee() -> Committee {
    let validators = vec![ValidatorState { public_key: ValidatorPublicKey(hash(1)), votes: 1 }];
    let policy = ResourceControlPolicy { maximum_blob_size: 1024, maximum_published_blobs: 10 };
    Committee::new(validators, policy).unwrap()
}

fn chain_id() -> ChainId {
    ChainId(hash(9))
}

fn fresh_worker() -> ChainWorkerState {
    let mut storage = Storage::new();
    storage.chain_descriptions.push((
        chain_id(),
        ChainDescription {
            chain_id: chain_id(),
            epoch: 0,
            timestamp: 0,
            committee: single_committee(),
        },
    ));
    storage.network_description = Some(NetworkDescription { admin_chain_id: ChainId(hash(2)) });
    storage.committees.push((0, single_committee()));
    ChainWorkerState::new(ChainWorkerConfig::new(), chain_id(), storage)
}

fn state_hash_after(timestamp: u64) -> CryptoHash {
    let mut committees = CommitteeMap::empty();
    committees.insert_if_absent(0, single_committee());
    let state = ExecutionState { active: true, epoch: 0, timestamp, committees };
    compute_state_digest(&state)
}

fn block_at(height: u64, previous: Option<CryptoHash>, state_hash: CryptoHash) -> Block {
    Block {
        header: BlockHeader {
            chain_id: chain_id(),
            epoch: 0,
            height,
            timestamp: 0,
            previous_block_hash: previous,
        },
        incoming_bundles: vec![],
        operations: vec![],
        messages: vec![],
        events: vec![],
        oracle_responses: vec![],
        state_hash,
    }
}

#[test]
fn notifier_fires_each_registered_sink_once() {
    let mut notifier = DeliveryNotifier::new();
    let (tx1, mut rx1) = tokio::sync::oneshot::channel::<()>();
    let (tx2, mut rx2) = tokio::sync::oneshot::channel::<()>();
    let (tx3, mut rx3) = tokio::sync::oneshot::channel::<()>();
    notifier.register(3, tx1);
    notifier.register(5, tx2);
    notifier.register(9, tx3);
    let fired = notifier.notify(5);
    assert_eq!(fired, 2);
    assert!(rx1.try_recv().is_ok());
    assert!(rx2.try_recv().is_ok());
    assert!(rx3.try_recv().is_err());
    // The remaining sink fires when its height is reached, exactly once.
    let fired_later = notifier.notify(9);
    assert_eq!(fired_later, 1);
    assert!(rx3.try_recv().is_ok());
    assert!(notifier.is_empty());
}

#[test]
fn delivery_notification_fires_after_acknowledgment() {
    let mut worker = fresh_worker();
    let genesis = ConfirmedBlockCertificate {
        block: block_at(0, None, state_hash_after(0)),
        hash: hash(100),
        signatures: vec![ValidatorPublicKey(hash(1))],
    };
    worker.process_confirmed_block(&genesis, None).unwrap();
    // A block that sends one message to a downstream chain.
    let downstream = ChainId(hash(42));
    let mut block = block_at(1, Some(hash(100)), state_hash_after(0));
    block.operations = vec![Operation::SendMessage { recipient: downstream, payload: 7 }];
    block.messages = vec![vec![OutgoingMessage { destination: downstream, payload: 7 }]];
    block.events = vec![vec![]];
    block.oracle_responses = vec![vec![]];
    let cert = ConfirmedBlockCertificate {
        block,
        hash: hash(101),
        signatures: vec![ValidatorPublicKey(hash(1))],
    };
    let (tx, mut rx) = tokio::sync::oneshot::channel::<()>();
    let (_info, actions) = worker.process_confirmed_block(&cert, Some(tx)).unwrap();
    // The message is not delivered yet: the sink waits.
    assert!(!actions.cross_chain_requests.is_empty());
    assert!(rx.try_recv().is_err());
    // The recipient acknowledges delivery up to height 1: everything is
    // delivered, so the sink fires.
    worker.confirm_updated_recipient(downstream, 1).unwrap();
    assert!(rx.try_recv().is_ok());
}

#[test]
fn delivery_notification_fires_at_once_when_nothing_waits() {
    let mut worker = fresh_worker();
    let genesis = ConfirmedBlockCertificate {
        block: block_at(0, None, state_hash_after(0)),
        hash: hash(100),
        signatures: vec![ValidatorPublicKey(hash(1))],
    };
    let (tx, mut rx) = tokio::sync::oneshot::channel::<()>();
    // The genesis block sends no messages: there is nothing to wait for.
    worker.process_confirmed_block(&genesis, Some(tx)).unwrap();
    assert!(rx.try_recv().is_ok());
}

#[test]
fn storage_round_trip_returns_the_saved_state() {
    let mut storage = Storage::new();
    let mut chain = ChainState::new(chain_id());
    chain.received_log.push((ChainId(hash(3)), 4));
    chain.received_log.push((ChainId(hash(5)), 6));
    storage.save_chain(&chain);
    let loaded = storage.load_chain(chain_id()).unwrap();
    assert_eq!(loaded.chain_id, chain.chain_id);
    assert_eq!(loaded.tip_state, chain.tip_state);
    assert_eq!(loaded.received_log, chain.received_log);
    // Saving again replaces the stored version rather than adding one.
    storage.save_chain(&chain);
    assert_eq!(storage.chain_states.len(), 1);
}

#[test]
fn memory_store_write_batch_and_read() {
    let mut store = MemoryStore::new(10);
    let mut batch = Batch::new();
    batch.operations.push(WriteOperation::Put { key: vec![1, 2], value: vec![10] });
    batch.operations.push(WriteOperation::Put { key: vec![1, 3], value: vec![11] });
    batch.operations.push(WriteOperation::Put { key: vec![2, 4], value: vec![12] });
    store.write_batch(batch).unwrap();
    assert_eq!(store.read_value_bytes(&vec![1, 2]).unwrap(), Some(vec![10]));
    assert_eq!(store.contains_key(&vec![1, 3]).unwrap(), true);
    assert_eq!(store.read_value_bytes(&vec![9, 9]).unwrap(), None);
    // Overwrite, delete, and delete-by-prefix, all in one batch, applied in
    // order.
    let mut batch2 = Batch::new();
    batch2.operations.push(WriteOperation::Put { key: vec![2, 4], value: vec![99] });
    batch2.operations.push(WriteOperation::Delete { key: vec![1, 3] });
    batch2.operations.push(WriteOperation::DeletePrefix { key_prefix: vec![1] });
    store.write_batch(batch2).unwrap();
    assert_eq!(store.read_value_bytes(&vec![2, 4]).unwrap(), Some(vec![99]));
    assert_eq!(store.read_value_bytes(&vec![1, 2]).unwrap(), None);
    assert_eq!(store.read_value_bytes(&vec![1, 3]).unwrap(), None);
    let multi = store.read_multi_values_bytes(&vec![vec![2, 4], vec![1, 2]]).unwrap();
    assert_eq!(multi, vec![Some(vec![99]), None]);
}

#[test]
fn memory_store_finds_keys_by_prefix() {
    let mut store = MemoryStore::new(10);
    let mut batch = Batch::new();
    batch.operations.push(WriteOperation::Put { key: vec![7, 1], value: vec![1] });
    batch.operations.push(WriteOperation::Put { key: vec![7, 2], value: vec![2] });
    batch.operations.push(WriteOperation::Put { key: vec![8, 3], value: vec![3] });
    store.write_batch(batch).unwrap();
    let keys = store.find_keys_by_prefix(&vec![7]).unwrap();
    assert_eq!(keys, vec![vec![1], vec![2]]);
}

#[test]
fn memory_store_namespaces() {
    let mut config = MemoryStoreConfig::new(10);
    let name = "chains".to_string();
    assert_eq!(MemoryStore::contains_namespace(&config, &name).unwrap(), false);
    MemoryStore::create(&mut config, &name).unwrap();
    assert_eq!(MemoryStore::contains_namespace(&config, &name).unwrap(), true);
    // Creating the same namespace twice is refused.
    assert!(MemoryStore::create(&mut config, &name).is_err());
    let all = MemoryStore::list_all(&config).unwrap();
    assert_eq!(all, vec!["chains".to_string()]);
    MemoryStore::delete(&mut config, &name).unwrap();
    assert_eq!(MemoryStore::contains_namespace(&config, &name).unwrap(), false);
    // Deleting a namespace that does not exist is refused.
    assert!(MemoryStore::delete(&mut config, &name).is_err());
    let store = MemoryStore::new_test_store().unwrap();
    assert_eq!(store.max_stream_queries(), 10);
}

#[test]
fn memory_store_partitions_and_bulk_reads() {
    let mut store = MemoryStore::new(10);
    let mut batch = Batch::new();
    batch.operations.push(WriteOperation::Put { key: vec![7, 1], value: vec![1] });
    batch.operations.push(WriteOperation::Put { key: vec![7, 2], value: vec![2] });
    batch.operations.push(WriteOperation::Put { key: vec![8, 3], value: vec![3] });
    store.write_batch(batch).unwrap();
    let present = store.contains_keys(&vec![vec![7, 1], vec![9, 9]]).unwrap();
    assert_eq!(present, vec![true, false]);
    let pairs = store.find_key_values_by_prefix(&vec![7]).unwrap();
    assert_eq!(pairs, vec![(vec![1], vec![1]), (vec![2], vec![2])]);
    // An exclusive partition holds the prefixed entries, prefix stripped.
    let partition = MemoryStore::open_exclusive(&store, &vec![7]).unwrap();
    assert_eq!(partition.read_value_bytes(&vec![1]).unwrap(), Some(vec![1]));
    assert_eq!(partition.read_value_bytes(&vec![3]).unwrap(), None);
    let roots = MemoryStore::list_root_keys(&MemoryStoreConfig::new(10), &"x".to_string())
        .unwrap();
    assert!(roots.is_empty());
}
