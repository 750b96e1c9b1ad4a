//! The errors a chain worker can return to its caller.

use vstd::prelude::*;
use crate::types::{BlobId, ChainId};

verus! {

/// The identifier of an event on a chain's stream.
#[derive(Clone, Copy, PartialEq, Eq, Structural, Debug)]
pub struct EventId {
    pub chain_id: ChainId,
    pub stream_id: u64,
    pub index: u64,
}

/// A domain error returned by a request handler.  Every error leaves the
/// chain state as it was, except where a handler records pending blobs on
/// purpose before failing with `BlobsNotFound`.
#[derive(Debug)]
pub enum WorkerError {
    /// The certificate's epoch disagrees with the chain's current epoch.
    InvalidEpoch { chain_id: ChainId, chain_epoch: u64, epoch: u64 },
    /// The certificate does not carry a quorum of valid committee signatures.
    InvalidCertificate,
    /// The block's previous hash does not match the tip of the chain.
    InvalidBlockChaining,
    /// Re-executing a confirmed block disagrees with the certified outcome.
    IncorrectOutcome,
    /// Blob dependencies are missing; the client may upload them and retry.
    BlobsNotFound(Vec<BlobId>),
    /// The committee of an epoch is not known; the client may supply the
    /// event that defines it and retry.
    EventsNotFound(Vec<EventId>),
    /// A client uploaded a blob that no pending set expects.
    UnexpectedBlob,
    /// A proposal would publish more blobs than the committee's policy allows.
    TooManyPublishedBlobs(u64),
    /// A blob exceeds the committee's maximum blob size.
    BlobTooLarge,
    /// Cross-chain bundles arrived out of order.
    InvalidCrossChainRequest,
    /// The chain has not processed its genesis block yet.
    InactiveChain(ChainId),
    /// Storage is missing the network's bootstrap record.
    MissingNetworkDescription,
}

impl WorkerError {
    /// A short name for the error kind, for reporting outside the library.
    pub fn kind_name(&self) -> String {
        match self {
            WorkerError::InvalidEpoch { .. } => "InvalidEpoch".to_string(),
            WorkerError::InvalidCertificate => "InvalidCertificate".to_string(),
            WorkerError::InvalidBlockChaining => "InvalidBlockChaining".to_string(),
            WorkerError::IncorrectOutcome => "IncorrectOutcome".to_string(),
            WorkerError::BlobsNotFound(_) => "BlobsNotFound".to_string(),
            WorkerError::EventsNotFound(_) => "EventsNotFound".to_string(),
            WorkerError::UnexpectedBlob => "UnexpectedBlob".to_string(),
            WorkerError::TooManyPublishedBlobs(_) => "TooManyPublishedBlobs".to_string(),
            WorkerError::BlobTooLarge => "BlobTooLarge".to_string(),
            WorkerError::InvalidCrossChainRequest => "InvalidCrossChainRequest".to_string(),
            WorkerError::InactiveChain(_) => "InactiveChain".to_string(),
            WorkerError::MissingNetworkDescription => "MissingNetworkDescription".to_string(),
        }
    }
}

} // verus!
