//! Core of a per-chain worker for a multi-chain, BFT-style validator.
//!
//! Each chain has an independent worker that owns the chain's local state and
//! drives it through the consensus protocol: propose, validate, confirm, and
//! cross-chain delivery.  The worker enforces the per-chain state machine,
//! verifies certificates against the committee of their epoch, resolves
//! content-addressed blob dependencies that may arrive out of order, applies
//! all-or-nothing persistence, and filters inbound cross-chain message streams
//! against the chain's trust policy.

pub mod api;
pub mod block;
pub mod chain;
pub mod committee;
pub mod errors;
pub mod execution;
pub mod kvstore;
pub mod manager;
pub mod notifier;
pub mod selector;
pub mod storage;
pub mod types;
pub mod worker;
