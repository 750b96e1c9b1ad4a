//! Conversions from the library's identifiers to the flat records that a
//! generated host interface exchanges: every value becomes plain integers
//! and variant tags, with nothing computed.

use vstd::prelude::*;
use crate::types::{AccountOwner, ChainId, CryptoHash};

verus! {

/// A content hash as four plain limbs.
#[derive(Clone, Copy, PartialEq, Eq, Structural, Debug)]
pub struct ApiCryptoHash {
    pub part1: u64,
    pub part2: u64,
    pub part3: u64,
    pub part4: u64,
}

/// A block height as a plain integer.
#[derive(Clone, Copy, PartialEq, Eq, Structural, Debug)]
pub struct ApiBlockHeight {
    pub inner0: u64,
}

/// A chain identifier as a flat hash record.
#[derive(Clone, Copy, PartialEq, Eq, Structural, Debug)]
pub struct ApiChainId {
    pub inner0: ApiCryptoHash,
}

/// An owner as a flat hash record.
#[derive(Clone, Copy, PartialEq, Eq, Structural, Debug)]
pub struct ApiOwner {
    pub inner0: ApiCryptoHash,
}

/// An account owner: a user, an application, or the chain itself.
#[derive(Clone, Copy, PartialEq, Eq, Structural, Debug)]
pub enum ApiAccountOwner {
    User(ApiOwner),
    Chain,
}

/// A message identifier: the chain and height of the block that sent the
/// message, and the message's index in it.
#[derive(Clone, Copy, PartialEq, Eq, Structural, Debug)]
pub struct ApiMessageId {
    pub chain_id: ApiChainId,
    pub height: ApiBlockHeight,
    pub index: u32,
}

/// A log level as the host interface names it.
#[derive(Clone, Copy, PartialEq, Eq, Structural, Debug)]
pub enum ApiLogLevel {
    Trace,
    Debug,
    Info,
    Warn,
    Error,
}

/// Flattens a content hash into its four limbs.
pub fn hash_to_api(hash: CryptoHash) -> (r: ApiCryptoHash)
    ensures
        r.part1 == hash.part1,
        r.part2 == hash.part2,
        r.part3 == hash.part3,
        r.part4 == hash.part4,
{
    ApiCryptoHash {
        part1: hash.part1,
        part2: hash.part2,
        part3: hash.part3,
        part4: hash.part4,
    }
}

/// Flattens a block height.
pub fn height_to_api(height: u64) -> (r: ApiBlockHeight)
    ensures
        r.inner0 == height,
{
    ApiBlockHeight { inner0: height }
}

/// Flattens a chain identifier.
pub fn chain_id_to_api(chain_id: ChainId) -> (r: ApiChainId)
    ensures
        r.inner0 == hash_to_api_spec(chain_id.0),
{
    ApiChainId { inner0: hash_to_api(chain_id.0) }
}

/// The flat form of a content hash, for specifications.
pub open spec fn hash_to_api_spec(hash: CryptoHash) -> ApiCryptoHash {
    ApiCryptoHash {
        part1: hash.part1,
        part2: hash.part2,
        part3: hash.part3,
        part4: hash.part4,
    }
}

/// Flattens an account owner, variant for variant.
pub fn account_owner_to_api(owner: AccountOwner) -> (r: ApiAccountOwner)
    ensures
        r == ApiAccountOwner::User(ApiOwner { inner0: hash_to_api_spec(owner.0) }),
{
    ApiAccountOwner::User(ApiOwner { inner0: hash_to_api(owner.0) })
}

/// Flattens a message identifier.
pub fn message_id_to_api(chain_id: ChainId, height: u64, index: u32) -> (r: ApiMessageId)
    ensures
        r.chain_id.inner0 == hash_to_api_spec(chain_id.0),
        r.height.inner0 == height,
        r.index == index,
{
    ApiMessageId {
        chain_id: chain_id_to_api(chain_id),
        height: height_to_api(height),
        index,
    }
}

/// The library's own naming of log levels, mirroring the `log` crate's.
#[derive(Clone, Copy, PartialEq, Eq, Structural, Debug)]
pub enum LogLevel {
    Trace,
    Debug,
    Info,
    Warn,
    Error,
}

/// Declares the `log` crate's level enum so its values can be taken in.
#[verifier::external_type_specification]
#[verifier::external_body]
pub struct ExLevel(log::Level);

/// Relies on `log::Level`: tells its five variants apart, one arm each,
/// mapping each to the library's own level of the same name.
#[verifier::external_body]
pub fn level_from_log(level: log::Level) -> (r: LogLevel) {
    match level {
        log::Level::Trace => LogLevel::Trace,
        log::Level::Debug => LogLevel::Debug,
        log::Level::Info => LogLevel::Info,
        log::Level::Warn => LogLevel::Warn,
        log::Level::Error => LogLevel::Error,
    }
}

/// Flattens a log level, variant for variant.
pub fn log_level_to_api(level: LogLevel) -> (r: ApiLogLevel)
    ensures
        r == (match level {
            LogLevel::Trace => ApiLogLevel::Trace,
            LogLevel::Debug => ApiLogLevel::Debug,
            LogLevel::Info => ApiLogLevel::Info,
            LogLevel::Warn => ApiLogLevel::Warn,
            LogLevel::Error => ApiLogLevel::Error,
        }),
{
    match level {
        LogLevel::Trace => ApiLogLevel::Trace,
        LogLevel::Debug => ApiLogLevel::Debug,
        LogLevel::Info => ApiLogLevel::Info,
        LogLevel::Warn => ApiLogLevel::Warn,
        LogLevel::Error => ApiLogLevel::Error,
    }
}

} // verus!
