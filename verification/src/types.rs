//! Basic identifiers and data carried by the chain worker: hashes, chain ids,
//! blobs, and the tip of a chain.

use vstd::prelude::*;

verus! {

/// An opaque 256-bit value, carried as four 64-bit limbs.  Used for content
/// hashes, chain identifiers, and validator public keys.  The worker never
/// computes cryptographic hashes itself; it compares the values that
/// certificates and blocks carry.
#[derive(Clone, Copy, PartialEq, Eq, Structural, Debug, Hash)]
pub struct CryptoHash {
    pub part1: u64,
    pub part2: u64,
    pub part3: u64,
    pub part4: u64,
}

impl CryptoHash {
    /// A hash made of four equal limbs; convenient for tests and examples.
    pub fn from_u64(v: u64) -> (r: CryptoHash)
        ensures
            r == (CryptoHash { part1: v, part2: v, part3: v, part4: v }),
    {
        CryptoHash { part1: v, part2: v, part3: v, part4: v }
    }
}

/// The identifier of a chain: an opaque 32-byte value.
#[derive(Clone, Copy, PartialEq, Eq, Structural, Debug, Hash)]
pub struct ChainId(pub CryptoHash);

/// The content hash that addresses a blob.
#[derive(Clone, Copy, PartialEq, Eq, Structural, Debug, Hash)]
pub struct BlobId(pub CryptoHash);

/// The owner of an account, identified by an opaque 32-byte value.
#[derive(Clone, Copy, PartialEq, Eq, Structural, Debug, Hash)]
pub struct AccountOwner(pub CryptoHash);

/// The public key of a validator.
#[derive(Clone, Copy, PartialEq, Eq, Structural, Debug, Hash)]
pub struct ValidatorPublicKey(pub CryptoHash);

/// One validator of a committee: its public key and its voting weight.
#[derive(Clone, Copy, PartialEq, Eq, Structural, Debug)]
pub struct ValidatorState {
    pub public_key: ValidatorPublicKey,
    pub votes: u64,
}

/// An immutable byte payload addressed by the content hash `id`.
#[derive(Debug)]
pub struct Blob {
    pub id: BlobId,
    pub data: Vec<u8>,
}

impl Blob {
    /// An independent copy with the same id and the same bytes.
    pub fn duplicate(&self) -> (r: Blob)
        ensures
            r.id == self.id,
            r.data@ == self.data@,
    {
        Blob { id: self.id, data: self.data.clone() }
    }
}

/// The frontier of a chain: the height the next block must have, and the hash
/// of the last committed block (`None` before the genesis block).
#[derive(Clone, Copy, PartialEq, Eq, Structural, Debug)]
pub struct TipState {
    pub next_block_height: u64,
    pub block_hash: Option<CryptoHash>,
}

impl TipState {
    /// Whether a block at `height` has already been committed or validated on
    /// this chain, i.e. whether `height` lies strictly below the frontier.
    pub fn already_validated_block(&self, height: u64) -> (r: bool)
        ensures
            r == (height < self.next_block_height),
    {
        height < self.next_block_height
    }
}

} // verus!
