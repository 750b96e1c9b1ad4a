//! Blocks, message bundles, execution outcomes, and the three kinds of
//! certificates the worker processes.
//!
//! A block's body carries what its execution produced: outgoing messages,
//! events, oracle responses, and the hash of the resulting execution state.
//! Splitting a block with `into_proposal` recovers the proposed part and the
//! claimed outcome, which confirmed-block processing re-checks.

use vstd::prelude::*;
use crate::committee::Committee;
use crate::errors::WorkerError;
use crate::types::{BlobId, ChainId, CryptoHash, ValidatorPublicKey};

verus! {

/// The stream on which epoch-change events are published.
pub const EPOCH_STREAM_ID: u64 = 0;

/// The header of a block.
#[derive(Clone, Copy, PartialEq, Eq, Structural, Debug)]
pub struct BlockHeader {
    pub chain_id: ChainId,
    pub epoch: u64,
    pub height: u64,
    pub timestamp: u64,
    pub previous_block_hash: Option<CryptoHash>,
}

/// A cross-chain message sent by a block.
#[derive(Clone, Copy, PartialEq, Eq, Structural, Debug)]
pub struct OutgoingMessage {
    pub destination: ChainId,
    pub payload: u64,
}

/// An event appended to one of the chain's streams.
#[derive(Clone, Copy, PartialEq, Eq, Structural, Debug)]
pub struct Event {
    pub stream_id: u64,
    pub index: u64,
    pub value: u64,
}

/// A height-tagged group of cross-chain messages originating from one chain.
#[derive(Clone, Copy, PartialEq, Eq, Structural, Debug)]
pub struct MessageBundle {
    /// The height of the sender's block that produced the bundle.
    pub height: u64,
    /// The timestamp of that block.
    pub timestamp: u64,
    /// The hash of the certificate of that block.
    pub certificate_hash: CryptoHash,
    /// Whether the receiving chain may skip the bundle.
    pub skippable: bool,
}

/// A bundle claimed by a block, together with the chain it came from.
#[derive(Clone, Copy, PartialEq, Eq, Structural, Debug)]
pub struct IncomingBundle {
    pub origin: ChainId,
    pub bundle: MessageBundle,
}

/// An operation of a block.  System operations rotate committees and send
/// messages; `User` operations belong to applications, whose semantics are
/// outside this library.
#[derive(Debug)]
pub enum Operation {
    /// Publish the blob with this content hash.
    PublishBlob { blob_id: BlobId },
    /// Send one cross-chain message.
    SendMessage { recipient: ChainId, payload: u64 },
    /// Install the committee of a new epoch and move the chain to it.
    CreateCommittee { epoch: u64, committee: Committee },
    /// Remove a deprecated epoch's committee.
    RemoveCommittee { epoch: u64 },
    /// An application operation with no system effect.
    User { tag: u64 },
}

/// Congruence of operations: same variant, equal fields.
pub open spec fn op_matches(a: &Operation, b: &Operation) -> bool {
    match (a, b) {
        (Operation::PublishBlob { blob_id: x }, Operation::PublishBlob { blob_id: y }) => x == y,
        (
            Operation::SendMessage { recipient: ra, payload: pa },
            Operation::SendMessage { recipient: rb, payload: pb },
        ) => ra == rb && pa == pb,
        (
            Operation::CreateCommittee { epoch: ea, committee: ca },
            Operation::CreateCommittee { epoch: eb, committee: cb },
        ) => {
            &&& ea == eb
            &&& ca.validators@ == cb.validators@
            &&& ca.total_votes == cb.total_votes
            &&& ca.policy == cb.policy
        },
        (Operation::RemoveCommittee { epoch: ea }, Operation::RemoveCommittee { epoch: eb }) => ea
            == eb,
        (Operation::User { tag: ta }, Operation::User { tag: tb }) => ta == tb,
        _ => false,
    }
}

/// Congruence of operation lists.
pub open spec fn ops_match(a: Seq<Operation>, b: Seq<Operation>) -> bool {
    a.len() == b.len() && forall|i: int| 0 <= i < a.len() ==> op_matches(#[trigger] &a[i], &b[i])
}

/// Congruence of grouped message lists.
pub open spec fn message_groups_match(
    a: Seq<Vec<OutgoingMessage>>,
    b: Seq<Vec<OutgoingMessage>>,
) -> bool {
    a.len() == b.len() && forall|i: int| 0 <= i < a.len() ==> (#[trigger] a[i]@) == b[i]@
}

/// Congruence of grouped event lists.
pub open spec fn event_groups_match(a: Seq<Vec<Event>>, b: Seq<Vec<Event>>) -> bool {
    a.len() == b.len() && forall|i: int| 0 <= i < a.len() ==> (#[trigger] a[i]@) == b[i]@
}

/// Congruence of grouped oracle-response lists.
pub open spec fn oracle_groups_match(a: Seq<Vec<u64>>, b: Seq<Vec<u64>>) -> bool {
    a.len() == b.len() && forall|i: int| 0 <= i < a.len() ==> (#[trigger] a[i]@) == b[i]@
}

/// What executing a block produced: one group of messages, events, and
/// oracle responses per operation, and the hash of the resulting state.
#[derive(Debug)]
pub struct BlockExecutionOutcome {
    pub messages: Vec<Vec<OutgoingMessage>>,
    pub events: Vec<Vec<Event>>,
    pub oracle_responses: Vec<Vec<u64>>,
    pub state_hash: CryptoHash,
}

/// Congruence of outcomes.
pub open spec fn outcome_matches(a: &BlockExecutionOutcome, b: &BlockExecutionOutcome) -> bool {
    &&& message_groups_match(a.messages@, b.messages@)
    &&& event_groups_match(a.events@, b.events@)
    &&& oracle_groups_match(a.oracle_responses@, b.oracle_responses@)
    &&& a.state_hash == b.state_hash
}

/// The part of a block fixed by its proposer, before execution.
#[derive(Debug)]
pub struct ProposedBlock {
    pub header: BlockHeader,
    pub incoming_bundles: Vec<IncomingBundle>,
    pub operations: Vec<Operation>,
}

/// Congruence of proposed blocks.
pub open spec fn proposal_matches(a: &ProposedBlock, b: &ProposedBlock) -> bool {
    &&& a.header == b.header
    &&& a.incoming_bundles@ == b.incoming_bundles@
    &&& ops_match(a.operations@, b.operations@)
}

/// A full block: the proposed content together with its execution outcome.
#[derive(Debug)]
pub struct Block {
    pub header: BlockHeader,
    pub incoming_bundles: Vec<IncomingBundle>,
    pub operations: Vec<Operation>,
    pub messages: Vec<Vec<OutgoingMessage>>,
    pub events: Vec<Vec<Event>>,
    pub oracle_responses: Vec<Vec<u64>>,
    pub state_hash: CryptoHash,
}

/// Congruence of blocks.
pub open spec fn block_matches(a: &Block, b: &Block) -> bool {
    &&& a.header == b.header
    &&& a.incoming_bundles@ == b.incoming_bundles@
    &&& ops_match(a.operations@, b.operations@)
    &&& message_groups_match(a.messages@, b.messages@)
    &&& event_groups_match(a.events@, b.events@)
    &&& oracle_groups_match(a.oracle_responses@, b.oracle_responses@)
    &&& a.state_hash == b.state_hash
}

/// The blob ids that a list of operations publishes, in order.
pub open spec fn published_blob_ids_spec(ops: Seq<Operation>) -> Seq<BlobId>
    decreases ops.len(),
{
    if ops.len() == 0 {
        Seq::empty()
    } else {
        published_blob_ids_spec(ops.drop_last()) + (match ops.last() {
            Operation::PublishBlob { blob_id } => seq![blob_id],
            _ => Seq::empty(),
        })
    }
}

/// Copies an operation.
pub fn duplicate_operation(op: &Operation) -> (r: Operation)
    ensures
        op_matches(&r, op),
{
    match op {
        Operation::PublishBlob { blob_id } => Operation::PublishBlob { blob_id: *blob_id },
        Operation::SendMessage { recipient, payload } => Operation::SendMessage {
            recipient: *recipient,
            payload: *payload,
        },
        Operation::CreateCommittee { epoch, committee } => Operation::CreateCommittee {
            epoch: *epoch,
            committee: committee.duplicate(),
        },
        Operation::RemoveCommittee { epoch } => Operation::RemoveCommittee { epoch: *epoch },
        Operation::User { tag } => Operation::User { tag: *tag },
    }
}

/// Copies a list of operations.
pub fn duplicate_operations(ops: &Vec<Operation>) -> (r: Vec<Operation>)
    ensures
        ops_match(r@, ops@),
{
    let mut r: Vec<Operation> = Vec::new();
    let mut i: usize = 0;
    while i < ops.len()
        invariant
            0 <= i <= ops.len(),
            r@.len() == i,
            forall|j: int| 0 <= j < i ==> op_matches(#[trigger] &r@[j], &ops@[j]),
        decreases ops.len() - i,
    {
        r.push(duplicate_operation(&ops[i]));
        i += 1;
    }
    r
}

/// Copies a grouped message list.
pub fn duplicate_message_groups(v: &Vec<Vec<OutgoingMessage>>) -> (r: Vec<Vec<OutgoingMessage>>)
    ensures
        message_groups_match(r@, v@),
{
    let mut r: Vec<Vec<OutgoingMessage>> = Vec::new();
    let mut i: usize = 0;
    while i < v.len()
        invariant
            0 <= i <= v.len(),
            r@.len() == i,
            forall|j: int| 0 <= j < i ==> (#[trigger] r@[j]@) == v@[j]@,
        decreases v.len() - i,
    {
        r.push(v[i].clone());
        i += 1;
    }
    r
}

/// Copies a grouped event list.
pub fn duplicate_event_groups(v: &Vec<Vec<Event>>) -> (r: Vec<Vec<Event>>)
    ensures
        event_groups_match(r@, v@),
{
    let mut r: Vec<Vec<Event>> = Vec::new();
    let mut i: usize = 0;
    while i < v.len()
        invariant
            0 <= i <= v.len(),
            r@.len() == i,
            forall|j: int| 0 <= j < i ==> (#[trigger] r@[j]@) == v@[j]@,
        decreases v.len() - i,
    {
        r.push(copy_events(&v[i]));
        i += 1;
    }
    r
}

/// Copies a grouped oracle-response list.
pub fn duplicate_oracle_groups(v: &Vec<Vec<u64>>) -> (r: Vec<Vec<u64>>)
    ensures
        oracle_groups_match(r@, v@),
{
    let mut r: Vec<Vec<u64>> = Vec::new();
    let mut i: usize = 0;
    while i < v.len()
        invariant
            0 <= i <= v.len(),
            r@.len() == i,
            forall|j: int| 0 <= j < i ==> (#[trigger] r@[j]@) == v@[j]@,
        decreases v.len() - i,
    {
        r.push(v[i].clone());
        i += 1;
    }
    r
}

/// Copies a vector of events element by element.
fn copy_events(v: &Vec<Event>) -> (r: Vec<Event>)
    ensures
        r@ == v@,
{
    let mut r: Vec<Event> = Vec::new();
    let mut i: usize = 0;
    while i < v.len()
        invariant
            0 <= i <= v.len(),
            r@ == v@.take(i as int),
        decreases v.len() - i,
    {
        r.push(v[i]);
        proof {
            assert(v@.take(i as int + 1) =~= v@.take(i as int).push(v@[i as int]));
        }
        i += 1;
    }
    proof {
        assert(v@.take(v@.len() as int) =~= v@);
    }
    r
}

/// Copies a vector of incoming bundles element by element.
pub fn copy_incoming_bundles(v: &Vec<IncomingBundle>) -> (r: Vec<IncomingBundle>)
    ensures
        r@ == v@,
{
    let mut r: Vec<IncomingBundle> = Vec::new();
    let mut i: usize = 0;
    while i < v.len()
        invariant
            0 <= i <= v.len(),
            r@ == v@.take(i as int),
        decreases v.len() - i,
    {
        r.push(v[i]);
        proof {
            assert(v@.take(i as int + 1) =~= v@.take(i as int).push(v@[i as int]));
        }
        i += 1;
    }
    proof {
        assert(v@.take(v@.len() as int) =~= v@);
    }
    r
}

/// The blob ids a list of operations publishes, in order.
pub fn published_blob_ids(operations: &Vec<Operation>) -> (r: Vec<BlobId>)
    ensures
        r@ == published_blob_ids_spec(operations@),
{
    let mut r: Vec<BlobId> = Vec::new();
    let mut i: usize = 0;
    while i < operations.len()
        invariant
            0 <= i <= operations.len(),
            r@ == published_blob_ids_spec(operations@.take(i as int)),
        decreases operations.len() - i,
    {
        proof {
            assert(operations@.take(i as int + 1).drop_last() =~= operations@.take(i as int));
            assert(operations@.take(i as int + 1).last() == operations@[i as int]);
        }
        match &operations[i] {
            Operation::PublishBlob { blob_id } => {
                r.push(*blob_id);
                proof {
                    assert(r@ =~= published_blob_ids_spec(operations@.take(i as int + 1)));
                }
            },
            _ => {
                proof {
                    assert(r@ =~= published_blob_ids_spec(operations@.take(i as int + 1)));
                }
            },
        }
        i += 1;
    }
    proof {
        assert(operations@.take(operations@.len() as int) =~= operations@);
    }
    r
}

impl Block {
    /// The blob ids this block requires: in this model, exactly the blobs its
    /// operations publish.
    pub fn required_blob_ids(&self) -> (r: Vec<BlobId>)
        ensures
            r@ == published_blob_ids_spec(self.operations@),
    {
        published_blob_ids(&self.operations)
    }

    /// Splits the block into its proposed part and its claimed outcome.
    pub fn into_proposal(&self) -> (r: (ProposedBlock, BlockExecutionOutcome))
        ensures
            r.0.header == self.header,
            r.0.incoming_bundles@ == self.incoming_bundles@,
            ops_match(r.0.operations@, self.operations@),
            message_groups_match(r.1.messages@, self.messages@),
            event_groups_match(r.1.events@, self.events@),
            oracle_groups_match(r.1.oracle_responses@, self.oracle_responses@),
            r.1.state_hash == self.state_hash,
    {
        let proposed = ProposedBlock {
            header: self.header,
            incoming_bundles: copy_incoming_bundles(&self.incoming_bundles),
            operations: duplicate_operations(&self.operations),
        };
        let outcome = BlockExecutionOutcome {
            messages: duplicate_message_groups(&self.messages),
            events: duplicate_event_groups(&self.events),
            oracle_responses: duplicate_oracle_groups(&self.oracle_responses),
            state_hash: self.state_hash,
        };
        (proposed, outcome)
    }

    /// An independent copy of this block.
    pub fn duplicate(&self) -> (r: Block)
        ensures
            block_matches(&r, self),
    {
        Block {
            header: self.header,
            incoming_bundles: copy_incoming_bundles(&self.incoming_bundles),
            operations: duplicate_operations(&self.operations),
            messages: duplicate_message_groups(&self.messages),
            events: duplicate_event_groups(&self.events),
            oracle_responses: duplicate_oracle_groups(&self.oracle_responses),
            state_hash: self.state_hash,
        }
    }
}

/// Compares two grouped message lists.
pub fn message_groups_eq(a: &Vec<Vec<OutgoingMessage>>, b: &Vec<Vec<OutgoingMessage>>) -> (r: bool)
    ensures
        r == message_groups_match(a@, b@),
{
    if a.len() != b.len() {
        return false;
    }
    let mut i: usize = 0;
    while i < a.len()
        invariant
            a@.len() == b@.len(),
            0 <= i <= a@.len(),
            forall|j: int| 0 <= j < i ==> (#[trigger] a@[j]@) == b@[j]@,
        decreases a.len() - i,
    {
        if !messages_eq(&a[i], &b[i]) {
            return false;
        }
        i += 1;
    }
    true
}

/// Compares two message vectors.
fn messages_eq(a: &Vec<OutgoingMessage>, b: &Vec<OutgoingMessage>) -> (r: bool)
    ensures
        r == (a@ == b@),
{
    if a.len() != b.len() {
        proof {
            assert(a@ != b@) by {
                assert(a@.len() != b@.len());
            }
        }
        return false;
    }
    let mut i: usize = 0;
    while i < a.len()
        invariant
            a@.len() == b@.len(),
            0 <= i <= a@.len(),
            forall|j: int| 0 <= j < i ==> (#[trigger] a@[j]) == b@[j],
        decreases a.len() - i,
    {
        if !(a[i] == b[i]) {
            return false;
        }
        i += 1;
    }
    proof {
        assert(a@ =~= b@);
    }
    true
}

/// Compares two grouped event lists.
pub fn event_groups_eq(a: &Vec<Vec<Event>>, b: &Vec<Vec<Event>>) -> (r: bool)
    ensures
        r == event_groups_match(a@, b@),
{
    if a.len() != b.len() {
        return false;
    }
    let mut i: usize = 0;
    while i < a.len()
        invariant
            a@.len() == b@.len(),
            0 <= i <= a@.len(),
            forall|j: int| 0 <= j < i ==> (#[trigger] a@[j]@) == b@[j]@,
        decreases a.len() - i,
    {
        if !events_eq(&a[i], &b[i]) {
            return false;
        }
        i += 1;
    }
    true
}

/// Compares two event vectors.
fn events_eq(a: &Vec<Event>, b: &Vec<Event>) -> (r: bool)
    ensures
        r == (a@ == b@),
{
    if a.len() != b.len() {
        proof {
            assert(a@ != b@) by {
                assert(a@.len() != b@.len());
            }
        }
        return false;
    }
    let mut i: usize = 0;
    while i < a.len()
        invariant
            a@.len() == b@.len(),
            0 <= i <= a@.len(),
            forall|j: int| 0 <= j < i ==> (#[trigger] a@[j]) == b@[j],
        decreases a.len() - i,
    {
        if !(a[i] == b[i]) {
            return false;
        }
        i += 1;
    }
    proof {
        assert(a@ =~= b@);
    }
    true
}

/// Compares two grouped oracle-response lists.
pub fn oracle_groups_eq(a: &Vec<Vec<u64>>, b: &Vec<Vec<u64>>) -> (r: bool)
    ensures
        r == oracle_groups_match(a@, b@),
{
    if a.len() != b.len() {
        return false;
    }
    let mut i: usize = 0;
    while i < a.len()
        invariant
            a@.len() == b@.len(),
            0 <= i <= a@.len(),
            forall|j: int| 0 <= j < i ==> (#[trigger] a@[j]@) == b@[j]@,
        decreases a.len() - i,
    {
        if !u64s_eq(&a[i], &b[i]) {
            return false;
        }
        i += 1;
    }
    true
}

/// Compares two vectors of numbers.
fn u64s_eq(a: &Vec<u64>, b: &Vec<u64>) -> (r: bool)
    ensures
        r == (a@ == b@),
{
    if a.len() != b.len() {
        proof {
            assert(a@ != b@) by {
                assert(a@.len() != b@.len());
            }
        }
        return false;
    }
    let mut i: usize = 0;
    while i < a.len()
        invariant
            a@.len() == b@.len(),
            0 <= i <= a@.len(),
            forall|j: int| 0 <= j < i ==> (#[trigger] a@[j]) == b@[j],
        decreases a.len() - i,
    {
        if !(a[i] == b[i]) {
            return false;
        }
        i += 1;
    }
    proof {
        assert(a@ =~= b@);
    }
    true
}

/// Compares two claimed outcomes.
pub fn outcomes_eq(a: &BlockExecutionOutcome, b: &BlockExecutionOutcome) -> (r: bool)
    ensures
        r == outcome_matches(a, b),
{
    message_groups_eq(&a.messages, &b.messages) && event_groups_eq(&a.events, &b.events)
        && oracle_groups_eq(&a.oracle_responses, &b.oracle_responses) && a.state_hash
        == b.state_hash
}

/// The value certified by a timeout certificate.
#[derive(Clone, Copy, PartialEq, Eq, Structural, Debug)]
pub struct Timeout {
    pub chain_id: ChainId,
    pub epoch: u64,
    pub height: u64,
    pub round: u64,
}

/// A certificate for a leader timeout.
#[derive(Debug)]
pub struct TimeoutCertificate {
    pub value: Timeout,
    pub hash: CryptoHash,
    pub signatures: Vec<ValidatorPublicKey>,
}

impl TimeoutCertificate {
    /// Verifies the certificate against a committee.
    pub fn check(&self, committee: &Committee) -> (r: Result<(), WorkerError>)
        requires
            committee.well_formed(),
        ensures
            r is Ok <==> committee.spec_quorum(self.signatures@),
            r is Err ==> r->Err_0 is InvalidCertificate,
    {
        if committee.check_quorum(&self.signatures) {
            Ok(())
        } else {
            Err(WorkerError::InvalidCertificate)
        }
    }
}

/// A certificate for a validated block at a round.
#[derive(Debug)]
pub struct ValidatedBlockCertificate {
    pub block: Block,
    pub round: u64,
    pub hash: CryptoHash,
    pub signatures: Vec<ValidatorPublicKey>,
}

impl ValidatedBlockCertificate {
    /// Verifies the certificate against a committee.
    pub fn check(&self, committee: &Committee) -> (r: Result<(), WorkerError>)
        requires
            committee.well_formed(),
        ensures
            r is Ok <==> committee.spec_quorum(self.signatures@),
            r is Err ==> r->Err_0 is InvalidCertificate,
    {
        if committee.check_quorum(&self.signatures) {
            Ok(())
        } else {
            Err(WorkerError::InvalidCertificate)
        }
    }
}

/// A certificate for a confirmed (finalized) block.
#[derive(Debug)]
pub struct ConfirmedBlockCertificate {
    pub block: Block,
    pub hash: CryptoHash,
    pub signatures: Vec<ValidatorPublicKey>,
}

impl ConfirmedBlockCertificate {
    /// Verifies the certificate against a committee.
    pub fn check(&self, committee: &Committee) -> (r: Result<(), WorkerError>)
        requires
            committee.well_formed(),
        ensures
            r is Ok <==> committee.spec_quorum(self.signatures@),
            r is Err ==> r->Err_0 is InvalidCertificate,
    {
        if committee.check_quorum(&self.signatures) {
            Ok(())
        } else {
            Err(WorkerError::InvalidCertificate)
        }
    }
}

} // verus!
