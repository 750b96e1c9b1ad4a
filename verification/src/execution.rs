//! The execution interface of the worker, modelled at the system level.
//!
//! The real execution runtime (application code in WebAssembly) is outside
//! this library; what the worker needs from it is a pure transition: given
//! the execution state and a proposed block, produce the next state and the
//! block's outcome.  The model here executes the system operations —
//! committee rotation and message sending — treats application operations as
//! having no system effect, and commits to the resulting state with a
//! deterministic digest that stands in for the content hash of the state.

use vstd::prelude::*;
use crate::block::{
    Event, Operation, OutgoingMessage, ProposedBlock, BlockExecutionOutcome,
    EPOCH_STREAM_ID, oracle_groups_match,
};
use crate::committee::{
    Committee, CommitteeMap, committee_matches, committee_rep_matches, find_epoch, has_epoch,
    lemma_find_epoch_congruent, lemma_find_epoch_sound,
};
use crate::types::{CryptoHash, ValidatorState};

verus! {

/// The starting value of the digest fold.
pub const DIGEST_BASIS: u64 = 0xcbf29ce484222325;

/// The multiplier of the digest fold.
pub const DIGEST_PRIME: u64 = 0x100000001b3;

/// One step of the digest fold.
pub open spec fn mix(acc: u64, x: u64) -> u64 {
    acc.wrapping_mul(DIGEST_PRIME).wrapping_add(x)
}

/// The words a validator contributes to the digest.
pub open spec fn validator_words(v: ValidatorState) -> Seq<u64> {
    seq![
        v.public_key.0.part1,
        v.public_key.0.part2,
        v.public_key.0.part3,
        v.public_key.0.part4,
        v.votes,
    ]
}

/// The words of a validator sequence.
pub open spec fn validators_words(vs: Seq<ValidatorState>) -> Seq<u64>
    decreases vs.len(),
{
    if vs.len() == 0 {
        Seq::empty()
    } else {
        validators_words(vs.drop_last()) + validator_words(vs.last())
    }
}

/// The words of one committee-map entry.
pub open spec fn committee_words(e: u64, c: &Committee) -> Seq<u64> {
    seq![e] + validators_words(c.validators@) + seq![
        c.total_votes,
        c.policy.maximum_blob_size,
        c.policy.maximum_published_blobs,
    ]
}

/// The words of a whole committee map.
pub open spec fn committees_words(s: Seq<(u64, Committee)>) -> Seq<u64>
    decreases s.len(),
{
    if s.len() == 0 {
        Seq::empty()
    } else {
        committees_words(s.drop_last()) + committee_words(s.last().0, &s.last().1)
    }
}

/// The execution state of a chain, at the system level.
#[derive(Debug)]
pub struct ExecutionState {
    /// Whether the chain's genesis has been seen (the chain is initialized).
    pub active: bool,
    /// The chain's current epoch.
    pub epoch: u64,
    /// The timestamp of the last executed block.
    pub timestamp: u64,
    /// The committees the chain trusts, one per epoch.
    pub committees: CommitteeMap,
}

/// The words of an execution state.
pub open spec fn state_words(s: &ExecutionState) -> Seq<u64> {
    seq![if s.active { 1u64 } else { 0u64 }, s.epoch, s.timestamp] + committees_words(
        s.committees.entries@,
    )
}

/// The digest fold over a word sequence.
pub open spec fn fold_words(acc: u64, ws: Seq<u64>) -> u64
    decreases ws.len(),
{
    if ws.len() == 0 {
        acc
    } else {
        fold_words(mix(acc, ws[0]), ws.drop_first())
    }
}

/// The digest of an execution state: the word fold, spread over four limbs.
pub open spec fn state_digest(s: &ExecutionState) -> CryptoHash {
    let d = fold_words(DIGEST_BASIS, state_words(s));
    CryptoHash { part1: d, part2: mix(d, 1), part3: mix(d, 2), part4: mix(d, 3) }
}

/// Congruence of execution states.
pub open spec fn exec_state_matches(a: &ExecutionState, b: &ExecutionState) -> bool {
    &&& a.active == b.active
    &&& a.epoch == b.epoch
    &&& a.timestamp == b.timestamp
    &&& committee_rep_matches(a.committees.entries@, b.committees.entries@)
}

/// The fold distributes over concatenation.
pub proof fn lemma_fold_concat(acc: u64, a: Seq<u64>, b: Seq<u64>)
    ensures
        fold_words(acc, a + b) == fold_words(fold_words(acc, a), b),
    decreases a.len(),
{
    if a.len() == 0 {
        assert(a + b =~= b);
    } else {
        assert((a + b)[0] == a[0]);
        assert((a + b).drop_first() =~= a.drop_first() + b);
        lemma_fold_concat(mix(acc, a[0]), a.drop_first(), b);
    }
}

/// The committee-map part of the system state after applying one operation.
/// A new committee is installed only when it is well formed and its epoch is
/// not yet present; installing an epoch above the current one moves the
/// chain to it.  Removing an epoch drops its committee.
pub open spec fn apply_op_system(
    rep: Seq<(u64, Committee)>,
    epoch: u64,
    op: &Operation,
) -> (Seq<(u64, Committee)>, u64) {
    match op {
        Operation::CreateCommittee { epoch: e, committee: c } => {
            if c.well_formed() && !has_epoch(rep, *e) {
                (rep.push((*e, *c)), if *e > epoch { *e } else { epoch })
            } else {
                (rep, epoch)
            }
        },
        Operation::RemoveCommittee { epoch: e } => {
            match find_epoch(rep, *e) {
                Some(i) => (rep.remove(i), epoch),
                None => (rep, epoch),
            }
        },
        _ => (rep, epoch),
    }
}

/// The committee-map part of the system state after a list of operations.
pub open spec fn system_after(
    rep: Seq<(u64, Committee)>,
    epoch: u64,
    ops: Seq<Operation>,
) -> (Seq<(u64, Committee)>, u64)
    decreases ops.len(),
{
    if ops.len() == 0 {
        (rep, epoch)
    } else {
        let prev = system_after(rep, epoch, ops.drop_last());
        apply_op_system(prev.0, prev.1, &ops.last())
    }
}

/// The messages one operation sends.
pub open spec fn op_messages(op: &Operation) -> Seq<OutgoingMessage> {
    match op {
        Operation::SendMessage { recipient, payload } => seq![
            OutgoingMessage { destination: *recipient, payload: *payload },
        ],
        _ => Seq::empty(),
    }
}

/// The events one operation emits.
pub open spec fn op_events(op: &Operation) -> Seq<Event> {
    match op {
        Operation::CreateCommittee { epoch, committee } => {
            if committee.well_formed() {
                seq![Event { stream_id: EPOCH_STREAM_ID, index: *epoch, value: *epoch }]
            } else {
                Seq::empty()
            }
        },
        _ => Seq::empty(),
    }
}

/// The digest the execution of a block commits to, over the base state's
/// committee representation: the fold of the words of the state the system
/// operations leave behind.
pub open spec fn executed_digest(
    active: bool,
    rep: Seq<(u64, Committee)>,
    epoch: u64,
    ops: Seq<Operation>,
    timestamp: u64,
) -> CryptoHash {
    let after = system_after(rep, epoch, ops);
    let words = seq![
        if active {
            1u64
        } else {
            0u64
        },
        after.1,
        timestamp,
    ] + committees_words(after.0);
    let d = fold_words(DIGEST_BASIS, words);
    CryptoHash { part1: d, part2: mix(d, 1), part3: mix(d, 2), part4: mix(d, 3) }
}

/// Whether a confirmed block's claimed outcome is what executing it on the
/// given base state computes: the messages and events derived from its
/// operations, and the digest of the resulting state.
pub open spec fn certified_outcome_matches(
    active: bool,
    rep: Seq<(u64, Committee)>,
    epoch: u64,
    block: &crate::block::Block,
) -> bool {
    &&& block.messages@.len() == block.operations@.len()
    &&& (forall|i: int|
        0 <= i < block.operations@.len() ==> (#[trigger] block.messages@[i]@) == op_messages(
            &block.operations@[i],
        ))
    &&& block.events@.len() == block.operations@.len()
    &&& (forall|i: int|
        0 <= i < block.operations@.len() ==> (#[trigger] block.events@[i]@) == op_events(
            &block.operations@[i],
        ))
    &&& block.state_hash == executed_digest(
        active,
        rep,
        epoch,
        block.operations@,
        block.header.timestamp,
    )
}

/// Congruent committee representations yield the same digest words.
pub proof fn lemma_committees_words_congruent(
    a: Seq<(u64, Committee)>,
    b: Seq<(u64, Committee)>,
)
    requires
        committee_rep_matches(a, b),
    ensures
        committees_words(a) == committees_words(b),
    decreases a.len(),
{
    if a.len() > 0 {
        assert(committee_rep_matches(a.drop_last(), b.drop_last())) by {
            assert forall|i: int|
                0 <= i < a.drop_last().len() implies (#[trigger] a.drop_last()[i]).0
                == b.drop_last()[i].0 && committee_matches(
                &a.drop_last()[i].1,
                &b.drop_last()[i].1,
            ) by {
                assert(a.drop_last()[i] == a[i]);
                assert(b.drop_last()[i] == b[i]);
            }
        }
        lemma_committees_words_congruent(a.drop_last(), b.drop_last());
        assert(a.last().0 == b.last().0);
        assert(a.last().1.validators@ == b.last().1.validators@);
        assert(committee_words(a.last().0, &a.last().1) == committee_words(
            b.last().0,
            &b.last().1,
        ));
    }
}

/// Congruent operations send the same messages and emit the same events.
pub proof fn lemma_op_outputs_congruent(a: &Operation, b: &Operation)
    requires
        crate::block::op_matches(a, b),
    ensures
        op_messages(a) == op_messages(b),
        op_events(a) == op_events(b),
{
    match (a, b) {
        (
            Operation::CreateCommittee { epoch: _, committee: ca },
            Operation::CreateCommittee { epoch: _, committee: cb },
        ) => {
            crate::committee::lemma_well_formed_congruent(ca, cb);
        },
        _ => {},
    }
}

/// Congruent base representations and congruent operation lists leave
/// congruent committee representations and the same epoch behind.
pub proof fn lemma_system_after_congruent(
    a: Seq<(u64, Committee)>,
    b: Seq<(u64, Committee)>,
    epoch: u64,
    ops_a: Seq<Operation>,
    ops_b: Seq<Operation>,
)
    requires
        committee_rep_matches(a, b),
        crate::block::ops_match(ops_a, ops_b),
    ensures
        committee_rep_matches(
            system_after(a, epoch, ops_a).0,
            system_after(b, epoch, ops_b).0,
        ),
        system_after(a, epoch, ops_a).1 == system_after(b, epoch, ops_b).1,
    decreases ops_a.len(),
{
    if ops_a.len() == 0 {
    } else {
        assert(crate::block::ops_match(ops_a.drop_last(), ops_b.drop_last())) by {
            assert forall|i: int|
                0 <= i < ops_a.drop_last().len() implies crate::block::op_matches(
                #[trigger] &ops_a.drop_last()[i],
                &ops_b.drop_last()[i],
            ) by {
                assert(ops_a.drop_last()[i] == ops_a[i]);
                assert(ops_b.drop_last()[i] == ops_b[i]);
            }
        }
        lemma_system_after_congruent(a, b, epoch, ops_a.drop_last(), ops_b.drop_last());
        let prev_a = system_after(a, epoch, ops_a.drop_last());
        let prev_b = system_after(b, epoch, ops_b.drop_last());
        assert(crate::block::op_matches(&ops_a.last(), &ops_b.last())) by {
            assert(ops_a[ops_a.len() - 1] == ops_a.last());
            assert(ops_b[ops_b.len() - 1] == ops_b.last());
        }
        match (ops_a.last(), ops_b.last()) {
            (
                Operation::CreateCommittee { epoch: ea, committee: ca },
                Operation::CreateCommittee { epoch: eb, committee: cb },
            ) => {
                crate::committee::lemma_well_formed_congruent(&ca, &cb);
                lemma_find_epoch_congruent(prev_a.0, prev_b.0, ea);
                if ca.well_formed() && !has_epoch(prev_a.0, ea) {
                    assert(committee_rep_matches(
                        prev_a.0.push((ea, ca)),
                        prev_b.0.push((eb, cb)),
                    )) by {
                        assert forall|i: int|
                            0 <= i < prev_a.0.push((ea, ca)).len() implies (
                        #[trigger] prev_a.0.push((ea, ca))[i]).0 == prev_b.0.push((eb, cb))[i].0
                            && committee_matches(
                            &prev_a.0.push((ea, ca))[i].1,
                            &prev_b.0.push((eb, cb))[i].1,
                        ) by {
                            if i < prev_a.0.len() {
                                assert(prev_a.0.push((ea, ca))[i] == prev_a.0[i]);
                                assert(prev_b.0.push((eb, cb))[i] == prev_b.0[i]);
                            } else {
                                assert(prev_a.0.push((ea, ca))[i] == (ea, ca));
                                assert(prev_b.0.push((eb, cb))[i] == (eb, cb));
                            }
                        }
                    }
                }
            },
            (
                Operation::RemoveCommittee { epoch: ea },
                Operation::RemoveCommittee { epoch: eb },
            ) => {
                lemma_find_epoch_congruent(prev_a.0, prev_b.0, ea);
                match find_epoch(prev_a.0, ea) {
                    Some(i) => {
                        lemma_find_epoch_sound(prev_a.0, ea);
                        prev_a.0.remove_ensures(i);
                        prev_b.0.remove_ensures(i);
                        assert(committee_rep_matches(prev_a.0.remove(i), prev_b.0.remove(i)))
                            by {
                            assert forall|m: int|
                                0 <= m < prev_a.0.remove(i).len() implies (
                            #[trigger] prev_a.0.remove(i)[m]).0 == prev_b.0.remove(i)[m].0
                                && committee_matches(
                                &prev_a.0.remove(i)[m].1,
                                &prev_b.0.remove(i)[m].1,
                            ) by {
                                assert(prev_a.0.remove(i)[m] == if m < i {
                                    prev_a.0[m]
                                } else {
                                    prev_a.0[m + 1]
                                });
                                assert(prev_b.0.remove(i)[m] == if m < i {
                                    prev_b.0[m]
                                } else {
                                    prev_b.0[m + 1]
                                });
                            }
                        }
                    },
                    None => {},
                }
            },
            _ => {},
        }
    }
}

/// The committed digest is the same over congruent bases and congruent
/// operation lists.
pub proof fn lemma_executed_digest_congruent(
    active: bool,
    rep_a: Seq<(u64, Committee)>,
    rep_b: Seq<(u64, Committee)>,
    epoch: u64,
    ops_a: Seq<Operation>,
    ops_b: Seq<Operation>,
    timestamp: u64,
)
    requires
        committee_rep_matches(rep_a, rep_b),
        crate::block::ops_match(ops_a, ops_b),
    ensures
        executed_digest(active, rep_a, epoch, ops_a, timestamp) == executed_digest(
            active,
            rep_b,
            epoch,
            ops_b,
            timestamp,
        ),
{
    lemma_system_after_congruent(rep_a, rep_b, epoch, ops_a, ops_b);
    lemma_committees_words_congruent(
        system_after(rep_a, epoch, ops_a).0,
        system_after(rep_b, epoch, ops_b).0,
    );
}

/// Comparing the computed outcome with the certified one decides exactly
/// whether the certified outcome is what execution derives from the block's
/// own operations: the computed groups come from the operations, the
/// certified groups mirror the block, and the state hashes are the committed
/// digest and the block's claim.
pub proof fn lemma_outcome_equivalence(
    computed: &BlockExecutionOutcome,
    claimed: &BlockExecutionOutcome,
    block: &crate::block::Block,
    active: bool,
    rep: Seq<(u64, Committee)>,
    epoch: u64,
)
    requires
        computed.messages@.len() == block.operations@.len(),
        forall|i: int|
            0 <= i < block.operations@.len() ==> (#[trigger] computed.messages@[i]@)
                == op_messages(&block.operations@[i]),
        computed.events@.len() == block.operations@.len(),
        forall|i: int|
            0 <= i < block.operations@.len() ==> (#[trigger] computed.events@[i]@) == op_events(
                &block.operations@[i],
            ),
        oracle_groups_match(computed.oracle_responses@, claimed.oracle_responses@),
        computed.state_hash == executed_digest(
            active,
            rep,
            epoch,
            block.operations@,
            block.header.timestamp,
        ),
        crate::block::message_groups_match(claimed.messages@, block.messages@),
        crate::block::event_groups_match(claimed.events@, block.events@),
        claimed.state_hash == block.state_hash,
    ensures
        crate::block::outcome_matches(computed, claimed) == certified_outcome_matches(
            active,
            rep,
            epoch,
            block,
        ),
{
    if crate::block::outcome_matches(computed, claimed) {
        assert forall|i: int|
            0 <= i < block.operations@.len() implies (#[trigger] block.messages@[i]@)
            == op_messages(&block.operations@[i]) by {
            assert(claimed.messages@[i]@ == block.messages@[i]@);
            assert(computed.messages@[i]@ == claimed.messages@[i]@);
        }
        assert forall|i: int|
            0 <= i < block.operations@.len() implies (#[trigger] block.events@[i]@) == op_events(
            &block.operations@[i],
        ) by {
            assert(claimed.events@[i]@ == block.events@[i]@);
            assert(computed.events@[i]@ == claimed.events@[i]@);
        }
        assert(certified_outcome_matches(active, rep, epoch, block));
    }
    if certified_outcome_matches(active, rep, epoch, block) {
        assert forall|i: int|
            0 <= i < computed.messages@.len() implies (#[trigger] computed.messages@[i]@)
            == claimed.messages@[i]@ by {
            assert(block.messages@[i]@ == op_messages(&block.operations@[i]));
            assert(claimed.messages@[i]@ == block.messages@[i]@);
        }
        assert forall|i: int|
            0 <= i < computed.events@.len() implies (#[trigger] computed.events@[i]@)
            == claimed.events@[i]@ by {
            assert(block.events@[i]@ == op_events(&block.operations@[i]));
            assert(claimed.events@[i]@ == block.events@[i]@);
        }
        assert(crate::block::outcome_matches(computed, claimed));
    }
}

impl ExecutionState {
    /// Well-formedness: the committee map is well formed.
    pub open spec fn wf(&self) -> bool {
        self.committees.wf()
    }

    /// The state of a chain before its genesis block.
    pub fn inactive() -> (r: ExecutionState)
        ensures
            r.active == false,
            r.epoch == 0,
            r.timestamp == 0,
            r.committees.entries@.len() == 0,
            r.wf(),
    {
        ExecutionState { active: false, epoch: 0, timestamp: 0, committees: CommitteeMap::empty() }
    }

    /// An independent copy of this state.
    pub fn duplicate(&self) -> (r: ExecutionState)
        ensures
            exec_state_matches(&r, self),
            self.wf() ==> r.wf(),
    {
        ExecutionState {
            active: self.active,
            epoch: self.epoch,
            timestamp: self.timestamp,
            committees: self.committees.duplicate(),
        }
    }
}

/// One step of the digest fold, at run time.
pub fn mix_exec(acc: u64, x: u64) -> (r: u64)
    ensures
        r == mix(acc, x),
{
    acc.wrapping_mul(DIGEST_PRIME).wrapping_add(x)
}

/// Computes the words of an execution state.
fn compute_state_words(s: &ExecutionState) -> (r: Vec<u64>)
    ensures
        r@ == state_words(s),
{
    let mut r: Vec<u64> = Vec::new();
    r.push(if s.active { 1 } else { 0 });
    r.push(s.epoch);
    r.push(s.timestamp);
    let ghost prefix = seq![if s.active { 1u64 } else { 0u64 }, s.epoch, s.timestamp];
    proof {
        assert(r@ =~= prefix);
    }
    let mut k: usize = 0;
    while k < s.committees.entries.len()
        invariant
            0 <= k <= s.committees.entries@.len(),
            prefix == seq![if s.active { 1u64 } else { 0u64 }, s.epoch, s.timestamp],
            r@ == prefix + committees_words(s.committees.entries@.take(k as int)),
        decreases s.committees.entries@.len() - k,
    {
        let e = s.committees.entries[k].0;
        let ghost r_before = r@;
        r.push(e);
        // The validators of entry `k`.
        let c = &s.committees.entries[k].1;
        let mut v: usize = 0;
        while v < c.validators.len()
            invariant
                0 <= v <= c.validators@.len(),
                c == &s.committees.entries@[k as int].1,
                0 <= k < s.committees.entries@.len(),
                e == s.committees.entries@[k as int].0,
                r_before == r@.take(r_before.len() as int),
                r@ == r_before + seq![e] + validators_words(c.validators@.take(v as int)),
            decreases c.validators@.len() - v,
        {
            let val = c.validators[v];
            r.push(val.public_key.0.part1);
            r.push(val.public_key.0.part2);
            r.push(val.public_key.0.part3);
            r.push(val.public_key.0.part4);
            r.push(val.votes);
            proof {
                assert(c.validators@.take(v as int + 1).drop_last() =~= c.validators@.take(
                    v as int,
                ));
                assert(c.validators@.take(v as int + 1).last() == c.validators@[v as int]);
                assert(r@ =~= r_before + seq![e] + validators_words(
                    c.validators@.take(v as int + 1),
                ));
            }
            v += 1;
        }
        r.push(c.total_votes);
        r.push(c.policy.maximum_blob_size);
        r.push(c.policy.maximum_published_blobs);
        proof {
            assert(c.validators@.take(c.validators@.len() as int) =~= c.validators@);
            assert(s.committees.entries@.take(k as int + 1).drop_last()
                =~= s.committees.entries@.take(k as int));
            assert(s.committees.entries@.take(k as int + 1).last() == s.committees.entries@[
                k as int]);
            assert(r@ =~= prefix + committees_words(s.committees.entries@.take(k as int + 1)));
        }
        k += 1;
    }
    proof {
        assert(s.committees.entries@.take(s.committees.entries@.len() as int)
            =~= s.committees.entries@);
    }
    r
}

/// Computes the digest of an execution state.
pub fn compute_state_digest(s: &ExecutionState) -> (r: CryptoHash)
    ensures
        r == state_digest(s),
{
    let words = compute_state_words(s);
    let mut acc: u64 = DIGEST_BASIS;
    proof {
        assert(words@.skip(0) =~= words@);
    }
    let mut i: usize = 0;
    while i < words.len()
        invariant
            0 <= i <= words@.len(),
            words@ == state_words(s),
            fold_words(DIGEST_BASIS, words@) == fold_words(acc, words@.skip(i as int)),
        decreases words@.len() - i,
    {
        proof {
            assert(words@.skip(i as int)[0] == words@[i as int]);
            assert(words@.skip(i as int).drop_first() =~= words@.skip(i as int + 1));
        }
        acc = mix_exec(acc, words[i]);
        i += 1;
    }
    proof {
        assert(words@.skip(words@.len() as int) =~= Seq::<u64>::empty());
    }
    CryptoHash {
        part1: acc,
        part2: mix_exec(acc, 1),
        part3: mix_exec(acc, 2),
        part4: mix_exec(acc, 3),
    }
}

/// Executes a proposed block on an execution state: applies the system
/// operations, collects one group of messages and events per operation,
/// echoes the recorded oracle responses, and commits to the new state with
/// its digest.
pub fn execute_block(
    state: &ExecutionState,
    block: &ProposedBlock,
    local_time: u64,
    oracle_responses: &Vec<Vec<u64>>,
) -> (r: (ExecutionState, BlockExecutionOutcome))
    requires
        state.wf(),
    ensures
        r.0.active == state.active,
        r.0.timestamp == block.header.timestamp,
        r.0.wf(),
        ({
            let after = system_after(state.committees.entries@, state.epoch, block.operations@);
            committee_rep_matches(r.0.committees.entries@, after.0) && r.0.epoch == after.1
        }),
        r.1.messages@.len() == block.operations@.len(),
        forall|i: int|
            0 <= i < block.operations@.len() ==> (#[trigger] r.1.messages@[i]@) == op_messages(
                &block.operations@[i],
            ),
        r.1.events@.len() == block.operations@.len(),
        forall|i: int|
            0 <= i < block.operations@.len() ==> (#[trigger] r.1.events@[i]@) == op_events(
                &block.operations@[i],
            ),
        oracle_groups_match(r.1.oracle_responses@, oracle_responses@),
        r.1.state_hash == state_digest(&r.0),
        r.1.state_hash == executed_digest(
            state.active,
            state.committees.entries@,
            state.epoch,
            block.operations@,
            block.header.timestamp,
        ),
{
    let mut committees = state.committees.duplicate();
    let mut epoch = state.epoch;
    let mut messages: Vec<Vec<OutgoingMessage>> = Vec::new();
    let mut events: Vec<Vec<Event>> = Vec::new();
    let mut i: usize = 0;
    while i < block.operations.len()
        invariant
            0 <= i <= block.operations@.len(),
            state.wf(),
            committees.wf(),
            ({
                let after = system_after(
                    state.committees.entries@,
                    state.epoch,
                    block.operations@.take(i as int),
                );
                committee_rep_matches(committees.entries@, after.0) && epoch == after.1
            }),
            messages@.len() == i,
            forall|j: int|
                0 <= j < i ==> (#[trigger] messages@[j]@) == op_messages(&block.operations@[j]),
            events@.len() == i,
            forall|j: int|
                0 <= j < i ==> (#[trigger] events@[j]@) == op_events(&block.operations@[j]),
        decreases block.operations@.len() - i,
    {
        proof {
            assert(block.operations@.take(i as int + 1).drop_last() =~= block.operations@.take(
                i as int,
            ));
            assert(block.operations@.take(i as int + 1).last() == block.operations@[i as int]);
        }
        let ghost rep_spec = system_after(
            state.committees.entries@,
            state.epoch,
            block.operations@.take(i as int),
        ).0;
        match &block.operations[i] {
            Operation::PublishBlob { .. } => {
                messages.push(Vec::new());
                events.push(Vec::new());
            },
            Operation::SendMessage { recipient, payload } => {
                let mut group: Vec<OutgoingMessage> = Vec::new();
                group.push(OutgoingMessage { destination: *recipient, payload: *payload });
                proof {
                    assert(group@ =~= op_messages(&block.operations@[i as int]));
                }
                messages.push(group);
                events.push(Vec::new());
            },
            Operation::CreateCommittee { epoch: e, committee: c } => {
                messages.push(Vec::new());
                if c.is_well_formed() {
                    proof {
                        lemma_find_epoch_congruent(committees.entries@, rep_spec, *e);
                    }
                    let installed = committees.insert_if_absent(*e, c.duplicate());
                    if installed && *e > epoch {
                        epoch = *e;
                    }
                    let mut group: Vec<Event> = Vec::new();
                    group.push(Event { stream_id: EPOCH_STREAM_ID, index: *e, value: *e });
                    proof {
                        assert(group@ =~= op_events(&block.operations@[i as int]));
                    }
                    events.push(group);
                } else {
                    events.push(Vec::new());
                }
            },
            Operation::RemoveCommittee { epoch: e } => {
                let ghost pre_rep = committees.entries@;
                proof {
                    lemma_find_epoch_congruent(pre_rep, rep_spec, *e);
                    lemma_find_epoch_sound(pre_rep, *e);
                }
                committees.remove(*e);
                proof {
                    match find_epoch(pre_rep, *e) {
                        Some(idx) => {
                            pre_rep.remove_ensures(idx);
                            rep_spec.remove_ensures(idx);
                            assert(committees.entries@ == pre_rep.remove(idx));
                            assert forall|m: int|
                                0 <= m < committees.entries@.len() implies (
                            #[trigger] committees.entries@[m]).0 == rep_spec.remove(idx)[m].0
                                && committee_matches(
                                &committees.entries@[m].1,
                                &rep_spec.remove(idx)[m].1,
                            ) by {
                                assert(pre_rep.remove(idx)[m] == if m < idx {
                                    pre_rep[m]
                                } else {
                                    pre_rep[m + 1]
                                });
                                assert(rep_spec.remove(idx)[m] == if m < idx {
                                    rep_spec[m]
                                } else {
                                    rep_spec[m + 1]
                                });
                            }
                        },
                        None => {},
                    }
                }
                messages.push(Vec::new());
                events.push(Vec::new());
            },
            Operation::User { .. } => {
                messages.push(Vec::new());
                events.push(Vec::new());
            },
        }
        i += 1;
    }
    proof {
        assert(block.operations@.take(block.operations@.len() as int) =~= block.operations@);
    }
    let new_state = ExecutionState {
        active: state.active,
        epoch,
        timestamp: block.header.timestamp,
        committees,
    };
    let state_hash = compute_state_digest(&new_state);
    proof {
        let after = system_after(state.committees.entries@, state.epoch, block.operations@);
        lemma_committees_words_congruent(new_state.committees.entries@, after.0);
        assert(state_words(&new_state) =~= seq![
            if state.active {
                1u64
            } else {
                0u64
            },
            after.1,
            block.header.timestamp,
        ] + committees_words(after.0));
    }
    let oracles = crate::block::duplicate_oracle_groups(oracle_responses);
    let outcome = BlockExecutionOutcome { messages, events, oracle_responses: oracles, state_hash };
    let _ = local_time;
    (new_state, outcome)
}

} // verus!
