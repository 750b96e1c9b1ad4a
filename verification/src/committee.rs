//! Committees: the validator sets that sign certificates, with their voting
//! weights and resource policy, and the quorum check used to verify a
//! certificate's signers.
//!
//! The cryptographic verification of individual signatures is outside this
//! library; a certificate carries the set of signer keys, and the check here
//! is the committee-side rule: the signers must be distinct members of the
//! committee and their combined voting weight must reach the quorum
//! threshold.

use vstd::prelude::*;
use crate::types::{ValidatorPublicKey, ValidatorState};

verus! {

/// Resource limits enforced by a committee on proposed blocks.
#[derive(Clone, Copy, PartialEq, Eq, Structural, Debug)]
pub struct ResourceControlPolicy {
    /// The largest byte size a published blob may have.
    pub maximum_blob_size: u64,
    /// The largest number of blobs one block may publish.
    pub maximum_published_blobs: u64,
}

/// The set of validators of one epoch, with voting weights and policy.
#[derive(Debug)]
pub struct Committee {
    pub validators: Vec<ValidatorState>,
    pub total_votes: u64,
    pub policy: ResourceControlPolicy,
}

/// Whether `keys` lists no validator key twice.
pub open spec fn distinct_keys(vs: Seq<ValidatorState>) -> bool {
    forall|i: int, j: int|
        0 <= i < j < vs.len() ==> vs[i].public_key != vs[j].public_key
}

/// The combined voting weight of a validator sequence.
pub open spec fn votes_sum(vs: Seq<ValidatorState>) -> int
    decreases vs.len(),
{
    if vs.len() == 0 {
        0
    } else {
        vs[0].votes + votes_sum(vs.drop_first())
    }
}

/// Whether the committee holds a validator with this key.
pub open spec fn has_key(vs: Seq<ValidatorState>, key: ValidatorPublicKey) -> bool
    decreases vs.len(),
{
    if vs.len() == 0 {
        false
    } else {
        vs[0].public_key == key || has_key(vs.drop_first(), key)
    }
}

/// The voting weight of the validator with this key, or 0 if there is none.
pub open spec fn weight_of(vs: Seq<ValidatorState>, key: ValidatorPublicKey) -> int
    decreases vs.len(),
{
    if vs.len() == 0 {
        0
    } else if vs[0].public_key == key {
        vs[0].votes as int
    } else {
        weight_of(vs.drop_first(), key)
    }
}

/// The combined weight that a list of signer keys carries in `vs`.
pub open spec fn signed_weight(vs: Seq<ValidatorState>, signers: Seq<ValidatorPublicKey>) -> int
    decreases signers.len(),
{
    if signers.len() == 0 {
        0
    } else {
        weight_of(vs, signers[0]) + signed_weight(vs, signers.drop_first())
    }
}

/// Whether no signer key appears twice.
pub open spec fn distinct_signers(signers: Seq<ValidatorPublicKey>) -> bool {
    forall|i: int, j: int| 0 <= i < j < signers.len() ==> signers[i] != signers[j]
}

/// Whether every signer key belongs to the committee.
pub open spec fn all_members(vs: Seq<ValidatorState>, signers: Seq<ValidatorPublicKey>) -> bool {
    forall|i: int| 0 <= i < signers.len() ==> has_key(vs, #[trigger] signers[i])
}

/// The quorum threshold for a total weight: strictly more than two thirds.
pub open spec fn quorum_threshold(total: int) -> int {
    2 * total / 3 + 1
}

/// `has_key` and `weight_of` are decided by the first occurrence of `key`.
proof fn lemma_weight_at_index(vs: Seq<ValidatorState>, key: ValidatorPublicKey, i: int)
    requires
        0 <= i < vs.len(),
        vs[i].public_key == key,
        forall|j: int| 0 <= j < i ==> vs[j].public_key != key,
    ensures
        has_key(vs, key),
        weight_of(vs, key) == vs[i].votes,
    decreases i,
{
    if i > 0 {
        lemma_weight_at_index(vs.drop_first(), key, i - 1);
    }
}

/// A key that occurs nowhere in `vs` is not a member and carries weight 0.
proof fn lemma_no_key(vs: Seq<ValidatorState>, key: ValidatorPublicKey)
    requires
        forall|j: int| 0 <= j < vs.len() ==> vs[j].public_key != key,
    ensures
        !has_key(vs, key),
        weight_of(vs, key) == 0,
    decreases vs.len(),
{
    if vs.len() > 0 {
        lemma_no_key(vs.drop_first(), key);
    }
}

/// `votes_sum` over a prefix grows by the element that extends it.
proof fn lemma_votes_sum_push(vs: Seq<ValidatorState>, v: ValidatorState)
    ensures
        votes_sum(vs.push(v)) == votes_sum(vs) + v.votes,
    decreases vs.len(),
{
    assert(vs.push(v)[0] == if vs.len() == 0 { v } else { vs[0] });
    assert(vs.push(v).len() == vs.len() + 1);
    assert(votes_sum(vs.push(v)) == vs.push(v)[0].votes + votes_sum(vs.push(v).drop_first()));
    if vs.len() == 0 {
        assert(vs.push(v).drop_first() =~= Seq::<ValidatorState>::empty());
    } else {
        assert(vs.push(v).drop_first() =~= vs.drop_first().push(v));
        lemma_votes_sum_push(vs.drop_first(), v);
    }
}

/// `signed_weight` over a prefix grows by the weight of the added signer.
proof fn lemma_signed_weight_push(
    vs: Seq<ValidatorState>,
    signers: Seq<ValidatorPublicKey>,
    key: ValidatorPublicKey,
)
    ensures
        signed_weight(vs, signers.push(key)) == signed_weight(vs, signers) + weight_of(vs, key),
    decreases signers.len(),
{
    assert(signers.push(key)[0] == if signers.len() == 0 { key } else { signers[0] });
    assert(signers.push(key).len() == signers.len() + 1);
    assert(signed_weight(vs, signers.push(key)) == weight_of(vs, signers.push(key)[0])
        + signed_weight(vs, signers.push(key).drop_first()));
    if signers.len() == 0 {
        assert(signers.push(key).drop_first() =~= Seq::<ValidatorPublicKey>::empty());
    } else {
        assert(signers.push(key).drop_first() =~= signers.drop_first().push(key));
        lemma_signed_weight_push(vs, signers.drop_first(), key);
    }
}

impl Committee {
    /// Well-formedness: distinct validator keys, and `total_votes` is the sum
    /// of all weights (so in particular that sum fits in a `u64`).
    pub open spec fn well_formed(&self) -> bool {
        &&& distinct_keys(self.validators@)
        &&& votes_sum(self.validators@) == self.total_votes as int
    }

    /// The validator sequence, for specifications.
    pub open spec fn validators_seq(&self) -> Seq<ValidatorState> {
        self.validators@
    }

    /// The sum of all voting weights.
    pub open spec fn spec_total_votes(&self) -> int {
        self.total_votes as int
    }

    /// The committee's resource policy.
    pub open spec fn spec_policy(&self) -> ResourceControlPolicy {
        self.policy
    }

    /// Whether a list of signer keys is a valid quorum for this committee:
    /// distinct, all members, and their combined weight reaches the quorum
    /// threshold.
    pub open spec fn spec_quorum(&self, signers: Seq<ValidatorPublicKey>) -> bool {
        &&& distinct_signers(signers)
        &&& all_members(self.validators@, signers)
        &&& signed_weight(self.validators@, signers) >= quorum_threshold(self.total_votes as int)
    }

    /// Builds a committee, rejecting duplicate keys and weight sums that do
    /// not fit in a `u64`.
    pub fn new(validators: Vec<ValidatorState>, policy: ResourceControlPolicy) -> (r: Option<
        Committee,
    >)
        ensures
            match r {
                Some(c) => {
                    &&& c.well_formed()
                    &&& c.validators_seq() == validators@
                    &&& c.spec_policy() == policy
                    &&& distinct_keys(validators@)
                },
                None => !(distinct_keys(validators@) && votes_sum(validators@) <= u64::MAX),
            },
    {
        let mut total: u64 = 0;
        let mut i: usize = 0;
        while i < validators.len()
            invariant
                0 <= i <= validators.len(),
                distinct_keys(validators@.take(i as int)),
                votes_sum(validators@.take(i as int)) == total as int,
            decreases validators.len() - i,
        {
            let v = validators[i];
            // Reject a duplicate of any earlier key.
            let mut j: usize = 0;
            while j < i
                invariant
                    0 <= j <= i < validators.len(),
                    v == validators@[i as int],
                    forall|k: int| 0 <= k < j ==> validators@[k].public_key != v.public_key,
                decreases i - j,
            {
                if validators[j].public_key == v.public_key {
                    proof {
                        assert(!distinct_keys(validators@));
                    }
                    return None;
                }
                j += 1;
            }
            if total > u64::MAX - v.votes {
                proof {
                    lemma_votes_sum_push(validators@.take(i as int), v);
                    assert(validators@.take(i as int + 1) =~= validators@.take(i as int).push(v));
                    lemma_votes_sum_prefix_bound(validators@, i as int + 1);
                }
                return None;
            }
            proof {
                lemma_votes_sum_push(validators@.take(i as int), v);
                assert(validators@.take(i as int + 1) =~= validators@.take(i as int).push(v));
            }
            total = total + v.votes;
            i += 1;
        }
        proof {
            assert(validators@.take(validators@.len() as int) =~= validators@);
        }
        Some(Committee { validators, total_votes: total, policy })
    }

    /// Decides well-formedness at run time: distinct keys and a weight sum
    /// that equals `total_votes`.
    pub fn is_well_formed(&self) -> (r: bool)
        ensures
            r == self.well_formed(),
    {
        let mut total: u128 = 0;
        let mut i: usize = 0;
        while i < self.validators.len()
            invariant
                0 <= i <= self.validators@.len(),
                distinct_keys(self.validators@.take(i as int)),
                total as int == votes_sum(self.validators@.take(i as int)),
                total <= (i as int) * (u64::MAX as int),
            decreases self.validators@.len() - i,
        {
            let v = self.validators[i];
            let mut j: usize = 0;
            while j < i
                invariant
                    0 <= j <= i < self.validators@.len(),
                    v == self.validators@[i as int],
                    forall|k: int| 0 <= k < j ==> self.validators@[k].public_key != v.public_key,
                decreases i - j,
            {
                if self.validators[j].public_key == v.public_key {
                    proof {
                        assert(!distinct_keys(self.validators@));
                    }
                    return false;
                }
                j += 1;
            }
            proof {
                lemma_votes_sum_push(self.validators@.take(i as int), v);
                assert(self.validators@.take(i as int + 1) =~= self.validators@.take(
                    i as int,
                ).push(v));
                lemma_u128_room(total, v.votes, i as int, self.validators@.len() as int);
            }
            total = total + v.votes as u128;
            i += 1;
        }
        proof {
            assert(self.validators@.take(self.validators@.len() as int) =~= self.validators@);
        }
        total == self.total_votes as u128
    }

    /// The committee's resource policy.
    pub fn policy(&self) -> (r: ResourceControlPolicy)
        ensures
            r == self.spec_policy(),
    {
        self.policy
    }

    /// The sum of all voting weights.
    pub fn total_votes(&self) -> (r: u64)
        ensures
            r == self.spec_total_votes(),
    {
        self.total_votes
    }

    /// An independent copy of this committee.
    pub fn duplicate(&self) -> (r: Committee)
        ensures
            r.validators_seq() == self.validators_seq(),
            r.spec_total_votes() == self.spec_total_votes(),
            r.spec_policy() == self.spec_policy(),
            self.well_formed() ==> r.well_formed(),
    {
        let mut vs: Vec<ValidatorState> = Vec::new();
        let mut i: usize = 0;
        while i < self.validators.len()
            invariant
                0 <= i <= self.validators.len(),
                vs@ == self.validators@.take(i as int),
            decreases self.validators.len() - i,
        {
            vs.push(self.validators[i]);
            proof {
                assert(self.validators@.take(i as int + 1) =~= self.validators@.take(
                    i as int,
                ).push(self.validators@[i as int]));
            }
            i += 1;
        }
        proof {
            assert(self.validators@.take(self.validators@.len() as int) =~= self.validators@);
        }
        Committee { validators: vs, total_votes: self.total_votes, policy: self.policy }
    }

    /// Looks a key up in the committee and returns its voting weight.
    pub fn find_weight(&self, key: ValidatorPublicKey) -> (r: Option<u64>)
        ensures
            match r {
                Some(w) => has_key(self.validators@, key) && weight_of(self.validators@, key)
                    == w as int,
                None => !has_key(self.validators@, key),
            },
    {
        let mut k: usize = 0;
        while k < self.validators.len()
            invariant
                0 <= k <= self.validators.len(),
                forall|m: int| 0 <= m < k ==> self.validators@[m].public_key != key,
            decreases self.validators.len() - k,
        {
            if self.validators[k].public_key == key {
                proof {
                    lemma_weight_at_index(self.validators@, key, k as int);
                }
                return Some(self.validators[k].votes);
            }
            k += 1;
        }
        proof {
            lemma_no_key(self.validators@, key);
        }
        None
    }

    /// Decides whether `signers` is a valid quorum for this committee.
    pub fn check_quorum(&self, signers: &Vec<ValidatorPublicKey>) -> (r: bool)
        requires
            self.well_formed(),
        ensures
            r == self.spec_quorum(signers@),
    {
        let mut acc: u128 = 0;
        let mut i: usize = 0;
        while i < signers.len()
            invariant
                self.well_formed(),
                0 <= i <= signers.len(),
                distinct_signers(signers@.take(i as int)),
                all_members(self.validators@, signers@.take(i as int)),
                acc as int == signed_weight(self.validators@, signers@.take(i as int)),
                acc <= (i as int) * (u64::MAX as int),
            decreases signers.len() - i,
        {
            let key = signers[i];
            // Reject a repeated signer.
            let mut j: usize = 0;
            while j < i
                invariant
                    0 <= j <= i < signers.len(),
                    key == signers@[i as int],
                    forall|k: int| 0 <= k < j ==> signers@[k] != key,
                decreases i - j,
            {
                if signers[j] == key {
                    proof {
                        assert(!distinct_signers(signers@));
                    }
                    return false;
                }
                j += 1;
            }
            // Find the signer's weight in the committee.
            let w: u64 = match self.find_weight(key) {
                Some(w) => w,
                None => {
                    proof {
                        assert(!all_members(self.validators@, signers@)) by {
                            assert(signers@[i as int] == key);
                        }
                    }
                    return false;
                },
            };
            proof {
                lemma_signed_weight_push(self.validators@, signers@.take(i as int), key);
                assert(signers@.take(i as int + 1) =~= signers@.take(i as int).push(key));
                lemma_u128_room(acc, w, i as int, signers@.len() as int);
            }
            acc = acc + w as u128;
            i += 1;
        }
        proof {
            assert(signers@.take(signers@.len() as int) =~= signers@);
        }
        let threshold: u128 = 2 * (self.total_votes as u128) / 3 + 1;
        acc >= threshold
    }
}

/// The weight sum of a prefix is at most the weight sum of the whole, since
/// weights are non-negative.
proof fn lemma_votes_sum_prefix_bound(vs: Seq<ValidatorState>, n: int)
    requires
        0 <= n <= vs.len(),
    ensures
        votes_sum(vs.take(n)) <= votes_sum(vs),
    decreases vs.len() - n,
{
    if n < vs.len() {
        lemma_votes_sum_push(vs.take(n), vs[n]);
        assert(vs.take(n + 1) =~= vs.take(n).push(vs[n]));
        lemma_votes_sum_prefix_bound(vs, n + 1);
    } else {
        assert(vs.take(n) =~= vs);
    }
}

/// Congruence of committees: same validators, weights, and policy.
pub open spec fn committee_matches(a: &Committee, b: &Committee) -> bool {
    &&& a.validators@ == b.validators@
    &&& a.total_votes == b.total_votes
    &&& a.policy == b.policy
}

/// Congruence of committee-map representations: same epochs in the same
/// order, with matching committees.
pub open spec fn committee_rep_matches(a: Seq<(u64, Committee)>, b: Seq<(u64, Committee)>) -> bool {
    &&& a.len() == b.len()
    &&& forall|i: int|
        0 <= i < a.len() ==> (#[trigger] a[i]).0 == b[i].0 && committee_matches(&a[i].1, &b[i].1)
}

/// The first index at which `s` holds epoch `e`, if any.
pub open spec fn find_epoch(s: Seq<(u64, Committee)>, e: u64) -> Option<int>
    decreases s.len(),
{
    if s.len() == 0 {
        None
    } else if s[0].0 == e {
        Some(0int)
    } else {
        match find_epoch(s.drop_first(), e) {
            Some(i) => Some(i + 1),
            None => None,
        }
    }
}

/// Whether `s` holds a committee for epoch `e`.
pub open spec fn has_epoch(s: Seq<(u64, Committee)>, e: u64) -> bool {
    find_epoch(s, e) is Some
}

/// A scan that stops at the first match agrees with `find_epoch`.
pub proof fn lemma_find_epoch_at(s: Seq<(u64, Committee)>, e: u64, i: int)
    requires
        0 <= i < s.len(),
        s[i].0 == e,
        forall|j: int| 0 <= j < i ==> s[j].0 != e,
    ensures
        find_epoch(s, e) == Some(i),
        0 <= i < s.len(),
    decreases i,
{
    if i > 0 {
        lemma_find_epoch_at(s.drop_first(), e, i - 1);
    }
}

/// A scan that matches nowhere agrees with `find_epoch`.
pub proof fn lemma_find_epoch_none(s: Seq<(u64, Committee)>, e: u64)
    requires
        forall|j: int| 0 <= j < s.len() ==> s[j].0 != e,
    ensures
        find_epoch(s, e) is None,
    decreases s.len(),
{
    if s.len() > 0 {
        lemma_find_epoch_none(s.drop_first(), e);
    }
}

/// Where `find_epoch` points, the epoch stands.
pub proof fn lemma_find_epoch_sound(s: Seq<(u64, Committee)>, e: u64)
    ensures
        match find_epoch(s, e) {
            Some(i) => 0 <= i < s.len() && s[i].0 == e,
            None => forall|j: int| 0 <= j < s.len() ==> s[j].0 != e,
        },
    decreases s.len(),
{
    if s.len() > 0 {
        lemma_find_epoch_sound(s.drop_first(), e);
        if s[0].0 != e {
            match find_epoch(s.drop_first(), e) {
                Some(i) => {
                    assert(s.drop_first()[i] == s[i + 1]);
                },
                None => {
                    assert forall|j: int| 0 <= j < s.len() implies s[j].0 != e by {
                        if j > 0 {
                            assert(s.drop_first()[j - 1] == s[j]);
                        }
                    }
                },
            }
        }
    }
}

/// Congruent committees agree on which signer sets form a quorum.
pub proof fn lemma_quorum_congruent(a: &Committee, b: &Committee, signers: Seq<ValidatorPublicKey>)
    requires
        committee_matches(a, b),
    ensures
        a.spec_quorum(signers) == b.spec_quorum(signers),
{
}

/// Congruent committees agree on well-formedness.
pub proof fn lemma_well_formed_congruent(a: &Committee, b: &Committee)
    requires
        committee_matches(a, b),
    ensures
        a.well_formed() == b.well_formed(),
{
}

/// Congruent representations hold the same epochs at the same places.
pub proof fn lemma_find_epoch_congruent(a: Seq<(u64, Committee)>, b: Seq<(u64, Committee)>, e: u64)
    requires
        committee_rep_matches(a, b),
    ensures
        find_epoch(a, e) == find_epoch(b, e),
    decreases a.len(),
{
    if a.len() > 0 {
        assert(a[0].0 == b[0].0);
        assert(committee_rep_matches(a.drop_first(), b.drop_first())) by {
            assert forall|i: int|
                0 <= i < a.drop_first().len() implies (#[trigger] a.drop_first()[i]).0
                == b.drop_first()[i].0 && committee_matches(
                &a.drop_first()[i].1,
                &b.drop_first()[i].1,
            ) by {
                assert(a.drop_first()[i] == a[i + 1]);
                assert(b.drop_first()[i] == b[i + 1]);
            }
        }
        lemma_find_epoch_congruent(a.drop_first(), b.drop_first(), e);
    }
}

/// The committees the chain currently trusts, one per epoch.
#[derive(Debug)]
pub struct CommitteeMap {
    pub entries: Vec<(u64, Committee)>,
}

impl CommitteeMap {
    /// Well-formedness: distinct epochs, each committee well formed.
    pub open spec fn wf(&self) -> bool {
        &&& forall|i: int, j: int|
            0 <= i < j < self.entries@.len() ==> (#[trigger] self.entries@[i]).0 != (
            #[trigger] self.entries@[j]).0
        &&& forall|i: int| 0 <= i < self.entries@.len() ==> (#[trigger] self.entries@[i]).1.well_formed()
    }

    /// The empty map.
    pub fn empty() -> (r: CommitteeMap)
        ensures
            r.entries@.len() == 0,
            r.wf(),
    {
        CommitteeMap { entries: Vec::new() }
    }

    /// Whether a committee for this epoch is known.
    pub fn contains_key(&self, e: u64) -> (r: bool)
        ensures
            r == has_epoch(self.entries@, e),
    {
        let mut k: usize = 0;
        while k < self.entries.len()
            invariant
                0 <= k <= self.entries@.len(),
                forall|j: int| 0 <= j < k ==> (#[trigger] self.entries@[j]).0 != e,
            decreases self.entries@.len() - k,
        {
            if self.entries[k].0 == e {
                proof {
                    lemma_find_epoch_at(self.entries@, e, k as int);
                }
                return true;
            }
            k += 1;
        }
        proof {
            lemma_find_epoch_none(self.entries@, e);
        }
        false
    }

    /// The committee of this epoch, if known.
    pub fn get(&self, e: u64) -> (r: Option<&Committee>)
        ensures
            match r {
                Some(c) => {
                    &&& find_epoch(self.entries@, e) matches Some(i) && *c == self.entries@[i].1
                    &&& has_epoch(self.entries@, e)
                },
                None => !has_epoch(self.entries@, e),
            },
    {
        let mut k: usize = 0;
        while k < self.entries.len()
            invariant
                0 <= k <= self.entries@.len(),
                forall|j: int| 0 <= j < k ==> (#[trigger] self.entries@[j]).0 != e,
            decreases self.entries@.len() - k,
        {
            if self.entries[k].0 == e {
                proof {
                    lemma_find_epoch_at(self.entries@, e, k as int);
                }
                return Some(&self.entries[k].1);
            }
            k += 1;
        }
        proof {
            lemma_find_epoch_none(self.entries@, e);
        }
        None
    }

    /// Installs a committee for a new epoch; an epoch already present is
    /// left as it is.
    pub fn insert_if_absent(&mut self, e: u64, c: Committee) -> (added: bool)
        ensures
            added == !has_epoch(old(self).entries@, e),
            added ==> final(self).entries@ == old(self).entries@.push((e, c)),
            !added ==> *final(self) == *old(self),
            old(self).wf() && c.well_formed() ==> final(self).wf(),
    {
        if self.contains_key(e) {
            false
        } else {
            proof {
                lemma_find_epoch_sound(self.entries@, e);
            }
            self.entries.push((e, c));
            true
        }
    }

    /// Removes the committee of a deprecated epoch, if present.
    pub fn remove(&mut self, e: u64)
        ensures
            match find_epoch(old(self).entries@, e) {
                Some(i) => final(self).entries@ == old(self).entries@.remove(i),
                None => *final(self) == *old(self),
            },
            old(self).wf() ==> final(self).wf(),
    {
        let mut k: usize = 0;
        while k < self.entries.len()
            invariant
                *self == *old(self),
                0 <= k <= old(self).entries@.len(),
                forall|j: int| 0 <= j < k ==> (#[trigger] old(self).entries@[j]).0 != e,
            decreases old(self).entries@.len() - k,
        {
            if self.entries[k].0 == e {
                proof {
                    lemma_find_epoch_at(old(self).entries@, e, k as int);
                }
                self.entries.remove(k);
                proof {
                    old(self).entries@.remove_ensures(k as int);
                    assert(self.entries@ == old(self).entries@.remove(k as int));
                    if old(self).wf() {
                        assert forall|i: int, j: int|
                            0 <= i < j < self.entries@.len() implies (
                        #[trigger] self.entries@[i]).0 != (#[trigger] self.entries@[j]).0 by {
                            assert(old(self).entries@.remove(k as int)[i] == if i < k as int {
                                old(self).entries@[i]
                            } else {
                                old(self).entries@[i + 1]
                            });
                            assert(old(self).entries@.remove(k as int)[j] == if j < k as int {
                                old(self).entries@[j]
                            } else {
                                old(self).entries@[j + 1]
                            });
                        }
                        assert forall|i: int| 0 <= i < self.entries@.len() implies (
                        #[trigger] self.entries@[i]).1.well_formed() by {
                            assert(old(self).entries@.remove(k as int)[i] == if i < k as int {
                                old(self).entries@[i]
                            } else {
                                old(self).entries@[i + 1]
                            });
                        }
                    }
                }
                return;
            }
            k += 1;
        }
        proof {
            lemma_find_epoch_none(old(self).entries@, e);
        }
    }

    /// The epochs with a known committee, in map order.
    pub fn epochs(&self) -> (r: Vec<u64>)
        ensures
            r@.len() == self.entries@.len(),
            forall|i: int| 0 <= i < r@.len() ==> (#[trigger] r@[i]) == self.entries@[i].0,
    {
        let mut r: Vec<u64> = Vec::new();
        let mut k: usize = 0;
        while k < self.entries.len()
            invariant
                0 <= k <= self.entries@.len(),
                r@.len() == k,
                forall|i: int| 0 <= i < k ==> (#[trigger] r@[i]) == self.entries@[i].0,
            decreases self.entries@.len() - k,
        {
            r.push(self.entries[k].0);
            k += 1;
        }
        r
    }

    /// An independent copy of this map.
    pub fn duplicate(&self) -> (r: CommitteeMap)
        ensures
            committee_rep_matches(r.entries@, self.entries@),
            self.wf() ==> r.wf(),
    {
        let mut entries: Vec<(u64, Committee)> = Vec::new();
        let mut k: usize = 0;
        while k < self.entries.len()
            invariant
                0 <= k <= self.entries@.len(),
                entries@.len() == k,
                forall|i: int|
                    0 <= i < k ==> (#[trigger] entries@[i]).0 == self.entries@[i].0
                        && committee_matches(&entries@[i].1, &self.entries@[i].1)
                        && (self.entries@[i].1.well_formed() ==> entries@[i].1.well_formed()),
            decreases self.entries@.len() - k,
        {
            let c = self.entries[k].1.duplicate();
            entries.push((self.entries[k].0, c));
            k += 1;
        }
        CommitteeMap { entries }
    }
}

/// Adding one more `u64` weight to an accumulator bounded by `i * u64::MAX`
/// cannot overflow a `u128` while `i` stays below the signer count.
proof fn lemma_u128_room(acc: u128, w: u64, i: int, n: int)
    requires
        0 <= i < n,
        acc <= i * (u64::MAX as int),
        n <= usize::MAX as int,
    ensures
        acc + w <= (i + 1) * (u64::MAX as int),
        acc + w <= u128::MAX,
    decreases 0int,
{
    assert((i + 1) * (u64::MAX as int) == i * (u64::MAX as int) + u64::MAX as int)
        by (nonlinear_arith);
    assert((i + 1) * (u64::MAX as int) <= n * (u64::MAX as int)) by (nonlinear_arith)
        requires 0 <= i < n
    ;
    assert(n * (u64::MAX as int) <= (usize::MAX as int) * (u64::MAX as int)) by (nonlinear_arith)
        requires n <= usize::MAX as int, n >= 1
    ;
}

} // verus!
