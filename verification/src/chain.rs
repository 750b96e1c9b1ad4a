//! The persistent state of one chain and the operations the worker performs
//! on it: staging and claiming cross-chain bundles, scheduling and marking
//! outgoing messages, recording pending blobs, and applying confirmed
//! blocks.

use vstd::prelude::*;
use crate::block::{Block, IncomingBundle, MessageBundle, OutgoingMessage};
use crate::committee::Committee;
use crate::execution::{exec_state_matches, ExecutionState};
use crate::manager::ConsensusManager;
use crate::types::{AccountOwner, Blob, BlobId, ChainId, CryptoHash, TipState, ValidatorPublicKey};

verus! {

/// The staged inbound messages from one origin chain.
#[derive(Debug)]
pub struct InboxState {
    /// The height below which bundles are considered received.
    pub next_height_to_receive: u64,
    /// The highest height consumed in advance by an executed block, if any.
    pub last_anticipated_height: Option<u64>,
    /// Bundles staged and not yet claimed by a block.
    pub added_bundles: Vec<MessageBundle>,
}

/// Congruence of inbox states.
pub open spec fn inbox_matches(a: &InboxState, b: &InboxState) -> bool {
    &&& a.next_height_to_receive == b.next_height_to_receive
    &&& a.last_anticipated_height == b.last_anticipated_height
    &&& a.added_bundles@ == b.added_bundles@
}

impl InboxState {
    /// An inbox that has seen nothing.
    pub fn new() -> (r: InboxState)
        ensures
            r.next_height_to_receive == 0,
            r.last_anticipated_height is None,
            r.added_bundles@.len() == 0,
    {
        InboxState {
            next_height_to_receive: 0,
            last_anticipated_height: None,
            added_bundles: Vec::new(),
        }
    }

    /// An independent copy of this inbox.
    pub fn duplicate(&self) -> (r: InboxState)
        ensures
            inbox_matches(&r, self),
    {
        InboxState {
            next_height_to_receive: self.next_height_to_receive,
            last_anticipated_height: self.last_anticipated_height,
            added_bundles: copy_bundles(&self.added_bundles),
        }
    }
}

/// Copies a vector of bundles element by element.
pub fn copy_bundles(v: &Vec<MessageBundle>) -> (r: Vec<MessageBundle>)
    ensures
        r@ == v@,
{
    let mut r: Vec<MessageBundle> = Vec::new();
    let mut i: usize = 0;
    while i < v.len()
        invariant
            0 <= i <= v@.len(),
            r@ == v@.take(i as int),
        decreases v@.len() - i,
    {
        r.push(v[i]);
        proof {
            assert(v@.take(i as int + 1) =~= v@.take(i as int).push(v@[i as int]));
        }
        i += 1;
    }
    proof {
        assert(v@.take(v@.len() as int) =~= v@);
    }
    r
}

/// The heights of blocks whose messages to one recipient chain await
/// delivery, in increasing order.
#[derive(Debug)]
pub struct OutboxState {
    pub queue: Vec<u64>,
}

/// Whether a height sequence is strictly increasing.
pub open spec fn strictly_increasing(s: Seq<u64>) -> bool {
    forall|i: int, j: int| 0 <= i < j < s.len() ==> s[i] < s[j]
}

impl OutboxState {
    /// An empty outbox.
    pub fn new() -> (r: OutboxState)
        ensures
            r.queue@.len() == 0,
    {
        OutboxState { queue: Vec::new() }
    }

    /// An independent copy of this outbox.
    pub fn duplicate(&self) -> (r: OutboxState)
        ensures
            r.queue@ == self.queue@,
    {
        OutboxState { queue: self.queue.clone() }
    }

    /// Schedules the messages of the block at `height`, unless that height
    /// is already scheduled or below the queue's end.
    pub fn schedule(&mut self, height: u64) -> (added: bool)
        ensures
            added == (old(self).queue@.len() == 0 || old(self).queue@.last() < height),
            added ==> final(self).queue@ == old(self).queue@.push(height),
            !added ==> *final(self) == *old(self),
            strictly_increasing(old(self).queue@) ==> strictly_increasing(final(self).queue@),
    {
        if self.queue.len() == 0 || self.queue[self.queue.len() - 1] < height {
            self.queue.push(height);
            true
        } else {
            false
        }
    }

    /// Marks entries up to `latest_height` as delivered and removes them.
    /// Returns whether any entry was removed.
    pub fn mark_delivered(&mut self, latest_height: u64) -> (removed: bool)
        requires
            strictly_increasing(old(self).queue@),
        ensures
            final(self).queue@ == old(self).queue@.filter(|h: u64| h > latest_height),
            removed == exists|i: int|
                0 <= i < old(self).queue@.len() && old(self).queue@[i] <= latest_height,
            strictly_increasing(final(self).queue@),
    {
        let ghost pre = self.queue@;
        let mut kept: Vec<u64> = Vec::new();
        let mut removed: bool = false;
        let mut i: usize = 0;
        while i < self.queue.len()
            invariant
                self.queue@ == pre,
                strictly_increasing(pre),
                strictly_increasing(kept@),
                kept@.len() > 0 ==> exists|j: int| 0 <= j < i && kept@.last() == pre[j],
                0 <= i <= pre.len(),
                kept@ == pre.take(i as int).filter(|h: u64| h > latest_height),
                removed == exists|j: int| 0 <= j < i && pre[j] <= latest_height,
            decreases pre.len() - i,
        {
            let h = self.queue[i];
            proof {
                assert(pre.take(i as int + 1).drop_last() =~= pre.take(i as int));
                assert(pre.take(i as int + 1).last() == pre[i as int]);
                reveal(Seq::filter);
                if h > latest_height && kept@.len() > 0 {
                    let j = choose|j: int| 0 <= j < i && kept@.last() == pre[j];
                    assert(pre[j] < pre[i as int]);
                    assert(forall|m: int| 0 <= m < kept@.len() - 1 ==> kept@[m] < kept@.last());
                }
            }
            if h > latest_height {
                kept.push(h);
                proof {
                    assert(strictly_increasing(kept@));
                }
            } else {
                removed = true;
            }
            i += 1;
        }
        proof {
            assert(pre.take(pre.len() as int) =~= pre);
        }
        self.queue = kept;
        removed
    }
}

/// A partial blob set recorded for an in-progress proposal or validation,
/// so that a client can upload the missing blobs one by one.
#[derive(Debug)]
pub struct PendingBlobs {
    /// The round the pending vote belongs to.
    pub round: u64,
    /// Whether the pending set belongs to a validated block (in that case
    /// the committee's publication policy is not enforced on uploads).
    pub validated: bool,
    /// Every blob id the block requires.
    pub expected: Vec<BlobId>,
    /// The blobs found so far.
    pub found: Vec<Blob>,
}

/// Whether a blob list holds a blob with this id.
pub open spec fn found_has(found: Seq<Blob>, id: BlobId) -> bool {
    exists|i: int| 0 <= i < found.len() && found[i].id == id
}

/// Congruence of blob lists.
pub open spec fn blobs_match(a: Seq<Blob>, b: Seq<Blob>) -> bool {
    &&& a.len() == b.len()
    &&& forall|i: int|
        0 <= i < a.len() ==> (#[trigger] a[i]).id == b[i].id && a[i].data@ == b[i].data@
}

/// Congruence of pending blob sets.
pub open spec fn pending_matches(a: &PendingBlobs, b: &PendingBlobs) -> bool {
    &&& a.round == b.round
    &&& a.validated == b.validated
    &&& a.expected@ == b.expected@
    &&& blobs_match(a.found@, b.found@)
}

/// The ids in `expected` that have no blob in `found`.
pub open spec fn missing_ids_spec(expected: Seq<BlobId>, found: Seq<Blob>) -> Seq<BlobId> {
    expected.filter(|id: BlobId| !found_has(found, id))
}

impl PendingBlobs {
    /// Records a pending set: the expected ids with the blobs found so far.
    pub fn new(round: u64, validated: bool, expected: Vec<BlobId>, found: Vec<Blob>) -> (r:
        PendingBlobs)
        ensures
            r.round == round,
            r.validated == validated,
            r.expected@ == expected@,
            r.found@ == found@,
    {
        PendingBlobs { round, validated, expected, found }
    }

    /// An independent copy of this pending set.
    pub fn duplicate(&self) -> (r: PendingBlobs)
        ensures
            pending_matches(&r, self),
    {
        let mut found: Vec<Blob> = Vec::new();
        let mut i: usize = 0;
        while i < self.found.len()
            invariant
                0 <= i <= self.found@.len(),
                found@.len() == i,
                forall|j: int|
                    0 <= j < i ==> (#[trigger] found@[j]).id == self.found@[j].id && found@[j].data@
                        == self.found@[j].data@,
            decreases self.found@.len() - i,
        {
            found.push(self.found[i].duplicate());
            i += 1;
        }
        PendingBlobs {
            round: self.round,
            validated: self.validated,
            expected: self.expected.clone(),
            found,
        }
    }

    /// Accepts an uploaded blob if this set expects it and does not hold it
    /// yet.  Returns whether the blob was inserted.
    pub fn maybe_insert(&mut self, blob: &Blob) -> (r: bool)
        ensures
            r == (old(self).expected@.contains(blob.id) && !found_has(old(self).found@, blob.id)),
            r ==> {
                &&& final(self).found@.len() == old(self).found@.len() + 1
                &&& forall|j: int|
                    0 <= j < old(self).found@.len() ==> final(self).found@[j] == old(
                        self,
                    ).found@[j]
                &&& final(self).found@.last().id == blob.id
                &&& final(self).found@.last().data@ == blob.data@
                &&& final(self).round == old(self).round
                &&& final(self).validated == old(self).validated
                &&& final(self).expected@ == old(self).expected@
            },
            !r ==> *final(self) == *old(self),
            final(self).validated == old(self).validated,
            final(self).found@.len() >= old(self).found@.len(),
    {
        let mut expects: bool = false;
        let mut i: usize = 0;
        while i < self.expected.len()
            invariant
                *self == *old(self),
                0 <= i <= self.expected@.len(),
                expects == exists|j: int| 0 <= j < i && self.expected@[j] == blob.id,
            decreases self.expected@.len() - i,
        {
            if self.expected[i] == blob.id {
                expects = true;
            }
            i += 1;
        }
        if !expects {
            proof {
                assert(!old(self).expected@.contains(blob.id));
            }
            return false;
        }
        let mut k: usize = 0;
        while k < self.found.len()
            invariant
                *self == *old(self),
                0 <= k <= self.found@.len(),
                forall|j: int| 0 <= j < k ==> (#[trigger] self.found@[j]).id != blob.id,
            decreases self.found@.len() - k,
        {
            if self.found[k].id == blob.id {
                return false;
            }
            k += 1;
        }
        self.found.push(blob.duplicate());
        true
    }

    /// The expected ids whose blobs are still missing.
    pub fn missing_ids(&self) -> (r: Vec<BlobId>)
        ensures
            r@ == missing_ids_spec(self.expected@, self.found@),
    {
        let mut r: Vec<BlobId> = Vec::new();
        let mut i: usize = 0;
        while i < self.expected.len()
            invariant
                0 <= i <= self.expected@.len(),
                r@ == self.expected@.take(i as int).filter(
                    |id: BlobId| !found_has(self.found@, id),
                ),
            decreases self.expected@.len() - i,
        {
            let id = self.expected[i];
            proof {
                assert(self.expected@.take(i as int + 1).drop_last() =~= self.expected@.take(
                    i as int,
                ));
                assert(self.expected@.take(i as int + 1).last() == self.expected@[i as int]);
                reveal(Seq::filter);
            }
            let mut missing: bool = true;
            let mut k: usize = 0;
            while k < self.found.len()
                invariant
                    missing == !(exists|j: int| 0 <= j < k && self.found@[j].id == id),
                    0 <= k <= self.found@.len(),
                decreases self.found@.len() - k,
            {
                if self.found[k].id == id {
                    missing = false;
                }
                k += 1;
            }
            if missing {
                r.push(id);
            }
            i += 1;
        }
        proof {
            assert(self.expected@.take(self.expected@.len() as int) =~= self.expected@);
        }
        r
    }
}

/// A not-skippable bundle waiting in the inbox, with the time it was first
/// seen; used to decide when to vote for falling back to a public chain.
#[derive(Clone, Copy, PartialEq, Eq, Structural, Debug)]
pub struct UnskippableEntry {
    pub seen: u64,
    pub origin: ChainId,
    pub bundle: MessageBundle,
}

/// The first index at which an inbox list holds `origin`, if any.
pub open spec fn find_inbox(s: Seq<(ChainId, InboxState)>, origin: ChainId) -> Option<int>
    decreases s.len(),
{
    if s.len() == 0 {
        None
    } else if s[0].0 == origin {
        Some(0int)
    } else {
        match find_inbox(s.drop_first(), origin) {
            Some(i) => Some(i + 1),
            None => None,
        }
    }
}

/// The first index at which an outbox list holds `recipient`, if any.
pub open spec fn find_outbox(s: Seq<(ChainId, OutboxState)>, recipient: ChainId) -> Option<int>
    decreases s.len(),
{
    if s.len() == 0 {
        None
    } else if s[0].0 == recipient {
        Some(0int)
    } else {
        match find_outbox(s.drop_first(), recipient) {
            Some(i) => Some(i + 1),
            None => None,
        }
    }
}

/// The first index at which a pending-proposal list holds `owner`, if any.
pub open spec fn find_pending(s: Seq<(AccountOwner, PendingBlobs)>, owner: AccountOwner) -> Option<
    int,
>
    decreases s.len(),
{
    if s.len() == 0 {
        None
    } else if s[0].0 == owner {
        Some(0int)
    } else {
        match find_pending(s.drop_first(), owner) {
            Some(i) => Some(i + 1),
            None => None,
        }
    }
}

/// The first index at which a tracker list holds `key`, if any.
pub open spec fn find_tracker(s: Seq<(ValidatorPublicKey, u64)>, key: ValidatorPublicKey) -> Option<
    int,
>
    decreases s.len(),
{
    if s.len() == 0 {
        None
    } else if s[0].0 == key {
        Some(0int)
    } else {
        match find_tracker(s.drop_first(), key) {
            Some(i) => Some(i + 1),
            None => None,
        }
    }
}

/// A scan that stops at the first matching inbox agrees with `find_inbox`.
pub proof fn lemma_find_inbox_at(s: Seq<(ChainId, InboxState)>, origin: ChainId, i: int)
    requires
        0 <= i < s.len(),
        s[i].0 == origin,
        forall|j: int| 0 <= j < i ==> s[j].0 != origin,
    ensures
        find_inbox(s, origin) == Some(i),
    decreases i,
{
    if i > 0 {
        lemma_find_inbox_at(s.drop_first(), origin, i - 1);
    }
}

/// A scan that matches no inbox agrees with `find_inbox`.
pub proof fn lemma_find_inbox_none(s: Seq<(ChainId, InboxState)>, origin: ChainId)
    requires
        forall|j: int| 0 <= j < s.len() ==> s[j].0 != origin,
    ensures
        find_inbox(s, origin) is None,
    decreases s.len(),
{
    if s.len() > 0 {
        lemma_find_inbox_none(s.drop_first(), origin);
    }
}

/// Where `find_inbox` points, the origin stands, and nowhere earlier.
pub proof fn lemma_find_inbox_sound(s: Seq<(ChainId, InboxState)>, origin: ChainId)
    ensures
        match find_inbox(s, origin) {
            Some(i) => 0 <= i < s.len() && s[i].0 == origin && forall|j: int|
                0 <= j < i ==> s[j].0 != origin,
            None => forall|j: int| 0 <= j < s.len() ==> s[j].0 != origin,
        },
    decreases s.len(),
{
    if s.len() > 0 {
        lemma_find_inbox_sound(s.drop_first(), origin);
        if s[0].0 != origin {
            match find_inbox(s.drop_first(), origin) {
                Some(i) => {
                    assert(s.drop_first()[i] == s[i + 1]);
                    assert forall|j: int| 0 <= j < i + 1 implies s[j].0 != origin by {
                        if j > 0 {
                            assert(s.drop_first()[j - 1] == s[j]);
                        }
                    }
                },
                None => {
                    assert forall|j: int| 0 <= j < s.len() implies s[j].0 != origin by {
                        if j > 0 {
                            assert(s.drop_first()[j - 1] == s[j]);
                        }
                    }
                },
            }
        }
    }
}

/// A scan that stops at the first matching outbox agrees with `find_outbox`.
pub proof fn lemma_find_outbox_at(s: Seq<(ChainId, OutboxState)>, recipient: ChainId, i: int)
    requires
        0 <= i < s.len(),
        s[i].0 == recipient,
        forall|j: int| 0 <= j < i ==> s[j].0 != recipient,
    ensures
        find_outbox(s, recipient) == Some(i),
    decreases i,
{
    if i > 0 {
        lemma_find_outbox_at(s.drop_first(), recipient, i - 1);
    }
}

/// A scan that matches no outbox agrees with `find_outbox`.
pub proof fn lemma_find_outbox_none(s: Seq<(ChainId, OutboxState)>, recipient: ChainId)
    requires
        forall|j: int| 0 <= j < s.len() ==> s[j].0 != recipient,
    ensures
        find_outbox(s, recipient) is None,
    decreases s.len(),
{
    if s.len() > 0 {
        lemma_find_outbox_none(s.drop_first(), recipient);
    }
}

/// Where `find_outbox` points, the recipient stands, and nowhere earlier.
pub proof fn lemma_find_outbox_sound(s: Seq<(ChainId, OutboxState)>, recipient: ChainId)
    ensures
        match find_outbox(s, recipient) {
            Some(i) => 0 <= i < s.len() && s[i].0 == recipient && forall|j: int|
                0 <= j < i ==> s[j].0 != recipient,
            None => forall|j: int| 0 <= j < s.len() ==> s[j].0 != recipient,
        },
    decreases s.len(),
{
    if s.len() > 0 {
        lemma_find_outbox_sound(s.drop_first(), recipient);
        if s[0].0 != recipient {
            match find_outbox(s.drop_first(), recipient) {
                Some(i) => {
                    assert(s.drop_first()[i] == s[i + 1]);
                    assert forall|j: int| 0 <= j < i + 1 implies s[j].0 != recipient by {
                        if j > 0 {
                            assert(s.drop_first()[j - 1] == s[j]);
                        }
                    }
                },
                None => {
                    assert forall|j: int| 0 <= j < s.len() implies s[j].0 != recipient by {
                        if j > 0 {
                            assert(s.drop_first()[j - 1] == s[j]);
                        }
                    }
                },
            }
        }
    }
}

/// A scan that stops at the first matching owner agrees with `find_pending`.
pub proof fn lemma_find_pending_at(s: Seq<(AccountOwner, PendingBlobs)>, owner: AccountOwner, i: int)
    requires
        0 <= i < s.len(),
        s[i].0 == owner,
        forall|j: int| 0 <= j < i ==> s[j].0 != owner,
    ensures
        find_pending(s, owner) == Some(i),
    decreases i,
{
    if i > 0 {
        lemma_find_pending_at(s.drop_first(), owner, i - 1);
    }
}

/// A scan that matches no owner agrees with `find_pending`.
pub proof fn lemma_find_pending_none(s: Seq<(AccountOwner, PendingBlobs)>, owner: AccountOwner)
    requires
        forall|j: int| 0 <= j < s.len() ==> s[j].0 != owner,
    ensures
        find_pending(s, owner) is None,
    decreases s.len(),
{
    if s.len() > 0 {
        lemma_find_pending_none(s.drop_first(), owner);
    }
}

/// Where `find_pending` points, the owner stands, and nowhere earlier.
pub proof fn lemma_find_pending_sound(s: Seq<(AccountOwner, PendingBlobs)>, owner: AccountOwner)
    ensures
        match find_pending(s, owner) {
            Some(i) => 0 <= i < s.len() && s[i].0 == owner && forall|j: int|
                0 <= j < i ==> s[j].0 != owner,
            None => forall|j: int| 0 <= j < s.len() ==> s[j].0 != owner,
        },
    decreases s.len(),
{
    if s.len() > 0 {
        lemma_find_pending_sound(s.drop_first(), owner);
        if s[0].0 != owner {
            match find_pending(s.drop_first(), owner) {
                Some(i) => {
                    assert(s.drop_first()[i] == s[i + 1]);
                    assert forall|j: int| 0 <= j < i + 1 implies s[j].0 != owner by {
                        if j > 0 {
                            assert(s.drop_first()[j - 1] == s[j]);
                        }
                    }
                },
                None => {
                    assert forall|j: int| 0 <= j < s.len() implies s[j].0 != owner by {
                        if j > 0 {
                            assert(s.drop_first()[j - 1] == s[j]);
                        }
                    }
                },
            }
        }
    }
}

/// Where `find_tracker` points, the key stands, and nowhere earlier.
pub proof fn lemma_find_tracker_sound(s: Seq<(ValidatorPublicKey, u64)>, key: ValidatorPublicKey)
    ensures
        match find_tracker(s, key) {
            Some(i) => 0 <= i < s.len() && s[i].0 == key && forall|j: int|
                0 <= j < i ==> s[j].0 != key,
            None => forall|j: int| 0 <= j < s.len() ==> s[j].0 != key,
        },
    decreases s.len(),
{
    if s.len() > 0 {
        lemma_find_tracker_sound(s.drop_first(), key);
        if s[0].0 != key {
            match find_tracker(s.drop_first(), key) {
                Some(i) => {
                    assert(s.drop_first()[i] == s[i + 1]);
                    assert forall|j: int| 0 <= j < i + 1 implies s[j].0 != key by {
                        if j > 0 {
                            assert(s.drop_first()[j - 1] == s[j]);
                        }
                    }
                },
                None => {
                    assert forall|j: int| 0 <= j < s.len() implies s[j].0 != key by {
                        if j > 0 {
                            assert(s.drop_first()[j - 1] == s[j]);
                        }
                    }
                },
            }
        }
    }
}

/// `find_inbox` is decided by the keys alone: updating the value at a found
/// index, or appending a fresh key, leaves other lookups unchanged.
pub proof fn lemma_find_inbox_update(
    s: Seq<(ChainId, InboxState)>,
    i: int,
    v: (ChainId, InboxState),
    origin: ChainId,
)
    requires
        0 <= i < s.len(),
        v.0 == s[i].0,
    ensures
        find_inbox(s.update(i, v), origin) == find_inbox(s, origin),
    decreases s.len(),
{
    if s.len() > 0 {
        assert(s.update(i, v)[0] == if i == 0 {
            v
        } else {
            s[0]
        });
        if i == 0 {
            assert(s.update(i, v).drop_first() =~= s.drop_first());
        } else {
            assert(s.update(i, v).drop_first() =~= s.drop_first().update(i - 1, v));
            lemma_find_inbox_update(s.drop_first(), i - 1, v, origin);
        }
    }
}

/// Appending an entry with a fresh key leaves lookups of other keys as they
/// were, and makes the new key found at the end.
pub proof fn lemma_find_inbox_push(
    s: Seq<(ChainId, InboxState)>,
    v: (ChainId, InboxState),
    origin: ChainId,
)
    ensures
        find_inbox(s.push(v), origin) == if find_inbox(s, origin) is Some {
            find_inbox(s, origin)
        } else if v.0 == origin {
            Some(s.len() as int)
        } else {
            None
        },
    decreases s.len(),
{
    assert(s.push(v).len() == s.len() + 1);
    if s.len() == 0 {
        assert(s.push(v)[0] == v);
        assert(s.push(v).drop_first() =~= Seq::<(ChainId, InboxState)>::empty());
        assert(find_inbox(s.push(v), origin) == if v.0 == origin {
            Some(0int)
        } else {
            None::<int>
        });
    } else {
        assert(s.push(v)[0] == s[0]);
        assert(s.push(v).drop_first() =~= s.drop_first().push(v));
        lemma_find_inbox_push(s.drop_first(), v, origin);
        assert(find_inbox(s.push(v), origin) == if s.push(v)[0].0 == origin {
            Some(0int)
        } else {
            match find_inbox(s.push(v).drop_first(), origin) {
                Some(i) => Some(i + 1),
                None => None,
            }
        });
    }
}

/// `find_outbox` under an update of a found index.
pub proof fn lemma_find_outbox_update(
    s: Seq<(ChainId, OutboxState)>,
    i: int,
    v: (ChainId, OutboxState),
    recipient: ChainId,
)
    requires
        0 <= i < s.len(),
        v.0 == s[i].0,
    ensures
        find_outbox(s.update(i, v), recipient) == find_outbox(s, recipient),
    decreases s.len(),
{
    if s.len() > 0 {
        assert(s.update(i, v)[0] == if i == 0 {
            v
        } else {
            s[0]
        });
        if i == 0 {
            assert(s.update(i, v).drop_first() =~= s.drop_first());
        } else {
            assert(s.update(i, v).drop_first() =~= s.drop_first().update(i - 1, v));
            lemma_find_outbox_update(s.drop_first(), i - 1, v, recipient);
        }
    }
}

/// `find_outbox` under a push.
pub proof fn lemma_find_outbox_push(
    s: Seq<(ChainId, OutboxState)>,
    v: (ChainId, OutboxState),
    recipient: ChainId,
)
    ensures
        find_outbox(s.push(v), recipient) == if find_outbox(s, recipient) is Some {
            find_outbox(s, recipient)
        } else if v.0 == recipient {
            Some(s.len() as int)
        } else {
            None
        },
    decreases s.len(),
{
    assert(s.push(v).len() == s.len() + 1);
    if s.len() == 0 {
        assert(s.push(v)[0] == v);
        assert(s.push(v).drop_first() =~= Seq::<(ChainId, OutboxState)>::empty());
        assert(find_outbox(s.push(v), recipient) == if v.0 == recipient {
            Some(0int)
        } else {
            None::<int>
        });
    } else {
        assert(s.push(v)[0] == s[0]);
        assert(s.push(v).drop_first() =~= s.drop_first().push(v));
        lemma_find_outbox_push(s.drop_first(), v, recipient);
        assert(find_outbox(s.push(v), recipient) == if s.push(v)[0].0 == recipient {
            Some(0int)
        } else {
            match find_outbox(s.push(v).drop_first(), recipient) {
                Some(i) => Some(i + 1),
                None => None,
            }
        });
    }
}

/// `find_pending` under an update of a found index.
pub proof fn lemma_find_pending_update(
    s: Seq<(AccountOwner, PendingBlobs)>,
    i: int,
    v: (AccountOwner, PendingBlobs),
    owner: AccountOwner,
)
    requires
        0 <= i < s.len(),
        v.0 == s[i].0,
    ensures
        find_pending(s.update(i, v), owner) == find_pending(s, owner),
    decreases s.len(),
{
    if s.len() > 0 {
        assert(s.update(i, v)[0] == if i == 0 {
            v
        } else {
            s[0]
        });
        if i == 0 {
            assert(s.update(i, v).drop_first() =~= s.drop_first());
        } else {
            assert(s.update(i, v).drop_first() =~= s.drop_first().update(i - 1, v));
            lemma_find_pending_update(s.drop_first(), i - 1, v, owner);
        }
    }
}

/// `find_pending` under a push.
pub proof fn lemma_find_pending_push(
    s: Seq<(AccountOwner, PendingBlobs)>,
    v: (AccountOwner, PendingBlobs),
    owner: AccountOwner,
)
    ensures
        find_pending(s.push(v), owner) == if find_pending(s, owner) is Some {
            find_pending(s, owner)
        } else if v.0 == owner {
            Some(s.len() as int)
        } else {
            None
        },
    decreases s.len(),
{
    assert(s.push(v).len() == s.len() + 1);
    if s.len() == 0 {
        assert(s.push(v)[0] == v);
        assert(s.push(v).drop_first() =~= Seq::<(AccountOwner, PendingBlobs)>::empty());
        assert(find_pending(s.push(v), owner) == if v.0 == owner {
            Some(0int)
        } else {
            None::<int>
        });
    } else {
        assert(s.push(v)[0] == s[0]);
        assert(s.push(v).drop_first() =~= s.drop_first().push(v));
        lemma_find_pending_push(s.drop_first(), v, owner);
        assert(find_pending(s.push(v), owner) == if s.push(v)[0].0 == owner {
            Some(0int)
        } else {
            match find_pending(s.push(v).drop_first(), owner) {
                Some(i) => Some(i + 1),
                None => None,
            }
        });
    }
}

/// `find_tracker` under an update of a found index.
pub proof fn lemma_find_tracker_update(
    s: Seq<(ValidatorPublicKey, u64)>,
    i: int,
    v: (ValidatorPublicKey, u64),
    key: ValidatorPublicKey,
)
    requires
        0 <= i < s.len(),
        v.0 == s[i].0,
    ensures
        find_tracker(s.update(i, v), key) == find_tracker(s, key),
    decreases s.len(),
{
    if s.len() > 0 {
        assert(s.update(i, v)[0] == if i == 0 {
            v
        } else {
            s[0]
        });
        if i == 0 {
            assert(s.update(i, v).drop_first() =~= s.drop_first());
        } else {
            assert(s.update(i, v).drop_first() =~= s.drop_first().update(i - 1, v));
            lemma_find_tracker_update(s.drop_first(), i - 1, v, key);
        }
    }
}

/// `find_tracker` under a push.
pub proof fn lemma_find_tracker_push(
    s: Seq<(ValidatorPublicKey, u64)>,
    v: (ValidatorPublicKey, u64),
    key: ValidatorPublicKey,
)
    ensures
        find_tracker(s.push(v), key) == if find_tracker(s, key) is Some {
            find_tracker(s, key)
        } else if v.0 == key {
            Some(s.len() as int)
        } else {
            None
        },
    decreases s.len(),
{
    assert(s.push(v).len() == s.len() + 1);
    if s.len() == 0 {
        assert(s.push(v)[0] == v);
        assert(s.push(v).drop_first() =~= Seq::<(ValidatorPublicKey, u64)>::empty());
        assert(find_tracker(s.push(v), key) == if v.0 == key {
            Some(0int)
        } else {
            None::<int>
        });
    } else {
        assert(s.push(v)[0] == s[0]);
        assert(s.push(v).drop_first() =~= s.drop_first().push(v));
        lemma_find_tracker_push(s.drop_first(), v, key);
        assert(find_tracker(s.push(v), key) == if s.push(v)[0].0 == key {
            Some(0int)
        } else {
            match find_tracker(s.push(v).drop_first(), key) {
                Some(i) => Some(i + 1),
                None => None,
            }
        });
    }
}

/// The first index at which a staged bundle equals `b`, if any.
pub open spec fn first_match(s: Seq<MessageBundle>, b: MessageBundle) -> Option<int>
    decreases s.len(),
{
    if s.len() == 0 {
        None
    } else if s[0] == b {
        Some(0int)
    } else {
        match first_match(s.drop_first(), b) {
            Some(i) => Some(i + 1),
            None => None,
        }
    }
}

/// Where `first_match` points, the bundle stands, and nowhere earlier.
pub proof fn lemma_first_match_sound(s: Seq<MessageBundle>, b: MessageBundle)
    ensures
        match first_match(s, b) {
            Some(i) => 0 <= i < s.len() && s[i] == b && forall|j: int| 0 <= j < i ==> s[j] != b,
            None => forall|j: int| 0 <= j < s.len() ==> s[j] != b,
        },
    decreases s.len(),
{
    if s.len() > 0 {
        lemma_first_match_sound(s.drop_first(), b);
        if s[0] != b {
            match first_match(s.drop_first(), b) {
                Some(i) => {
                    assert(s.drop_first()[i] == s[i + 1]);
                    assert forall|j: int| 0 <= j < i + 1 implies s[j] != b by {
                        if j > 0 {
                            assert(s.drop_first()[j - 1] == s[j]);
                        }
                    }
                },
                None => {
                    assert forall|j: int| 0 <= j < s.len() implies s[j] != b by {
                        if j > 0 {
                            assert(s.drop_first()[j - 1] == s[j]);
                        }
                    }
                },
            }
        }
    }
}

/// The anticipation mark after consuming a bundle at `h` in advance.
pub open spec fn bump_anticipated(ant: Option<u64>, h: u64) -> Option<u64> {
    match ant {
        Some(a) => Some(if a > h {
            a
        } else {
            h
        }),
        None => Some(h),
    }
}

/// One claim on an inbox: the first staged bundle equal to the claim is
/// consumed; a claim with no staged counterpart is anticipated.
pub open spec fn claim_one(added: Seq<MessageBundle>, ant: Option<u64>, b: MessageBundle) -> (
    Seq<MessageBundle>,
    Option<u64>,
) {
    match first_match(added, b) {
        Some(i) => (added.remove(i), ant),
        None => (added, bump_anticipated(ant, b.height)),
    }
}

/// The inbox of `o` after a block claims a list of bundles.
pub open spec fn inbox_after_claims(
    added: Seq<MessageBundle>,
    ant: Option<u64>,
    claims: Seq<IncomingBundle>,
    o: ChainId,
) -> (Seq<MessageBundle>, Option<u64>)
    decreases claims.len(),
{
    if claims.len() == 0 {
        (added, ant)
    } else {
        let prev = inbox_after_claims(added, ant, claims.drop_last(), o);
        let c = claims.last();
        if c.origin == o {
            claim_one(prev.0, prev.1, c.bundle)
        } else {
            prev
        }
    }
}

/// Whether a claim list claims this unskippable entry's bundle.
pub open spec fn claims_entry(claims: Seq<IncomingBundle>, e: UnskippableEntry) -> bool {
    exists|m: int|
        0 <= m < claims.len() && claims[m].origin == e.origin && claims[m].bundle == e.bundle
}

/// Whether some message in the strict prefix up to group `g`, message `m`
/// goes to `d`.
pub open spec fn dest_in_prefix(
    msgs: Seq<Vec<OutgoingMessage>>,
    g: int,
    m: int,
    d: ChainId,
) -> bool {
    exists|a: int, b: int|
        0 <= a < msgs.len() && 0 <= b < msgs[a]@.len() && (a < g || (a == g && b < m)) && msgs[a]@[b].destination == d
}

/// Whether some message of the block goes to `d`.
pub open spec fn dest_in(msgs: Seq<Vec<OutgoingMessage>>, d: ChainId) -> bool {
    dest_in_prefix(msgs, msgs.len() as int, 0, d)
}

/// An outbox queue after scheduling the block at `h` for a recipient that
/// may or may not receive one of its messages.
pub open spec fn sched_spec(q: Seq<u64>, is_dest: bool, h: u64) -> Seq<u64> {
    if is_dest && (q.len() == 0 || q.last() < h) {
        q.push(h)
    } else {
        q
    }
}

/// Finds the first staged bundle equal to `b`.
pub fn find_bundle_index(added: &Vec<MessageBundle>, b: MessageBundle) -> (r: Option<usize>)
    ensures
        match r {
            Some(j) => first_match(added@, b) == Some(j as int) && j < added@.len()
                && added@[j as int] == b,
            None => first_match(added@, b) is None,
        },
{
    let mut k: usize = 0;
    while k < added.len()
        invariant
            0 <= k <= added@.len(),
            forall|j: int| 0 <= j < k ==> (#[trigger] added@[j]) != b,
        decreases added@.len() - k,
    {
        if added[k] == b {
            proof {
                lemma_first_match_at(added@, b, k as int);
            }
            return Some(k);
        }
        k += 1;
    }
    proof {
        lemma_first_match_none(added@, b);
    }
    None
}

/// A scan that stops at the first equal bundle agrees with `first_match`.
pub proof fn lemma_first_match_at(s: Seq<MessageBundle>, b: MessageBundle, i: int)
    requires
        0 <= i < s.len(),
        s[i] == b,
        forall|j: int| 0 <= j < i ==> s[j] != b,
    ensures
        first_match(s, b) == Some(i),
    decreases i,
{
    if i > 0 {
        lemma_first_match_at(s.drop_first(), b, i - 1);
    }
}

/// A scan that matches nowhere agrees with `first_match`.
pub proof fn lemma_first_match_none(s: Seq<MessageBundle>, b: MessageBundle)
    requires
        forall|j: int| 0 <= j < s.len() ==> s[j] != b,
    ensures
        first_match(s, b) is None,
    decreases s.len(),
{
    if s.len() > 0 {
        lemma_first_match_none(s.drop_first(), b);
    }
}

/// Copies a bundle vector, leaving index `j` out.
pub fn remove_bundle_at(v: &Vec<MessageBundle>, j: usize) -> (r: Vec<MessageBundle>)
    requires
        j < v@.len(),
    ensures
        r@ == v@.remove(j as int),
{
    let mut r: Vec<MessageBundle> = Vec::new();
    let mut i: usize = 0;
    while i < v.len()
        invariant
            0 <= i <= v@.len(),
            j < v@.len(),
            r@ == if i <= j {
                v@.take(i as int)
            } else {
                v@.take(j as int) + v@.subrange(j as int + 1, i as int)
            },
        decreases v@.len() - i,
    {
        if i != j {
            r.push(v[i]);
        }
        proof {
            if i < j {
                assert(v@.take(i as int + 1) =~= v@.take(i as int).push(v@[i as int]));
            } else if i == j {
                assert(v@.take(j as int) + v@.subrange(j as int + 1, j as int + 1) =~= v@.take(
                    j as int,
                ));
            } else {
                assert(v@.take(j as int) + v@.subrange(j as int + 1, i as int + 1) =~= (v@.take(
                    j as int,
                ) + v@.subrange(j as int + 1, i as int)).push(v@[i as int]));
            }
        }
        i += 1;
    }
    proof {
        assert(v@.remove(j as int) =~= v@.take(j as int) + v@.subrange(
            j as int + 1,
            v@.len() as int,
        ));
    }
    r
}

/// The record that makes a chain active: its genesis configuration.
#[derive(Debug)]
pub struct ChainDescription {
    pub chain_id: ChainId,
    pub epoch: u64,
    pub timestamp: u64,
    pub committee: Committee,
}

impl ChainDescription {
    /// An independent copy of this description.
    pub fn duplicate(&self) -> (r: ChainDescription)
        ensures
            r.chain_id == self.chain_id,
            r.epoch == self.epoch,
            r.timestamp == self.timestamp,
            crate::committee::committee_matches(&r.committee, &self.committee),
            self.committee.well_formed() ==> r.committee.well_formed(),
    {
        ChainDescription {
            chain_id: self.chain_id,
            epoch: self.epoch,
            timestamp: self.timestamp,
            committee: self.committee.duplicate(),
        }
    }
}

/// The height under which a bundle at `h` counts as received.
pub open spec fn sat_inc(h: u64) -> u64 {
    if h == u64::MAX {
        u64::MAX
    } else {
        (h + 1) as u64
    }
}

/// The persistent state of one chain.
#[derive(Debug)]
pub struct ChainState {
    /// The chain this state belongs to.
    pub chain_id: ChainId,
    /// The frontier: next height and last block hash.
    pub tip_state: TipState,
    /// The execution state, covered by the blocks' state hashes.
    pub execution_state: ExecutionState,
    /// The consensus manager for the height at the tip.
    pub manager: ConsensusManager,
    /// The staged inbound bundles, per origin chain.
    pub inboxes: Vec<(ChainId, InboxState)>,
    /// The undelivered outbound message heights, per recipient chain.
    pub outboxes: Vec<(ChainId, OutboxState)>,
    /// The not-skippable staged bundles, oldest first.
    pub unskippable_bundles: Vec<UnskippableEntry>,
    /// Which sender heights were received, in order of arrival.
    pub received_log: Vec<(ChainId, u64)>,
    /// How far each validator has been seen to track this chain's
    /// certificates.
    pub received_certificate_trackers: Vec<(ValidatorPublicKey, u64)>,
    /// The partial blob set of an in-progress validated-block vote.
    pub pending_validated_blobs: Option<PendingBlobs>,
    /// The partial blob sets of in-progress proposals, per owner.
    pub pending_proposed_blobs: Vec<(AccountOwner, PendingBlobs)>,
}

/// The staged bundles from `origin` (empty when no inbox exists).
pub open spec fn inbox_added(c: &ChainState, origin: ChainId) -> Seq<MessageBundle> {
    match find_inbox(c.inboxes@, origin) {
        Some(i) => c.inboxes@[i].1.added_bundles@,
        None => Seq::empty(),
    }
}

/// The receive cursor for `origin` (0 when no inbox exists).
pub open spec fn inbox_cursor(c: &ChainState, origin: ChainId) -> u64 {
    match find_inbox(c.inboxes@, origin) {
        Some(i) => c.inboxes@[i].1.next_height_to_receive,
        None => 0,
    }
}

/// The anticipation mark for `origin` (`None` when no inbox exists).
pub open spec fn inbox_anticipated(c: &ChainState, origin: ChainId) -> Option<u64> {
    match find_inbox(c.inboxes@, origin) {
        Some(i) => c.inboxes@[i].1.last_anticipated_height,
        None => None,
    }
}

/// The undelivered heights for `recipient` (empty when no outbox exists).
pub open spec fn outbox_queue(c: &ChainState, recipient: ChainId) -> Seq<u64> {
    match find_outbox(c.outboxes@, recipient) {
        Some(i) => c.outboxes@[i].1.queue@,
        None => Seq::empty(),
    }
}

/// Whether a staged bundle from `origin` counts as already consumed by an
/// executed block.
pub open spec fn is_anticipated(ant: Option<u64>, height: u64) -> bool {
    match ant {
        Some(la) => height <= la,
        None => false,
    }
}

impl ChainState {
    /// Well-formedness: distinct keys in every association, well-formed
    /// committees, increasing outbox queues.
    pub open spec fn wf(&self) -> bool {
        &&& self.execution_state.wf()
        &&& forall|i: int, j: int|
            0 <= i < j < self.inboxes@.len() ==> (#[trigger] self.inboxes@[i]).0 != (
            #[trigger] self.inboxes@[j]).0
        &&& forall|i: int, j: int|
            0 <= i < j < self.outboxes@.len() ==> (#[trigger] self.outboxes@[i]).0 != (
            #[trigger] self.outboxes@[j]).0
        &&& forall|i: int, j: int|
            0 <= i < j < self.pending_proposed_blobs@.len() ==> (
            #[trigger] self.pending_proposed_blobs@[i]).0 != (
            #[trigger] self.pending_proposed_blobs@[j]).0
        &&& forall|i: int, j: int|
            0 <= i < j < self.received_certificate_trackers@.len() ==> (
            #[trigger] self.received_certificate_trackers@[i]).0 != (
            #[trigger] self.received_certificate_trackers@[j]).0
        &&& forall|i: int|
            0 <= i < self.outboxes@.len() ==> strictly_increasing(
                (#[trigger] self.outboxes@[i]).1.queue@,
            )
    }

    /// The state of a chain nothing has happened on.
    pub fn new(chain_id: ChainId) -> (r: ChainState)
        ensures
            r.chain_id == chain_id,
            r.tip_state == (TipState { next_block_height: 0, block_hash: None }),
            r.execution_state.active == false,
            r.execution_state.epoch == 0,
            r.execution_state.committees.entries@.len() == 0,
            r.manager == ConsensusManager::spec_fresh(),
            r.inboxes@.len() == 0,
            r.outboxes@.len() == 0,
            r.unskippable_bundles@.len() == 0,
            r.received_log@.len() == 0,
            r.received_certificate_trackers@.len() == 0,
            r.pending_validated_blobs is None,
            r.pending_proposed_blobs@.len() == 0,
            r.wf(),
    {
        ChainState {
            chain_id,
            tip_state: TipState { next_block_height: 0, block_hash: None },
            execution_state: ExecutionState::inactive(),
            manager: ConsensusManager::fresh(),
            inboxes: Vec::new(),
            outboxes: Vec::new(),
            unskippable_bundles: Vec::new(),
            received_log: Vec::new(),
            received_certificate_trackers: Vec::new(),
            pending_validated_blobs: None,
            pending_proposed_blobs: Vec::new(),
        }
    }

    /// Whether the chain's genesis configuration has been seen.
    pub fn is_active(&self) -> (r: bool)
        ensures
            r == self.execution_state.active,
    {
        self.execution_state.active
    }

    /// Initializes the execution state from the chain's description.
    pub fn activate(&mut self, description: &ChainDescription)
        requires
            description.committee.well_formed(),
        ensures
            final(self).execution_state.active,
            final(self).execution_state.epoch == description.epoch,
            final(self).execution_state.timestamp == description.timestamp,
            final(self).execution_state.committees.entries@.len() == 1,
            final(self).execution_state.committees.entries@[0].0 == description.epoch,
            crate::committee::committee_matches(
                &final(self).execution_state.committees.entries@[0].1,
                &description.committee,
            ),
            final(self).execution_state.wf(),
            old(self).wf() ==> final(self).wf(),
            *final(self) == (ChainState { execution_state: final(self).execution_state, ..*old(self) }),
    {
        let mut committees = crate::committee::CommitteeMap::empty();
        committees.insert_if_absent(description.epoch, description.committee.duplicate());
        self.execution_state = ExecutionState {
            active: true,
            epoch: description.epoch,
            timestamp: description.timestamp,
            committees,
        };
    }

    /// The height expected next from `origin`.
    pub fn next_block_height_to_receive(&self, origin: ChainId) -> (r: u64)
        ensures
            r == inbox_cursor(self, origin),
    {
        let mut k: usize = 0;
        while k < self.inboxes.len()
            invariant
                0 <= k <= self.inboxes@.len(),
                forall|j: int| 0 <= j < k ==> (#[trigger] self.inboxes@[j]).0 != origin,
            decreases self.inboxes@.len() - k,
        {
            if self.inboxes[k].0 == origin {
                proof {
                    lemma_find_inbox_at(self.inboxes@, origin, k as int);
                }
                return self.inboxes[k].1.next_height_to_receive;
            }
            k += 1;
        }
        proof {
            lemma_find_inbox_none(self.inboxes@, origin);
        }
        0
    }

    /// The highest height from `origin` consumed in advance, if any.
    pub fn last_anticipated_block_height(&self, origin: ChainId) -> (r: Option<u64>)
        ensures
            r == inbox_anticipated(self, origin),
    {
        let mut k: usize = 0;
        while k < self.inboxes.len()
            invariant
                0 <= k <= self.inboxes@.len(),
                forall|j: int| 0 <= j < k ==> (#[trigger] self.inboxes@[j]).0 != origin,
            decreases self.inboxes@.len() - k,
        {
            if self.inboxes[k].0 == origin {
                proof {
                    lemma_find_inbox_at(self.inboxes@, origin, k as int);
                }
                return self.inboxes[k].1.last_anticipated_height;
            }
            k += 1;
        }
        proof {
            lemma_find_inbox_none(self.inboxes@, origin);
        }
        None
    }

    /// Finds the inbox of `origin`.
    fn find_inbox_index(&self, origin: ChainId) -> (r: Option<usize>)
        ensures
            match r {
                Some(i) => find_inbox(self.inboxes@, origin) == Some(i as int) && i
                    < self.inboxes@.len() && self.inboxes@[i as int].0 == origin,
                None => find_inbox(self.inboxes@, origin) is None,
            },
    {
        let mut k: usize = 0;
        while k < self.inboxes.len()
            invariant
                0 <= k <= self.inboxes@.len(),
                forall|j: int| 0 <= j < k ==> (#[trigger] self.inboxes@[j]).0 != origin,
            decreases self.inboxes@.len() - k,
        {
            if self.inboxes[k].0 == origin {
                proof {
                    lemma_find_inbox_at(self.inboxes@, origin, k as int);
                }
                return Some(k);
            }
            k += 1;
        }
        proof {
            lemma_find_inbox_none(self.inboxes@, origin);
        }
        None
    }

    /// Finds the outbox of `recipient`.
    fn find_outbox_index(&self, recipient: ChainId) -> (r: Option<usize>)
        ensures
            match r {
                Some(i) => find_outbox(self.outboxes@, recipient) == Some(i as int) && i
                    < self.outboxes@.len() && self.outboxes@[i as int].0 == recipient,
                None => find_outbox(self.outboxes@, recipient) is None,
            },
    {
        let mut k: usize = 0;
        while k < self.outboxes.len()
            invariant
                0 <= k <= self.outboxes@.len(),
                forall|j: int| 0 <= j < k ==> (#[trigger] self.outboxes@[j]).0 != recipient,
            decreases self.outboxes@.len() - k,
        {
            if self.outboxes[k].0 == recipient {
                proof {
                    lemma_find_outbox_at(self.outboxes@, recipient, k as int);
                }
                return Some(k);
            }
            k += 1;
        }
        proof {
            lemma_find_outbox_none(self.outboxes@, recipient);
        }
        None
    }

    /// Stages one inbound bundle from `origin`: it is added to the inbox
    /// unless an executed block already consumed it in advance, the receive
    /// cursor moves past its height, a not-skippable staged bundle is
    /// remembered with the time it was seen, and the arrival may be logged.
    pub fn receive_message_bundle(
        &mut self,
        origin: ChainId,
        bundle: MessageBundle,
        local_time: u64,
        add_to_received_log: bool,
    )
        ensures
            ({
                let staged = !is_anticipated(inbox_anticipated(old(self), origin), bundle.height);
                &&& inbox_added(final(self), origin) == if staged {
                    inbox_added(old(self), origin).push(bundle)
                } else {
                    inbox_added(old(self), origin)
                }
                &&& inbox_cursor(final(self), origin) == if sat_inc(bundle.height) > inbox_cursor(
                    old(self),
                    origin,
                ) {
                    sat_inc(bundle.height)
                } else {
                    inbox_cursor(old(self), origin)
                }
                &&& inbox_anticipated(final(self), origin) == inbox_anticipated(old(self), origin)
                &&& final(self).unskippable_bundles@ == if staged && !bundle.skippable {
                    old(self).unskippable_bundles@.push(
                        UnskippableEntry { seen: local_time, origin, bundle },
                    )
                } else {
                    old(self).unskippable_bundles@
                }
            }),
            forall|o: ChainId|
                o != origin ==> inbox_added(final(self), o) == inbox_added(old(self), o)
                    && inbox_cursor(final(self), o) == inbox_cursor(old(self), o)
                    && inbox_anticipated(final(self), o) == inbox_anticipated(old(self), o),
            final(self).received_log@ == if add_to_received_log {
                old(self).received_log@.push((origin, bundle.height))
            } else {
                old(self).received_log@
            },
            final(self).chain_id == old(self).chain_id,
            final(self).tip_state == old(self).tip_state,
            final(self).execution_state == old(self).execution_state,
            final(self).manager == old(self).manager,
            final(self).outboxes == old(self).outboxes,
            final(self).received_certificate_trackers == old(self).received_certificate_trackers,
            final(self).pending_validated_blobs == old(self).pending_validated_blobs,
            final(self).pending_proposed_blobs == old(self).pending_proposed_blobs,
            old(self).wf() ==> final(self).wf(),
    {
        let found = self.find_inbox_index(origin);
        let staged: bool;
        if let Some(idx) = found {
            let entry = &self.inboxes[idx].1;
            staged = match entry.last_anticipated_height {
                Some(la) => bundle.height > la,
                None => true,
            };
            let bump = if bundle.height == u64::MAX {
                u64::MAX
            } else {
                bundle.height + 1
            };
            let cursor = if bump > entry.next_height_to_receive {
                bump
            } else {
                entry.next_height_to_receive
            };
            let mut added = copy_bundles(&entry.added_bundles);
            if staged {
                added.push(bundle);
            }
            let new_entry = InboxState {
                next_height_to_receive: cursor,
                last_anticipated_height: entry.last_anticipated_height,
                added_bundles: added,
            };
            proof {
                assert forall|o: ChainId|
                    o != origin implies ({
                        &&& find_inbox(
                            self.inboxes@.update(idx as int, (origin, new_entry)),
                            o,
                        ) == find_inbox(self.inboxes@, o)
                        &&& match find_inbox(self.inboxes@, o) {
                            Some(io) => io != idx as int && self.inboxes@.update(
                                idx as int,
                                (origin, new_entry),
                            )[io] == self.inboxes@[io],
                            None => true,
                        }
                    }) by {
                    lemma_find_inbox_update(self.inboxes@, idx as int, (origin, new_entry), o);
                    lemma_find_inbox_sound(self.inboxes@, o);
                }
                assert(find_inbox(
                    self.inboxes@.update(idx as int, (origin, new_entry)),
                    origin,
                ) == Some(idx as int)) by {
                    lemma_find_inbox_update(self.inboxes@, idx as int, (origin, new_entry), origin);
                }
            }
            let ghost pre_inboxes = self.inboxes@;
            self.inboxes.set(idx, (origin, new_entry));
            proof {
                if old(self).wf() {
                    assert forall|i: int, j: int|
                        0 <= i < j < self.inboxes@.len() implies (#[trigger] self.inboxes@[i]).0
                        != (#[trigger] self.inboxes@[j]).0 by {
                        assert(self.inboxes@[i].0 == old(self).inboxes@[i].0);
                        assert(self.inboxes@[j].0 == old(self).inboxes@[j].0);
                    }
                }
            }
        } else {
            staged = true;
            let bump = if bundle.height == u64::MAX {
                u64::MAX
            } else {
                bundle.height + 1
            };
            let mut added: Vec<MessageBundle> = Vec::new();
            added.push(bundle);
            let new_entry = InboxState {
                next_height_to_receive: bump,
                last_anticipated_height: None,
                added_bundles: added,
            };
            proof {
                lemma_find_inbox_sound(self.inboxes@, origin);
                assert forall|o: ChainId| #[trigger]
                    find_inbox(self.inboxes@.push((origin, new_entry)), o) == (
                if find_inbox(self.inboxes@, o) is Some {
                    find_inbox(self.inboxes@, o)
                } else if o == origin {
                    Some(self.inboxes@.len() as int)
                } else {
                    None
                }) by {
                    lemma_find_inbox_push(self.inboxes@, (origin, new_entry), o);
                }
                assert forall|o: ChainId| o != origin implies match #[trigger] find_inbox(
                    self.inboxes@,
                    o,
                ) {
                    Some(io) => 0 <= io < self.inboxes@.len(),
                    None => true,
                } by {
                    lemma_find_inbox_sound(self.inboxes@, o);
                }
            }
            self.inboxes.push((origin, new_entry));
            proof {
                if old(self).wf() {
                    assert forall|i: int, j: int|
                        0 <= i < j < self.inboxes@.len() implies (#[trigger] self.inboxes@[i]).0
                        != (#[trigger] self.inboxes@[j]).0 by {
                        if j < self.inboxes@.len() - 1 {
                            assert(self.inboxes@[i] == old(self).inboxes@[i]);
                            assert(self.inboxes@[j] == old(self).inboxes@[j]);
                        } else {
                            assert(self.inboxes@[i] == old(self).inboxes@[i]);
                            assert(self.inboxes@[j].0 == origin);
                        }
                    }
                }
            }
        }
        if staged && !bundle.skippable {
            self.unskippable_bundles.push(
                UnskippableEntry { seen: local_time, origin, bundle },
            );
        }
        if add_to_received_log {
            self.received_log.push((origin, bundle.height));
        }
    }

    /// Claims the bundles an executed block lists as incoming: each claim
    /// consumes its staged counterpart, or is recorded as anticipated when
    /// the bundle has not arrived yet.  Unskippable entries whose bundles the
    /// block claims are dropped.
    pub fn remove_bundles_from_inboxes(&mut self, bundles: &Vec<IncomingBundle>)
        ensures
            forall|o: ChainId|
                #![trigger inbox_added(final(self), o)]
                ({
                    let after = inbox_after_claims(
                        inbox_added(old(self), o),
                        inbox_anticipated(old(self), o),
                        bundles@,
                        o,
                    );
                    &&& inbox_added(final(self), o) == after.0
                    &&& inbox_anticipated(final(self), o) == after.1
                    &&& inbox_cursor(final(self), o) == inbox_cursor(old(self), o)
                }),
            final(self).unskippable_bundles@ == old(self).unskippable_bundles@.filter(
                |e: UnskippableEntry| !claims_entry(bundles@, e),
            ),
            final(self).chain_id == old(self).chain_id,
            final(self).tip_state == old(self).tip_state,
            final(self).execution_state == old(self).execution_state,
            final(self).manager == old(self).manager,
            final(self).outboxes == old(self).outboxes,
            final(self).received_log == old(self).received_log,
            final(self).received_certificate_trackers == old(self).received_certificate_trackers,
            final(self).pending_validated_blobs == old(self).pending_validated_blobs,
            final(self).pending_proposed_blobs == old(self).pending_proposed_blobs,
            old(self).wf() ==> final(self).wf(),
    {
        let mut k: usize = 0;
        while k < bundles.len()
            invariant
                0 <= k <= bundles@.len(),
                forall|o: ChainId|
                    #![trigger find_inbox(self.inboxes@, o)]
                    ({
                        let after = inbox_after_claims(
                            inbox_added(old(self), o),
                            inbox_anticipated(old(self), o),
                            bundles@.take(k as int),
                            o,
                        );
                        &&& inbox_added(self, o) == after.0
                        &&& inbox_anticipated(self, o) == after.1
                        &&& inbox_cursor(self, o) == inbox_cursor(old(self), o)
                    }),
                self.chain_id == old(self).chain_id,
                self.tip_state == old(self).tip_state,
                self.execution_state == old(self).execution_state,
                self.manager == old(self).manager,
                self.outboxes == old(self).outboxes,
                self.unskippable_bundles == old(self).unskippable_bundles,
                self.received_log == old(self).received_log,
                self.received_certificate_trackers == old(self).received_certificate_trackers,
                self.pending_validated_blobs == old(self).pending_validated_blobs,
                self.pending_proposed_blobs == old(self).pending_proposed_blobs,
                old(self).wf() ==> forall|i: int, j: int|
                    0 <= i < j < self.inboxes@.len() ==> (#[trigger] self.inboxes@[i]).0 != (
                    #[trigger] self.inboxes@[j]).0,
            decreases bundles@.len() - k,
        {
            let c = bundles[k];
            let ghost st0 = *self;
            proof {
                assert(bundles@.take(k as int + 1).drop_last() =~= bundles@.take(k as int));
                assert(bundles@.take(k as int + 1).last() == bundles@[k as int]);
            }
            match self.find_inbox_index(c.origin) {
                Some(i) => {
                    let entry = &self.inboxes[i].1;
                    let new_entry = match find_bundle_index(&entry.added_bundles, c.bundle) {
                        Some(j) => InboxState {
                            next_height_to_receive: entry.next_height_to_receive,
                            last_anticipated_height: entry.last_anticipated_height,
                            added_bundles: remove_bundle_at(&entry.added_bundles, j),
                        },
                        None => {
                            let bumped = match entry.last_anticipated_height {
                                Some(a) => if a > c.bundle.height {
                                    a
                                } else {
                                    c.bundle.height
                                },
                                None => c.bundle.height,
                            };
                            InboxState {
                                next_height_to_receive: entry.next_height_to_receive,
                                last_anticipated_height: Some(bumped),
                                added_bundles: copy_bundles(&entry.added_bundles),
                            }
                        },
                    };
                    self.inboxes.set(i, (c.origin, new_entry));
                    proof {
                        assert(self.inboxes@ == st0.inboxes@.update(
                            i as int,
                            (c.origin, new_entry),
                        ));
                        assert(find_inbox(st0.inboxes@, c.origin) == Some(i as int));
                        assert forall|o: ChainId|
                            #![trigger find_inbox(self.inboxes@, o)]
                            ({
                                let after = inbox_after_claims(
                                    inbox_added(old(self), o),
                                    inbox_anticipated(old(self), o),
                                    bundles@.take(k as int + 1),
                                    o,
                                );
                                &&& inbox_added(self, o) == after.0
                                &&& inbox_anticipated(self, o) == after.1
                                &&& inbox_cursor(self, o) == inbox_cursor(old(self), o)
                            }) by {
                            lemma_find_inbox_update(
                                st0.inboxes@,
                                i as int,
                                (c.origin, new_entry),
                                o,
                            );
                            lemma_find_inbox_sound(st0.inboxes@, o);
                            assert(find_inbox(self.inboxes@, o) == find_inbox(st0.inboxes@, o));
                            assert(inbox_added(&st0, o) == inbox_after_claims(
                                inbox_added(old(self), o),
                                inbox_anticipated(old(self), o),
                                bundles@.take(k as int),
                                o,
                            ).0);
                            if o != c.origin {
                                match find_inbox(st0.inboxes@, o) {
                                    Some(io) => {
                                        assert(io != i as int);
                                        assert(self.inboxes@[io] == st0.inboxes@[io]);
                                    },
                                    None => {},
                                }
                            } else {
                                assert(self.inboxes@[i as int] == (c.origin, new_entry));
                            }
                        }
                        if old(self).wf() {
                            assert forall|a: int, b: int|
                                0 <= a < b < self.inboxes@.len() implies (
                            #[trigger] self.inboxes@[a]).0 != (#[trigger] self.inboxes@[b]).0 by {
                                assert(st0.inboxes@[i as int].0 == c.origin);
                                assert(self.inboxes@[a] == if a == i as int {
                                    (c.origin, new_entry)
                                } else {
                                    st0.inboxes@[a]
                                });
                                assert(self.inboxes@[b] == if b == i as int {
                                    (c.origin, new_entry)
                                } else {
                                    st0.inboxes@[b]
                                });
                                assert(st0.inboxes@[a].0 != st0.inboxes@[b].0);
                            }
                        }
                    }
                },
                None => {
                    let new_entry = InboxState {
                        next_height_to_receive: 0,
                        last_anticipated_height: Some(c.bundle.height),
                        added_bundles: Vec::new(),
                    };
                    self.inboxes.push((c.origin, new_entry));
                    proof {
                        assert(self.inboxes@ == st0.inboxes@.push((c.origin, new_entry)));
                        assert(find_inbox(st0.inboxes@, c.origin) is None);
                        lemma_find_inbox_sound(st0.inboxes@, c.origin);
                        assert forall|o: ChainId|
                            #![trigger find_inbox(self.inboxes@, o)]
                            ({
                                let after = inbox_after_claims(
                                    inbox_added(old(self), o),
                                    inbox_anticipated(old(self), o),
                                    bundles@.take(k as int + 1),
                                    o,
                                );
                                &&& inbox_added(self, o) == after.0
                                &&& inbox_anticipated(self, o) == after.1
                                &&& inbox_cursor(self, o) == inbox_cursor(old(self), o)
                            }) by {
                            lemma_find_inbox_push(st0.inboxes@, (c.origin, new_entry), o);
                            lemma_find_inbox_sound(st0.inboxes@, o);
                            assert(inbox_added(&st0, o) == inbox_after_claims(
                                inbox_added(old(self), o),
                                inbox_anticipated(old(self), o),
                                bundles@.take(k as int),
                                o,
                            ).0);
                            if o != c.origin {
                                assert(find_inbox(self.inboxes@, o) == find_inbox(
                                    st0.inboxes@,
                                    o,
                                ));
                                match find_inbox(st0.inboxes@, o) {
                                    Some(io) => {
                                        assert(self.inboxes@[io] == st0.inboxes@[io]);
                                    },
                                    None => {},
                                }
                            } else {
                                assert(find_inbox(self.inboxes@, o) == Some(
                                    st0.inboxes@.len() as int,
                                ));
                                assert(self.inboxes@[st0.inboxes@.len() as int] == (
                                    c.origin,
                                    new_entry,
                                ));
                            }
                        }
                        if old(self).wf() {
                            assert forall|a: int, b: int|
                                0 <= a < b < self.inboxes@.len() implies (
                            #[trigger] self.inboxes@[a]).0 != (#[trigger] self.inboxes@[b]).0 by {
                                if b < self.inboxes@.len() - 1 {
                                    assert(self.inboxes@[a] == st0.inboxes@[a]);
                                    assert(self.inboxes@[b] == st0.inboxes@[b]);
                                    assert(st0.inboxes@[a].0 != st0.inboxes@[b].0);
                                } else {
                                    assert(self.inboxes@[a] == st0.inboxes@[a]);
                                    assert(self.inboxes@[b].0 == c.origin);
                                    assert(st0.inboxes@[a].0 != c.origin);
                                }
                            }
                        }
                    }
                },
            }
            k += 1;
        }
        proof {
            assert(bundles@.take(bundles@.len() as int) =~= bundles@);
        }
        // Drop the unskippable entries whose bundles were claimed.
        let ghost pre_unsk = self.unskippable_bundles@;
        let mut kept: Vec<UnskippableEntry> = Vec::new();
        let mut u: usize = 0;
        while u < self.unskippable_bundles.len()
            invariant
                self.unskippable_bundles@ == pre_unsk,
                0 <= u <= pre_unsk.len(),
                kept@ == pre_unsk.take(u as int).filter(
                    |e: UnskippableEntry| !claims_entry(bundles@, e),
                ),
            decreases pre_unsk.len() - u,
        {
            let e = self.unskippable_bundles[u];
            proof {
                assert(pre_unsk.take(u as int + 1).drop_last() =~= pre_unsk.take(u as int));
                assert(pre_unsk.take(u as int + 1).last() == pre_unsk[u as int]);
                reveal(Seq::filter);
            }
            let mut claimed: bool = false;
            let mut m: usize = 0;
            while m < bundles.len()
                invariant
                    0 <= m <= bundles@.len(),
                    claimed == exists|x: int|
                        0 <= x < m && bundles@[x].origin == e.origin && bundles@[x].bundle
                            == e.bundle,
                decreases bundles@.len() - m,
            {
                if bundles[m].origin == e.origin && bundles[m].bundle == e.bundle {
                    claimed = true;
                }
                m += 1;
            }
            if !claimed {
                kept.push(e);
            }
            u += 1;
        }
        proof {
            assert(pre_unsk.take(pre_unsk.len() as int) =~= pre_unsk);
        }
        self.unskippable_bundles = kept;
    }

    /// Schedules the messages of the block at `height` in the outboxes of
    /// all its recipient chains, so that cross-chain delivery can pick them
    /// up.
    pub fn schedule_outboxes(&mut self, messages: &Vec<Vec<OutgoingMessage>>, height: u64)
        ensures
            forall|d: ChainId|
                #![trigger outbox_queue(final(self), d)]
                outbox_queue(final(self), d) == sched_spec(
                    outbox_queue(old(self), d),
                    dest_in(messages@, d),
                    height,
                ),
            final(self).chain_id == old(self).chain_id,
            final(self).tip_state == old(self).tip_state,
            final(self).execution_state == old(self).execution_state,
            final(self).manager == old(self).manager,
            final(self).inboxes == old(self).inboxes,
            final(self).unskippable_bundles == old(self).unskippable_bundles,
            final(self).received_log == old(self).received_log,
            final(self).received_certificate_trackers == old(self).received_certificate_trackers,
            final(self).pending_validated_blobs == old(self).pending_validated_blobs,
            final(self).pending_proposed_blobs == old(self).pending_proposed_blobs,
            old(self).wf() ==> final(self).wf(),
    {
        let mut g: usize = 0;
        while g < messages.len()
            invariant
                0 <= g <= messages@.len(),
                forall|d: ChainId|
                    #![trigger outbox_queue(self, d)]
                    outbox_queue(self, d) == sched_spec(
                        outbox_queue(old(self), d),
                        dest_in_prefix(messages@, g as int, 0, d),
                        height,
                    ),
                self.chain_id == old(self).chain_id,
                self.tip_state == old(self).tip_state,
                self.execution_state == old(self).execution_state,
                self.manager == old(self).manager,
                self.inboxes == old(self).inboxes,
                self.unskippable_bundles == old(self).unskippable_bundles,
                self.received_log == old(self).received_log,
                self.received_certificate_trackers == old(self).received_certificate_trackers,
                self.pending_validated_blobs == old(self).pending_validated_blobs,
                self.pending_proposed_blobs == old(self).pending_proposed_blobs,
                old(self).wf() ==> forall|i: int, j: int|
                    0 <= i < j < self.outboxes@.len() ==> (#[trigger] self.outboxes@[i]).0 != (
                    #[trigger] self.outboxes@[j]).0,
                old(self).wf() ==> forall|i: int|
                    0 <= i < self.outboxes@.len() ==> strictly_increasing(
                        (#[trigger] self.outboxes@[i]).1.queue@,
                    ),
            decreases messages@.len() - g,
        {
            let group = &messages[g];
            let mut m: usize = 0;
            while m < group.len()
                invariant
                    0 <= g < messages@.len(),
                    0 <= m <= group@.len(),
                    group == &messages@[g as int],
                    forall|d: ChainId|
                        #![trigger outbox_queue(self, d)]
                        outbox_queue(self, d) == sched_spec(
                            outbox_queue(old(self), d),
                            dest_in_prefix(messages@, g as int, m as int, d),
                            height,
                        ),
                    self.chain_id == old(self).chain_id,
                    self.tip_state == old(self).tip_state,
                    self.execution_state == old(self).execution_state,
                    self.manager == old(self).manager,
                    self.inboxes == old(self).inboxes,
                    self.unskippable_bundles == old(self).unskippable_bundles,
                    self.received_log == old(self).received_log,
                    self.received_certificate_trackers == old(
                        self,
                    ).received_certificate_trackers,
                    self.pending_validated_blobs == old(self).pending_validated_blobs,
                    self.pending_proposed_blobs == old(self).pending_proposed_blobs,
                    old(self).wf() ==> forall|i: int, j: int|
                        0 <= i < j < self.outboxes@.len() ==> (#[trigger] self.outboxes@[i]).0
                            != (#[trigger] self.outboxes@[j]).0,
                    old(self).wf() ==> forall|i: int|
                        0 <= i < self.outboxes@.len() ==> strictly_increasing(
                            (#[trigger] self.outboxes@[i]).1.queue@,
                        ),
                decreases group@.len() - m,
            {
                let dest = group[m].destination;
                let ghost st0 = *self;
                match self.find_outbox_index(dest) {
                    Some(i) => {
                        let entry = &self.outboxes[i].1;
                        let mut queue = entry.queue.clone();
                        let pushed: bool;
                        if queue.len() == 0 || queue[queue.len() - 1] < height {
                            queue.push(height);
                            pushed = true;
                        } else {
                            pushed = false;
                        }
                        let new_entry = OutboxState { queue };
                        self.outboxes.set(i, (dest, new_entry));
                        proof {
                            assert(self.outboxes@ == st0.outboxes@.update(
                                i as int,
                                (dest, new_entry),
                            ));
                            assert(find_outbox(st0.outboxes@, dest) == Some(i as int));
                            assert(new_entry.queue@ == sched_spec(
                                outbox_queue(&st0, dest),
                                true,
                                height,
                            ));
                            assert forall|d: ChainId|
                                #![trigger outbox_queue(self, d)]
                                outbox_queue(self, d) == sched_spec(
                                    outbox_queue(old(self), d),
                                    dest_in_prefix(messages@, g as int, m as int + 1, d),
                                    height,
                                ) by {
                                lemma_find_outbox_update(
                                    st0.outboxes@,
                                    i as int,
                                    (dest, new_entry),
                                    d,
                                );
                                lemma_find_outbox_sound(st0.outboxes@, d);
                                assert(outbox_queue(&st0, d) == sched_spec(
                                    outbox_queue(old(self), d),
                                    dest_in_prefix(messages@, g as int, m as int, d),
                                    height,
                                ));
                                assert(find_outbox(self.outboxes@, d) == find_outbox(
                                    st0.outboxes@,
                                    d,
                                ));
                                if d != dest {
                                    match find_outbox(st0.outboxes@, d) {
                                        Some(io) => {
                                            assert(io != i as int);
                                            assert(self.outboxes@[io] == st0.outboxes@[io]);
                                        },
                                        None => {},
                                    }
                                    assert(dest_in_prefix(messages@, g as int, m as int + 1, d)
                                        == dest_in_prefix(messages@, g as int, m as int, d)) by {
                                        if dest_in_prefix(
                                            messages@,
                                            g as int,
                                            m as int + 1,
                                            d,
                                        ) {
                                            let (a, b) = choose|a: int, b: int|
                                                0 <= a < messages@.len() && 0 <= b
                                                    < messages@[a]@.len() && (a < g as int || (a
                                                    == g as int && b < m as int + 1))
                                                    && messages@[a]@[b].destination == d;
                                            assert(!(a == g as int && b == m as int));
                                            assert(dest_in_prefix(
                                                messages@,
                                                g as int,
                                                m as int,
                                                d,
                                            ));
                                        }
                                    }
                                } else {
                                    assert(self.outboxes@[i as int] == (dest, new_entry));
                                    assert(dest_in_prefix(
                                        messages@,
                                        g as int,
                                        m as int + 1,
                                        d,
                                    )) by {
                                        assert(messages@[g as int]@[m as int].destination == d);
                                    }
                                }
                            }
                            if old(self).wf() {
                                assert forall|a: int, b: int|
                                    0 <= a < b < self.outboxes@.len() implies (
                                #[trigger] self.outboxes@[a]).0 != (
                                #[trigger] self.outboxes@[b]).0 by {
                                    assert(st0.outboxes@[i as int].0 == dest);
                                    assert(self.outboxes@[a] == if a == i as int {
                                        (dest, new_entry)
                                    } else {
                                        st0.outboxes@[a]
                                    });
                                    assert(self.outboxes@[b] == if b == i as int {
                                        (dest, new_entry)
                                    } else {
                                        st0.outboxes@[b]
                                    });
                                    assert(st0.outboxes@[a].0 != st0.outboxes@[b].0);
                                }
                                assert forall|a: int|
                                    0 <= a < self.outboxes@.len() implies strictly_increasing(
                                    (#[trigger] self.outboxes@[a]).1.queue@,
                                ) by {
                                    assert(self.outboxes@[a] == if a == i as int {
                                        (dest, new_entry)
                                    } else {
                                        st0.outboxes@[a]
                                    });
                                    assert(strictly_increasing(st0.outboxes@[a].1.queue@));
                                    if a == i as int && pushed {
                                        assert(forall|x: int|
                                            0 <= x < st0.outboxes@[i as int].1.queue@.len()
                                                ==> st0.outboxes@[i as int].1.queue@[x]
                                                <= st0.outboxes@[i as int].1.queue@.last());
                                    }
                                }
                            }
                        }
                    },
                    None => {
                        let mut queue: Vec<u64> = Vec::new();
                        queue.push(height);
                        let new_entry = OutboxState { queue };
                        self.outboxes.push((dest, new_entry));
                        proof {
                            assert(self.outboxes@ == st0.outboxes@.push((dest, new_entry)));
                            lemma_find_outbox_sound(st0.outboxes@, dest);
                            assert(new_entry.queue@ =~= Seq::<u64>::empty().push(height));
                            assert forall|d: ChainId|
                                #![trigger outbox_queue(self, d)]
                                outbox_queue(self, d) == sched_spec(
                                    outbox_queue(old(self), d),
                                    dest_in_prefix(messages@, g as int, m as int + 1, d),
                                    height,
                                ) by {
                                lemma_find_outbox_push(st0.outboxes@, (dest, new_entry), d);
                                lemma_find_outbox_sound(st0.outboxes@, d);
                                assert(outbox_queue(&st0, d) == sched_spec(
                                    outbox_queue(old(self), d),
                                    dest_in_prefix(messages@, g as int, m as int, d),
                                    height,
                                ));
                                if d != dest {
                                    assert(find_outbox(self.outboxes@, d) == find_outbox(
                                        st0.outboxes@,
                                        d,
                                    ));
                                    match find_outbox(st0.outboxes@, d) {
                                        Some(io) => {
                                            assert(self.outboxes@[io] == st0.outboxes@[io]);
                                        },
                                        None => {},
                                    }
                                    assert(dest_in_prefix(messages@, g as int, m as int + 1, d)
                                        == dest_in_prefix(messages@, g as int, m as int, d)) by {
                                        if dest_in_prefix(
                                            messages@,
                                            g as int,
                                            m as int + 1,
                                            d,
                                        ) {
                                            let (a, b) = choose|a: int, b: int|
                                                0 <= a < messages@.len() && 0 <= b
                                                    < messages@[a]@.len() && (a < g as int || (a
                                                    == g as int && b < m as int + 1))
                                                    && messages@[a]@[b].destination == d;
                                            assert(!(a == g as int && b == m as int));
                                            assert(dest_in_prefix(
                                                messages@,
                                                g as int,
                                                m as int,
                                                d,
                                            ));
                                        }
                                    }
                                } else {
                                    assert(find_outbox(self.outboxes@, d) == Some(
                                        st0.outboxes@.len() as int,
                                    ));
                                    assert(self.outboxes@[st0.outboxes@.len() as int] == (
                                        dest,
                                        new_entry,
                                    ));
                                    assert(outbox_queue(&st0, d) =~= Seq::<u64>::empty());
                                    assert(dest_in_prefix(
                                        messages@,
                                        g as int,
                                        m as int + 1,
                                        d,
                                    )) by {
                                        assert(messages@[g as int]@[m as int].destination == d);
                                    }
                                }
                            }
                            if old(self).wf() {
                                assert forall|a: int, b: int|
                                    0 <= a < b < self.outboxes@.len() implies (
                                #[trigger] self.outboxes@[a]).0 != (
                                #[trigger] self.outboxes@[b]).0 by {
                                    if b < self.outboxes@.len() - 1 {
                                        assert(self.outboxes@[a] == st0.outboxes@[a]);
                                        assert(self.outboxes@[b] == st0.outboxes@[b]);
                                        assert(st0.outboxes@[a].0 != st0.outboxes@[b].0);
                                    } else {
                                        assert(self.outboxes@[a] == st0.outboxes@[a]);
                                        assert(self.outboxes@[b].0 == dest);
                                        assert(st0.outboxes@[a].0 != dest);
                                    }
                                }
                                assert forall|a: int|
                                    0 <= a < self.outboxes@.len() implies strictly_increasing(
                                    (#[trigger] self.outboxes@[a]).1.queue@,
                                ) by {
                                    if a < self.outboxes@.len() - 1 {
                                        assert(self.outboxes@[a] == st0.outboxes@[a]);
                                        assert(strictly_increasing(st0.outboxes@[a].1.queue@));
                                    } else {
                                        assert(self.outboxes@[a].1.queue@ == new_entry.queue@);
                                    }
                                }
                            }
                        }
                    },
                }
                m += 1;
            }
            proof {
                assert forall|d: ChainId|
                    dest_in_prefix(messages@, g as int, group@.len() as int, d)
                        == dest_in_prefix(messages@, g as int + 1, 0, d) by {
                    if dest_in_prefix(messages@, g as int, group@.len() as int, d) {
                        assert(dest_in_prefix(messages@, g as int + 1, 0, d));
                    }
                    if dest_in_prefix(messages@, g as int + 1, 0, d) {
                        let (a, b) = choose|a: int, b: int|
                            0 <= a < messages@.len() && 0 <= b < messages@[a]@.len() && (a < g
                                as int + 1 || (a == g as int + 1 && b < 0))
                                && messages@[a]@[b].destination == d;
                        assert(a < g as int || (a == g as int && b < group@.len() as int));
                        assert(dest_in_prefix(messages@, g as int, group@.len() as int, d));
                    }
                }
            }
            g += 1;
        }
        proof {
            assert forall|d: ChainId|
                dest_in_prefix(messages@, messages@.len() as int, 0, d) == dest_in_prefix(
                    messages@,
                    messages@.len() as int,
                    0,
                    d,
                ) by {}
        }
    }

    /// Updates the outboxes from a block without executing it, so that
    /// downstream chains can receive its messages while this chain waits for
    /// the block's predecessors.
    pub fn preprocess_block(&mut self, block: &Block)
        ensures
            forall|d: ChainId|
                #![trigger outbox_queue(final(self), d)]
                outbox_queue(final(self), d) == sched_spec(
                    outbox_queue(old(self), d),
                    dest_in(block.messages@, d),
                    block.header.height,
                ),
            final(self).chain_id == old(self).chain_id,
            final(self).tip_state == old(self).tip_state,
            final(self).execution_state == old(self).execution_state,
            final(self).manager == old(self).manager,
            final(self).inboxes == old(self).inboxes,
            final(self).unskippable_bundles == old(self).unskippable_bundles,
            final(self).received_log == old(self).received_log,
            final(self).received_certificate_trackers == old(self).received_certificate_trackers,
            final(self).pending_validated_blobs == old(self).pending_validated_blobs,
            final(self).pending_proposed_blobs == old(self).pending_proposed_blobs,
            old(self).wf() ==> final(self).wf(),
    {
        self.schedule_outboxes(&block.messages, block.header.height);
    }

    /// Commits a confirmed block: the tip moves past it and records its
    /// hash, the consensus manager opens the next height at round 0, the
    /// pending blob sets are cleared, and the block's messages are scheduled
    /// in the outboxes.  The caller has already updated the execution state.
    pub fn apply_confirmed_block(&mut self, hash: CryptoHash, block: &Block)
        requires
            old(self).tip_state.next_block_height == block.header.height,
            block.header.height < u64::MAX,
        ensures
            final(self).tip_state == (TipState {
                next_block_height: (block.header.height + 1) as u64,
                block_hash: Some(hash),
            }),
            final(self).manager == ConsensusManager::spec_fresh(),
            final(self).pending_validated_blobs is None,
            final(self).pending_proposed_blobs@.len() == 0,
            forall|d: ChainId|
                #![trigger outbox_queue(final(self), d)]
                outbox_queue(final(self), d) == sched_spec(
                    outbox_queue(old(self), d),
                    dest_in(block.messages@, d),
                    block.header.height,
                ),
            final(self).chain_id == old(self).chain_id,
            final(self).execution_state == old(self).execution_state,
            final(self).inboxes == old(self).inboxes,
            final(self).unskippable_bundles == old(self).unskippable_bundles,
            final(self).received_log == old(self).received_log,
            final(self).received_certificate_trackers == old(self).received_certificate_trackers,
            old(self).wf() ==> final(self).wf(),
    {
        self.tip_state = TipState {
            next_block_height: block.header.height + 1,
            block_hash: Some(hash),
        };
        self.manager.reset();
        self.pending_validated_blobs = None;
        self.pending_proposed_blobs = Vec::new();
        self.schedule_outboxes(&block.messages, block.header.height);
    }

    /// Marks the messages to `recipient` up to `latest_height` as delivered.
    /// Returns whether any outbox entry was removed.
    pub fn mark_messages_as_received(&mut self, recipient: ChainId, latest_height: u64) -> (r:
        bool)
        requires
            old(self).wf(),
        ensures
            outbox_queue(final(self), recipient) == outbox_queue(old(self), recipient).filter(
                |h: u64| h > latest_height,
            ),
            forall|d: ChainId|
                d != recipient ==> outbox_queue(final(self), d) == outbox_queue(old(self), d),
            r == exists|i: int|
                0 <= i < outbox_queue(old(self), recipient).len() && outbox_queue(
                    old(self),
                    recipient,
                )[i] <= latest_height,
            final(self).chain_id == old(self).chain_id,
            final(self).tip_state == old(self).tip_state,
            final(self).execution_state == old(self).execution_state,
            final(self).manager == old(self).manager,
            final(self).inboxes == old(self).inboxes,
            final(self).unskippable_bundles == old(self).unskippable_bundles,
            final(self).received_log == old(self).received_log,
            final(self).received_certificate_trackers == old(self).received_certificate_trackers,
            final(self).pending_validated_blobs == old(self).pending_validated_blobs,
            final(self).pending_proposed_blobs == old(self).pending_proposed_blobs,
            final(self).wf(),
    {
        let ghost st0 = *self;
        match self.find_outbox_index(recipient) {
            Some(i) => {
                let mut entry = self.outboxes[i].1.duplicate();
                let removed = entry.mark_delivered(latest_height);
                self.outboxes.set(i, (recipient, entry));
                proof {
                    assert(self.outboxes@ == st0.outboxes@.update(i as int, (recipient, entry)));
                    assert(find_outbox(st0.outboxes@, recipient) == Some(i as int));
                    lemma_find_outbox_update(st0.outboxes@, i as int, (recipient, entry), recipient);
                    assert(outbox_queue(old(self), recipient) == st0.outboxes@[i as int].1.queue@);
                    assert(self.outboxes@[i as int] == (recipient, entry));
                    assert(outbox_queue(self, recipient) == entry.queue@);
                    assert forall|d: ChainId|
                        d != recipient implies outbox_queue(self, d) == outbox_queue(
                        old(self),
                        d,
                    ) by {
                        lemma_find_outbox_update(st0.outboxes@, i as int, (recipient, entry), d);
                        lemma_find_outbox_sound(st0.outboxes@, d);
                        match find_outbox(st0.outboxes@, d) {
                            Some(io) => {
                                assert(io != i as int);
                                assert(self.outboxes@[io] == st0.outboxes@[io]);
                            },
                            None => {},
                        }
                    }
                    assert forall|a: int, b: int|
                        0 <= a < b < self.outboxes@.len() implies (#[trigger] self.outboxes@[a]).0
                        != (#[trigger] self.outboxes@[b]).0 by {
                        assert(st0.outboxes@[i as int].0 == recipient);
                        assert(self.outboxes@[a] == if a == i as int {
                            (recipient, entry)
                        } else {
                            st0.outboxes@[a]
                        });
                        assert(self.outboxes@[b] == if b == i as int {
                            (recipient, entry)
                        } else {
                            st0.outboxes@[b]
                        });
                        assert(st0.outboxes@[a].0 != st0.outboxes@[b].0);
                    }
                    assert forall|a: int|
                        0 <= a < self.outboxes@.len() implies strictly_increasing(
                        (#[trigger] self.outboxes@[a]).1.queue@,
                    ) by {
                        assert(self.outboxes@[a] == if a == i as int {
                            (recipient, entry)
                        } else {
                            st0.outboxes@[a]
                        });
                        assert(strictly_increasing(st0.outboxes@[a].1.queue@));
                    }
                }
                removed
            },
            None => {
                proof {
                    assert(outbox_queue(&*self, recipient) =~= Seq::<u64>::empty());
                    assert(Seq::<u64>::empty().filter(|h: u64| h > latest_height)
                        =~= Seq::<u64>::empty()) by {
                        reveal(Seq::filter);
                    }
                }
                false
            },
        }
    }

    /// Whether every tracked recipient has received all messages up to
    /// `latest_height`.
    pub fn all_messages_delivered_up_to(&self, latest_height: u64) -> (r: bool)
        ensures
            r == forall|i: int, j: int|
                0 <= i < self.outboxes@.len() && 0 <= j < (#[trigger] self.outboxes@[i]).1.queue@.len()
                    ==> (#[trigger] self.outboxes@[i].1.queue@[j]) > latest_height,
    {
        let mut i: usize = 0;
        while i < self.outboxes.len()
            invariant
                0 <= i <= self.outboxes@.len(),
                forall|a: int, b: int|
                    0 <= a < i && 0 <= b < (#[trigger] self.outboxes@[a]).1.queue@.len() ==> (
                    #[trigger] self.outboxes@[a].1.queue@[b]) > latest_height,
            decreases self.outboxes@.len() - i,
        {
            let queue = &self.outboxes[i].1.queue;
            let mut j: usize = 0;
            while j < queue.len()
                invariant
                    0 <= i < self.outboxes@.len(),
                    queue == &self.outboxes@[i as int].1.queue,
                    0 <= j <= queue@.len(),
                    forall|b: int| 0 <= b < j ==> (#[trigger] queue@[b]) > latest_height,
                decreases queue@.len() - j,
            {
                if queue[j] <= latest_height {
                    return false;
                }
                j += 1;
            }
            i += 1;
        }
        true
    }

    /// Raises the tracker of each listed validator to the given value, where
    /// it is higher than what is recorded; unknown validators are added.
    pub fn update_received_certificate_trackers(
        &mut self,
        new_trackers: &Vec<(ValidatorPublicKey, u64)>,
    )
        requires
            forall|i: int, j: int|
                0 <= i < j < new_trackers@.len() ==> (#[trigger] new_trackers@[i]).0 != (
                #[trigger] new_trackers@[j]).0,
            old(self).wf(),
        ensures
            forall|k: ValidatorPublicKey|
                #![trigger tracker_of(final(self), k)]
                tracker_of(final(self), k) == (match find_tracker(new_trackers@, k) {
                    Some(ni) => Some(
                        merge_tracker(tracker_of(old(self), k), new_trackers@[ni].1),
                    ),
                    None => tracker_of(old(self), k),
                }),
            final(self).chain_id == old(self).chain_id,
            final(self).tip_state == old(self).tip_state,
            final(self).execution_state == old(self).execution_state,
            final(self).manager == old(self).manager,
            final(self).inboxes == old(self).inboxes,
            final(self).outboxes == old(self).outboxes,
            final(self).unskippable_bundles == old(self).unskippable_bundles,
            final(self).received_log == old(self).received_log,
            final(self).pending_validated_blobs == old(self).pending_validated_blobs,
            final(self).pending_proposed_blobs == old(self).pending_proposed_blobs,
            final(self).wf(),
    {
        let mut t: usize = 0;
        while t < new_trackers.len()
            invariant
                0 <= t <= new_trackers@.len(),
                forall|i: int, j: int|
                    0 <= i < j < new_trackers@.len() ==> (#[trigger] new_trackers@[i]).0 != (
                    #[trigger] new_trackers@[j]).0,
                forall|k: ValidatorPublicKey|
                    #![trigger tracker_of(self, k)]
                    tracker_of(self, k) == (match find_tracker(
                        new_trackers@.take(t as int),
                        k,
                    ) {
                        Some(ni) => Some(
                            merge_tracker(tracker_of(old(self), k), new_trackers@[ni].1),
                        ),
                        None => tracker_of(old(self), k),
                    }),
                self.chain_id == old(self).chain_id,
                self.tip_state == old(self).tip_state,
                self.execution_state == old(self).execution_state,
                self.manager == old(self).manager,
                self.inboxes == old(self).inboxes,
                self.outboxes == old(self).outboxes,
                self.unskippable_bundles == old(self).unskippable_bundles,
                self.received_log == old(self).received_log,
                self.pending_validated_blobs == old(self).pending_validated_blobs,
                self.pending_proposed_blobs == old(self).pending_proposed_blobs,
                forall|i: int, j: int|
                    0 <= i < j < self.received_certificate_trackers@.len() ==> (
                    #[trigger] self.received_certificate_trackers@[i]).0 != (
                    #[trigger] self.received_certificate_trackers@[j]).0,
            decreases new_trackers@.len() - t,
        {
            let (key, val) = new_trackers[t];
            let ghost st0 = *self;
            proof {
                assert(new_trackers@.take(t as int + 1) =~= new_trackers@.take(t as int).push(
                    new_trackers@[t as int],
                ));
                assert forall|j: int| 0 <= j < t implies (#[trigger] new_trackers@.take(
                    t as int,
                )[j]).0 != key by {
                    assert(new_trackers@.take(t as int)[j] == new_trackers@[j]);
                }
                lemma_find_tracker_none(new_trackers@.take(t as int), key);
            }
            match self.find_tracker_index(key) {
                Some(i) => {
                    let current = self.received_certificate_trackers[i].1;
                    let merged = if val > current {
                        val
                    } else {
                        current
                    };
                    self.received_certificate_trackers.set(i, (key, merged));
                    proof {
                        assert(self.received_certificate_trackers@
                            == st0.received_certificate_trackers@.update(i as int, (key, merged)));
                        assert forall|k: ValidatorPublicKey|
                            #![trigger tracker_of(self, k)]
                            tracker_of(self, k) == (match find_tracker(
                                new_trackers@.take(t as int + 1),
                                k,
                            ) {
                                Some(ni) => Some(
                                    merge_tracker(tracker_of(old(self), k), new_trackers@[ni].1),
                                ),
                                None => tracker_of(old(self), k),
                            }) by {
                            assert(tracker_of(&st0, k) == (match find_tracker(
                                new_trackers@.take(t as int),
                                k,
                            ) {
                                Some(ni) => Some(
                                    merge_tracker(tracker_of(old(self), k), new_trackers@[ni].1),
                                ),
                                None => tracker_of(old(self), k),
                            }));
                            lemma_find_tracker_push(
                                new_trackers@.take(t as int),
                                new_trackers@[t as int],
                                k,
                            );
                            lemma_find_tracker_update(
                                st0.received_certificate_trackers@,
                                i as int,
                                (key, merged),
                                k,
                            );
                            lemma_find_tracker_sound(st0.received_certificate_trackers@, k);
                            if k != key {
                                match find_tracker(st0.received_certificate_trackers@, k) {
                                    Some(io) => {
                                        assert(io != i as int);
                                        assert(self.received_certificate_trackers@[io]
                                            == st0.received_certificate_trackers@[io]);
                                    },
                                    None => {},
                                }
                            } else {
                                assert(self.received_certificate_trackers@[i as int] == (
                                    key,
                                    merged,
                                ));
                            }
                        }
                        assert forall|a: int, b: int|
                            0 <= a < b < self.received_certificate_trackers@.len() implies (
                        #[trigger] self.received_certificate_trackers@[a]).0 != (
                        #[trigger] self.received_certificate_trackers@[b]).0 by {
                            assert(st0.received_certificate_trackers@[i as int].0 == key);
                            assert(self.received_certificate_trackers@[a] == if a == i as int {
                                (key, merged)
                            } else {
                                st0.received_certificate_trackers@[a]
                            });
                            assert(self.received_certificate_trackers@[b] == if b == i as int {
                                (key, merged)
                            } else {
                                st0.received_certificate_trackers@[b]
                            });
                            assert(st0.received_certificate_trackers@[a].0
                                != st0.received_certificate_trackers@[b].0);
                        }
                    }
                },
                None => {
                    self.received_certificate_trackers.push((key, val));
                    proof {
                        assert(self.received_certificate_trackers@
                            == st0.received_certificate_trackers@.push((key, val)));
                        lemma_find_tracker_sound(st0.received_certificate_trackers@, key);
                        assert forall|k: ValidatorPublicKey|
                            #![trigger tracker_of(self, k)]
                            tracker_of(self, k) == (match find_tracker(
                                new_trackers@.take(t as int + 1),
                                k,
                            ) {
                                Some(ni) => Some(
                                    merge_tracker(tracker_of(old(self), k), new_trackers@[ni].1),
                                ),
                                None => tracker_of(old(self), k),
                            }) by {
                            assert(tracker_of(&st0, k) == (match find_tracker(
                                new_trackers@.take(t as int),
                                k,
                            ) {
                                Some(ni) => Some(
                                    merge_tracker(tracker_of(old(self), k), new_trackers@[ni].1),
                                ),
                                None => tracker_of(old(self), k),
                            }));
                            lemma_find_tracker_push(
                                new_trackers@.take(t as int),
                                new_trackers@[t as int],
                                k,
                            );
                            lemma_find_tracker_push(
                                st0.received_certificate_trackers@,
                                (key, val),
                                k,
                            );
                            lemma_find_tracker_sound(st0.received_certificate_trackers@, k);
                            if k != key {
                                match find_tracker(st0.received_certificate_trackers@, k) {
                                    Some(io) => {
                                        assert(self.received_certificate_trackers@[io]
                                            == st0.received_certificate_trackers@[io]);
                                    },
                                    None => {},
                                }
                            } else {
                                assert(self.received_certificate_trackers@[
                                    st0.received_certificate_trackers@.len() as int] == (
                                    key,
                                    val,
                                ));
                            }
                        }
                        assert forall|a: int, b: int|
                            0 <= a < b < self.received_certificate_trackers@.len() implies (
                        #[trigger] self.received_certificate_trackers@[a]).0 != (
                        #[trigger] self.received_certificate_trackers@[b]).0 by {
                            if b < self.received_certificate_trackers@.len() - 1 {
                                assert(self.received_certificate_trackers@[a]
                                    == st0.received_certificate_trackers@[a]);
                                assert(self.received_certificate_trackers@[b]
                                    == st0.received_certificate_trackers@[b]);
                                assert(st0.received_certificate_trackers@[a].0
                                    != st0.received_certificate_trackers@[b].0);
                            } else {
                                assert(self.received_certificate_trackers@[a]
                                    == st0.received_certificate_trackers@[a]);
                                assert(self.received_certificate_trackers@[b].0 == key);
                                assert(st0.received_certificate_trackers@[a].0 != key);
                            }
                        }
                    }
                },
            }
            t += 1;
        }
        proof {
            assert(new_trackers@.take(new_trackers@.len() as int) =~= new_trackers@);
        }
    }

    /// Finds the tracker entry of `key`.
    fn find_tracker_index(&self, key: ValidatorPublicKey) -> (r: Option<usize>)
        ensures
            match r {
                Some(i) => find_tracker(self.received_certificate_trackers@, key) == Some(i as int)
                    && i < self.received_certificate_trackers@.len()
                    && self.received_certificate_trackers@[i as int].0 == key,
                None => find_tracker(self.received_certificate_trackers@, key) is None,
            },
    {
        let mut k: usize = 0;
        while k < self.received_certificate_trackers.len()
            invariant
                0 <= k <= self.received_certificate_trackers@.len(),
                forall|j: int|
                    0 <= j < k ==> (#[trigger] self.received_certificate_trackers@[j]).0 != key,
            decreases self.received_certificate_trackers@.len() - k,
        {
            if self.received_certificate_trackers[k].0 == key {
                proof {
                    lemma_find_tracker_at(self.received_certificate_trackers@, key, k as int);
                }
                return Some(k);
            }
            k += 1;
        }
        proof {
            lemma_find_tracker_none(self.received_certificate_trackers@, key);
        }
        None
    }

    /// Records the pending blob set of an owner's proposal, replacing any
    /// earlier set of that owner.
    pub fn set_pending_proposed(&mut self, owner: AccountOwner, pending: PendingBlobs)
        ensures
            match pending_of(final(self), owner) {
                Some(p) => p == pending,
                None => false,
            },
            forall|o: AccountOwner|
                o != owner ==> #[trigger] pending_of(final(self), o) == pending_of(old(self), o),
            final(self).pending_proposed_blobs@.len() == (if find_pending(
                old(self).pending_proposed_blobs@,
                owner,
            ) is Some {
                old(self).pending_proposed_blobs@.len() as int
            } else {
                old(self).pending_proposed_blobs@.len() as int + 1
            }),
            final(self).chain_id == old(self).chain_id,
            final(self).tip_state == old(self).tip_state,
            final(self).execution_state == old(self).execution_state,
            final(self).manager == old(self).manager,
            final(self).inboxes == old(self).inboxes,
            final(self).outboxes == old(self).outboxes,
            final(self).unskippable_bundles == old(self).unskippable_bundles,
            final(self).received_log == old(self).received_log,
            final(self).received_certificate_trackers == old(self).received_certificate_trackers,
            final(self).pending_validated_blobs == old(self).pending_validated_blobs,
            old(self).wf() ==> final(self).wf(),
    {
                let mut k: usize = 0;
        while k < self.pending_proposed_blobs.len()
            invariant
                *self == *old(self),
                0 <= k <= self.pending_proposed_blobs@.len(),
                forall|j: int|
                    0 <= j < k ==> (#[trigger] self.pending_proposed_blobs@[j]).0 != owner,
            decreases self.pending_proposed_blobs@.len() - k,
        {
            if self.pending_proposed_blobs[k].0 == owner {
                proof {
                    lemma_find_pending_at(self.pending_proposed_blobs@, owner, k as int);
                }
                self.pending_proposed_blobs.set(k, (owner, pending));
                proof {
                    assert(self.pending_proposed_blobs@ == old(self).pending_proposed_blobs@.update(
                        k as int,
                        (owner, pending),
                    ));
                    lemma_find_pending_update(
                        old(self).pending_proposed_blobs@,
                        k as int,
                        (owner, pending),
                        owner,
                    );
                    assert forall|o: AccountOwner|
                        o != owner implies #[trigger] pending_of(self, o) == pending_of(
                        old(self),
                        o,
                    ) by {
                        lemma_find_pending_update(
                            old(self).pending_proposed_blobs@,
                            k as int,
                            (owner, pending),
                            o,
                        );
                        lemma_find_pending_sound(old(self).pending_proposed_blobs@, o);
                        match find_pending(old(self).pending_proposed_blobs@, o) {
                            Some(io) => {
                                assert(io != k as int);
                                assert(self.pending_proposed_blobs@[io]
                                    == old(self).pending_proposed_blobs@[io]);
                            },
                            None => {},
                        }
                    }
                    if old(self).wf() {
                        assert forall|a: int, b: int|
                            0 <= a < b < self.pending_proposed_blobs@.len() implies (
                        #[trigger] self.pending_proposed_blobs@[a]).0 != (
                        #[trigger] self.pending_proposed_blobs@[b]).0 by {
                            assert(old(self).pending_proposed_blobs@[k as int].0 == owner);
                            assert(self.pending_proposed_blobs@[a] == if a == k as int {
                                (owner, pending)
                            } else {
                                old(self).pending_proposed_blobs@[a]
                            });
                            assert(self.pending_proposed_blobs@[b] == if b == k as int {
                                (owner, pending)
                            } else {
                                old(self).pending_proposed_blobs@[b]
                            });
                            assert(old(self).pending_proposed_blobs@[a].0
                                != old(self).pending_proposed_blobs@[b].0);
                        }
                    }
                }
                return;
            }
            k += 1;
        }
        proof {
            lemma_find_pending_none(self.pending_proposed_blobs@, owner);
        }
        self.pending_proposed_blobs.push((owner, pending));
        proof {
            assert(self.pending_proposed_blobs@ == old(self).pending_proposed_blobs@.push(
                (owner, pending),
            ));
            lemma_find_pending_push(old(self).pending_proposed_blobs@, (owner, pending), owner);
            assert forall|o: AccountOwner|
                o != owner implies #[trigger] pending_of(self, o) == pending_of(old(self), o) by {
                lemma_find_pending_push(old(self).pending_proposed_blobs@, (owner, pending), o);
                lemma_find_pending_sound(old(self).pending_proposed_blobs@, o);
                match find_pending(old(self).pending_proposed_blobs@, o) {
                    Some(io) => {
                        assert(self.pending_proposed_blobs@[io]
                            == old(self).pending_proposed_blobs@[io]);
                    },
                    None => {},
                }
            }
            lemma_find_pending_sound(old(self).pending_proposed_blobs@, owner);
            if old(self).wf() {
                assert forall|a: int, b: int|
                    0 <= a < b < self.pending_proposed_blobs@.len() implies (
                #[trigger] self.pending_proposed_blobs@[a]).0 != (
                #[trigger] self.pending_proposed_blobs@[b]).0 by {
                    if b < self.pending_proposed_blobs@.len() - 1 {
                        assert(self.pending_proposed_blobs@[a] == old(self).pending_proposed_blobs@[a]);
                        assert(self.pending_proposed_blobs@[b] == old(self).pending_proposed_blobs@[b]);
                        assert(old(self).pending_proposed_blobs@[a].0
                            != old(self).pending_proposed_blobs@[b].0);
                    } else {
                        assert(self.pending_proposed_blobs@[a] == old(self).pending_proposed_blobs@[a]);
                        assert(self.pending_proposed_blobs@[b].0 == owner);
                        assert(old(self).pending_proposed_blobs@[a].0 != owner);
                    }
                }
            }
        }
    }

    /// An independent copy of this chain state.
    pub fn duplicate(&self) -> (r: ChainState)
        ensures
            chain_state_matches(&r, self),
            self.wf() ==> r.wf(),
    {
        let mut inboxes: Vec<(ChainId, InboxState)> = Vec::new();
        let mut i: usize = 0;
        while i < self.inboxes.len()
            invariant
                0 <= i <= self.inboxes@.len(),
                inboxes@.len() == i,
                forall|j: int|
                    0 <= j < i ==> (#[trigger] inboxes@[j]).0 == self.inboxes@[j].0
                        && inbox_matches(&inboxes@[j].1, &self.inboxes@[j].1),
            decreases self.inboxes@.len() - i,
        {
            let dup = self.inboxes[i].1.duplicate();
            inboxes.push((self.inboxes[i].0, dup));
            i += 1;
        }
        let mut outboxes: Vec<(ChainId, OutboxState)> = Vec::new();
        let mut o: usize = 0;
        while o < self.outboxes.len()
            invariant
                0 <= o <= self.outboxes@.len(),
                outboxes@.len() == o,
                forall|j: int|
                    0 <= j < o ==> (#[trigger] outboxes@[j]).0 == self.outboxes@[j].0
                        && outboxes@[j].1.queue@ == self.outboxes@[j].1.queue@,
            decreases self.outboxes@.len() - o,
        {
            let dup = self.outboxes[o].1.duplicate();
            outboxes.push((self.outboxes[o].0, dup));
            o += 1;
        }
        let mut pendings: Vec<(AccountOwner, PendingBlobs)> = Vec::new();
        let mut p: usize = 0;
        while p < self.pending_proposed_blobs.len()
            invariant
                0 <= p <= self.pending_proposed_blobs@.len(),
                pendings@.len() == p,
                forall|j: int|
                    0 <= j < p ==> (#[trigger] pendings@[j]).0 == self.pending_proposed_blobs@[j].0
                        && pending_matches(&pendings@[j].1, &self.pending_proposed_blobs@[j].1),
            decreases self.pending_proposed_blobs@.len() - p,
        {
            let dup = self.pending_proposed_blobs[p].1.duplicate();
            pendings.push((self.pending_proposed_blobs[p].0, dup));
            p += 1;
        }
        let pending_validated: Option<PendingBlobs> = match &self.pending_validated_blobs {
            Some(pb) => Some(pb.duplicate()),
            None => None,
        };
        let mut unskippable: Vec<UnskippableEntry> = Vec::new();
        let mut u: usize = 0;
        while u < self.unskippable_bundles.len()
            invariant
                0 <= u <= self.unskippable_bundles@.len(),
                unskippable@ == self.unskippable_bundles@.take(u as int),
            decreases self.unskippable_bundles@.len() - u,
        {
            unskippable.push(self.unskippable_bundles[u]);
            proof {
                assert(self.unskippable_bundles@.take(u as int + 1)
                    =~= self.unskippable_bundles@.take(u as int).push(
                    self.unskippable_bundles@[u as int],
                ));
            }
            u += 1;
        }
        let mut log: Vec<(ChainId, u64)> = Vec::new();
        let mut l: usize = 0;
        while l < self.received_log.len()
            invariant
                0 <= l <= self.received_log@.len(),
                log@ == self.received_log@.take(l as int),
            decreases self.received_log@.len() - l,
        {
            log.push(self.received_log[l]);
            proof {
                assert(self.received_log@.take(l as int + 1) =~= self.received_log@.take(
                    l as int,
                ).push(self.received_log@[l as int]));
            }
            l += 1;
        }
        let mut trackers: Vec<(ValidatorPublicKey, u64)> = Vec::new();
        let mut t: usize = 0;
        while t < self.received_certificate_trackers.len()
            invariant
                0 <= t <= self.received_certificate_trackers@.len(),
                trackers@ == self.received_certificate_trackers@.take(t as int),
            decreases self.received_certificate_trackers@.len() - t,
        {
            trackers.push(self.received_certificate_trackers[t]);
            proof {
                assert(self.received_certificate_trackers@.take(t as int + 1)
                    =~= self.received_certificate_trackers@.take(t as int).push(
                    self.received_certificate_trackers@[t as int],
                ));
            }
            t += 1;
        }
        proof {
            assert(self.unskippable_bundles@.take(self.unskippable_bundles@.len() as int)
                =~= self.unskippable_bundles@);
            assert(self.received_log@.take(self.received_log@.len() as int)
                =~= self.received_log@);
            assert(self.received_certificate_trackers@.take(
                self.received_certificate_trackers@.len() as int,
            ) =~= self.received_certificate_trackers@);
        }
        ChainState {
            chain_id: self.chain_id,
            tip_state: self.tip_state,
            execution_state: self.execution_state.duplicate(),
            manager: self.manager,
            inboxes,
            outboxes,
            unskippable_bundles: unskippable,
            received_log: log,
            received_certificate_trackers: trackers,
            pending_validated_blobs: pending_validated,
            pending_proposed_blobs: pendings,
        }
    }

    /// The chain's current epoch and its committee.
    pub fn current_committee(&self) -> (r: Result<(u64, &Committee), crate::errors::WorkerError>)
        ensures
            match r {
                Ok((e, c)) => {
                    &&& self.execution_state.active
                    &&& e == self.execution_state.epoch
                    &&& crate::committee::find_epoch(
                        self.execution_state.committees.entries@,
                        e,
                    ) matches Some(i) && *c == self.execution_state.committees.entries@[i].1
                },
                Err(err) => {
                    &&& err is InactiveChain
                    &&& !(self.execution_state.active && crate::committee::has_epoch(
                        self.execution_state.committees.entries@,
                        self.execution_state.epoch,
                    ))
                },
            },
    {
        if !self.execution_state.active {
            return Err(crate::errors::WorkerError::InactiveChain(self.chain_id));
        }
        match self.execution_state.committees.get(self.execution_state.epoch) {
            Some(c) => Ok((self.execution_state.epoch, c)),
            None => Err(crate::errors::WorkerError::InactiveChain(self.chain_id)),
        }
    }
}

/// The pending proposal blob set of an owner, if any.
pub open spec fn pending_of(c: &ChainState, owner: AccountOwner) -> Option<PendingBlobs> {
    match find_pending(c.pending_proposed_blobs@, owner) {
        Some(i) => Some(c.pending_proposed_blobs@[i].1),
        None => None,
    }
}

/// Congruence of chain states.
pub open spec fn chain_state_matches(a: &ChainState, b: &ChainState) -> bool {
    &&& a.chain_id == b.chain_id
    &&& a.tip_state == b.tip_state
    &&& exec_state_matches(&a.execution_state, &b.execution_state)
    &&& a.manager == b.manager
    &&& a.inboxes@.len() == b.inboxes@.len()
    &&& forall|i: int|
        0 <= i < a.inboxes@.len() ==> (#[trigger] a.inboxes@[i]).0 == b.inboxes@[i].0
            && inbox_matches(&a.inboxes@[i].1, &b.inboxes@[i].1)
    &&& a.outboxes@.len() == b.outboxes@.len()
    &&& forall|i: int|
        0 <= i < a.outboxes@.len() ==> (#[trigger] a.outboxes@[i]).0 == b.outboxes@[i].0
            && a.outboxes@[i].1.queue@ == b.outboxes@[i].1.queue@
    &&& a.unskippable_bundles@ == b.unskippable_bundles@
    &&& a.received_log@ == b.received_log@
    &&& a.received_certificate_trackers@ == b.received_certificate_trackers@
    &&& match (a.pending_validated_blobs, b.pending_validated_blobs) {
        (Some(x), Some(y)) => pending_matches(&x, &y),
        (None, None) => true,
        _ => false,
    }
    &&& a.pending_proposed_blobs@.len() == b.pending_proposed_blobs@.len()
    &&& forall|i: int|
        0 <= i < a.pending_proposed_blobs@.len() ==> (#[trigger] a.pending_proposed_blobs@[i]).0
            == b.pending_proposed_blobs@[i].0 && pending_matches(
            &a.pending_proposed_blobs@[i].1,
            &b.pending_proposed_blobs@[i].1,
        )
}

/// The recorded tracker value for a validator, if any.
pub open spec fn tracker_of(c: &ChainState, k: ValidatorPublicKey) -> Option<u64> {
    match find_tracker(c.received_certificate_trackers@, k) {
        Some(i) => Some(c.received_certificate_trackers@[i].1),
        None => None,
    }
}

/// The tracker value after merging a reported value into a recorded one.
pub open spec fn merge_tracker(current: Option<u64>, v: u64) -> u64 {
    match current {
        Some(t) => if v > t {
            v
        } else {
            t
        },
        None => v,
    }
}

/// A scan that stops at the first matching tracker agrees with
/// `find_tracker`.
pub proof fn lemma_find_tracker_at(s: Seq<(ValidatorPublicKey, u64)>, key: ValidatorPublicKey, i: int)
    requires
        0 <= i < s.len(),
        s[i].0 == key,
        forall|j: int| 0 <= j < i ==> s[j].0 != key,
    ensures
        find_tracker(s, key) == Some(i),
    decreases i,
{
    if i > 0 {
        lemma_find_tracker_at(s.drop_first(), key, i - 1);
    }
}

/// A scan that matches no tracker agrees with `find_tracker`.
pub proof fn lemma_find_tracker_none(s: Seq<(ValidatorPublicKey, u64)>, key: ValidatorPublicKey)
    requires
        forall|j: int| 0 <= j < s.len() ==> s[j].0 != key,
    ensures
        find_tracker(s, key) is None,
    decreases s.len(),
{
    if s.len() > 0 {
        lemma_find_tracker_none(s.drop_first(), key);
    }
}

} // verus!
