//! The worker's view of persistent storage: chain states, blobs and their
//! states, certificates, events, committees, and the network's bootstrap
//! record.  Blob and committee records are write-once and content-addressed;
//! chain states are saved atomically, replacing the previous version.

use vstd::prelude::*;
use crate::block::Block;
use crate::chain::{chain_state_matches, ChainDescription, ChainState};
use crate::committee::Committee;
use crate::errors::EventId;
use crate::types::{Blob, BlobId, ChainId, CryptoHash};

verus! {

/// The record tying a blob to the certificate that last required it, so
/// that a blob uploaded late can be accepted.
#[derive(Clone, Copy, PartialEq, Eq, Structural, Debug)]
pub struct BlobState {
    pub certificate_hash: CryptoHash,
    pub block_height: u64,
    pub epoch: u64,
}

/// The network's bootstrap record.
#[derive(Clone, Copy, PartialEq, Eq, Structural, Debug)]
pub struct NetworkDescription {
    pub admin_chain_id: ChainId,
}

/// Whether a blob list holds a blob with this id.
pub open spec fn storage_has_blob(s: Seq<Blob>, id: BlobId) -> bool {
    exists|i: int| 0 <= i < s.len() && s[i].id == id
}

/// Whether a blob list holds a blob with this id and these bytes.
pub open spec fn storage_has_blob_value(s: Seq<Blob>, id: BlobId, data: Seq<u8>) -> bool {
    exists|i: int| 0 <= i < s.len() && (#[trigger] s[i]).id == id && s[i].data@ == data
}

/// The first index at which a description list holds `id`, if any.
pub open spec fn find_description(s: Seq<(ChainId, ChainDescription)>, id: ChainId) -> Option<int>
    decreases s.len(),
{
    if s.len() == 0 {
        None
    } else if s[0].0 == id {
        Some(0int)
    } else {
        match find_description(s.drop_first(), id) {
            Some(i) => Some(i + 1),
            None => None,
        }
    }
}

/// The genesis description stored for a chain, if any.
pub open spec fn stored_description(storage: &Storage, id: ChainId) -> Option<ChainDescription> {
    match find_description(storage.chain_descriptions@, id) {
        Some(i) => Some(storage.chain_descriptions@[i].1),
        None => None,
    }
}

/// Congruence of chain descriptions.
pub open spec fn description_matches(a: &ChainDescription, b: &ChainDescription) -> bool {
    &&& a.chain_id == b.chain_id
    &&& a.epoch == b.epoch
    &&& a.timestamp == b.timestamp
    &&& crate::committee::committee_matches(&a.committee, &b.committee)
}

/// A scan that stops at the first matching description agrees with
/// `find_description`.
pub proof fn lemma_find_description_at(
    s: Seq<(ChainId, ChainDescription)>,
    id: ChainId,
    i: int,
)
    requires
        0 <= i < s.len(),
        s[i].0 == id,
        forall|j: int| 0 <= j < i ==> s[j].0 != id,
    ensures
        find_description(s, id) == Some(i),
    decreases i,
{
    if i > 0 {
        lemma_find_description_at(s.drop_first(), id, i - 1);
    }
}

/// A scan that matches no description agrees with `find_description`.
pub proof fn lemma_find_description_none(s: Seq<(ChainId, ChainDescription)>, id: ChainId)
    requires
        forall|j: int| 0 <= j < s.len() ==> s[j].0 != id,
    ensures
        find_description(s, id) is None,
    decreases s.len(),
{
    if s.len() > 0 {
        lemma_find_description_none(s.drop_first(), id);
    }
}

/// Whether a certificate list holds this hash.
pub open spec fn storage_has_certificate(s: Seq<(CryptoHash, Block)>, hash: CryptoHash) -> bool {
    exists|i: int| 0 <= i < s.len() && s[i].0 == hash
}

/// Whether a blob-state list holds this id.
pub open spec fn storage_has_blob_state(s: Seq<(BlobId, BlobState)>, id: BlobId) -> bool {
    exists|i: int| 0 <= i < s.len() && s[i].0 == id
}

/// The first index at which a chain-state list holds `id`, if any.
pub open spec fn find_chain(s: Seq<(ChainId, ChainState)>, id: ChainId) -> Option<int>
    decreases s.len(),
{
    if s.len() == 0 {
        None
    } else if s[0].0 == id {
        Some(0int)
    } else {
        match find_chain(s.drop_first(), id) {
            Some(i) => Some(i + 1),
            None => None,
        }
    }
}

/// A scan that stops at the first matching chain agrees with `find_chain`.
pub proof fn lemma_find_chain_at(s: Seq<(ChainId, ChainState)>, id: ChainId, i: int)
    requires
        0 <= i < s.len(),
        s[i].0 == id,
        forall|j: int| 0 <= j < i ==> s[j].0 != id,
    ensures
        find_chain(s, id) == Some(i),
    decreases i,
{
    if i > 0 {
        lemma_find_chain_at(s.drop_first(), id, i - 1);
    }
}

/// A scan that matches no chain agrees with `find_chain`.
pub proof fn lemma_find_chain_none(s: Seq<(ChainId, ChainState)>, id: ChainId)
    requires
        forall|j: int| 0 <= j < s.len() ==> s[j].0 != id,
    ensures
        find_chain(s, id) is None,
    decreases s.len(),
{
    if s.len() > 0 {
        lemma_find_chain_none(s.drop_first(), id);
    }
}

/// `find_chain` under an update of a found index.
pub proof fn lemma_find_chain_update(
    s: Seq<(ChainId, ChainState)>,
    i: int,
    v: (ChainId, ChainState),
    id: ChainId,
)
    requires
        0 <= i < s.len(),
        v.0 == s[i].0,
    ensures
        find_chain(s.update(i, v), id) == find_chain(s, id),
    decreases s.len(),
{
    if s.len() > 0 {
        assert(s.update(i, v)[0] == if i == 0 {
            v
        } else {
            s[0]
        });
        if i == 0 {
            assert(s.update(i, v).drop_first() =~= s.drop_first());
        } else {
            assert(s.update(i, v).drop_first() =~= s.drop_first().update(i - 1, v));
            lemma_find_chain_update(s.drop_first(), i - 1, v, id);
        }
    }
}

/// `find_chain` under a push.
pub proof fn lemma_find_chain_push(
    s: Seq<(ChainId, ChainState)>,
    v: (ChainId, ChainState),
    id: ChainId,
)
    ensures
        find_chain(s.push(v), id) == if find_chain(s, id) is Some {
            find_chain(s, id)
        } else if v.0 == id {
            Some(s.len() as int)
        } else {
            None
        },
    decreases s.len(),
{
    assert(s.push(v).len() == s.len() + 1);
    if s.len() == 0 {
        assert(s.push(v)[0] == v);
        assert(s.push(v).drop_first() =~= Seq::<(ChainId, ChainState)>::empty());
        assert(find_chain(s.push(v), id) == if v.0 == id {
            Some(0int)
        } else {
            None::<int>
        });
    } else {
        assert(s.push(v)[0] == s[0]);
        assert(s.push(v).drop_first() =~= s.drop_first().push(v));
        lemma_find_chain_push(s.drop_first(), v, id);
        assert(find_chain(s.push(v), id) == if s.push(v)[0].0 == id {
            Some(0int)
        } else {
            match find_chain(s.push(v).drop_first(), id) {
                Some(i) => Some(i + 1),
                None => None,
            }
        });
    }
}

/// The storage backing one validator, shared by its chain workers.
#[derive(Debug)]
pub struct Storage {
    /// The saved chain states, one per chain.
    pub chain_states: Vec<(ChainId, ChainState)>,
    /// The blobs written, addressed by their content hash.
    pub blobs: Vec<Blob>,
    /// The blob states written.
    pub blob_states: Vec<(BlobId, BlobState)>,
    /// The confirmed certificates written, by hash.
    pub certificates: Vec<(CryptoHash, Block)>,
    /// The events written.
    pub events: Vec<(EventId, u64)>,
    /// The write-once registry of committees by epoch.
    pub committees: Vec<(u64, Committee)>,
    /// The genesis configuration of each chain.
    pub chain_descriptions: Vec<(ChainId, ChainDescription)>,
    /// The network's bootstrap record, if written.
    pub network_description: Option<NetworkDescription>,
    /// The current time of the storage clock.
    pub clock: u64,
}

impl Storage {
    /// Well-formedness: saved chain states are keyed by their own id, are
    /// well formed themselves, and committees are well formed.
    pub open spec fn wf(&self) -> bool {
        &&& forall|i: int|
            0 <= i < self.chain_states@.len() ==> (#[trigger] self.chain_states@[i]).1.wf() && (
            self.chain_states@[i]).1.chain_id == self.chain_states@[i].0
        &&& forall|i: int|
            0 <= i < self.committees@.len() ==> (#[trigger] self.committees@[i]).1.well_formed()
        &&& forall|i: int|
            0 <= i < self.chain_descriptions@.len() ==> (
            #[trigger] self.chain_descriptions@[i]).1.committee.well_formed()
    }

    /// An empty storage.
    pub fn new() -> (r: Storage)
        ensures
            r.chain_states@.len() == 0,
            r.blobs@.len() == 0,
            r.blob_states@.len() == 0,
            r.certificates@.len() == 0,
            r.events@.len() == 0,
            r.committees@.len() == 0,
            r.chain_descriptions@.len() == 0,
            r.network_description is None,
            r.clock == 0,
            r.wf(),
    {
        Storage {
            chain_states: Vec::new(),
            blobs: Vec::new(),
            blob_states: Vec::new(),
            certificates: Vec::new(),
            events: Vec::new(),
            committees: Vec::new(),
            chain_descriptions: Vec::new(),
            network_description: None,
            clock: 0,
        }
    }

    /// The current time.
    pub fn current_time(&self) -> (r: u64)
        ensures
            r == self.clock,
    {
        self.clock
    }

    /// Looks up a blob by its id and returns a copy.
    pub fn read_blob(&self, id: BlobId) -> (r: Option<Blob>)
        ensures
            match r {
                Some(b) => b.id == id && storage_has_blob_value(self.blobs@, id, b.data@),
                None => !storage_has_blob(self.blobs@, id),
            },
    {
        let mut i: usize = 0;
        while i < self.blobs.len()
            invariant
                0 <= i <= self.blobs@.len(),
                forall|j: int| 0 <= j < i ==> (#[trigger] self.blobs@[j]).id != id,
            decreases self.blobs@.len() - i,
        {
            if self.blobs[i].id == id {
                return Some(self.blobs[i].duplicate());
            }
            i += 1;
        }
        None
    }

    /// Writes the blobs a certificate requires, and the certificate itself,
    /// in one atomic step.
    pub fn write_blobs_and_certificate(&mut self, blobs: &Vec<Blob>, hash: CryptoHash, block: &Block)
        ensures
            forall|j: int|
                0 <= j < blobs@.len() ==> storage_has_blob_value(
                    final(self).blobs@,
                    (#[trigger] blobs@[j]).id,
                    blobs@[j].data@,
                ),
            forall|id: BlobId|
                storage_has_blob(old(self).blobs@, id) ==> storage_has_blob(
                    final(self).blobs@,
                    id,
                ),
            storage_has_certificate(final(self).certificates@, hash),
            ({
                let c = final(self).certificates@.last();
                c.0 == hash && crate::block::block_matches(&c.1, block)
            }),
            final(self).certificates@.len() == old(self).certificates@.len() + 1,
            forall|j: int|
                0 <= j < old(self).certificates@.len() ==> final(self).certificates@[j] == old(
                    self,
                ).certificates@[j],
            final(self).chain_states == old(self).chain_states,
            final(self).blob_states == old(self).blob_states,
            final(self).events == old(self).events,
            final(self).committees == old(self).committees,
            final(self).chain_descriptions == old(self).chain_descriptions,
            final(self).network_description == old(self).network_description,
            final(self).clock == old(self).clock,
            old(self).wf() ==> final(self).wf(),
    {
        let mut i: usize = 0;
        while i < blobs.len()
            invariant
                0 <= i <= blobs@.len(),
                forall|j: int|
                    0 <= j < i ==> storage_has_blob_value(
                        self.blobs@,
                        (#[trigger] blobs@[j]).id,
                        blobs@[j].data@,
                    ),
                forall|id: BlobId|
                    storage_has_blob(old(self).blobs@, id) ==> storage_has_blob(self.blobs@, id),
                self.chain_states == old(self).chain_states,
                self.blob_states == old(self).blob_states,
                self.certificates == old(self).certificates,
                self.events == old(self).events,
                self.committees == old(self).committees,
                self.chain_descriptions == old(self).chain_descriptions,
                self.network_description == old(self).network_description,
                self.clock == old(self).clock,
            decreases blobs@.len() - i,
        {
            let ghost pre = self.blobs@;
            self.blobs.push(blobs[i].duplicate());
            proof {
                assert(self.blobs@.last().id == blobs@[i as int].id);
                assert(self.blobs@.last().data@ == blobs@[i as int].data@);
                assert forall|id: BlobId|
                    storage_has_blob(pre, id) implies storage_has_blob(self.blobs@, id) by {
                    let j = choose|j: int| 0 <= j < pre.len() && pre[j].id == id;
                    assert(self.blobs@[j].id == id);
                }
                assert forall|j: int|
                    0 <= j < i + 1 implies storage_has_blob_value(
                    self.blobs@,
                    (#[trigger] blobs@[j]).id,
                    blobs@[j].data@,
                ) by {
                    if j < i as int {
                        assert(storage_has_blob_value(pre, blobs@[j].id, blobs@[j].data@));
                        let k = choose|k: int|
                            0 <= k < pre.len() && (#[trigger] pre[k]).id == blobs@[j].id
                                && pre[k].data@ == blobs@[j].data@;
                        assert(self.blobs@[k].id == blobs@[j].id);
                        assert(self.blobs@[k].data@ == blobs@[j].data@);
                    } else {
                        assert(self.blobs@[self.blobs@.len() - 1].id == blobs@[j].id);
                    }
                }
            }
            i += 1;
        }
        self.certificates.push((hash, block.duplicate()));
        proof {
            assert(self.certificates@[self.certificates@.len() - 1].0 == hash);
            assert(storage_has_certificate(self.certificates@, hash));
        }
    }

    /// Records, for each required blob id, that this certificate is the one
    /// that last required it.  Existing records are overwritten; this write
    /// is an upsert and never removes a record.
    pub fn maybe_write_blob_states(&mut self, ids: &Vec<BlobId>, state: BlobState)
        ensures
            forall|j: int|
                0 <= j < ids@.len() ==> storage_has_blob_state(
                    final(self).blob_states@,
                    #[trigger] ids@[j],
                ),
            forall|id: BlobId|
                storage_has_blob_state(old(self).blob_states@, id) ==> storage_has_blob_state(
                    final(self).blob_states@,
                    id,
                ),
            final(self).chain_states == old(self).chain_states,
            final(self).blobs == old(self).blobs,
            final(self).certificates == old(self).certificates,
            final(self).events == old(self).events,
            final(self).committees == old(self).committees,
            final(self).chain_descriptions == old(self).chain_descriptions,
            final(self).network_description == old(self).network_description,
            final(self).clock == old(self).clock,
            old(self).wf() ==> final(self).wf(),
    {
        let mut i: usize = 0;
        while i < ids.len()
            invariant
                0 <= i <= ids@.len(),
                forall|j: int|
                    0 <= j < i ==> storage_has_blob_state(self.blob_states@, #[trigger] ids@[j]),
                forall|id: BlobId|
                    storage_has_blob_state(old(self).blob_states@, id) ==> storage_has_blob_state(
                        self.blob_states@,
                        id,
                    ),
                self.chain_states == old(self).chain_states,
                self.blobs == old(self).blobs,
                self.certificates == old(self).certificates,
                self.events == old(self).events,
                self.committees == old(self).committees,
                self.chain_descriptions == old(self).chain_descriptions,
                self.network_description == old(self).network_description,
                self.clock == old(self).clock,
            decreases ids@.len() - i,
        {
            let ghost pre = self.blob_states@;
            self.blob_states.push((ids[i], state));
            proof {
                assert(self.blob_states@.last().0 == ids@[i as int]);
                assert forall|id: BlobId|
                    storage_has_blob_state(pre, id) implies storage_has_blob_state(
                    self.blob_states@,
                    id,
                ) by {
                    let j = choose|j: int| 0 <= j < pre.len() && pre[j].0 == id;
                    assert(self.blob_states@[j].0 == id);
                }
                assert forall|j: int|
                    0 <= j < i + 1 implies storage_has_blob_state(
                    self.blob_states@,
                    #[trigger] ids@[j],
                ) by {
                    if j < i as int {
                        assert(storage_has_blob_state(pre, ids@[j]));
                        let k = choose|k: int| 0 <= k < pre.len() && pre[k].0 == ids@[j];
                        assert(self.blob_states@[k].0 == ids@[j]);
                    } else {
                        assert(self.blob_states@[self.blob_states@.len() - 1].0 == ids@[j]);
                    }
                }
            }
            i += 1;
        }
    }

    /// Appends the events a block emitted.
    pub fn write_events(&mut self, chain_id: ChainId, events: &Vec<Vec<crate::block::Event>>)
        ensures
            final(self).events@.len() >= old(self).events@.len(),
            forall|j: int|
                0 <= j < old(self).events@.len() ==> final(self).events@[j] == old(
                    self,
                ).events@[j],
            final(self).chain_states == old(self).chain_states,
            final(self).blobs == old(self).blobs,
            final(self).blob_states == old(self).blob_states,
            final(self).certificates == old(self).certificates,
            final(self).committees == old(self).committees,
            final(self).chain_descriptions == old(self).chain_descriptions,
            final(self).network_description == old(self).network_description,
            final(self).clock == old(self).clock,
            old(self).wf() ==> final(self).wf(),
    {
        let mut g: usize = 0;
        while g < events.len()
            invariant
                self.events@.len() >= old(self).events@.len(),
                forall|j: int|
                    0 <= j < old(self).events@.len() ==> self.events@[j] == old(self).events@[j],
                self.chain_states == old(self).chain_states,
                self.blobs == old(self).blobs,
                self.blob_states == old(self).blob_states,
                self.certificates == old(self).certificates,
                self.committees == old(self).committees,
                self.chain_descriptions == old(self).chain_descriptions,
                self.network_description == old(self).network_description,
                self.clock == old(self).clock,
                0 <= g <= events@.len(),
            decreases events@.len() - g,
        {
            let group = &events[g];
            let mut m: usize = 0;
            while m < group.len()
                invariant
                    self.events@.len() >= old(self).events@.len(),
                    forall|j: int|
                        0 <= j < old(self).events@.len() ==> self.events@[j] == old(
                            self,
                        ).events@[j],
                    self.chain_states == old(self).chain_states,
                    self.blobs == old(self).blobs,
                    self.blob_states == old(self).blob_states,
                    self.certificates == old(self).certificates,
                    self.committees == old(self).committees,
                    self.chain_descriptions == old(self).chain_descriptions,
                    self.network_description == old(self).network_description,
                    self.clock == old(self).clock,
                    0 <= m <= group@.len(),
                decreases group@.len() - m,
            {
                let e = group[m];
                self.events.push(
                    (
                        EventId { chain_id, stream_id: e.stream_id, index: e.index },
                        e.value,
                    ),
                );
                m += 1;
            }
            g += 1;
        }
    }

    /// The committee of `epoch` from the write-once registry, as a copy of
    /// the first record with that epoch.
    pub fn committees_for(&self, epoch: u64) -> (r: Option<Committee>)
        ensures
            match crate::committee::find_epoch(self.committees@, epoch) {
                Some(i) => r matches Some(c) && crate::committee::committee_matches(
                    &c,
                    &self.committees@[i].1,
                ) && (self.wf() ==> c.well_formed()),
                None => r is None,
            },
    {
        let mut i: usize = 0;
        while i < self.committees.len()
            invariant
                0 <= i <= self.committees@.len(),
                forall|j: int| 0 <= j < i ==> (#[trigger] self.committees@[j]).0 != epoch,
            decreases self.committees@.len() - i,
        {
            if self.committees[i].0 == epoch {
                proof {
                    crate::committee::lemma_find_epoch_at(self.committees@, epoch, i as int);
                }
                return Some(self.committees[i].1.duplicate());
            }
            i += 1;
        }
        proof {
            crate::committee::lemma_find_epoch_none(self.committees@, epoch);
        }
        None
    }

    /// The network's bootstrap record.
    pub fn read_network_description(&self) -> (r: Option<NetworkDescription>)
        ensures
            r == self.network_description,
    {
        self.network_description
    }

    /// The genesis configuration of a chain, as a copy of the first stored
    /// record.
    pub fn chain_description(&self, chain_id: ChainId) -> (r: Option<ChainDescription>)
        ensures
            match stored_description(self, chain_id) {
                Some(d0) => r matches Some(d) && description_matches(&d, &d0) && (self.wf()
                    ==> d.committee.well_formed()),
                None => r is None,
            },
    {
        let mut i: usize = 0;
        while i < self.chain_descriptions.len()
            invariant
                0 <= i <= self.chain_descriptions@.len(),
                forall|j: int|
                    0 <= j < i ==> (#[trigger] self.chain_descriptions@[j]).0 != chain_id,
            decreases self.chain_descriptions@.len() - i,
        {
            if self.chain_descriptions[i].0 == chain_id {
                proof {
                    lemma_find_description_at(self.chain_descriptions@, chain_id, i as int);
                }
                return Some(self.chain_descriptions[i].1.duplicate());
            }
            i += 1;
        }
        proof {
            lemma_find_description_none(self.chain_descriptions@, chain_id);
        }
        None
    }

    /// Saves a chain's state atomically, replacing the saved version.
    pub fn save_chain(&mut self, chain: &ChainState)
        requires
            chain.wf(),
        ensures
            ({
                let id = chain.chain_id;
                match find_chain(final(self).chain_states@, id) {
                    Some(i) => chain_state_matches(&final(self).chain_states@[i].1, chain),
                    None => false,
                }
            }),
            forall|other: ChainId|
                other != chain.chain_id ==> #[trigger] find_chain(
                    final(self).chain_states@,
                    other,
                ) == find_chain(old(self).chain_states@, other) && (match find_chain(
                    old(self).chain_states@,
                    other,
                ) {
                    Some(i) => final(self).chain_states@[i] == old(self).chain_states@[i],
                    None => true,
                }),
            final(self).blobs == old(self).blobs,
            final(self).blob_states == old(self).blob_states,
            final(self).certificates == old(self).certificates,
            final(self).events == old(self).events,
            final(self).committees == old(self).committees,
            final(self).chain_descriptions == old(self).chain_descriptions,
            final(self).network_description == old(self).network_description,
            final(self).clock == old(self).clock,
            old(self).wf() ==> final(self).wf(),
    {
        let id = chain.chain_id;
        let copy = chain.duplicate();
        let mut k: usize = 0;
        while k < self.chain_states.len()
            invariant
                *self == *old(self),
                0 <= k <= self.chain_states@.len(),
                forall|j: int| 0 <= j < k ==> (#[trigger] self.chain_states@[j]).0 != id,
                chain.wf(),
                id == chain.chain_id,
                copy.chain_id == chain.chain_id,
                chain_state_matches(&copy, chain),
                copy.wf(),
            decreases self.chain_states@.len() - k,
        {
            if self.chain_states[k].0 == id {
                proof {
                    lemma_find_chain_at(self.chain_states@, id, k as int);
                }
                self.chain_states.set(k, (id, copy));
                proof {
                    assert(self.chain_states@[k as int] == (id, copy));
                    assert(self.chain_states@ == old(self).chain_states@.update(
                        k as int,
                        (id, copy),
                    ));
                    lemma_find_chain_update(
                        old(self).chain_states@,
                        k as int,
                        (id, copy),
                        id,
                    );
                    assert(chain_state_matches(&copy, chain));
                    assert(chain.wf() ==> copy.wf());
                    assert forall|other: ChainId|
                        other != id implies #[trigger] find_chain(self.chain_states@, other)
                        == find_chain(old(self).chain_states@, other) && (match find_chain(
                        old(self).chain_states@,
                        other,
                    ) {
                        Some(i) => self.chain_states@[i] == old(self).chain_states@[i],
                        None => true,
                    }) by {
                        lemma_find_chain_update(
                            old(self).chain_states@,
                            k as int,
                            (id, copy),
                            other,
                        );
                        lemma_find_chain_sound(old(self).chain_states@, other);
                    }
                    if old(self).wf() {
                        assert forall|i: int|
                            0 <= i < self.chain_states@.len() implies (
                        #[trigger] self.chain_states@[i]).1.wf() && (self.chain_states@[i]).1.chain_id
                            == self.chain_states@[i].0 by {
                            assert(self.chain_states@[i] == if i == k as int {
                                (id, copy)
                            } else {
                                old(self).chain_states@[i]
                            });
                            assert(copy.wf());
                            assert(copy.chain_id == id);
                        }
                    }
                }
                return;
            }
            k += 1;
        }
        proof {
            lemma_find_chain_none(self.chain_states@, id);
        }
        self.chain_states.push((id, copy));
        proof {
            assert(self.chain_states@[self.chain_states@.len() - 1] == (id, copy));
            assert(self.chain_states@ == old(self).chain_states@.push((id, copy)));
            lemma_find_chain_push(old(self).chain_states@, (id, copy), id);
            assert(chain_state_matches(&copy, chain));
            assert forall|other: ChainId|
                other != id implies #[trigger] find_chain(self.chain_states@, other)
                == find_chain(old(self).chain_states@, other) && (match find_chain(
                old(self).chain_states@,
                other,
            ) {
                Some(i) => self.chain_states@[i] == old(self).chain_states@[i],
                None => true,
            }) by {
                lemma_find_chain_push(old(self).chain_states@, (id, copy), other);
                lemma_find_chain_sound(old(self).chain_states@, other);
            }
            if old(self).wf() {
                assert forall|i: int|
                    0 <= i < self.chain_states@.len() implies (
                #[trigger] self.chain_states@[i]).1.wf() && (self.chain_states@[i]).1.chain_id
                    == self.chain_states@[i].0 by {
                    if i < self.chain_states@.len() - 1 {
                        assert(self.chain_states@[i] == old(self).chain_states@[i]);
                    } else {
                        assert(self.chain_states@[i] == (id, copy));
                        assert(copy.wf());
                        assert(copy.chain_id == id);
                    }
                }
            }
        }
    }

    /// Loads the saved state of a chain, as a copy.
    pub fn load_chain(&self, chain_id: ChainId) -> (r: Option<ChainState>)
        ensures
            match r {
                Some(c) => find_chain(self.chain_states@, chain_id) matches Some(i)
                    && chain_state_matches(&c, &self.chain_states@[i].1) && (self.wf() ==> c.wf()),
                None => find_chain(self.chain_states@, chain_id) is None,
            },
    {
        let mut k: usize = 0;
        while k < self.chain_states.len()
            invariant
                0 <= k <= self.chain_states@.len(),
                forall|j: int| 0 <= j < k ==> (#[trigger] self.chain_states@[j]).0 != chain_id,
            decreases self.chain_states@.len() - k,
        {
            if self.chain_states[k].0 == chain_id {
                proof {
                    lemma_find_chain_at(self.chain_states@, chain_id, k as int);
                }
                return Some(self.chain_states[k].1.duplicate());
            }
            k += 1;
        }
        proof {
            lemma_find_chain_none(self.chain_states@, chain_id);
        }
        None
    }
}

/// Where `find_chain` points, the id stands, and nowhere earlier.
pub proof fn lemma_find_chain_sound(s: Seq<(ChainId, ChainState)>, id: ChainId)
    ensures
        match find_chain(s, id) {
            Some(i) => 0 <= i < s.len() && s[i].0 == id && forall|j: int|
                0 <= j < i ==> s[j].0 != id,
            None => forall|j: int| 0 <= j < s.len() ==> s[j].0 != id,
        },
    decreases s.len(),
{
    if s.len() > 0 {
        lemma_find_chain_sound(s.drop_first(), id);
        if s[0].0 != id {
            match find_chain(s.drop_first(), id) {
                Some(i) => {
                    assert(s.drop_first()[i] == s[i + 1]);
                    assert forall|j: int| 0 <= j < i + 1 implies s[j].0 != id by {
                        if j > 0 {
                            assert(s.drop_first()[j - 1] == s[j]);
                        }
                    }
                },
                None => {
                    assert forall|j: int| 0 <= j < s.len() implies s[j].0 != id by {
                        if j > 0 {
                            assert(s.drop_first()[j - 1] == s[j]);
                        }
                    }
                },
            }
        }
    }
}

/// The storage round trip: saving a chain's state and loading it again
/// yields a state equal to the one saved, view for view.
pub proof fn lemma_save_load_round_trip(
    saved: &ChainState,
    stored: &ChainState,
    loaded: &ChainState,
)
    requires
        chain_state_matches(stored, saved),
        chain_state_matches(loaded, stored),
    ensures
        chain_state_matches(loaded, saved),
{
}

} // verus!
