//! Selection of inbound cross-chain bundles: ordering, deduplication, and
//! the epoch-trust rules that decide which part of a bundle stream a chain
//! accepts.

use vstd::prelude::*;
use crate::block::MessageBundle;
use crate::chain::ChainState;
use crate::committee::{find_epoch, has_epoch, lemma_find_epoch_sound};
use crate::errors::WorkerError;
use crate::types::ChainId;
use crate::worker::ChainWorkerConfig;

verus! {

/// Whether adjacent bundle heights never decrease.
pub open spec fn heights_nondecreasing(s: Seq<(u64, MessageBundle)>) -> bool {
    forall|i: int| 0 <= i < s.len() - 1 ==> (#[trigger] s[i]).1.height <= s[i + 1].1.height
}

/// The number of leading bundles already received: one past the last index
/// whose height lies below the receive cursor.
pub open spec fn skipped_len(s: Seq<(u64, MessageBundle)>, next_height: u64) -> int
    decreases s.len(),
{
    if s.len() == 0 {
        0
    } else if s.last().1.height < next_height {
        s.len() as int
    } else {
        skipped_len(s.drop_last(), next_height)
    }
}

/// Whether one bundle is trusted: deprecated epochs are allowed, its height
/// was already anticipated by a certified block, its epoch is current or
/// newer, or the chain still knows that epoch's committee.
pub open spec fn bundle_trusted(
    allow_deprecated: bool,
    current_epoch: u64,
    epochs: Seq<u64>,
    last_anticipated: Option<u64>,
    epoch: u64,
    height: u64,
) -> bool {
    ||| allow_deprecated
    ||| (last_anticipated matches Some(la) && height <= la)
    ||| epoch >= current_epoch
    ||| epochs.contains(epoch)
}

/// One past the last index whose prefix is entirely trusted.
pub open spec fn trusted_len(
    s: Seq<(u64, MessageBundle)>,
    allow_deprecated: bool,
    current_epoch: u64,
    epochs: Seq<u64>,
    last_anticipated: Option<u64>,
) -> int
    decreases s.len(),
{
    if s.len() == 0 {
        0
    } else if bundle_trusted(
        allow_deprecated,
        current_epoch,
        epochs,
        last_anticipated,
        s.last().0,
        s.last().1.height,
    ) {
        s.len() as int
    } else {
        trusted_len(s.drop_last(), allow_deprecated, current_epoch, epochs, last_anticipated)
    }
}

/// The accepted window of a bundle stream: the bundles between the skipped
/// prefix and the trusted frontier, in order.
pub open spec fn selected_bundles(
    s: Seq<(u64, MessageBundle)>,
    next_height: u64,
    allow_deprecated: bool,
    current_epoch: u64,
    epochs: Seq<u64>,
    last_anticipated: Option<u64>,
) -> Seq<MessageBundle> {
    let sk = skipped_len(s, next_height);
    let tr = trusted_len(s, allow_deprecated, current_epoch, epochs, last_anticipated);
    if sk < tr {
        s.subrange(sk, tr).map_values(|p: (u64, MessageBundle)| p.1)
    } else {
        Seq::empty()
    }
}

/// `skipped_len` stays within the sequence.
pub proof fn lemma_skipped_len_bounds(s: Seq<(u64, MessageBundle)>, next_height: u64)
    ensures
        0 <= skipped_len(s, next_height) <= s.len(),
    decreases s.len(),
{
    if s.len() > 0 {
        lemma_skipped_len_bounds(s.drop_last(), next_height);
    }
}

/// `trusted_len` stays within the sequence.
pub proof fn lemma_trusted_len_bounds(
    s: Seq<(u64, MessageBundle)>,
    allow_deprecated: bool,
    current_epoch: u64,
    epochs: Seq<u64>,
    last_anticipated: Option<u64>,
)
    ensures
        0 <= trusted_len(s, allow_deprecated, current_epoch, epochs, last_anticipated) <= s.len(),
    decreases s.len(),
{
    if s.len() > 0 {
        lemma_trusted_len_bounds(
            s.drop_last(),
            allow_deprecated,
            current_epoch,
            epochs,
            last_anticipated,
        );
    }
}

/// Everything from the skipped prefix on has reached the receive cursor:
/// with non-decreasing heights, every bundle at or past `skipped_len` has
/// height at least `next_height`.
pub proof fn lemma_not_skipped_high(s: Seq<(u64, MessageBundle)>, next_height: u64, i: int)
    requires
        heights_nondecreasing(s),
        skipped_len(s, next_height) <= i < s.len(),
    ensures
        s[i].1.height >= next_height,
    decreases s.len(),
{
    lemma_skipped_len_bounds(s, next_height);
    if i == s.len() - 1 {
        if s.last().1.height < next_height {
            assert(skipped_len(s, next_height) == s.len() as int);
        }
    } else {
        assert(heights_nondecreasing(s.drop_last())) by {
            assert forall|a: int|
                0 <= a < s.drop_last().len() - 1 implies (#[trigger] s.drop_last()[a]).1.height
                <= s.drop_last()[a + 1].1.height by {
                assert(s.drop_last()[a] == s[a]);
                assert(s.drop_last()[a + 1] == s[a + 1]);
            }
        }
        if s.last().1.height < next_height {
            // Then the whole stream is skipped, contradicting i < len.
            assert(skipped_len(s, next_height) == s.len() as int);
        } else {
            assert(skipped_len(s, next_height) == skipped_len(s.drop_last(), next_height));
            assert(s.drop_last()[i] == s[i]);
            lemma_not_skipped_high(s.drop_last(), next_height, i);
        }
    }
}

/// The law of the selector: on a height-sorted stream, the accepted bundles
/// are a contiguous window of the input, their heights never decrease, and
/// the lowest accepted height is at least the receive cursor.
pub proof fn lemma_selector_window(
    s: Seq<(u64, MessageBundle)>,
    next_height: u64,
    allow_deprecated: bool,
    current_epoch: u64,
    epochs: Seq<u64>,
    last_anticipated: Option<u64>,
)
    requires
        heights_nondecreasing(s),
    ensures
        ({
            let sk = skipped_len(s, next_height);
            let tr = trusted_len(s, allow_deprecated, current_epoch, epochs, last_anticipated);
            let r = selected_bundles(
                s,
                next_height,
                allow_deprecated,
                current_epoch,
                epochs,
                last_anticipated,
            );
            &&& 0 <= sk <= s.len()
            &&& 0 <= tr <= s.len()
            &&& r.len() == if sk < tr {
                tr - sk
            } else {
                0
            }
            &&& forall|i: int| 0 <= i < r.len() ==> (#[trigger] r[i]) == s[sk + i].1
            &&& forall|i: int, j: int| 0 <= i < j < r.len() ==> r[i].height <= r[j].height
            &&& forall|i: int| 0 <= i < r.len() ==> (#[trigger] r[i]).height >= next_height
        }),
{
    let sk = skipped_len(s, next_height);
    let tr = trusted_len(s, allow_deprecated, current_epoch, epochs, last_anticipated);
    let r = selected_bundles(s, next_height, allow_deprecated, current_epoch, epochs, last_anticipated);
    lemma_skipped_len_bounds(s, next_height);
    lemma_trusted_len_bounds(s, allow_deprecated, current_epoch, epochs, last_anticipated);
    if sk < tr {
        assert forall|i: int| 0 <= i < r.len() implies (#[trigger] r[i]) == s[sk + i].1 by {
            assert(s.subrange(sk, tr)[i] == s[sk + i]);
        }
        assert forall|i: int| 0 <= i < r.len() implies (#[trigger] r[i]).height >= next_height by {
            lemma_not_skipped_high(s, next_height, sk + i);
        }
        assert forall|i: int, j: int| 0 <= i < j < r.len() implies r[i].height <= r[j].height by {
            assert forall|a: int, b: int|
                0 <= a <= b < s.len() implies (#[trigger] s[a]).1.height <= (
            #[trigger] s[b]).1.height by {
                lemma_sorted_pairwise(s, a, b);
            }
        }
    }
}

/// Adjacent sortedness gives pairwise sortedness.
proof fn lemma_sorted_pairwise(s: Seq<(u64, MessageBundle)>, a: int, b: int)
    requires
        heights_nondecreasing(s),
        0 <= a <= b < s.len(),
    ensures
        s[a].1.height <= s[b].1.height,
    decreases b - a,
{
    if a < b {
        lemma_sorted_pairwise(s, a, b - 1);
        assert(s[b - 1].1.height <= s[b].1.height);
    }
}

/// Helper for handling one cross-chain update: the trust context of the
/// receiving chain, frozen at the start of the request.
pub struct CrossChainUpdateHelper {
    /// Accept bundles from epochs the chain no longer trusts.
    pub allow_messages_from_deprecated_epochs: bool,
    /// The chain's current epoch.
    pub current_epoch: u64,
    /// The epochs whose committees the chain still knows.
    pub committee_epochs: Vec<u64>,
}

impl CrossChainUpdateHelper {
    /// Captures the trust context from the worker's configuration and the
    /// chain's execution state.
    pub fn new(config: &ChainWorkerConfig, chain: &ChainState) -> (r: CrossChainUpdateHelper)
        ensures
            r.allow_messages_from_deprecated_epochs
                == config.allow_messages_from_deprecated_epochs,
            r.current_epoch == chain.execution_state.epoch,
            r.committee_epochs@.len() == chain.execution_state.committees.entries@.len(),
            forall|i: int|
                0 <= i < r.committee_epochs@.len() ==> (#[trigger] r.committee_epochs@[i])
                    == chain.execution_state.committees.entries@[i].0,
            forall|e: u64|
                #[trigger] r.committee_epochs@.contains(e) == has_epoch(
                    chain.execution_state.committees.entries@,
                    e,
                ),
    {
        let epochs = chain.execution_state.committees.epochs();
        proof {
            assert forall|e: u64| #[trigger]
                epochs@.contains(e) == has_epoch(
                    chain.execution_state.committees.entries@,
                    e,
                ) by {
                lemma_find_epoch_sound(chain.execution_state.committees.entries@, e);
                if epochs@.contains(e) {
                    let i = choose|i: int| 0 <= i < epochs@.len() && epochs@[i] == e;
                    assert(chain.execution_state.committees.entries@[i].0 == e);
                    if find_epoch(chain.execution_state.committees.entries@, e) is None {
                        assert(false);
                    }
                }
                if has_epoch(chain.execution_state.committees.entries@, e) {
                    match find_epoch(chain.execution_state.committees.entries@, e) {
                        Some(i) => {
                            assert(epochs@[i] == e);
                            assert(epochs@.contains(e));
                        },
                        None => {},
                    }
                }
            }
        }
        CrossChainUpdateHelper {
            allow_messages_from_deprecated_epochs: config.allow_messages_from_deprecated_epochs,
            current_epoch: chain.execution_state.epoch,
            committee_epochs: epochs,
        }
    }

    /// Decides whether one bundle is trusted.
    fn is_trusted(&self, epoch: u64, height: u64, last_anticipated: Option<u64>) -> (r: bool)
        ensures
            r == bundle_trusted(
                self.allow_messages_from_deprecated_epochs,
                self.current_epoch,
                self.committee_epochs@,
                last_anticipated,
                epoch,
                height,
            ),
    {
        if self.allow_messages_from_deprecated_epochs {
            return true;
        }
        if match last_anticipated {
            Some(la) => height <= la,
            None => false,
        } {
            return true;
        }
        if epoch >= self.current_epoch {
            return true;
        }
        let mut k: usize = 0;
        while k < self.committee_epochs.len()
            invariant
                0 <= k <= self.committee_epochs@.len(),
                forall|j: int| 0 <= j < k ==> (#[trigger] self.committee_epochs@[j]) != epoch,
            decreases self.committee_epochs@.len() - k,
        {
            if self.committee_epochs[k] == epoch {
                return true;
            }
            k += 1;
        }
        proof {
            assert(!self.committee_epochs@.contains(epoch));
        }
        false
    }

    /// Splits an inbound bundle stream into skipped, accepted, and untrusted
    /// parts and returns the accepted window.  Streams whose heights
    /// decrease are rejected outright.
    #[verifier::rlimit(60)]
    pub fn select_message_bundles(
        &self,
        origin: ChainId,
        recipient: ChainId,
        next_height_to_receive: u64,
        last_anticipated_block_height: Option<u64>,
        bundles: &Vec<(u64, MessageBundle)>,
    ) -> (r: Result<Vec<MessageBundle>, WorkerError>)
        ensures
            r is Ok <==> heights_nondecreasing(bundles@),
            match r {
                Ok(v) => v@ == selected_bundles(
                    bundles@,
                    next_height_to_receive,
                    self.allow_messages_from_deprecated_epochs,
                    self.current_epoch,
                    self.committee_epochs@,
                    last_anticipated_block_height,
                ),
                Err(e) => e is InvalidCrossChainRequest,
            },
    {
        let _ = origin;
        let _ = recipient;
        let mut skipped: usize = 0;
        let mut trusted: usize = 0;
        let mut i: usize = 0;
        while i < bundles.len()
            invariant
                0 <= i <= bundles@.len(),
                heights_nondecreasing(bundles@.take(i as int)),
                i > 0 ==> forall|j: int|
                    0 <= j < i - 1 ==> (#[trigger] bundles@[j]).1.height <= bundles@[j
                        + 1].1.height,
                skipped as int == skipped_len(bundles@.take(i as int), next_height_to_receive),
                trusted as int == trusted_len(
                    bundles@.take(i as int),
                    self.allow_messages_from_deprecated_epochs,
                    self.current_epoch,
                    self.committee_epochs@,
                    last_anticipated_block_height,
                ),
            decreases bundles@.len() - i,
        {
            let (epoch, bundle) = bundles[i];
            if i > 0 {
                let prev_height = bundles[i - 1].1.height;
                if prev_height > bundle.height {
                    proof {
                        assert(!heights_nondecreasing(bundles@)) by {
                            assert(bundles@[i as int - 1].1.height > bundles@[i as int].1.height);
                        }
                    }
                    return Err(WorkerError::InvalidCrossChainRequest);
                }
            }
            proof {
                assert(bundles@.take(i as int + 1).drop_last() =~= bundles@.take(i as int));
                assert(bundles@.take(i as int + 1).last() == bundles@[i as int]);
                assert(heights_nondecreasing(bundles@.take(i as int + 1))) by {
                    assert forall|j: int|
                        0 <= j < i as int implies (#[trigger] bundles@.take(
                        i as int + 1,
                    )[j]).1.height <= bundles@.take(i as int + 1)[j + 1].1.height by {
                        assert(bundles@.take(i as int + 1)[j] == bundles@[j]);
                        assert(bundles@.take(i as int + 1)[j + 1] == bundles@[j + 1]);
                    }
                }
            }
            if bundle.height < next_height_to_receive {
                skipped = i + 1;
            }
            if self.is_trusted(epoch, bundle.height, last_anticipated_block_height) {
                trusted = i + 1;
            }
            i += 1;
        }
        proof {
            assert(bundles@.take(bundles@.len() as int) =~= bundles@);
        }
        let mut r: Vec<MessageBundle> = Vec::new();
        if skipped < trusted {
            proof {
                lemma_skipped_len_bounds(bundles@, next_height_to_receive);
                lemma_trusted_len_bounds(
                    bundles@,
                    self.allow_messages_from_deprecated_epochs,
                    self.current_epoch,
                    self.committee_epochs@,
                    last_anticipated_block_height,
                );
                assert(bundles@.subrange(skipped as int, skipped as int).map_values(
                    |p: (u64, MessageBundle)| p.1,
                ) =~= Seq::<MessageBundle>::empty());
            }
            let mut k: usize = skipped;
            while k < trusted
                invariant
                    skipped <= k <= trusted,
                    trusted as int <= bundles@.len(),
                    r@ == bundles@.subrange(skipped as int, k as int).map_values(
                        |p: (u64, MessageBundle)| p.1,
                    ),
                decreases trusted - k,
            {
                r.push(bundles[k].1);
                proof {
                    assert(r@ =~= bundles@.subrange(skipped as int, k as int + 1).map_values(
                        |p: (u64, MessageBundle)| p.1,
                    )) by {
                        assert(bundles@.subrange(skipped as int, k as int + 1)
                            =~= bundles@.subrange(skipped as int, k as int).push(
                            bundles@[k as int],
                        ));
                    }
                }
                k += 1;
            }
        }
        Ok(r)
    }
}

} // verus!
