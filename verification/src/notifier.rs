//! The delivery notifier: a one-shot notification registry keyed by block
//! height.  A caller registers a sink for a height; when all cross-chain
//! messages up to some height are acknowledged as delivered, every sink at
//! that height or below fires once and is removed.

use vstd::prelude::*;
use vstd::seq_lib::group_filter_ensures;

verus! {

/// Declares tokio's one-shot sender so its values can be stored and moved.
#[verifier::external_type_specification]
#[verifier::external_body]
#[verifier::reject_recursive_types(T)]
pub struct ExSender<T>(tokio::sync::oneshot::Sender<T>);

/// Relies on `tokio::sync::oneshot::Sender::send`: consumes the sender and
/// wakes the receiver.  Whether the receiver is still listening depends on
/// the caller's side, so nothing is promised of the result.
#[verifier::external_body]
pub fn fire_sink(sender: tokio::sync::oneshot::Sender<()>) -> (delivered: bool) {
    sender.send(()).is_ok()
}

/// A registered one-shot sink, waiting for deliveries up to its height.
pub struct DeliveryNotifier {
    /// One entry per registration: the height waited for and the sink.
    pub entries: Vec<(u64, tokio::sync::oneshot::Sender<()>)>,
}

/// The entries due at `height`: those registered at it or below.
pub open spec fn due_entries(
    s: Seq<(u64, tokio::sync::oneshot::Sender<()>)>,
    height: u64,
) -> Seq<(u64, tokio::sync::oneshot::Sender<()>)> {
    s.filter(|e: (u64, tokio::sync::oneshot::Sender<()>)| e.0 <= height)
}

impl DeliveryNotifier {
    /// A registry with nothing waiting.
    pub fn new() -> (r: DeliveryNotifier)
        ensures
            r.entries@.len() == 0,
    {
        DeliveryNotifier { entries: Vec::new() }
    }

    /// Whether any sink is registered.
    pub fn is_empty(&self) -> (r: bool)
        ensures
            r == (self.entries@.len() == 0),
    {
        self.entries.len() == 0
    }

    /// Registers a sink to fire once deliveries reach `height`.
    pub fn register(&mut self, height: u64, sender: tokio::sync::oneshot::Sender<()>)
        ensures
            final(self).entries@ == old(self).entries@.push((height, sender)),
    {
        self.entries.push((height, sender));
    }

    /// Fires and removes every sink registered at `height` or below.  Each
    /// removed sink is passed to `fire_sink` exactly once — it is moved out
    /// of the registry and consumed by the send.  Returns how many fired.
    pub fn notify(&mut self, height: u64) -> (fired: usize)
        ensures
            final(self).entries@ == old(self).entries@.filter(
                |e: (u64, tokio::sync::oneshot::Sender<()>)| e.0 > height,
            ),
            fired as int == due_entries(old(self).entries@, height).len(),
    {
        let ghost all = old(self).entries@;
        proof {
            assert(all.len() == old(self).entries.len());
        }
        let mut kept: Vec<(u64, tokio::sync::oneshot::Sender<()>)> = Vec::new();
        let mut fired: usize = 0;
        loop
            invariant
                all.len() <= usize::MAX,
                self.entries@.len() <= all.len(),
                all =~= all.take(all.len() - self.entries@.len() as int) + self.entries@,
                kept@ == all.take(all.len() - self.entries@.len() as int).filter(
                    |e: (u64, tokio::sync::oneshot::Sender<()>)| e.0 > height,
                ),
                fired as int == all.take(all.len() - self.entries@.len() as int).filter(
                    |e: (u64, tokio::sync::oneshot::Sender<()>)| e.0 <= height,
                ).len(),
            ensures
                self.entries@.len() == 0,
                kept@ == all.filter(|e: (u64, tokio::sync::oneshot::Sender<()>)| e.0 > height),
                fired as int == all.filter(
                    |e: (u64, tokio::sync::oneshot::Sender<()>)| e.0 <= height,
                ).len(),
            decreases self.entries@.len(),
        {
            broadcast use group_filter_ensures;

            if self.entries.len() == 0 {
                proof {
                    assert(all.take(all.len() - 0) =~= all);
                }
                break;
            }
            let ghost processed = all.len() - self.entries@.len() as int;
            let entry = self.entries.remove(0);
            proof {
                assert(entry == all[processed]);
                assert(all.take(processed + 1) =~= all.take(processed).push(all[processed]));
                assert(all.take(processed + 1).drop_last() =~= all.take(processed));
                reveal(Seq::filter);
            }
            if entry.0 <= height {
                let _ = fire_sink(entry.1);
                proof {
                    lemma_filter_len_bound(all.take(processed), height);
                    lemma_filter_len_bound(all.take(processed + 1), height);
                }
                fired = fired + 1;
            } else {
                kept.push(entry);
            }
        }
        self.entries = kept;
        fired
    }
}

/// The law of the notifier: a sink registered for height `h` is among the
/// entries due at any `h2 >= h`, and never among the entries kept past it —
/// so firing the due entries fires it exactly once.
pub proof fn lemma_register_then_notify(
    entries: Seq<(u64, tokio::sync::oneshot::Sender<()>)>,
    h: u64,
    sender: tokio::sync::oneshot::Sender<()>,
    h2: u64,
)
    requires
        h <= h2,
    ensures
        due_entries(entries.push((h, sender)), h2).contains((h, sender)),
        !entries.push((h, sender)).filter(
            |e: (u64, tokio::sync::oneshot::Sender<()>)| e.0 > h2,
        ).contains((h, sender)),
{
    broadcast use group_filter_ensures;

    let s = entries.push((h, sender));
    assert(s[s.len() - 1] == (h, sender));
    assert(s.contains((h, sender)));
    assert(due_entries(s, h2).contains((h, sender))) by {
        lemma_filter_contains(s, h2, (h, sender));
    }
}

/// A filtered sequence is no longer than the sequence it came from.
proof fn lemma_filter_len_bound(s: Seq<(u64, tokio::sync::oneshot::Sender<()>)>, height: u64)
    ensures
        s.filter(|e: (u64, tokio::sync::oneshot::Sender<()>)| e.0 <= height).len() <= s.len(),
    decreases s.len(),
{
    reveal(Seq::filter);
    if s.len() > 0 {
        lemma_filter_len_bound(s.drop_last(), height);
    }
}

/// An element that satisfies the predicate is kept by `filter`.
proof fn lemma_filter_contains(
    s: Seq<(u64, tokio::sync::oneshot::Sender<()>)>,
    height: u64,
    e: (u64, tokio::sync::oneshot::Sender<()>),
)
    requires
        s.contains(e),
        e.0 <= height,
    ensures
        s.filter(|x: (u64, tokio::sync::oneshot::Sender<()>)| x.0 <= height).contains(e),
    decreases s.len(),
{
    reveal(Seq::filter);
    if s.len() > 0 {
        if s.last() == e {
        } else {
            assert(s.drop_last().contains(e)) by {
                let i = choose|i: int| 0 <= i < s.len() && s[i] == e;
                assert(s.drop_last()[i] == e);
            }
            lemma_filter_contains(s.drop_last(), height, e);
        }
    }
}

} // verus!
