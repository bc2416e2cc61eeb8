//! The download scheduler: drains the pending set in bounded batches.
//!
//! `advance` takes up to the concurrency cap of identifiers from the
//! front of the pending set and removes them before anything is
//! dispatched, so an identifier is dequeued at most once per catalog
//! load. The caller launches one fetch per returned identifier; fetch
//! failure leaves the cache file absent, and the identifier is retried
//! only on the next full catalog load, never within the same load.

use vstd::prelude::*;
use crate::text::str_views;

verus! {

/// How many new fetches one `advance` call may launch.
pub const DEFAULT_CONCURRENCY_CAP: usize = 5;

/// The scheduler owning the pending identifiers of one catalog load, in
/// catalog order.
pub struct DownloadScheduler {
    pending: Vec<String>,
}

impl View for DownloadScheduler {
    type V = Seq<Seq<char>>;

    closed spec fn view(&self) -> Seq<Seq<char>> {
        str_views(self.pending@)
    }
}

impl DownloadScheduler {
    /// A scheduler over the given pending identifiers, front first.
    pub fn new(pending: Vec<String>) -> (r: DownloadScheduler)
        ensures
            r@ == str_views(pending@),
    {
        DownloadScheduler { pending }
    }

    /// How many identifiers are still pending.
    pub fn pending_count(&self) -> (r: usize)
        ensures
            r == self@.len(),
    {
        self.pending.len()
    }

    /// Takes up to `cap` identifiers from the front of the pending set,
    /// in pending order, removing them immediately: the batch is
    /// exactly the prefix taken, the rest stays behind in order, and at
    /// most `cap` identifiers leave per call.
    pub fn advance(&mut self, cap: usize) -> (batch: Vec<String>)
        ensures
            batch@.len() == if cap <= old(self)@.len() {
                cap as int
            } else {
                old(self)@.len() as int
            },
            batch@.len() <= cap,
            str_views(batch@) == old(self)@.take(batch@.len() as int),
            final(self)@ == old(self)@.skip(batch@.len() as int),
    {
        let n = if cap <= self.pending.len() {
            cap
        } else {
            self.pending.len()
        };
        let mut batch: Vec<String> = Vec::new();
        let mut k: usize = 0;
        proof {
            assert(str_views(batch@) =~= old(self)@.take(0));
            assert(str_views(self.pending@) =~= old(self)@.skip(0));
        }
        while k < n
            invariant
                k <= n <= old(self)@.len(),
                self.pending@.len() == old(self)@.len() - k,
                str_views(batch@) == old(self)@.take(k as int),
                str_views(self.pending@) == old(self)@.skip(k as int),
                batch@.len() == k,
            decreases n - k,
        {
            let ghost pp = self.pending@;
            let ghost pb = batch@;
            let s = self.pending.remove(0);
            batch.push(s);
            proof {
                assert(pp.remove(0) =~= pp.drop_first());
                assert forall|j: int| 0 <= j < self.pending@.len() implies str_views(
                    self.pending@,
                )[j] == old(self)@.skip(k + 1)[j] by {
                    assert(self.pending@[j] == pp[j + 1]);
                    assert(str_views(pp)[j + 1] == pp[j + 1]@);
                }
                assert(str_views(self.pending@) =~= old(self)@.skip(k + 1));
                assert(batch@.last()@ == str_views(pp)[0]);
                assert(str_views(pp)[0] == old(self)@[k as int]);
                assert(str_views(batch@) =~= str_views(pb).push(old(self)@[k as int]));
                assert(str_views(batch@) =~= old(self)@.take(k + 1));
            }
            k += 1;
        }
        batch
    }
}

/// What one `advance` call guarantees, stated over a duplicate-free
/// pending sequence: no identifier of the batch (the taken prefix)
/// stays in the remaining pending set, so nothing already removed is
/// ever launched again.
pub proof fn lemma_batch_leaves_pending(p: Seq<Seq<char>>, k: int)
    requires
        p.no_duplicates(),
        0 <= k <= p.len(),
    ensures
        forall|x: Seq<char>| p.take(k).contains(x) ==> !p.skip(k).contains(x),
{
    assert forall|x: Seq<char>| p.take(k).contains(x) implies !p.skip(k).contains(x) by {
        let a = choose|a: int| 0 <= a < k && p.take(k)[a] == x;
        assert(p[a] == x);
        if p.skip(k).contains(x) {
            let b = choose|b: int| 0 <= b < p.len() - k && p.skip(k)[b] == x;
            assert(p[k + b] == x);
        }
    }
}

/// The remaining pending set of a duplicate-free pending set stays
/// duplicate-free, so the guarantee above carries over to every later
/// `advance` call: an identifier is dequeued at most once per load.
pub proof fn lemma_skip_no_duplicates(p: Seq<Seq<char>>, k: int)
    requires
        p.no_duplicates(),
        0 <= k <= p.len(),
    ensures
        p.skip(k).no_duplicates(),
{
    assert forall|a: int, b: int|
        0 <= a < p.skip(k).len() && 0 <= b < p.skip(k).len() && a != b implies p.skip(k)[a]
        != p.skip(k)[b] by {
        assert(p.skip(k)[a] == p[k + a]);
        assert(p.skip(k)[b] == p[k + b]);
    }
}

/// Two successive `advance` calls on a duplicate-free pending set hand
/// out disjoint batches.
pub proof fn lemma_advance_twice_disjoint(p: Seq<Seq<char>>, k1: int, k2: int)
    requires
        p.no_duplicates(),
        0 <= k1 <= p.len(),
        0 <= k2 <= p.len() - k1,
    ensures
        forall|x: Seq<char>|
            p.take(k1).contains(x) ==> !p.skip(k1).take(k2).contains(x),
{
    lemma_batch_leaves_pending(p, k1);
    assert forall|x: Seq<char>|
        p.take(k1).contains(x) implies !p.skip(k1).take(k2).contains(x) by {
        if p.skip(k1).take(k2).contains(x) {
            let a = choose|a: int| 0 <= a < k2 && p.skip(k1).take(k2)[a] == x;
            assert(p.skip(k1)[a] == x);
        }
    }
}

} // verus!
