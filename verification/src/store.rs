//! The accumulator store: one entry per batch bucket, holding the bucket's
//! aggregate share, its contribution count and its privacy budget.
//!
//! The store's invariant is the task's safety net: every key is aligned to
//! the minimum batch duration, and no bucket's privacy budget ever exceeds
//! the maximum batch lifetime.

use vstd::prelude::*;
use crate::fieldvec::{share_wf, merge_spec, merge_into};

verus! {

/// The running aggregate of one bucket.
pub struct Accumulator {
    /// The aggregate share all verified output shares of the bucket were
    /// folded into.
    pub accumulated: Vec<u128>,
    /// How many verified reports were folded in.
    pub contributions: u64,
    /// How many collect queries have drawn this bucket.
    pub privacy_budget: u64,
}

/// One bucket of the store.
pub struct AccumulatorEntry {
    /// Aligned start time of the bucket.
    pub bucket_start: u64,
    pub accumulator: Accumulator,
}

/// Whether some entry holds the bucket starting at `k`.
pub open spec fn has_bucket(s: Seq<AccumulatorEntry>, k: u64) -> bool {
    exists|i: int| 0 <= i < s.len() && (#[trigger] s[i]).bucket_start == k
}

/// The store's invariant: distinct aligned keys, budgets within the batch
/// lifetime, and every aggregate a single canonical field element.
pub open spec fn store_wf(s: Seq<AccumulatorEntry>, min_batch_duration: u64, max_batch_lifetime: u64) -> bool {
    &&& forall|i: int, j: int|
        0 <= i < j < s.len() ==> (#[trigger] s[i]).bucket_start != (#[trigger] s[j]).bucket_start
    &&& forall|i: int|
        0 <= i < s.len() ==> {
            &&& (#[trigger] s[i]).bucket_start % min_batch_duration == 0
            &&& s[i].accumulator.privacy_budget <= max_batch_lifetime
            &&& share_wf(s[i].accumulator.accumulated@)
            &&& s[i].accumulator.accumulated@.len() == 1
        }
}

/// Every entry of a well-formed store sits on a bucket start aligned to
/// the minimum batch duration, and its privacy budget never exceeds the
/// maximum batch lifetime.
pub proof fn lemma_store_invariant(s: Seq<AccumulatorEntry>, min_batch_duration: u64, max_batch_lifetime: u64)
    requires
        store_wf(s, min_batch_duration, max_batch_lifetime),
    ensures
        forall|i: int|
            0 <= i < s.len() ==> {
                &&& (#[trigger] s[i]).bucket_start % min_batch_duration == 0
                &&& s[i].accumulator.privacy_budget <= max_batch_lifetime
            },
{
}

/// The store, keyed by bucket start time.
pub struct AccumulatorStore {
    entries: Vec<AccumulatorEntry>,
}

impl View for AccumulatorStore {
    type V = Seq<AccumulatorEntry>;

    closed spec fn view(&self) -> Seq<AccumulatorEntry> {
        self.entries@
    }
}

impl AccumulatorStore {
    /// An empty store.
    pub fn new() -> (s: AccumulatorStore)
        ensures
            s@.len() == 0,
    {
        AccumulatorStore { entries: Vec::new() }
    }

    /// Number of buckets with at least one contribution.
    pub fn len(&self) -> (n: usize)
        ensures
            n == self@.len(),
    {
        self.entries.len()
    }

    /// The index of the bucket starting at `k`, if present.
    fn find(&self, k: u64) -> (r: Option<usize>)
        ensures
            match r {
                Some(i) => i < self@.len() && self@[i as int].bucket_start == k,
                None => !has_bucket(self@, k),
            },
    {
        let n = self.entries.len();
        let mut i: usize = 0;
        while i < n
            invariant
                i <= n,
                n == self@.len(),
                forall|j: int| 0 <= j < i ==> (#[trigger] self@[j]).bucket_start != k,
            decreases n - i,
        {
            if self.entries[i].bucket_start == k {
                return Some(i);
            }
            i = i + 1;
        }
        None
    }

    /// Whether the bucket starting at `k` has an entry.
    pub fn contains(&self, k: u64) -> (r: bool)
        ensures
            r == has_bucket(self@, k),
    {
        match self.find(k) {
            Some(i) => {
                proof {
                    assert(0 <= i < self@.len() && self@[i as int].bucket_start == k);
                }
                true
            },
            None => false,
        }
    }

    /// The accumulator of the bucket starting at `k`, read out as its
    /// aggregate share, contribution count and privacy budget.
    pub fn get(&self, k: u64) -> (r: Option<(Vec<u128>, u64, u64)>)
        ensures
            match r {
                Some(t) => exists|i: int|
                    0 <= i < self@.len() && (#[trigger] self@[i]).bucket_start == k && t.0@
                        == self@[i].accumulator.accumulated@ && t.1
                        == self@[i].accumulator.contributions && t.2
                        == self@[i].accumulator.privacy_budget,
                None => !has_bucket(self@, k),
            },
    {
        match self.find(k) {
            Some(i) => {
                let share = clone_share(&self.entries[i].accumulator.accumulated);
                Some((
                    share,
                    self.entries[i].accumulator.contributions,
                    self.entries[i].accumulator.privacy_budget,
                ))
            },
            None => None,
        }
    }

    /// Folds one verified output share into the bucket starting at
    /// `bucket`: merges it into an existing entry and counts the
    /// contribution, or creates the bucket's entry with a zero privacy
    /// budget. The store's invariant is preserved.
    pub fn fold(&mut self, bucket: u64, share: Vec<u128>, min_batch_duration: u64, max_batch_lifetime: u64)
        requires
            store_wf(old(self)@, min_batch_duration, max_batch_lifetime),
            min_batch_duration > 0,
            bucket % min_batch_duration == 0,
            share_wf(share@),
            share@.len() == 1,
        ensures
            store_wf(final(self)@, min_batch_duration, max_batch_lifetime),
            has_bucket(final(self)@, bucket),
            !has_bucket(old(self)@, bucket) ==> final(self)@ =~= old(self)@.push(
                AccumulatorEntry {
                    bucket_start: bucket,
                    accumulator: Accumulator {
                        accumulated: share,
                        contributions: 1,
                        privacy_budget: 0,
                    },
                },
            ),
            has_bucket(old(self)@, bucket) ==> exists|i: int|
                {
                    &&& 0 <= i < old(self)@.len()
                    &&& (#[trigger] old(self)@[i]).bucket_start == bucket
                    &&& final(self)@ =~= old(self)@.update(
                        i,
                        AccumulatorEntry {
                            bucket_start: bucket,
                            accumulator: Accumulator {
                                accumulated: final(self)@[i].accumulator.accumulated,
                                contributions: final(self)@[i].accumulator.contributions,
                                privacy_budget: old(self)@[i].accumulator.privacy_budget,
                            },
                        },
                    )
                    &&& final(self)@[i].accumulator.accumulated@ == merge_spec(
                        old(self)@[i].accumulator.accumulated@,
                        share@,
                    )
                    &&& old(self)@[i].accumulator.contributions < u64::MAX
                        ==> final(self)@[i].accumulator.contributions
                        == old(self)@[i].accumulator.contributions + 1
                    &&& final(self)@[i].accumulator.contributions
                        >= old(self)@[i].accumulator.contributions
                },
    {
        match self.find(bucket) {
            Some(i) => {
                let mut entry = self.entries.remove(i);
                let ok = merge_into(&mut entry.accumulator.accumulated, &share);
                assert(ok);
                entry.accumulator.contributions = saturating_inc(entry.accumulator.contributions);
                self.entries.insert(i, entry);
                proof {
                    assert(self@ =~= old(self)@.update(
                        i as int,
                        AccumulatorEntry {
                            bucket_start: bucket,
                            accumulator: Accumulator {
                                accumulated: self@[i as int].accumulator.accumulated,
                                contributions: self@[i as int].accumulator.contributions,
                                privacy_budget: old(self)@[i as int].accumulator.privacy_budget,
                            },
                        },
                    ));
                    assert(self@[i as int].bucket_start == bucket);
                }
            },
            None => {
                self.entries.push(
                    AccumulatorEntry {
                        bucket_start: bucket,
                        accumulator: Accumulator {
                            accumulated: share,
                            contributions: 1,
                            privacy_budget: 0,
                        },
                    },
                );
                proof {
                    assert(self@[old(self)@.len() as int].bucket_start == bucket);
                }
            },
        }
    }

    /// Draws the bucket starting at `k` for a collect query: charges one
    /// unit of privacy budget and hands back a copy of the aggregate share
    /// and the contribution count. Fails, changing nothing, iff the
    /// bucket's budget already equals the batch lifetime.
    pub fn charge(&mut self, k: u64, max_batch_lifetime: u64, min_batch_duration: u64) -> (r: Option<
        (Vec<u128>, u64),
    >)
        requires
            store_wf(old(self)@, min_batch_duration, max_batch_lifetime),
            has_bucket(old(self)@, k),
        ensures
            store_wf(final(self)@, min_batch_duration, max_batch_lifetime),
            match r {
                Some(t) => exists|i: int|
                    {
                        &&& 0 <= i < old(self)@.len()
                        &&& (#[trigger] old(self)@[i]).bucket_start == k
                        &&& old(self)@[i].accumulator.privacy_budget < max_batch_lifetime
                        &&& t.0@ == old(self)@[i].accumulator.accumulated@
                        &&& t.1 == old(self)@[i].accumulator.contributions
                        &&& final(self)@ =~= old(self)@.update(
                            i,
                            AccumulatorEntry {
                                bucket_start: k,
                                accumulator: Accumulator {
                                    accumulated: final(self)@[i].accumulator.accumulated,
                                    contributions: old(self)@[i].accumulator.contributions,
                                    privacy_budget: (old(self)@[i].accumulator.privacy_budget
                                        + 1) as u64,
                                },
                            },
                        )
                        &&& final(self)@[i].accumulator.accumulated@
                            == old(self)@[i].accumulator.accumulated@
                    },
                None => {
                    &&& final(self)@ == old(self)@
                    &&& exists|i: int|
                        0 <= i < old(self)@.len() && (#[trigger] old(self)@[i]).bucket_start == k
                            && old(self)@[i].accumulator.privacy_budget == max_batch_lifetime
                },
            },
    {
        let i = match self.find(k) {
            Some(i) => i,
            None => {
                proof {
                    assert(false);
                }
                return None;
            },
        };
        if self.entries[i].accumulator.privacy_budget >= max_batch_lifetime {
            return None;
        }
        let mut entry = self.entries.remove(i);
        let share = clone_share(&entry.accumulator.accumulated);
        let contributions = entry.accumulator.contributions;
        entry.accumulator.privacy_budget = entry.accumulator.privacy_budget + 1;
        self.entries.insert(i, entry);
        proof {
            assert(self@ =~= old(self)@.update(
                i as int,
                AccumulatorEntry {
                    bucket_start: k,
                    accumulator: Accumulator {
                        accumulated: self@[i as int].accumulator.accumulated,
                        contributions: old(self)@[i as int].accumulator.contributions,
                        privacy_budget: (old(self)@[i as int].accumulator.privacy_budget + 1) as u64,
                    },
                },
            ));
        }
        Some((share, contributions))
    }
}

/// Adds one, stopping at the largest representable count.
fn saturating_inc(x: u64) -> (r: u64)
    ensures
        x < u64::MAX ==> r == x + 1,
        x == u64::MAX ==> r == x,
{
    if x < u64::MAX {
        x + 1
    } else {
        x
    }
}

/// The same share in a fresh vector.
pub fn clone_share(v: &Vec<u128>) -> (r: Vec<u128>)
    ensures
        r@ == v@,
{
    let mut out: Vec<u128> = Vec::new();
    let n = v.len();
    let mut i: usize = 0;
    while i < n
        invariant
            i <= n,
            n == v@.len(),
            out@ =~= v@.take(i as int),
        decreases n - i,
    {
        out.push(v[i]);
        proof {
            assert(out@ =~= v@.take(i + 1));
        }
        i = i + 1;
    }
    proof {
        assert(v@.take(n as int) =~= v@);
    }
    out
}

} // verus!
