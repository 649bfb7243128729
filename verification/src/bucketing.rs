//! Mapping of report timestamps to aligned batch buckets, and validation of
//! collect intervals.
//!
//! A bucket is the half-open time window `[k*d, (k+1)*d)` where `d` is the
//! task's minimum batch duration; a timestamp belongs to the bucket whose
//! start is the largest multiple of `d` not exceeding it.

use vstd::prelude::*;
use vstd::arithmetic::div_mod::{
    lemma_fundamental_div_mod, lemma_mod_self_0, lemma_mod_bound, lemma_mod_multiples_vanish,
    lemma_mod_decreases,
};

verus! {

/// Start of the bucket that the time `t` falls into, for bucket width `d`.
pub open spec fn bucket_of(t: int, d: int) -> int {
    t - t % d
}

/// The bucket start is itself mapped to the same bucket: `bucket` is
/// idempotent.
pub proof fn lemma_bucket_idempotent(t: int, d: int)
    requires
        d > 0,
    ensures
        bucket_of(bucket_of(t, d), d) == bucket_of(t, d),
{
    lemma_bucket_aligned(t, d);
    lemma_aligned_bucket_self(bucket_of(t, d), d);
}

/// Every bucket start is a multiple of the bucket width.
pub proof fn lemma_bucket_aligned(t: int, d: int)
    requires
        d > 0,
    ensures
        bucket_of(t, d) % d == 0,
{
    lemma_fundamental_div_mod(t, d);
    assert(bucket_of(t, d) == d * (t / d));
    lemma_mod_multiples_basic_int(t / d, d);
}

/// A time that is already a multiple of the width is its own bucket start.
pub proof fn lemma_aligned_bucket_self(t: int, d: int)
    requires
        d > 0,
        t % d == 0,
    ensures
        bucket_of(t, d) == t,
{
}

proof fn lemma_mod_multiples_basic_int(x: int, m: int)
    requires
        m > 0,
    ensures
        (m * x) % m == 0,
{
    lemma_mod_self_0(m);
    lemma_mod_multiples_vanish(x, 0, m);
}

/// Computes the aligned start of the bucket holding `time`.
pub fn bucket(time: u64, min_batch_duration: u64) -> (start: u64)
    requires
        min_batch_duration > 0,
    ensures
        start == bucket_of(time as int, min_batch_duration as int),
        start % min_batch_duration == 0,
        start <= time,
        time - start < min_batch_duration,
{
    proof {
        lemma_mod_bound(time as int, min_batch_duration as int);
        lemma_mod_decreases(time as nat, min_batch_duration as nat);
        lemma_bucket_aligned(time as int, min_batch_duration as int);
    }
    time - time % min_batch_duration
}

} // verus!
