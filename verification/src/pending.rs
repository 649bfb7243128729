//! The time-ordered queue of reports the Leader has prepared but not yet
//! verified with the Helper.
//!
//! The queue is kept strictly sorted by `(time, nonce)`; draining it hands
//! the entries to an aggregate round in exactly the order the wire
//! protocol requires, and leaves the queue empty.

use vstd::prelude::*;
use crate::messages::{Timestamp, EncryptedInputShare, ReportExtension, ts_lt};
use crate::vdaf::{PrepareStep, PrepareMessage};

verus! {

/// A report the Leader has accepted: its timestamp, the Leader's prepare
/// state and first prepare message, the Helper's still-encrypted share,
/// and the report's extensions. Ordered solely by timestamp.
pub struct StoredInputShare {
    pub timestamp: Timestamp,
    pub leader_state: PrepareStep,
    pub leader_verifier_message: PrepareMessage,
    pub encrypted_helper_share: EncryptedInputShare,
    pub extensions: Vec<ReportExtension>,
}

/// Entries are strictly increasing by `(time, nonce)`.
pub open spec fn entries_sorted(s: Seq<StoredInputShare>) -> bool {
    forall|i: int, j: int|
        0 <= i < j < s.len() ==> ts_lt(#[trigger] s[i].timestamp, #[trigger] s[j].timestamp)
}

/// The queue of pending reports.
pub struct PendingQueue {
    entries: Vec<StoredInputShare>,
}

impl View for PendingQueue {
    type V = Seq<StoredInputShare>;

    closed spec fn view(&self) -> Seq<StoredInputShare> {
        self.entries@
    }
}

impl PendingQueue {
    /// The queue's invariant: strictly sorted by timestamp.
    pub open spec fn wf(&self) -> bool {
        entries_sorted(self@)
    }

    /// An empty queue.
    pub fn new() -> (q: PendingQueue)
        ensures
            q@.len() == 0,
            q.wf(),
    {
        PendingQueue { entries: Vec::new() }
    }

    /// Number of pending reports.
    pub fn len(&self) -> (n: usize)
        ensures
            n == self@.len(),
    {
        self.entries.len()
    }

    /// Inserts `e` at its sorted position. An entry with the same
    /// timestamp as an existing one is not inserted: the queue's order
    /// must stay strict, as the Helper rejects ties.
    pub fn insert(&mut self, e: StoredInputShare) -> (inserted: bool)
        requires
            old(self).wf(),
        ensures
            final(self).wf(),
            inserted == !(exists|i: int|
                0 <= i < old(self)@.len() && (#[trigger] old(self)@[i]).timestamp == e.timestamp),
            inserted ==> exists|k: int|
                0 <= k <= old(self)@.len() && final(self)@ =~= old(self)@.insert(k, e),
            !inserted ==> final(self)@ == old(self)@,
            final(self)@.len() == old(self)@.len() + (if inserted { 1int } else { 0int }),
    {
        let n = self.entries.len();
        let mut i: usize = 0;
        while i < n && self.entries[i].timestamp.before(&e.timestamp)
            invariant
                i <= n,
                n == self@.len(),
                self.wf(),
                forall|j: int| 0 <= j < i ==> ts_lt((#[trigger] self@[j]).timestamp, e.timestamp),
            decreases n - i,
        {
            i = i + 1;
        }
        // Every entry before `i` is strictly below `e`; entry `i`, if any,
        // is not.
        if i < n {
            if !e.timestamp.before(&self.entries[i].timestamp) {
                // Neither is strictly below the other: equal timestamps, so
                // the entry is already represented.
                proof {
                    assert(old(self)@[i as int].timestamp == e.timestamp);
                }
                return false;
            }
        }
        self.entries.insert(i, e);
        proof {
            let s_old = old(self)@;
            let s_new = self@;
            let k = i as int;
            assert(s_new == s_old.insert(k, e));
            assert(forall|j: int| 0 <= j < k ==> s_new[j] == s_old[j]);
            assert(s_new[k] == e);
            assert(forall|j: int| k < j < s_new.len() ==> s_new[j] == s_old[j - 1]);
            assert forall|p: int, q: int|
                0 <= p < q < s_new.len() implies ts_lt(
                (#[trigger] s_new[p]).timestamp,
                (#[trigger] s_new[q]).timestamp,
            ) by {
                if p < k && q == k {
                } else if p == k && q > k {
                    assert(s_new[q] == s_old[q - 1]);
                    if q - 1 > k - 1 && k - 1 >= 0 {
                        assert(ts_lt(s_old[k - 1].timestamp, e.timestamp));
                    }
                } else if p < k && q > k {
                    assert(s_new[p] == s_old[p] && s_new[q] == s_old[q - 1]);
                } else if q < k {
                } else if p > k {
                    assert(s_new[p] == s_old[p - 1] && s_new[q] == s_old[q - 1]);
                }
            }
            assert forall|j: int|
                0 <= j < s_old.len() implies (#[trigger] s_old[j]).timestamp != e.timestamp by {
                if j < k {
                } else {
                    assert(s_old[j] == s_new[j + 1]);
                    assert(ts_lt(s_new[k].timestamp, s_new[j + 1].timestamp));
                }
            }
        }
        true
    }

    /// Hands out every entry in sorted order and leaves the queue empty.
    pub fn drain(&mut self) -> (out: Vec<StoredInputShare>)
        requires
            old(self).wf(),
        ensures
            out@ == old(self)@,
            final(self)@.len() == 0,
            final(self).wf(),
            entries_sorted(out@),
    {
        let mut out: Vec<StoredInputShare> = Vec::new();
        core::mem::swap(&mut out, &mut self.entries);
        out
    }
}

} // verus!
