//! The Leader's stateful aggregation engine.
//!
//! The Leader owns all mutable per-task state: the pending queue, the
//! accumulator store, and the opaque state the Helper asks it to retain.
//! The functions here compute every protocol decision; the surrounding
//! process only moves the resulting messages over HTTP. An aggregate round
//! is driven in two halves: [`Leader::begin_aggregate_round`] drains the
//! queue and builds the request, and after the Helper has answered,
//! [`Leader::finish_aggregate_round`] reconciles the response and folds the
//! verified output shares into the store. Collect queries are likewise
//! split into [`Leader::begin_collect`] and [`Leader::finish_collect`].

use vstd::prelude::*;
use crate::bucketing::bucket;
use crate::errors::{Error, RoundViolation};
use crate::fieldvec::{dec_share, merge_spec, share_wf};
use crate::messages::{
    clone_bytes, clone_extensions, CollectRequest, CollectResponse, EncryptedOutputShare,
    Interval, OutputShare, OutputShareRequest, Report, Timestamp, VerifyResponse,
    VerifyStartRequest, VerifyStartSubRequest, HELPER_INDEX, LEADER_INDEX,
};
use vstd::arithmetic::div_mod::{lemma_fundamental_div_mod, lemma_mod_multiples_vanish};
use vstd::arithmetic::mul::{lemma_mul_inequality, lemma_mul_is_distributive_sub_other_way};
use crate::parameters::{spec_validate_batch_interval, TaskParameters};
use crate::pending::{entries_sorted, PendingQueue, StoredInputShare};
use crate::sealing::{context_info, hpke_open, hpke_open_result, hpke_seal, spec_context_info, HpkeConfig, ROLE_COLLECTOR, ROLE_LEADER};
use crate::store::{has_bucket, store_wf, Accumulator, AccumulatorEntry, AccumulatorStore};
use crate::vdaf::{
    decode_input_share, decode_prepare_message, encode_prepare_message, input_share_decodes,
    leader_prepare_ok, vdaf_new, vdaf_prepare_finish, vdaf_prepare_leader, SumVdaf,
};

verus! {

/// Queue length at which an upload should trigger an aggregate round.
pub const UPLOAD_TRIGGER: usize = 10;

/// The strict wire order of sub-requests, mirrored from the queue.
pub open spec fn sub_requests_sorted(s: Seq<VerifyStartSubRequest>) -> bool {
    forall|i: int, j: int|
        0 <= i < j < s.len() ==> crate::messages::ts_lt(
            (#[trigger] s[i]).timestamp,
            (#[trigger] s[j]).timestamp,
        )
}

/// The structural checks a report must pass before its share is opened:
/// the configured task, exactly two role-indexed shares, and the Leader's
/// current configuration id.
pub open spec fn upload_checks_pass(leader: Leader, report: Report) -> bool {
    &&& report.task_id@ == leader.parameters.task_id@
    &&& report.encrypted_input_shares@.len() == 2
    &&& report.encrypted_input_shares@[LEADER_INDEX as int].config_id == leader.hpke_config.id
}

/// What opening the report's Leader share yields under the Leader's key
/// and this report's binding.
pub open spec fn upload_open_result(leader: Leader, report: Report) -> Option<Seq<u8>> {
    hpke_open_result(
        leader.hpke_config.private_key@,
        report.encrypted_input_shares@[LEADER_INDEX as int].encapsulated_context@,
        spec_context_info(leader.parameters.task_id@, leader.hpke_config.id, ROLE_LEADER),
        report.encrypted_input_shares@[LEADER_INDEX as int].payload@,
        crate::sealing::spec_report_ad(report.time, report.nonce),
    )
}

/// Whether `k` is the bucket start of some report of the round.
pub open spec fn round_key(entries: Seq<StoredInputShare>, d: u64, k: u64) -> bool {
    exists|i: int|
        0 <= i < entries.len() && crate::bucketing::bucket_of(
            (#[trigger] entries[i]).timestamp.time as int,
            d as int,
        ) == k
}

/// How an aggregate round may change the store: existing buckets keep their
/// key and privacy budget and never lose contributions; a bucket whose key
/// no round report maps to is exactly unchanged; buckets appended by the
/// round sit at round keys with a zero budget.
pub open spec fn round_folds(
    oldb: Seq<AccumulatorEntry>,
    newb: Seq<AccumulatorEntry>,
    entries: Seq<StoredInputShare>,
    d: u64,
) -> bool {
    &&& newb.len() >= oldb.len()
    &&& forall|j: int|
        0 <= j < oldb.len() ==> {
            &&& (#[trigger] newb[j]).bucket_start == oldb[j].bucket_start
            &&& newb[j].accumulator.privacy_budget == oldb[j].accumulator.privacy_budget
            &&& newb[j].accumulator.contributions >= oldb[j].accumulator.contributions
            &&& (!round_key(entries, d, oldb[j].bucket_start)
                ==> newb[j].accumulator.contributions == oldb[j].accumulator.contributions
                    && newb[j].accumulator.accumulated@ == oldb[j].accumulator.accumulated@)
        }
    &&& forall|j: int|
        oldb.len() <= j < newb.len() ==> {
            &&& round_key(entries, d, (#[trigger] newb[j]).bucket_start)
            &&& newb[j].accumulator.privacy_budget == 0
        }
}

/// An unchanged store satisfies the round relation.
proof fn lemma_round_folds_refl(s: Seq<AccumulatorEntry>, entries: Seq<StoredInputShare>, d: u64)
    ensures
        round_folds(s, s, entries, d),
{
}

/// One fold of `share` at `key`: a present bucket has the share merged into
/// its aggregate and its contribution counted with the budget untouched; an
/// absent bucket is appended fresh.
pub open spec fn fold_step(
    pre: Seq<AccumulatorEntry>,
    post: Seq<AccumulatorEntry>,
    key: u64,
    share: Seq<u128>,
) -> bool {
    if has_bucket(pre, key) {
        exists|i: int|
            {
                &&& 0 <= i < pre.len()
                &&& (#[trigger] pre[i]).bucket_start == key
                &&& post.len() == pre.len()
                &&& (forall|j: int| 0 <= j < pre.len() && j != i ==> post[j] == pre[j])
                &&& post[i].bucket_start == key
                &&& post[i].accumulator.accumulated@ == merge_spec(
                    pre[i].accumulator.accumulated@,
                    share,
                )
                &&& post[i].accumulator.privacy_budget == pre[i].accumulator.privacy_budget
                &&& post[i].accumulator.contributions >= pre[i].accumulator.contributions
                &&& (pre[i].accumulator.contributions < u64::MAX
                    ==> post[i].accumulator.contributions == pre[i].accumulator.contributions
                        + 1)
            }
    } else {
        &&& post.len() == pre.len() + 1
        &&& (forall|j: int| 0 <= j < pre.len() ==> post[j] == pre[j])
        &&& post[pre.len() as int].bucket_start == key
        &&& post[pre.len() as int].accumulator.accumulated@ == share
        &&& post[pre.len() as int].accumulator.contributions == 1
        &&& post[pre.len() as int].accumulator.privacy_budget == 0
    }
}

/// The store `newb` is `oldb` after exactly the folds of `trace`, applied
/// in order; `states` holds every intermediate store, oldest first.
pub open spec fn folds_chain(
    oldb: Seq<AccumulatorEntry>,
    newb: Seq<AccumulatorEntry>,
    trace: Seq<(u64, Seq<u128>)>,
    states: Seq<Seq<AccumulatorEntry>>,
) -> bool {
    &&& states.len() == trace.len() + 1
    &&& states.first() == oldb
    &&& states.last() == newb
    &&& forall|t: int|
        0 <= t < trace.len() ==> fold_step(
            #[trigger] states[t],
            states[t + 1],
            trace[t].0,
            trace[t].1,
        )
}

/// Whether some entry sits at the mathematical key `key`.
pub open spec fn has_bucket_at(s: Seq<AccumulatorEntry>, key: int) -> bool {
    exists|i: int| 0 <= i < s.len() && (#[trigger] s[i]).bucket_start as int == key
}

/// The entry at the mathematical key `key`.
pub open spec fn entry_at(s: Seq<AccumulatorEntry>, key: int) -> AccumulatorEntry
    recommends
        has_bucket_at(s, key),
{
    s[choose|i: int| 0 <= i < s.len() && (#[trigger] s[i]).bucket_start as int == key]
}

/// The total contributions of the present buckets among the first `upto`
/// widths of the interval starting at `start`.
pub open spec fn sum_contributions_upto(
    s: Seq<AccumulatorEntry>,
    start: int,
    d: int,
    upto: int,
) -> int
    decreases upto,
{
    if upto <= 0 {
        0
    } else {
        sum_contributions_upto(s, start, d, upto - 1) + (if has_bucket_at(
            s,
            start + (upto - 1) * d,
        ) {
            entry_at(s, start + (upto - 1) * d).accumulator.contributions as int
        } else {
            0
        })
    }
}

/// The merge-fold of the aggregate shares of the present buckets among the
/// first `upto` widths of the interval, in ascending key order; `None`
/// while no bucket is present.
pub open spec fn fold_accumulated_upto(
    s: Seq<AccumulatorEntry>,
    start: int,
    d: int,
    upto: int,
) -> Option<Seq<u128>>
    decreases upto,
{
    if upto <= 0 {
        None
    } else {
        let prev = fold_accumulated_upto(s, start, d, upto - 1);
        if has_bucket_at(s, start + (upto - 1) * d) {
            let a = entry_at(s, start + (upto - 1) * d).accumulator.accumulated@;
            match prev {
                None => Some(a),
                Some(v) => Some(merge_spec(v, a)),
            }
        } else {
            prev
        }
    }
}

/// A nonnegative total clipped to the largest representable count.
pub open spec fn sat64(x: int) -> u64 {
    if x > u64::MAX {
        u64::MAX
    } else if x < 0 {
        0
    } else {
        x as u64
    }
}

/// Whether some bucket of the interval has spent its whole privacy budget.
pub open spec fn interval_exhausted(s: Seq<AccumulatorEntry>, interval: Interval, max_batch_lifetime: u64) -> bool {
    exists|i: int|
        0 <= i < s.len() && in_interval((#[trigger] s[i]).bucket_start, interval)
            && s[i].accumulator.privacy_budget == max_batch_lifetime
}

proof fn lemma_fold_none_sum_zero(s: Seq<AccumulatorEntry>, start: int, d: int, upto: int)
    requires
        fold_accumulated_upto(s, start, d, upto) is None,
    ensures
        sum_contributions_upto(s, start, d, upto) == 0,
    decreases upto,
{
    if upto > 0 {
        lemma_fold_none_sum_zero(s, start, d, upto - 1);
    }
}

proof fn lemma_sum_upto_nonneg(s: Seq<AccumulatorEntry>, start: int, d: int, upto: int)
    ensures
        sum_contributions_upto(s, start, d, upto) >= 0,
    decreases upto,
{
    if upto > 0 {
        lemma_sum_upto_nonneg(s, start, d, upto - 1);
    }
}

/// A store that was charged across the whole interval has no exhausted
/// bucket left to report: an at-limit bucket would have been charged past
/// the lifetime, which the store's invariant forbids.
proof fn lemma_charged_means_not_exhausted(
    oldb: Seq<AccumulatorEntry>,
    newb: Seq<AccumulatorEntry>,
    interval: Interval,
    num: int,
    d: u64,
    max_batch_lifetime: u64,
)
    requires
        d > 0,
        num >= 0,
        interval.duration == d * num,
        charged_in(oldb, newb, interval, num, d),
        store_wf(newb, d, max_batch_lifetime),
    ensures
        !interval_exhausted(oldb, interval, max_batch_lifetime),
{
    vstd::arithmetic::mul::lemma_mul_is_commutative(d as int, num);
    if interval_exhausted(oldb, interval, max_batch_lifetime) {
        let i = choose|i: int|
            0 <= i < oldb.len() && in_interval((#[trigger] oldb[i]).bucket_start, interval)
                && oldb[i].accumulator.privacy_budget == max_batch_lifetime;
        assert(interval.start <= oldb[i].bucket_start < interval.start + num * d);
        assert(newb[i].accumulator.privacy_budget == max_batch_lifetime + 1);
        assert(newb[i].accumulator.privacy_budget <= max_batch_lifetime);
        assert(false);
    }
}

/// The Leader's state for one task.
pub struct Leader {
    /// The task's immutable configuration.
    pub parameters: TaskParameters,
    /// The HPKE configuration this Leader advertises to clients.
    pub hpke_config: HpkeConfig,
    /// The validity-proof scheme instance.
    pub vdaf: SumVdaf,
    /// Reports accepted but not yet sent to the Helper.
    pub unaggregated_inputs: PendingQueue,
    /// Reports drained into the aggregate round now in flight.
    pub in_flight: Vec<StoredInputShare>,
    /// Per-bucket aggregates.
    pub accumulators: AccumulatorStore,
    /// Opaque state the Helper returned at the end of the last round.
    pub helper_state: Vec<u8>,
}

impl Leader {
    /// The reports accepted but not yet sent to the Helper.
    pub open spec fn pending(&self) -> Seq<StoredInputShare> {
        self.unaggregated_inputs@
    }

    /// The reports drained into the aggregate round now in flight.
    pub open spec fn round_entries(&self) -> Seq<StoredInputShare> {
        self.in_flight@
    }

    /// The accumulator store's entries.
    pub open spec fn buckets(&self) -> Seq<AccumulatorEntry> {
        self.accumulators@
    }

    /// The Leader's invariant: well-formed parameters, a strictly sorted
    /// queue, and an aligned, budget-respecting store.
    pub open spec fn wf(&self) -> bool {
        &&& self.parameters.wf()
        &&& entries_sorted(self.pending())
        &&& store_wf(
            self.buckets(),
            self.parameters.min_batch_duration,
            self.parameters.max_batch_lifetime,
        )
    }

    /// A fresh Leader for one task: empty queue, empty store, no Helper
    /// state.
    pub fn new(parameters: TaskParameters, hpke_config: HpkeConfig) -> (r: Option<Leader>)
        requires
            parameters.wf(),
        ensures
            r is Some,
            match r {
                Some(leader) => {
                    &&& leader.wf()
                    &&& leader.parameters == parameters
                    &&& leader.hpke_config == hpke_config
                    &&& leader.pending().len() == 0
                    &&& leader.round_entries().len() == 0
                    &&& leader.buckets().len() == 0
                    &&& leader.helper_state@.len() == 0
                },
                None => false,
            },
    {
        let vdaf = match vdaf_new() {
            Some(v) => v,
            None => {
                proof {
                    assert(false);
                }
                return None;
            },
        };
        Some(
            Leader {
                parameters,
                hpke_config,
                vdaf,
                unaggregated_inputs: PendingQueue::new(),
                in_flight: Vec::new(),
                accumulators: AccumulatorStore::new(),
                helper_state: Vec::new(),
            },
        )
    }

    /// How many reports wait for the next aggregate round.
    pub fn pending_len(&self) -> (n: usize)
        ensures
            n == self.pending().len(),
    {
        self.unaggregated_inputs.len()
    }

    /// Whether enough reports have queued up for a round.
    pub fn round_due(&self) -> (r: bool)
        ensures
            r == (self.pending().len() >= UPLOAD_TRIGGER),
    {
        self.unaggregated_inputs.len() >= UPLOAD_TRIGGER
    }

    /// Accepts one report: checks the task id and configuration id, opens
    /// the Leader's input share, prepares it, and queues the result. The
    /// report is rejected with the exact error the protocol prescribes; a
    /// report whose `(time, nonce)` is already queued is accepted without
    /// being queued twice.
    pub fn handle_upload(&mut self, report: &Report) -> (r: Result<(), Error>)
        requires
            old(self).wf(),
        ensures
            final(self).wf(),
            final(self).parameters == old(self).parameters,
            final(self).hpke_config == old(self).hpke_config,
            final(self).helper_state == old(self).helper_state,
            final(self).buckets() == old(self).buckets(),
            final(self).round_entries() == old(self).round_entries(),
            r is Err ==> final(self).pending() == old(self).pending(),
            (r matches Err(Error::UnrecognizedTask(t)) && t@ == report.task_id@) <==> report.task_id@
                != old(self).parameters.task_id@,
            report.task_id@ == old(self).parameters.task_id@
                && report.encrypted_input_shares@.len() != 2 ==> r == Err::<(), Error>(
                Error::JsonParse,
            ),
            (r matches Err(Error::UnknownHpkeConfig(c)) && report.encrypted_input_shares@.len() == 2
                && c == report.encrypted_input_shares@[LEADER_INDEX as int].config_id) <==> {
                &&& report.task_id@ == old(self).parameters.task_id@
                &&& report.encrypted_input_shares@.len() == 2
                &&& report.encrypted_input_shares@[LEADER_INDEX as int].config_id != old(
                    self,
                ).hpke_config.id
            },
            r == Err::<(), Error>(Error::Encryption) <==> upload_checks_pass(*old(self), *report)
                && upload_open_result(*old(self), *report) is None,
            r == Err::<(), Error>(Error::JsonParse) <==> {
                ||| (report.task_id@ == old(self).parameters.task_id@
                    && report.encrypted_input_shares@.len() != 2)
                ||| (upload_checks_pass(*old(self), *report) && (match upload_open_result(
                    *old(self),
                    *report,
                ) {
                    Some(p) => !input_share_decodes(p),
                    None => false,
                }))
            },
            r == Err::<(), Error>(Error::Vdaf) <==> upload_checks_pass(*old(self), *report)
                && (match upload_open_result(*old(self), *report) {
                Some(p) => input_share_decodes(p) && !leader_prepare_ok(
                    crate::sealing::spec_report_ad(report.time, report.nonce),
                    p,
                ),
                None => false,
            }),
            r is Ok <==> upload_checks_pass(*old(self), *report) && (match upload_open_result(
                *old(self),
                *report,
            ) {
                Some(p) => input_share_decodes(p) && leader_prepare_ok(
                    crate::sealing::spec_report_ad(report.time, report.nonce),
                    p,
                ),
                None => false,
            }),
            r is Ok && (exists|i: int|
                0 <= i < old(self).pending().len() && (#[trigger] old(self).pending()[i]).timestamp
                    == (Timestamp { time: report.time, nonce: report.nonce }))
                ==> final(self).pending() == old(self).pending(),
            r is Ok && !(exists|i: int|
                0 <= i < old(self).pending().len() && (#[trigger] old(self).pending()[i]).timestamp
                    == (Timestamp { time: report.time, nonce: report.nonce })) ==> exists|k: int|
                {
                    &&& 0 <= k <= old(self).pending().len()
                    &&& final(self).pending() =~= old(self).pending().insert(
                        k,
                        final(self).pending()[k],
                    )
                    &&& final(self).pending()[k].timestamp == (Timestamp {
                        time: report.time,
                        nonce: report.nonce,
                    })
                    &&& final(self).pending()[k].encrypted_helper_share@
                        == report.encrypted_input_shares@[HELPER_INDEX as int]@
                    &&& final(self).pending()[k].extensions@.len() == report.extensions@.len()
                    &&& forall|j: int|
                        0 <= j < report.extensions@.len()
                            ==> (#[trigger] final(self).pending()[k].extensions@[j])@
                            == report.extensions@[j]@
                },
    {
        if !report.task_id.matches(&self.parameters.task_id) {
            return Err(Error::UnrecognizedTask(report.task_id.duplicate()));
        }
        if report.encrypted_input_shares.len() != 2 {
            return Err(Error::JsonParse);
        }
        let leader_share = &report.encrypted_input_shares[LEADER_INDEX];
        if leader_share.config_id != self.hpke_config.id {
            return Err(Error::UnknownHpkeConfig(leader_share.config_id));
        }

        // Open the Leader's input share, bound to this report's timestamp.
        let ad = report.associated_data();
        let info = context_info(&self.parameters.task_id, self.hpke_config.id, ROLE_LEADER);
        let plaintext = match hpke_open(
            &self.hpke_config.private_key,
            &leader_share.encapsulated_context,
            &info,
            &leader_share.payload,
            &ad,
        ) {
            Some(p) => p,
            None => {
                return Err(Error::Encryption);
            },
        };

        // Decode the opened bytes as the scheme's input share; a share that
        // does not decode is an unrecognized message, while one that decodes
        // but fails preparation is a protocol error.
        if decode_input_share(&plaintext).is_none() {
            return Err(Error::JsonParse);
        }
        let (state, leader_verifier_message) = match vdaf_prepare_leader(
            &self.vdaf,
            &ad,
            &plaintext,
        ) {
            Some(p) => p,
            None => {
                return Err(Error::Vdaf);
            },
        };

        let entry = StoredInputShare {
            timestamp: report.timestamp(),
            leader_state: state,
            leader_verifier_message,
            encrypted_helper_share: report.encrypted_input_shares[HELPER_INDEX].duplicate(),
            extensions: clone_extensions(&report.extensions),
        };
        let ghost queued = entry;
        let ghost before = self.unaggregated_inputs@;
        let inserted = self.unaggregated_inputs.insert(entry);
        proof {
            if inserted {
                let k = choose|k: int|
                    0 <= k <= before.len() && self.unaggregated_inputs@ =~= before.insert(
                        k,
                        queued,
                    );
                assert(self.unaggregated_inputs@[k] == queued);
                assert(self.unaggregated_inputs@ =~= before.insert(
                    k,
                    self.unaggregated_inputs@[k],
                ));
                assert(queued.encrypted_helper_share@
                    == report.encrypted_input_shares@[HELPER_INDEX as int]@);
                assert(queued.timestamp == (Timestamp {
                    time: report.time,
                    nonce: report.nonce,
                }));
                assert(queued.extensions@.len() == report.extensions@.len());
                assert(forall|j: int|
                    0 <= j < report.extensions@.len()
                        ==> (#[trigger] self.unaggregated_inputs@[k].extensions@[j])@
                        == report.extensions@[j]@);
                assert(before == old(self).pending());
                assert(exists|k2: int|
                    {
                        &&& 0 <= k2 <= old(self).pending().len()
                        &&& self.pending() =~= old(self).pending().insert(
                            k2,
                            self.pending()[k2],
                        )
                        &&& self.pending()[k2].timestamp == (Timestamp {
                            time: report.time,
                            nonce: report.nonce,
                        })
                        &&& self.pending()[k2].encrypted_helper_share@
                            == report.encrypted_input_shares@[HELPER_INDEX as int]@
                        &&& self.pending()[k2].extensions@.len() == report.extensions@.len()
                        &&& forall|j: int|
                            0 <= j < report.extensions@.len()
                                ==> (#[trigger] self.pending()[k2].extensions@[j])@
                                == report.extensions@[j]@
                    }) by {
                    assert(self.pending() == self.unaggregated_inputs@);
                    assert(0 <= k <= old(self).pending().len());
                    assert(self.pending()[k] == queued);
                    assert(self.pending() =~= old(self).pending().insert(k, self.pending()[k]));
                    assert(forall|j: int|
                        0 <= j < report.extensions@.len()
                            ==> (#[trigger] self.pending()[k].extensions@[j])@
                            == report.extensions@[j]@);
                }
            } else {
                let i = choose|i: int|
                    0 <= i < before.len() && (#[trigger] before[i]).timestamp == queued.timestamp;
                assert(0 <= i < old(self).pending().len());
                assert((old(self).pending()[i]).timestamp == (Timestamp {
                    time: report.time,
                    nonce: report.nonce,
                }));
            }
        }
        Ok(())
    }

    /// Starts an aggregate round: drains the queue into the in-flight list
    /// and builds the verify-start request. Its sub-requests mirror the
    /// drained entries one for one, strictly increasing in `(time, nonce)`,
    /// each carrying the entry's encoded first prepare message, its
    /// still-encrypted Helper share and its extensions. Draining is a
    /// consumption event: the queue stays empty whatever becomes of the
    /// round.
    pub fn begin_aggregate_round(&mut self) -> (req: VerifyStartRequest)
        requires
            old(self).wf(),
            old(self).round_entries().len() == 0,
        ensures
            final(self).wf(),
            final(self).parameters == old(self).parameters,
            final(self).hpke_config == old(self).hpke_config,
            final(self).helper_state == old(self).helper_state,
            final(self).buckets() == old(self).buckets(),
            final(self).pending().len() == 0,
            final(self).round_entries() == old(self).pending(),
            req.task_id@ == old(self).parameters.task_id@,
            req.aggregation_parameter is None,
            req.helper_state@ == old(self).helper_state@,
            req.sub_requests@.len() == old(self).pending().len(),
            forall|i: int|
                0 <= i < req.sub_requests@.len() ==> {
                    &&& (#[trigger] req.sub_requests@[i]).timestamp == old(
                        self,
                    ).pending()[i].timestamp
                    &&& req.sub_requests@[i].helper_share@ == old(
                        self,
                    ).pending()[i].encrypted_helper_share@
                    &&& req.sub_requests@[i].extensions@.len() == old(
                        self,
                    ).pending()[i].extensions@.len()
                    &&& forall|j: int|
                        0 <= j < req.sub_requests@[i].extensions@.len()
                            ==> (#[trigger] req.sub_requests@[i].extensions@[j])@ == old(
                            self,
                        ).pending()[i].extensions@[j]@
                },
            sub_requests_sorted(req.sub_requests@),
    {
        let leader_inputs = self.unaggregated_inputs.drain();

        let mut sub_requests: Vec<VerifyStartSubRequest> = Vec::new();
        let n = leader_inputs.len();
        let mut i: usize = 0;
        while i < n
            invariant
                i <= n,
                n == leader_inputs@.len(),
                entries_sorted(leader_inputs@),
                sub_requests@.len() == i,
                forall|j: int|
                    0 <= j < i ==> {
                        &&& (#[trigger] sub_requests@[j]).timestamp == leader_inputs@[j].timestamp
                        &&& sub_requests@[j].helper_share@
                            == leader_inputs@[j].encrypted_helper_share@
                        &&& sub_requests@[j].extensions@.len()
                            == leader_inputs@[j].extensions@.len()
                        &&& forall|l: int|
                            0 <= l < sub_requests@[j].extensions@.len()
                                ==> (#[trigger] sub_requests@[j].extensions@[l])@
                                == leader_inputs@[j].extensions@[l]@
                    },
                self.parameters == old(self).parameters,
                self.hpke_config == old(self).hpke_config,
                self.helper_state == old(self).helper_state,
                self.accumulators@ == old(self).buckets(),
                self.unaggregated_inputs@.len() == 0,
                self.in_flight@.len() == 0,
                self.parameters.wf(),
                store_wf(
                    self.accumulators@,
                    self.parameters.min_batch_duration,
                    self.parameters.max_batch_lifetime,
                ),
            decreases n - i,
        {
            let verify_message = encode_prepare_message(
                &leader_inputs[i].leader_verifier_message,
            ).unwrap();
            sub_requests.push(
                VerifyStartSubRequest {
                    timestamp: leader_inputs[i].timestamp,
                    extensions: clone_extensions(&leader_inputs[i].extensions),
                    verify_message,
                    helper_share: leader_inputs[i].encrypted_helper_share.duplicate(),
                },
            );
            i = i + 1;
        }

        let request = VerifyStartRequest {
            task_id: self.parameters.task_id.duplicate(),
            aggregation_parameter: None,
            helper_state: clone_bytes(&self.helper_state),
            sub_requests,
        };
        self.in_flight = leader_inputs;
        request
    }

    /// Finishes an aggregate round with the Helper's response: checks that
    /// the sub-responses mirror the sub-requests in number and order,
    /// finishes each report's preparation, folds the output shares of the
    /// reports whose proofs checked out into their buckets, and adopts the
    /// Helper's new state. A report whose proof fails is skipped; an
    /// ordering violation aborts the round before anything is folded. In
    /// every outcome the store changes only by a chain of folds of
    /// single-element shares at the round's bucket keys ([`folds_chain`]):
    /// in particular no privacy budget moves and no other bucket is
    /// touched ([`round_folds`]).
    pub fn finish_aggregate_round(&mut self, response: VerifyResponse) -> (r: Result<(), Error>)
        requires
            old(self).wf(),
        ensures
            final(self).wf(),
            final(self).parameters == old(self).parameters,
            final(self).hpke_config == old(self).hpke_config,
            final(self).pending() == old(self).pending(),
            final(self).round_entries().len() == 0,
            (r matches Err(Error::AggregateProtocol(RoundViolation::CountMismatch {
                wanted,
                got,
            })) && wanted == old(self).round_entries().len() && got
                == response.sub_responses@.len()) <==> response.sub_responses@.len() != old(
                self,
            ).round_entries().len(),
            r matches Err(Error::AggregateProtocol(_)) ==> final(self).buckets() == old(
                self,
            ).buckets(),
            r is Err ==> final(self).helper_state == old(self).helper_state,
            (match r {
                Err(Error::AggregateProtocol(RoundViolation::OrderMismatch { wanted, got })) => {
                    exists|i: int|
                        {
                            &&& 0 <= i < old(self).round_entries().len()
                            &&& (#[trigger] response.sub_responses@[i]).timestamp != old(
                                self,
                            ).round_entries()[i].timestamp
                            &&& wanted == old(self).round_entries()[i].timestamp
                            &&& got == response.sub_responses@[i].timestamp
                        }
                },
                _ => true,
            }),
            response.sub_responses@.len() == old(self).round_entries().len() && (exists|i: int|
                0 <= i < old(self).round_entries().len()
                    && (#[trigger] response.sub_responses@[i]).timestamp != old(
                self,
            ).round_entries()[i].timestamp) ==> r matches Err(
                Error::AggregateProtocol(RoundViolation::OrderMismatch { .. }),
            ),
            r is Ok ==> forall|i: int|
                0 <= i < old(self).round_entries().len()
                    ==> (#[trigger] response.sub_responses@[i]).timestamp == old(
                    self,
                ).round_entries()[i].timestamp,
            r is Ok ==> final(self).helper_state@ == response.helper_state@,
            r is Ok ==> response.sub_responses@.len() == old(self).round_entries().len(),
            round_folds(
                old(self).buckets(),
                final(self).buckets(),
                old(self).round_entries(),
                old(self).parameters.min_batch_duration,
            ),
            exists|trace: Seq<(u64, Seq<u128>)>, states: Seq<Seq<AccumulatorEntry>>|
                {
                    &&& #[trigger] folds_chain(
                        old(self).buckets(),
                        final(self).buckets(),
                        trace,
                        states,
                    )
                    &&& forall|t: int|
                        0 <= t < trace.len() ==> {
                            &&& round_key(
                                old(self).round_entries(),
                                old(self).parameters.min_batch_duration,
                                (#[trigger] trace[t]).0,
                            )
                            &&& trace[t].1.len() == 1
                            &&& share_wf(trace[t].1)
                        }
                },
            final(self).buckets().len() >= old(self).buckets().len(),
    {
        let ghost round = old(self).round_entries();
        let ghost d_spec = old(self).parameters.min_batch_duration;
        let mut leader_inputs: Vec<StoredInputShare> = Vec::new();
        core::mem::swap(&mut leader_inputs, &mut self.in_flight);

        let n = leader_inputs.len();
        if response.sub_responses.len() != n {
            proof {
                lemma_round_folds_refl(self.accumulators@, round, d_spec);
                assert(folds_chain(
                    old(self).buckets(),
                    self.accumulators@,
                    Seq::<(u64, Seq<u128>)>::empty(),
                    seq![old(self).buckets()],
                ));
            }
            return Err(
                Error::AggregateProtocol(
                    RoundViolation::CountMismatch {
                        wanted: n as u64,
                        got: response.sub_responses.len() as u64,
                    },
                ),
            );
        }

        // First reconcile the order of the whole response, so that a
        // protocol violation aborts the round before any fold.
        let mut i: usize = 0;
        while i < n
            invariant
                i <= n,
                n == leader_inputs@.len(),
                n == response.sub_responses@.len(),
                leader_inputs@ == old(self).round_entries(),
                forall|j: int|
                    0 <= j < i ==> (#[trigger] response.sub_responses@[j]).timestamp
                        == leader_inputs@[j].timestamp,
                self.parameters == old(self).parameters,
                self.hpke_config == old(self).hpke_config,
                self.helper_state == old(self).helper_state,
                self.accumulators@ == old(self).buckets(),
                self.unaggregated_inputs@ == old(self).pending(),
                self.in_flight@.len() == 0,
                entries_sorted(self.unaggregated_inputs@),
                self.parameters.wf(),
                store_wf(
                    self.accumulators@,
                    self.parameters.min_batch_duration,
                    self.parameters.max_batch_lifetime,
                ),
            decreases n - i,
        {
            let wanted = leader_inputs[i].timestamp;
            let got = response.sub_responses[i].timestamp;
            if wanted.time != got.time || wanted.nonce != got.nonce {
                proof {
                    lemma_round_folds_refl(
                        self.accumulators@,
                        old(self).round_entries(),
                        old(self).parameters.min_batch_duration,
                    );
                    assert(folds_chain(
                        old(self).buckets(),
                        self.accumulators@,
                        Seq::<(u64, Seq<u128>)>::empty(),
                        seq![old(self).buckets()],
                    ));
                }
                return Err(Error::AggregateProtocol(RoundViolation::OrderMismatch { wanted, got }));
            }
            i = i + 1;
        }
        proof {
            assert(forall|j: int|
                0 <= j < n ==> (#[trigger] response.sub_responses@[j]).timestamp == old(
                    self,
                ).round_entries()[j].timestamp);
        }

        // Every pair is aligned: finish each preparation and fold the
        // shares whose proofs checked out.
        let min_batch_duration = self.parameters.min_batch_duration;
        let max_batch_lifetime = self.parameters.max_batch_lifetime;
        let mut k: usize = 0;
        let mut leader_inputs = leader_inputs;
        let ghost mut trace: Seq<(u64, Seq<u128>)> = Seq::empty();
        let ghost mut states: Seq<Seq<AccumulatorEntry>> = seq![old(self).buckets()];
        proof {
            assert(leader_inputs@ =~= round.skip(0));
            lemma_round_folds_refl(self.accumulators@, round, d_spec);
            assert(folds_chain(old(self).buckets(), self.accumulators@, trace, states));
        }
        while k < n
            invariant
                k <= n,
                n == response.sub_responses@.len(),
                n == round.len(),
                round == old(self).round_entries(),
                d_spec == old(self).parameters.min_batch_duration,
                leader_inputs@ =~= round.skip(k as int),
                forall|j: int|
                    0 <= j < n ==> (#[trigger] response.sub_responses@[j]).timestamp
                        == round[j].timestamp,
                self.parameters == old(self).parameters,
                self.hpke_config == old(self).hpke_config,
                self.helper_state == old(self).helper_state,
                self.unaggregated_inputs@ == old(self).pending(),
                self.in_flight@.len() == 0,
                entries_sorted(self.unaggregated_inputs@),
                self.parameters.wf(),
                min_batch_duration == self.parameters.min_batch_duration,
                max_batch_lifetime == self.parameters.max_batch_lifetime,
                store_wf(self.accumulators@, min_batch_duration, max_batch_lifetime),
                round_folds(old(self).buckets(), self.accumulators@, round, d_spec),
                folds_chain(old(self).buckets(), self.accumulators@, trace, states),
                forall|t: int|
                    0 <= t < trace.len() ==> {
                        &&& round_key(round, d_spec, (#[trigger] trace[t]).0)
                        &&& trace[t].1.len() == 1
                        &&& share_wf(trace[t].1)
                    },
            decreases n - k,
        {
            let ghost k_old = k as int;
            let entry = leader_inputs.remove(0);
            proof {
                assert(entry == round.skip(k_old)[0]);
                assert(entry == round[k_old]);
                assert(leader_inputs@ =~= round.skip(k_old + 1));
            }
            let sub_response = &response.sub_responses[k];
            k = k + 1;
            let helper_message = match decode_prepare_message(&sub_response.verification_message) {
                Some(m) => m,
                None => {
                    return Err(Error::JsonParse);
                },
            };
            let output_share = match vdaf_prepare_finish(
                &self.vdaf,
                entry.leader_state,
                helper_message,
                entry.leader_verifier_message,
            ) {
                Some(s) => s,
                None => {
                    // The proof did not check out for this report: skip it
                    // and go on with the rest of the round.
                    continue;
                },
            };
            let interval_start = bucket(entry.timestamp.time, min_batch_duration);
            let ghost pre = self.accumulators@;
            let ghost shv = output_share@;
            let ghost trace_prev = trace;
            let ghost states_prev = states;
            self.accumulators.fold(
                interval_start,
                output_share,
                min_batch_duration,
                max_batch_lifetime,
            );
            proof {
                trace = trace.push((interval_start, shv));
                states = states.push(self.accumulators@);
                let oldb = old(self).buckets();
                let cur = self.accumulators@;
                assert(round_key(round, d_spec, interval_start)) by {
                    assert(crate::bucketing::bucket_of(
                        (round[k_old]).timestamp.time as int,
                        d_spec as int,
                    ) == interval_start);
                }
                if has_bucket(pre, interval_start) {
                    let w = choose|w: int|
                        0 <= w < pre.len() && (#[trigger] pre[w]).bucket_start == interval_start
                            && cur =~= pre.update(
                            w,
                            AccumulatorEntry {
                                bucket_start: interval_start,
                                accumulator: Accumulator {
                                    accumulated: cur[w].accumulator.accumulated,
                                    contributions: cur[w].accumulator.contributions,
                                    privacy_budget: pre[w].accumulator.privacy_budget,
                                },
                            },
                        );
                    assert(forall|j: int| 0 <= j < cur.len() && j != w ==> cur[j] == pre[j]);
                    assert(cur[w].bucket_start == interval_start);
                    assert(cur[w].accumulator.privacy_budget == pre[w].accumulator.privacy_budget);
                    assert(cur[w].accumulator.contributions >= pre[w].accumulator.contributions);
                    assert(round_folds(oldb, cur, round, d_spec));
                    assert(fold_step(pre, cur, interval_start, shv));
                } else {
                    assert(forall|j: int| 0 <= j < pre.len() ==> cur[j] == pre[j]);
                    assert(cur[pre.len() as int].bucket_start == interval_start);
                    assert(round_folds(oldb, cur, round, d_spec));
                    assert(fold_step(pre, cur, interval_start, shv));
                }
                assert(folds_chain(oldb, cur, trace, states)) by {
                    assert(trace.len() == trace_prev.len() + 1);
                    assert(states.len() == states_prev.len() + 1);
                    assert(states.first() == states_prev.first());
                    assert(states.last() == cur);
                    assert(trace.last() == (interval_start, shv));
                    assert(states[trace.len() - 1] == states_prev[trace.len() - 1]);
                    assert(states_prev.last() == pre);
                    assert(states[trace.len() - 1] == pre);
                    assert(states[trace.len() as int] == cur);
                    assert forall|t: int| 0 <= t < trace.len() implies fold_step(
                        #[trigger] states[t],
                        states[t + 1],
                        trace[t].0,
                        trace[t].1,
                    ) by {
                        if t < trace_prev.len() {
                            assert(states[t] == states_prev[t]);
                            assert(states[t + 1] == states_prev[t + 1]);
                            assert(trace[t] == trace_prev[t]);
                            assert(fold_step(
                                states_prev[t],
                                states_prev[t + 1],
                                trace_prev[t].0,
                                trace_prev[t].1,
                            ));
                        } else {
                            assert(t == trace_prev.len());
                            assert(states[t] == pre && states[t + 1] == cur);
                            assert(trace[t] == (interval_start, shv));
                        }
                    }
                }
                assert(forall|t: int| 0 <= t < trace_prev.len() ==> trace[t] == trace_prev[t]);
                assert(trace[trace.len() - 1] == (interval_start, shv));
            }
        }

        self.helper_state = response.helper_state;
        proof {
            assert(folds_chain(old(self).buckets(), self.buckets(), trace, states));
            assert(forall|t: int|
                0 <= t < trace.len() ==> {
                    &&& round_key(
                        old(self).round_entries(),
                        old(self).parameters.min_batch_duration,
                        (#[trigger] trace[t]).0,
                    )
                    &&& trace[t].1.len() == 1
                    &&& share_wf(trace[t].1)
                });
        }
        Ok(())
    }

    /// Answers the first half of a collect query: validates the interval
    /// and builds the output-share request for the Helper.
    pub fn begin_collect(&self, collect_request: &CollectRequest) -> (r: Result<
        OutputShareRequest,
        Error,
    >)
        requires
            self.wf(),
        ensures
            match r {
                Ok(osr) => {
                    &&& spec_validate_batch_interval(
                        collect_request.batch_interval,
                        self.parameters.min_batch_duration,
                    )
                    &&& osr.task_id@ == collect_request.task_id@
                    &&& osr.batch_interval == collect_request.batch_interval
                    &&& osr.helper_state@ == self.helper_state@
                },
                Err(e) => {
                    &&& e == Error::InvalidBatchInterval(collect_request.batch_interval)
                    &&& !spec_validate_batch_interval(
                        collect_request.batch_interval,
                        self.parameters.min_batch_duration,
                    )
                },
            },
    {
        if !self.parameters.validate_batch_interval(&collect_request.batch_interval) {
            return Err(Error::InvalidBatchInterval(collect_request.batch_interval));
        }
        Ok(
            OutputShareRequest {
                task_id: collect_request.task_id.duplicate(),
                batch_interval: collect_request.batch_interval,
                helper_state: clone_bytes(&self.helper_state),
            },
        )
    }

    /// Performs the state half of a collect query: charges one unit of
    /// privacy budget to every bucket of the interval that has
    /// contributions, requires the contributions to reach the minimum batch
    /// size, and merges the charged aggregate shares into the Leader's
    /// plain output share. Budget already charged is not given back when
    /// the batch turns out too small: a Collector cannot probe budgets with
    /// under-sized queries.
    pub fn collect_unsealed(&mut self, collect_request: &CollectRequest) -> (r: Result<
        OutputShare,
        Error,
    >)
        requires
            old(self).wf(),
            spec_validate_batch_interval(
                collect_request.batch_interval,
                old(self).parameters.min_batch_duration,
            ),
        ensures
            final(self).wf(),
            final(self).parameters == old(self).parameters,
            final(self).hpke_config == old(self).hpke_config,
            final(self).helper_state == old(self).helper_state,
            final(self).pending() == old(self).pending(),
            final(self).round_entries() == old(self).round_entries(),
            final(self).buckets().len() == old(self).buckets().len(),
            r is Err ==> (r matches Err(Error::PrivacyBudgetExceeded) || r matches Err(
                Error::InsufficientBatchSize(_),
            )),
            (r == Err::<OutputShare, Error>(Error::PrivacyBudgetExceeded)) <==> interval_exhausted(
                old(self).buckets(),
                collect_request.batch_interval,
                old(self).parameters.max_batch_lifetime,
            ),
            (match r {
                Err(Error::PrivacyBudgetExceeded) => true,
                _ => charged_in(
                    old(self).buckets(),
                    final(self).buckets(),
                    collect_request.batch_interval,
                    (collect_request.batch_interval.duration
                        / old(self).parameters.min_batch_duration) as int,
                    old(self).parameters.min_batch_duration,
                ),
            }),
            (match r {
                Err(Error::InsufficientBatchSize(t)) => {
                    &&& t == sat64(
                        sum_contributions_upto(
                            old(self).buckets(),
                            collect_request.batch_interval.start as int,
                            old(self).parameters.min_batch_duration as int,
                            (collect_request.batch_interval.duration
                                / old(self).parameters.min_batch_duration) as int,
                        ),
                    )
                    &&& t < old(self).parameters.min_batch_size
                },
                _ => true,
            }),
            r is Ok <==> !interval_exhausted(
                old(self).buckets(),
                collect_request.batch_interval,
                old(self).parameters.max_batch_lifetime,
            ) && sat64(
                sum_contributions_upto(
                    old(self).buckets(),
                    collect_request.batch_interval.start as int,
                    old(self).parameters.min_batch_duration as int,
                    (collect_request.batch_interval.duration
                        / old(self).parameters.min_batch_duration) as int,
                ),
            ) >= old(self).parameters.min_batch_size,
            (match r {
                Ok(os) => {
                    &&& os.contributions == sat64(
                        sum_contributions_upto(
                            old(self).buckets(),
                            collect_request.batch_interval.start as int,
                            old(self).parameters.min_batch_duration as int,
                            (collect_request.batch_interval.duration
                                / old(self).parameters.min_batch_duration) as int,
                        ),
                    )
                    &&& fold_accumulated_upto(
                        old(self).buckets(),
                        collect_request.batch_interval.start as int,
                        old(self).parameters.min_batch_duration as int,
                        (collect_request.batch_interval.duration
                            / old(self).parameters.min_batch_duration) as int,
                    ) matches Some(v)
                    &&& dec_share(os.sum@) == fold_accumulated_upto(
                        old(self).buckets(),
                        collect_request.batch_interval.start as int,
                        old(self).parameters.min_batch_duration as int,
                        (collect_request.batch_interval.duration
                            / old(self).parameters.min_batch_duration) as int,
                    )
                    &&& os.sum@.len() <= u32::MAX
                },
                _ => true,
            }),
    {
        let interval = collect_request.batch_interval;
        let d = self.parameters.min_batch_duration;
        let max_batch_lifetime = self.parameters.max_batch_lifetime;
        let num_buckets = interval.duration / d;
        let ghost oldb = old(self).buckets();
        let ghost start_s = interval.start as int;
        let ghost d_s = d as int;

        let mut acc: Option<Vec<u128>> = None;
        let mut total_contributions: u64 = 0;

        proof {
            lemma_fundamental_div_mod(interval.duration as int, d as int);
        }
        let mut idx: u64 = 0;
        while idx < num_buckets
            invariant
                d == self.parameters.min_batch_duration,
                max_batch_lifetime == self.parameters.max_batch_lifetime,
                self.parameters == old(self).parameters,
                self.hpke_config == old(self).hpke_config,
                self.helper_state == old(self).helper_state,
                self.unaggregated_inputs@ == old(self).pending(),
                self.in_flight@ == old(self).round_entries(),
                self.accumulators@.len() == old(self).buckets().len(),
                entries_sorted(self.unaggregated_inputs@),
                self.parameters.wf(),
                store_wf(self.accumulators@, d, max_batch_lifetime),
                store_wf(old(self).buckets(), d, max_batch_lifetime),
                interval == collect_request.batch_interval,
                spec_validate_batch_interval(interval, d),
                num_buckets == interval.duration / d,
                interval.duration == d * num_buckets,
                idx <= num_buckets,
                oldb == old(self).buckets(),
                start_s == interval.start as int,
                d_s == d as int,
                charged_in(old(self).buckets(), self.accumulators@, interval, idx as int, d),
                total_contributions == sat64(
                    sum_contributions_upto(oldb, start_s, d_s, idx as int),
                ),
                match acc {
                    Some(a) => a@.len() == 1 && share_wf(a@) && fold_accumulated_upto(
                        oldb,
                        start_s,
                        d_s,
                        idx as int,
                    ) == Some(a@),
                    None => fold_accumulated_upto(oldb, start_s, d_s, idx as int) is None,
                },
            decreases num_buckets - idx,
        {
            proof {
                lemma_mul_inequality(idx as int, num_buckets as int - 1, d as int);
                lemma_mul_is_distributive_sub_other_way(d as int, num_buckets as int, 1);
                vstd::arithmetic::mul::lemma_mul_is_commutative(d as int, num_buckets as int);
                assert((idx as int) * (d as int) <= (num_buckets as int - 1) * (d as int));
                assert((num_buckets as int - 1) * (d as int) == interval.duration - d);
                assert(interval.start + (idx as int) * (d as int) <= u64::MAX);
            }
            let key = interval.start + idx * d;
            proof {
                assert(((idx as int) + 1) * (d as int) == (idx as int) * (d as int) + (
                d as int)) by (nonlinear_arith);
                vstd::arithmetic::mul::lemma_mul_is_commutative(idx as int, d as int);
                lemma_mod_multiples_vanish(idx as int, interval.start as int, d as int);
                assert(key % d == 0);
                lemma_sum_upto_nonneg(oldb, start_s, d_s, idx as int);
            }
            let ghost mid = self.accumulators@;
            if self.accumulators.contains(key) {
                proof {
                    // The key is present in the old store at the same index.
                    let j = choose|j: int|
                        0 <= j < mid.len() && (#[trigger] mid[j]).bucket_start == key;
                    assert(oldb[j].bucket_start == key);
                    assert(has_bucket_at(oldb, key as int));
                }
                match self.accumulators.charge(key, max_batch_lifetime, d) {
                    Some((share, contributions)) => {
                        assert(share@.len() == 1 && share_wf(share@));
                        proof {
                            lemma_charged_in_step_present(
                                old(self).buckets(),
                                mid,
                                self.accumulators@,
                                interval,
                                idx as int,
                                d,
                                key,
                            );
                            // The charged entry is the old store's entry at
                            // this key.
                            let i = choose|i: int|
                                {
                                    &&& 0 <= i < mid.len()
                                    &&& (#[trigger] mid[i]).bucket_start == key
                                    &&& mid[i].accumulator.privacy_budget < max_batch_lifetime
                                    &&& share@ == mid[i].accumulator.accumulated@
                                    &&& contributions == mid[i].accumulator.contributions
                                };
                            assert(oldb[i].bucket_start == key);
                            assert(share@ == oldb[i].accumulator.accumulated@);
                            assert(contributions == oldb[i].accumulator.contributions);
                            let c = choose|c: int|
                                0 <= c < oldb.len() && (#[trigger] oldb[c]).bucket_start as int
                                    == key as int;
                            assert(c == i);
                            assert(entry_at(oldb, key as int) == oldb[i]);
                        }
                        match &mut acc {
                            Some(a) => {
                                let ok = crate::fieldvec::merge_into(a, &share);
                                assert(ok);
                            },
                            None => {
                                acc = Some(share);
                            },
                        }
                        let ghost sum_old = sum_contributions_upto(oldb, start_s, d_s, idx as int);
                        total_contributions = saturating_add(total_contributions, contributions);
                        proof {
                            assert(sum_contributions_upto(oldb, start_s, d_s, idx as int + 1)
                                == sum_old + contributions);
                            if sum_old > u64::MAX {
                                assert(total_contributions == sat64(sum_old + contributions));
                            } else {
                                assert(total_contributions == sat64(sum_old + contributions));
                            }
                        }
                    },
                    None => {
                        // A bucket of the interval is out of privacy
                        // budget; charges already made stay made, and the
                        // bucket was at the limit before this query began.
                        proof {
                            assert(in_interval(key, interval));
                            let st = self.accumulators@;
                            let w = choose|w: int|
                                0 <= w < st.len() && (#[trigger] st[w]).bucket_start == key
                                    && st[w].accumulator.privacy_budget == max_batch_lifetime;
                            assert(oldb[w].bucket_start == key);
                            assert(oldb[w].accumulator.privacy_budget == max_batch_lifetime);
                            assert(in_interval((oldb[w]).bucket_start, interval));
                            assert(interval_exhausted(oldb, interval, max_batch_lifetime));
                        }
                        return Err(Error::PrivacyBudgetExceeded);
                    },
                }
            } else {
                proof {
                    lemma_charged_in_step_absent(
                        old(self).buckets(),
                        self.accumulators@,
                        interval,
                        idx as int,
                        d,
                        key,
                    );
                    assert(!has_bucket_at(oldb, key as int)) by {
                        if has_bucket_at(oldb, key as int) {
                            let j = choose|j: int|
                                0 <= j < oldb.len() && (#[trigger] oldb[j]).bucket_start as int
                                    == key as int;
                            assert(self.accumulators@[j].bucket_start == key);
                            assert(has_bucket(self.accumulators@, key));
                        }
                    }
                }
            }
            idx = idx + 1;
        }
        proof {
            lemma_charged_means_not_exhausted(
                oldb,
                self.accumulators@,
                interval,
                num_buckets as int,
                d,
                max_batch_lifetime,
            );
            lemma_sum_upto_nonneg(oldb, start_s, d_s, num_buckets as int);
        }

        if total_contributions < self.parameters.min_batch_size {
            return Err(Error::InsufficientBatchSize(total_contributions));
        }

        let merged = match acc {
            Some(a) => a,
            None => {
                // With a positive minimum batch size an empty fold cannot
                // reach this point.
                proof {
                    lemma_fold_none_sum_zero(oldb, start_s, d_s, num_buckets as int);
                    assert(false);
                }
                return Err(Error::InsufficientBatchSize(0));
            },
        };

        let output_share = OutputShare {
            sum: crate::fieldvec::encode_share(&merged),
            contributions: total_contributions,
        };
        proof {
            crate::fieldvec::lemma_share_round_trip(merged@);
        }
        Ok(output_share)
    }

    /// Answers the second half of a collect query, after the Helper has
    /// handed over its encrypted output share: performs the collect on the
    /// store through [`Leader::collect_unsealed`], encodes exactly that
    /// output share, seals it to the Collector bound to the interval, and
    /// answers with the two encrypted shares, Leader first.
    pub fn finish_collect(
        &mut self,
        collect_request: &CollectRequest,
        helper_share: EncryptedOutputShare,
    ) -> (r: Result<CollectResponse, Error>)
        requires
            old(self).wf(),
            spec_validate_batch_interval(
                collect_request.batch_interval,
                old(self).parameters.min_batch_duration,
            ),
        ensures
            final(self).wf(),
            final(self).parameters == old(self).parameters,
            final(self).hpke_config == old(self).hpke_config,
            final(self).helper_state == old(self).helper_state,
            final(self).pending() == old(self).pending(),
            final(self).round_entries() == old(self).round_entries(),
            final(self).buckets().len() == old(self).buckets().len(),
            r is Err ==> (r matches Err(Error::PrivacyBudgetExceeded) || r matches Err(
                Error::InsufficientBatchSize(_),
            ) || r matches Err(Error::Encryption)),
            (r == Err::<CollectResponse, Error>(Error::PrivacyBudgetExceeded))
                <==> interval_exhausted(
                old(self).buckets(),
                collect_request.batch_interval,
                old(self).parameters.max_batch_lifetime,
            ),
            (match r {
                Err(Error::PrivacyBudgetExceeded) => true,
                _ => charged_in(
                    old(self).buckets(),
                    final(self).buckets(),
                    collect_request.batch_interval,
                    (collect_request.batch_interval.duration
                        / old(self).parameters.min_batch_duration) as int,
                    old(self).parameters.min_batch_duration,
                ),
            }),
            (match r {
                Err(Error::InsufficientBatchSize(t)) => {
                    &&& t == sat64(
                        sum_contributions_upto(
                            old(self).buckets(),
                            collect_request.batch_interval.start as int,
                            old(self).parameters.min_batch_duration as int,
                            (collect_request.batch_interval.duration
                                / old(self).parameters.min_batch_duration) as int,
                        ),
                    )
                    &&& t < old(self).parameters.min_batch_size
                },
                _ => true,
            }),
            (r is Ok || r == Err::<CollectResponse, Error>(Error::Encryption))
                <==> !interval_exhausted(
                old(self).buckets(),
                collect_request.batch_interval,
                old(self).parameters.max_batch_lifetime,
            ) && sat64(
                sum_contributions_upto(
                    old(self).buckets(),
                    collect_request.batch_interval.start as int,
                    old(self).parameters.min_batch_duration as int,
                    (collect_request.batch_interval.duration
                        / old(self).parameters.min_batch_duration) as int,
                ),
            ) >= old(self).parameters.min_batch_size,
            r is Ok ==> (match r {
                Ok(resp) => {
                    &&& resp.encrypted_output_shares@.len() == 2
                    &&& resp.encrypted_output_shares@[HELPER_INDEX as int] == helper_share
                    &&& resp.encrypted_output_shares@[LEADER_INDEX as int].collector_hpke_config_id
                        == old(self).parameters.collector_config.id
                },
                Err(_) => false,
            }),
    {
        let interval = collect_request.batch_interval;
        let output_share = match self.collect_unsealed(collect_request) {
            Ok(os) => os,
            Err(e) => {
                return Err(e);
            },
        };

        let plaintext = crate::codec::encode_output_share(&output_share);
        let info = context_info(
            &self.parameters.task_id,
            self.parameters.collector_config.id,
            ROLE_COLLECTOR,
        );
        let aad = interval.associated_data();
        let (encapsulated_context, payload) = match hpke_seal(
            &self.parameters.collector_config.public_key,
            &info,
            &plaintext,
            &aad,
        ) {
            Some(p) => p,
            None => {
                return Err(Error::Encryption);
            },
        };

        let leader_output_share = EncryptedOutputShare {
            collector_hpke_config_id: self.parameters.collector_config.id,
            encapsulated_context,
            payload,
        };
        let mut encrypted_output_shares: Vec<EncryptedOutputShare> = Vec::new();
        encrypted_output_shares.push(leader_output_share);
        encrypted_output_shares.push(helper_share);
        Ok(CollectResponse { encrypted_output_shares })
    }
}

/// Saturating addition of contribution counts.
fn saturating_add(a: u64, b: u64) -> (r: u64)
    ensures
        a + b <= u64::MAX ==> r == a + b,
        a + b > u64::MAX ==> r == u64::MAX,
        r >= a && r >= b,
{
    if b <= u64::MAX - a {
        a + b
    } else {
        u64::MAX
    }
}

/// Whether the bucket starting at `k` lies in the collect interval.
pub open spec fn in_interval(k: u64, i: Interval) -> bool {
    i.start <= k < i.start + i.duration
}

/// The store `new_s` is `old_s` with one unit of privacy budget charged to
/// exactly the buckets whose start lies in the first `upto` widths of the
/// interval; keys, aggregates and contribution counts are untouched.
pub open spec fn charged_in(
    old_s: Seq<AccumulatorEntry>,
    new_s: Seq<AccumulatorEntry>,
    interval: Interval,
    upto: int,
    d: u64,
) -> bool {
    &&& new_s.len() == old_s.len()
    &&& forall|j: int|
        0 <= j < old_s.len() ==> {
            &&& (#[trigger] new_s[j]).bucket_start == old_s[j].bucket_start
            &&& new_s[j].accumulator.accumulated@ == old_s[j].accumulator.accumulated@
            &&& new_s[j].accumulator.contributions == old_s[j].accumulator.contributions
            &&& (interval.start <= old_s[j].bucket_start < interval.start + upto * d
                ==> new_s[j].accumulator.privacy_budget == old_s[j].accumulator.privacy_budget
                    + 1)
            &&& (!(interval.start <= old_s[j].bucket_start < interval.start + upto * d)
                ==> new_s[j].accumulator.privacy_budget == old_s[j].accumulator.privacy_budget)
        }
}

proof fn lemma_charged_in_step_present(
    oldb: Seq<AccumulatorEntry>,
    mid: Seq<AccumulatorEntry>,
    new_s: Seq<AccumulatorEntry>,
    interval: Interval,
    idx: int,
    d: u64,
    key: u64,
)
    requires
        d > 0,
        0 <= idx,
        key == interval.start + idx * d,
        key % d == 0,
        charged_in(oldb, mid, interval, idx, d),
        forall|p: int, q: int|
            0 <= p < q < mid.len() ==> (#[trigger] mid[p]).bucket_start != (
            #[trigger] mid[q]).bucket_start,
        forall|j: int| 0 <= j < oldb.len() ==> (#[trigger] oldb[j]).bucket_start % d == 0,
        new_s.len() == mid.len(),
        exists|i: int|
            {
                &&& 0 <= i < mid.len()
                &&& (#[trigger] mid[i]).bucket_start == key
                &&& new_s[i].bucket_start == key
                &&& new_s[i].accumulator.accumulated@ == mid[i].accumulator.accumulated@
                &&& new_s[i].accumulator.contributions == mid[i].accumulator.contributions
                &&& new_s[i].accumulator.privacy_budget == mid[i].accumulator.privacy_budget + 1
                &&& forall|j: int| 0 <= j < mid.len() && j != i ==> new_s[j] == mid[j]
            },
    ensures
        charged_in(oldb, new_s, interval, idx + 1, d),
{
    let i = choose|i: int|
        {
            &&& 0 <= i < mid.len()
            &&& (#[trigger] mid[i]).bucket_start == key
            &&& new_s[i].bucket_start == key
            &&& new_s[i].accumulator.accumulated@ == mid[i].accumulator.accumulated@
            &&& new_s[i].accumulator.contributions == mid[i].accumulator.contributions
            &&& new_s[i].accumulator.privacy_budget == mid[i].accumulator.privacy_budget + 1
            &&& forall|j: int| 0 <= j < mid.len() && j != i ==> new_s[j] == mid[j]
        };
    assert((idx + 1) * (d as int) == idx * (d as int) + d) by (nonlinear_arith);
    assert(idx * (d as int) >= 0) by (nonlinear_arith)
        requires
            idx >= 0,
            d > 0,
    ;
    assert forall|j: int| 0 <= j < oldb.len() implies {
        &&& (#[trigger] new_s[j]).bucket_start == oldb[j].bucket_start
        &&& new_s[j].accumulator.accumulated@ == oldb[j].accumulator.accumulated@
        &&& new_s[j].accumulator.contributions == oldb[j].accumulator.contributions
        &&& (interval.start <= oldb[j].bucket_start < interval.start + (idx + 1) * d
            ==> new_s[j].accumulator.privacy_budget == oldb[j].accumulator.privacy_budget + 1)
        &&& (!(interval.start <= oldb[j].bucket_start < interval.start + (idx + 1) * d)
            ==> new_s[j].accumulator.privacy_budget == oldb[j].accumulator.privacy_budget)
    } by {
        let k = oldb[j].bucket_start;
        if j == i {
            assert(!(interval.start <= k < interval.start + idx * d));
        } else {
            assert(new_s[j] == mid[j]);
            if interval.start <= k < interval.start + (idx + 1) * d {
                if !(k < interval.start + idx * d) {
                    lemma_aligned_unique(k as int, interval.start + idx * d, d as int);
                    assert(mid[j].bucket_start == mid[i].bucket_start);
                    assert(false);
                }
            }
        }
    }
}

proof fn lemma_charged_in_step_absent(
    oldb: Seq<AccumulatorEntry>,
    cur: Seq<AccumulatorEntry>,
    interval: Interval,
    idx: int,
    d: u64,
    key: u64,
)
    requires
        d > 0,
        0 <= idx,
        key == interval.start + idx * d,
        key % d == 0,
        charged_in(oldb, cur, interval, idx, d),
        forall|j: int| 0 <= j < cur.len() ==> (#[trigger] cur[j]).bucket_start != key,
        forall|j: int| 0 <= j < oldb.len() ==> (#[trigger] oldb[j]).bucket_start % d == 0,
    ensures
        charged_in(oldb, cur, interval, idx + 1, d),
{
    assert((idx + 1) * (d as int) == idx * (d as int) + d) by (nonlinear_arith);
    assert forall|j: int| 0 <= j < oldb.len() implies {
        &&& (#[trigger] cur[j]).bucket_start == oldb[j].bucket_start
        &&& cur[j].accumulator.accumulated@ == oldb[j].accumulator.accumulated@
        &&& cur[j].accumulator.contributions == oldb[j].accumulator.contributions
        &&& (interval.start <= oldb[j].bucket_start < interval.start + (idx + 1) * d
            ==> cur[j].accumulator.privacy_budget == oldb[j].accumulator.privacy_budget + 1)
        &&& (!(interval.start <= oldb[j].bucket_start < interval.start + (idx + 1) * d)
            ==> cur[j].accumulator.privacy_budget == oldb[j].accumulator.privacy_budget)
    } by {
        let k = oldb[j].bucket_start;
        if interval.start <= k < interval.start + (idx + 1) * d {
            if !(k < interval.start + idx * d) {
                lemma_aligned_unique(k as int, interval.start + idx * d, d as int);
                assert(cur[j].bucket_start == key);
                assert(false);
            }
        }
    }
}

/// Two aligned times within one bucket width of each other are equal.
proof fn lemma_aligned_unique(k: int, base: int, d: int)
    requires
        d > 0,
        k % d == 0,
        base % d == 0,
        base <= k < base + d,
    ensures
        k == base,
{
    lemma_fundamental_div_mod(k, d);
    lemma_fundamental_div_mod(base, d);
    let m = k / d - base / d;
    assert(k - base == d * m) by (nonlinear_arith)
        requires
            k == d * (k / d),
            base == d * (base / d),
            m == k / d - base / d,
    ;
    assert(0 <= d * m < d);
    assert(m == 0) by (nonlinear_arith)
        requires
            d > 0,
            0 <= d * m < d,
    ;
}

} // verus!
