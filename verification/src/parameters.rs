//! Immutable per-task configuration.

use vstd::prelude::*;
use vstd::string::StringExecFns;
use crate::messages::{TaskId, Interval, LEADER_INDEX, HELPER_INDEX};

verus! {

/// The Collector's HPKE configuration as the Leader knows it.
#[derive(Clone, Debug, PartialEq, Eq)]
pub struct CollectorHpkeConfig {
    /// Identifier the Collector advertised for this key.
    pub id: u8,
    /// KEM algorithm identifier.
    pub kem_id: u16,
    /// KDF algorithm identifier.
    pub kdf_id: u16,
    /// AEAD algorithm identifier.
    pub aead_id: u16,
    /// The Collector's public key.
    pub public_key: Vec<u8>,
}

/// A collect interval is acceptable iff its start and duration are
/// positive multiples of the minimum batch duration and its end stays on
/// the time scale.
pub open spec fn spec_validate_batch_interval(i: Interval, min_batch_duration: u64) -> bool {
    &&& i.start > 0
    &&& i.start % min_batch_duration == 0
    &&& i.duration % min_batch_duration == 0
    &&& i.duration >= min_batch_duration
    &&& i.wf()
}

/// Immutable configuration of one measurement task.
#[derive(Clone, Debug, PartialEq, Eq)]
pub struct TaskParameters {
    pub task_id: TaskId,
    /// Base URLs of the two aggregators, Leader first.
    pub aggregator_urls: Vec<String>,
    pub collector_config: CollectorHpkeConfig,
    /// Width of a batch bucket, in seconds; positive.
    pub min_batch_duration: u64,
    /// Fewest verified contributions a collect query may draw.
    pub min_batch_size: u64,
    /// Most collect queries that may draw any one bucket.
    pub max_batch_lifetime: u64,
}

impl TaskParameters {
    /// Task parameters must carry a full task id, one URL per aggregator,
    /// a positive bucket width and a positive minimum batch size.
    pub open spec fn wf(&self) -> bool {
        &&& self.task_id.wf()
        &&& self.aggregator_urls@.len() == 2
        &&& self.min_batch_duration > 0
        &&& self.min_batch_size > 0
    }

    /// Whether a collect interval is aligned and long enough.
    pub fn validate_batch_interval(&self, interval: &Interval) -> (r: bool)
        requires
            self.wf(),
        ensures
            r == spec_validate_batch_interval(*interval, self.min_batch_duration),
    {
        interval.start > 0 && interval.start % self.min_batch_duration == 0
            && interval.duration % self.min_batch_duration == 0
            && interval.duration >= self.min_batch_duration
            && interval.duration <= u64::MAX - interval.start
    }

    /// The Leader's upload endpoint.
    pub fn upload_endpoint(&self) -> (r: String)
        requires
            self.wf(),
        ensures
            r@ == self.aggregator_urls@[LEADER_INDEX as int]@ + "/upload"@,
    {
        self.aggregator_urls[LEADER_INDEX].clone().concat("/upload")
    }

    /// The Leader's collect endpoint.
    pub fn collect_endpoint(&self) -> (r: String)
        requires
            self.wf(),
        ensures
            r@ == self.aggregator_urls@[LEADER_INDEX as int]@ + "/collect"@,
    {
        self.aggregator_urls[LEADER_INDEX].clone().concat("/collect")
    }

    /// The Helper's aggregate endpoint, where verify-start requests go.
    pub fn aggregate_endpoint(&self) -> (r: String)
        requires
            self.wf(),
        ensures
            r@ == self.aggregator_urls@[HELPER_INDEX as int]@ + "/aggregate"@,
    {
        self.aggregator_urls[HELPER_INDEX].clone().concat("/aggregate")
    }

    /// The Helper's output-share endpoint, queried on collect.
    pub fn output_share_endpoint(&self) -> (r: String)
        requires
            self.wf(),
        ensures
            r@ == self.aggregator_urls@[HELPER_INDEX as int]@ + "/output_share"@,
    {
        self.aggregator_urls[HELPER_INDEX].clone().concat("/output_share")
    }

    /// An aggregator's HPKE-configuration endpoint.
    pub fn hpke_config_endpoint(&self, role_index: usize) -> (r: String)
        requires
            self.wf(),
            role_index < 2,
        ensures
            r@ == self.aggregator_urls@[role_index as int]@ + "/hpke_config"@,
    {
        self.aggregator_urls[role_index].clone().concat("/hpke_config")
    }
}

} // verus!
