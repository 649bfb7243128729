//! The messages exchanged between Client, Leader, Helper and Collector, and
//! their well-formedness predicates.
//!
//! Each executable type has a mathematical view over `Seq` and plain values;
//! the contracts of the rest of the library are stated over those views.

use vstd::prelude::*;
use crate::codec::enc_u64;

verus! {

/// Index of the Leader in role-indexed lists.
pub const LEADER_INDEX: usize = 0;

/// The same bytes in a fresh vector.
pub fn clone_bytes(v: &Vec<u8>) -> (r: Vec<u8>)
    ensures
        r@ == v@,
{
    let mut out: Vec<u8> = Vec::new();
    let n = v.len();
    let mut i: usize = 0;
    while i < n
        invariant
            i <= n,
            n == v@.len(),
            out@ =~= v@.take(i as int),
        decreases n - i,
    {
        out.push(v[i]);
        proof {
            assert(out@ =~= v@.take(i + 1));
        }
        i = i + 1;
    }
    proof {
        assert(v@.take(n as int) =~= v@);
    }
    out
}

/// Index of the Helper in role-indexed lists.
pub const HELPER_INDEX: usize = 1;

// ---------------------------------------------------------------------------
// Task id
// ---------------------------------------------------------------------------

/// Length in bytes of a task identifier.
pub const TASK_ID_BYTES: usize = 32;

/// Opaque 32-byte identifier of a measurement task.
#[derive(Clone, Debug, PartialEq, Eq)]
pub struct TaskId {
    pub bytes: Vec<u8>,
}

impl View for TaskId {
    type V = Seq<u8>;

    open spec fn view(&self) -> Seq<u8> {
        self.bytes@
    }
}

impl TaskId {
    /// A task id must hold exactly 32 bytes.
    pub open spec fn wf(&self) -> bool {
        self@.len() == TASK_ID_BYTES
    }

    /// The same task id in a fresh value.
    pub fn duplicate(&self) -> (r: TaskId)
        ensures
            r@ == self@,
    {
        TaskId { bytes: clone_bytes(&self.bytes) }
    }

    /// Byte-for-byte equality of two task ids.
    pub fn matches(&self, other: &TaskId) -> (r: bool)
        ensures
            r == (self@ =~= other@),
    {
        if self.bytes.len() != other.bytes.len() {
            return false;
        }
        let n = self.bytes.len();
        let mut i: usize = 0;
        while i < n
            invariant
                i <= n,
                n == self@.len() && n == other@.len(),
                forall|j: int| 0 <= j < i ==> self@[j] == other@[j],
            decreases n - i,
        {
            if self.bytes[i] != other.bytes[i] {
                return false;
            }
            i = i + 1;
        }
        true
    }
}

// ---------------------------------------------------------------------------
// Time
// ---------------------------------------------------------------------------

/// A pair of report time and nonce; it identifies a report within a task and
/// orders reports on the wire.
#[derive(Clone, Copy, Debug, PartialEq, Eq, Structural)]
pub struct Timestamp {
    /// Seconds since the Unix epoch.
    pub time: u64,
    /// Client-chosen distinguisher between reports of equal time.
    pub nonce: u64,
}

/// Strict lexicographic order on `(time, nonce)`.
pub open spec fn ts_lt(a: Timestamp, b: Timestamp) -> bool {
    a.time < b.time || (a.time == b.time && a.nonce < b.nonce)
}

impl Timestamp {
    /// Whether `self` comes strictly before `other` in wire order.
    pub fn before(&self, other: &Timestamp) -> (r: bool)
        ensures
            r == ts_lt(*self, *other),
    {
        self.time < other.time || (self.time == other.time && self.nonce < other.nonce)
    }

    /// The 16 bytes that bind an input share to this timestamp: the
    /// big-endian time followed by the big-endian nonce.
    pub fn associated_data(&self) -> (r: Vec<u8>)
        ensures
            r@ == enc_u64(self.time) + enc_u64(self.nonce),
    {
        let mut out: Vec<u8> = Vec::new();
        crate::codec::push_u64_be(&mut out, self.time);
        crate::codec::push_u64_be(&mut out, self.nonce);
        proof {
            assert(out@ =~= enc_u64(self.time) + enc_u64(self.nonce));
        }
        out
    }
}

/// A half-open time window `[start, start + duration)`.
#[derive(Clone, Copy, Debug, PartialEq, Eq, Structural)]
pub struct Interval {
    pub start: u64,
    pub duration: u64,
}

impl Interval {
    /// The window must not wrap around the end of the time scale.
    pub open spec fn wf(&self) -> bool {
        self.start + self.duration <= u64::MAX
    }

    /// The bytes that bind an output share to this interval: big-endian
    /// start followed by big-endian duration.
    pub fn associated_data(&self) -> (r: Vec<u8>)
        ensures
            r@ == enc_u64(self.start) + enc_u64(self.duration),
    {
        let mut out: Vec<u8> = Vec::new();
        crate::codec::push_u64_be(&mut out, self.start);
        crate::codec::push_u64_be(&mut out, self.duration);
        proof {
            assert(out@ =~= enc_u64(self.start) + enc_u64(self.duration));
        }
        out
    }
}

// ---------------------------------------------------------------------------
// Reports
// ---------------------------------------------------------------------------

/// Types of report extensions.
#[derive(Clone, Copy, Debug, PartialEq, Eq, Structural)]
pub enum ReportExtensionType {
    AuthenticationInformation,
    MaximumExtensionType,
}

impl ReportExtensionType {
    /// The 16-bit wire code of this extension type.
    pub open spec fn spec_code(&self) -> u16 {
        match self {
            ReportExtensionType::AuthenticationInformation => 1,
            ReportExtensionType::MaximumExtensionType => 65535,
        }
    }

    /// The 16-bit wire code of this extension type.
    pub fn code(&self) -> (c: u16)
        ensures
            c == self.spec_code(),
    {
        match self {
            ReportExtensionType::AuthenticationInformation => 1,
            ReportExtensionType::MaximumExtensionType => 65535,
        }
    }

    /// The extension type carried by a 16-bit wire code, if any.
    pub fn from_code(c: u16) -> (r: Option<ReportExtensionType>)
        ensures
            r == crate::codec::type_of_code(c),
    {
        if c == 1 {
            Some(ReportExtensionType::AuthenticationInformation)
        } else if c == 65535 {
            Some(ReportExtensionType::MaximumExtensionType)
        } else {
            None
        }
    }
}

/// An extension by which clients tunnel extra information to an aggregator.
#[derive(Clone, Debug, PartialEq, Eq)]
pub struct ReportExtension {
    pub extension_type: ReportExtensionType,
    /// Opaque bytes of the extension.
    pub extension_data: Vec<u8>,
}

/// Mathematical image of a [`ReportExtension`].
pub struct ExtensionView {
    pub extension_type: ReportExtensionType,
    pub extension_data: Seq<u8>,
}

impl View for ReportExtension {
    type V = ExtensionView;

    open spec fn view(&self) -> ExtensionView {
        ExtensionView { extension_type: self.extension_type, extension_data: self.extension_data@ }
    }
}

impl ReportExtension {
    /// The same extension in a fresh value.
    pub fn duplicate(&self) -> (r: ReportExtension)
        ensures
            r@ == self@,
    {
        ReportExtension {
            extension_type: self.extension_type,
            extension_data: clone_bytes(&self.extension_data),
        }
    }
}

/// The same extensions in a fresh vector.
pub fn clone_extensions(v: &Vec<ReportExtension>) -> (r: Vec<ReportExtension>)
    ensures
        r@.len() == v@.len(),
        forall|i: int| 0 <= i < v@.len() ==> (#[trigger] r@[i])@ == v@[i]@,
{
    let mut out: Vec<ReportExtension> = Vec::new();
    let n = v.len();
    let mut i: usize = 0;
    while i < n
        invariant
            i <= n,
            n == v@.len(),
            out@.len() == i,
            forall|j: int| 0 <= j < i ==> (#[trigger] out@[j])@ == v@[j]@,
        decreases n - i,
    {
        out.push(v[i].duplicate());
        i = i + 1;
    }
    out
}

/// An input share encrypted to an aggregator's HPKE configuration.
#[derive(Clone, Debug, PartialEq, Eq)]
pub struct EncryptedInputShare {
    /// Identifier of the HPKE configuration the share is encrypted under.
    pub config_id: u8,
    /// The encapsulated KEM context.
    pub encapsulated_context: Vec<u8>,
    /// Ciphertext followed by the authentication tag.
    pub payload: Vec<u8>,
}

impl EncryptedInputShare {
    /// The same encrypted share in a fresh value.
    pub fn duplicate(&self) -> (r: EncryptedInputShare)
        ensures
            r@ == self@,
    {
        EncryptedInputShare {
            config_id: self.config_id,
            encapsulated_context: clone_bytes(&self.encapsulated_context),
            payload: clone_bytes(&self.payload),
        }
    }
}

/// Mathematical image of an [`EncryptedInputShare`].
pub struct EncryptedShareView {
    pub config_id: u8,
    pub encapsulated_context: Seq<u8>,
    pub payload: Seq<u8>,
}

impl View for EncryptedInputShare {
    type V = EncryptedShareView;

    open spec fn view(&self) -> EncryptedShareView {
        EncryptedShareView {
            config_id: self.config_id,
            encapsulated_context: self.encapsulated_context@,
            payload: self.payload@,
        }
    }
}

/// One client submission.
#[derive(Clone, Debug, PartialEq, Eq)]
pub struct Report {
    pub task_id: TaskId,
    /// Seconds since the Unix epoch at which the report was generated.
    pub time: u64,
    /// Distinguishes reports of equal time within a task.
    pub nonce: u64,
    pub extensions: Vec<ReportExtension>,
    /// Exactly two shares: the Leader's at index 0, the Helper's at index 1.
    pub encrypted_input_shares: Vec<EncryptedInputShare>,
}

/// Mathematical image of a [`Report`].
pub struct ReportView {
    pub task_id: Seq<u8>,
    pub time: u64,
    pub nonce: u64,
    pub extensions: Seq<ExtensionView>,
    pub encrypted_input_shares: Seq<EncryptedShareView>,
}

impl View for Report {
    type V = ReportView;

    open spec fn view(&self) -> ReportView {
        ReportView {
            task_id: self.task_id@,
            time: self.time,
            nonce: self.nonce,
            extensions: self.extensions@.map_values(|e: ReportExtension| e@),
            encrypted_input_shares: self.encrypted_input_shares@.map_values(
                |s: EncryptedInputShare| s@,
            ),
        }
    }
}

/// Well-formedness of a report view: a 32-byte task id, exactly two
/// role-indexed shares, and every variable-length field short enough for its
/// 32-bit length prefix.
pub open spec fn report_wf(r: ReportView) -> bool {
    &&& r.task_id.len() == TASK_ID_BYTES
    &&& r.encrypted_input_shares.len() == 2
    &&& r.extensions.len() <= u32::MAX
    &&& forall|i: int|
        0 <= i < r.extensions.len() ==> (#[trigger] r.extensions[i]).extension_data.len()
            <= u32::MAX
    &&& forall|i: int|
        0 <= i < r.encrypted_input_shares.len() ==> {
            &&& (#[trigger] r.encrypted_input_shares[i]).encapsulated_context.len() <= u32::MAX
            &&& r.encrypted_input_shares[i].payload.len() <= u32::MAX
        }
}

impl Report {
    /// The report's `(time, nonce)` pair.
    pub fn timestamp(&self) -> (ts: Timestamp)
        ensures
            ts == (Timestamp { time: self.time, nonce: self.nonce }),
    {
        Timestamp { time: self.time, nonce: self.nonce }
    }

    /// The associated data that binds this report's input shares: big-endian
    /// time followed by big-endian nonce. Extensions are deliberately not
    /// included; both aggregators must agree on this.
    pub fn associated_data(&self) -> (r: Vec<u8>)
        ensures
            r@ == enc_u64(self.time) + enc_u64(self.nonce),
    {
        self.timestamp().associated_data()
    }
}

// ---------------------------------------------------------------------------
// Aggregate round messages (Leader <-> Helper)
// ---------------------------------------------------------------------------

/// One report forwarded to the Helper for verification.
#[derive(Clone, Debug, PartialEq, Eq)]
pub struct VerifyStartSubRequest {
    pub timestamp: Timestamp,
    pub extensions: Vec<ReportExtension>,
    /// The Leader's first prepare message, encoded.
    pub verify_message: Vec<u8>,
    /// The Helper's input share, forwarded still encrypted.
    pub helper_share: EncryptedInputShare,
}

/// The batch of sub-requests the Leader posts to the Helper's aggregate
/// endpoint.
#[derive(Clone, Debug, PartialEq, Eq)]
pub struct VerifyStartRequest {
    pub task_id: TaskId,
    /// Reserved; always absent for the sum scheme.
    pub aggregation_parameter: Option<Vec<u8>>,
    /// The opaque state the Helper returned at the end of the previous round.
    pub helper_state: Vec<u8>,
    pub sub_requests: Vec<VerifyStartSubRequest>,
}

/// The Helper's answer for one sub-request.
#[derive(Clone, Debug, PartialEq, Eq)]
pub struct VerifySubResponse {
    pub timestamp: Timestamp,
    /// The Helper's prepare message, encoded.
    pub verification_message: Vec<u8>,
}

/// The Helper's answer to a [`VerifyStartRequest`].
#[derive(Clone, Debug, PartialEq, Eq)]
pub struct VerifyResponse {
    pub helper_state: Vec<u8>,
    pub sub_responses: Vec<VerifySubResponse>,
}

// ---------------------------------------------------------------------------
// Collect messages
// ---------------------------------------------------------------------------

/// A collect query sent by the Collector to the Leader.
#[derive(Clone, Debug, PartialEq, Eq)]
pub struct CollectRequest {
    pub task_id: TaskId,
    pub batch_interval: Interval,
    /// Reserved; always absent for the sum scheme.
    pub aggregation_parameter: Option<Vec<u8>>,
}

/// The scheme-specific portion of a collect request.
#[derive(Clone, Debug, PartialEq, Eq)]
pub enum ProtocolCollectFields {
    Prio {},
    Hits {},
}

/// An output share request forwarded by the Leader to the Helper.
#[derive(Clone, Debug, PartialEq, Eq)]
pub struct OutputShareRequest {
    pub task_id: TaskId,
    pub batch_interval: Interval,
    pub helper_state: Vec<u8>,
}

/// An aggregator's output share: the encoded aggregate share and the count
/// of verified reports that contributed to it.
#[derive(Clone, Debug, PartialEq, Eq)]
pub struct OutputShare {
    /// Field elements of the aggregate share, encoded.
    pub sum: Vec<u8>,
    pub contributions: u64,
}

/// An output share encrypted to the Collector.
#[derive(Clone, Debug, PartialEq, Eq)]
pub struct EncryptedOutputShare {
    pub collector_hpke_config_id: u8,
    pub encapsulated_context: Vec<u8>,
    /// Ciphertext followed by the authentication tag.
    pub payload: Vec<u8>,
}

/// The Leader's answer to a collect query: the two aggregators' encrypted
/// output shares, Leader first.
#[derive(Clone, Debug, PartialEq, Eq)]
pub struct CollectResponse {
    pub encrypted_output_shares: Vec<EncryptedOutputShare>,
}

/// A problem document received from the Helper, reduced to the fields the
/// Leader reads.
#[derive(Clone, Debug, PartialEq, Eq)]
pub struct HelperProblem {
    /// HTTP status carried by the document.
    pub status: u16,
    /// The problem type URN.
    pub type_url: Vec<u8>,
    /// Human-readable detail.
    pub detail: Vec<u8>,
}

} // verus!
