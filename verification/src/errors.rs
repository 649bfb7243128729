//! The Leader's error taxonomy and its mapping onto protocol problem
//! documents.

use vstd::prelude::*;
use crate::messages::{TaskId, Timestamp, Interval, HelperProblem};

verus! {

/// Why an aggregate round was aborted as a protocol violation.
#[derive(Clone, Debug, PartialEq, Eq)]
pub enum RoundViolation {
    /// The Helper answered with a different number of sub-responses than the
    /// round sent sub-requests.
    CountMismatch { wanted: u64, got: u64 },
    /// A sub-response carried a different timestamp than the sub-request in
    /// the same position.
    OrderMismatch { wanted: Timestamp, got: Timestamp },
}

/// Everything that can go wrong in the Leader's core.
#[derive(Clone, Debug, PartialEq, Eq)]
pub enum Error {
    /// A value received from outside could not be decoded.
    JsonParse,
    /// An HPKE seal or open operation failed.
    Encryption,
    /// The report or query names a task this Leader does not serve.
    UnrecognizedTask(TaskId),
    /// The report's Leader share is encrypted under a configuration other
    /// than the one currently advertised.
    UnknownHpkeConfig(u8),
    /// The validity-proof machinery failed before the report entered
    /// aggregation.
    Vdaf,
    /// The Helper answered an HTTP failure without a readable problem
    /// document: status code and raw body.
    HelperHttpRequest(u16, Vec<u8>),
    /// The Helper violated the aggregate sub-protocol.
    AggregateProtocol(RoundViolation),
    /// An encoded field-element vector was malformed.
    PrioField,
    /// The Helper answered with a problem document.
    HelperError(HelperProblem),
    /// The collect interval is unaligned or sub-minimal.
    InvalidBatchInterval(Interval),
    /// Too few verified contributions in the queried interval.
    InsufficientBatchSize(u64),
    /// A queried bucket has already been collected as often as the task
    /// allows.
    PrivacyBudgetExceeded,
    /// The two sides disagree on a pair of counts that must match: the
    /// mismatching values, Leader's first.
    LengthMismatch(u64, u64),
    /// The HTTP client failed before the Helper answered.
    HttpClient,
}

/// The problem-document kinds of the protocol.
#[derive(Clone, Copy, Debug, PartialEq, Eq, Structural)]
pub enum ProblemDocumentType {
    UnrecognizedMessage,
    UnrecognizedTask,
    OutdatedConfig,
    InvalidProof,
    InvalidBatchInterval,
    InsufficientBatchSize,
    PrivacyBudgetExceeded,
    HelperError,
    UnknownError,
}

impl ProblemDocumentType {
    /// The problem type URN for this kind.
    pub open spec fn spec_type_url(&self) -> Seq<char> {
        match self {
            ProblemDocumentType::UnrecognizedMessage => "url:ietf:params:ppm:error:unrecognizedMessage"@,
            ProblemDocumentType::UnrecognizedTask => "url:ietf:params:ppm:error:unrecognizedTask"@,
            ProblemDocumentType::OutdatedConfig => "url:ietf:params:ppm:error:outdatedConfig"@,
            ProblemDocumentType::InvalidProof => "url:ietf:params:ppm:error:invalidProof"@,
            ProblemDocumentType::InvalidBatchInterval => "url:ietf:params:ppm:error:invalidBatchInterval"@,
            ProblemDocumentType::InsufficientBatchSize => "url:ietf:params:ppm:error:insufficientBatchSize"@,
            ProblemDocumentType::PrivacyBudgetExceeded => "url:ietf:params:ppm:error:privacyBudgetExceeded"@,
            ProblemDocumentType::HelperError => "url:ietf:params:ppm:error:helperError"@,
            ProblemDocumentType::UnknownError => "url:ietf:params:ppm:error:unknownError"@,
        }
    }

    /// The problem type URN for this kind.
    pub fn type_url(&self) -> (r: String)
        ensures
            r@ == self.spec_type_url(),
    {
        match self {
            ProblemDocumentType::UnrecognizedMessage => "url:ietf:params:ppm:error:unrecognizedMessage".to_owned(),
            ProblemDocumentType::UnrecognizedTask => "url:ietf:params:ppm:error:unrecognizedTask".to_owned(),
            ProblemDocumentType::OutdatedConfig => "url:ietf:params:ppm:error:outdatedConfig".to_owned(),
            ProblemDocumentType::InvalidProof => "url:ietf:params:ppm:error:invalidProof".to_owned(),
            ProblemDocumentType::InvalidBatchInterval => "url:ietf:params:ppm:error:invalidBatchInterval".to_owned(),
            ProblemDocumentType::InsufficientBatchSize => "url:ietf:params:ppm:error:insufficientBatchSize".to_owned(),
            ProblemDocumentType::PrivacyBudgetExceeded => "url:ietf:params:ppm:error:privacyBudgetExceeded".to_owned(),
            ProblemDocumentType::HelperError => "url:ietf:params:ppm:error:helperError".to_owned(),
            ProblemDocumentType::UnknownError => "url:ietf:params:ppm:error:unknownError".to_owned(),
        }
    }

    /// The HTTP status a problem document of this kind carries: client
    /// errors are 400, Helper failures and unclassified errors are 500.
    pub fn http_status(&self) -> (s: u16)
        ensures
            s == 500 <==> (self is HelperError || self is UnknownError),
            s == 400 || s == 500,
    {
        match self {
            ProblemDocumentType::HelperError => 500,
            ProblemDocumentType::UnknownError => 500,
            _ => 400,
        }
    }
}

/// The problem-document kind of each error, as spec.
pub open spec fn spec_problem_type(e: Error) -> Option<ProblemDocumentType> {
    match e {
        Error::JsonParse => Some(ProblemDocumentType::UnrecognizedMessage),
        Error::Encryption => Some(ProblemDocumentType::UnrecognizedMessage),
        Error::UnrecognizedTask(_) => Some(ProblemDocumentType::UnrecognizedTask),
        Error::UnknownHpkeConfig(_) => Some(ProblemDocumentType::OutdatedConfig),
        Error::InvalidBatchInterval(_) => Some(ProblemDocumentType::InvalidBatchInterval),
        Error::InsufficientBatchSize(_) => Some(ProblemDocumentType::InsufficientBatchSize),
        Error::PrivacyBudgetExceeded => Some(ProblemDocumentType::PrivacyBudgetExceeded),
        Error::HelperError(_) => Some(ProblemDocumentType::HelperError),
        Error::HelperHttpRequest(_, _) => Some(ProblemDocumentType::HelperError),
        _ => None,
    }
}

impl Error {
    /// The problem-document kind of this error, or `None` for errors that
    /// surface as an unclassified internal failure.
    pub fn problem_document_type(&self) -> (r: Option<ProblemDocumentType>)
        ensures
            r == spec_problem_type(*self),
    {
        match self {
            Error::JsonParse => Some(ProblemDocumentType::UnrecognizedMessage),
            Error::Encryption => Some(ProblemDocumentType::UnrecognizedMessage),
            Error::UnrecognizedTask(_) => Some(ProblemDocumentType::UnrecognizedTask),
            Error::UnknownHpkeConfig(_) => Some(ProblemDocumentType::OutdatedConfig),
            Error::InvalidBatchInterval(_) => Some(ProblemDocumentType::InvalidBatchInterval),
            Error::InsufficientBatchSize(_) => Some(ProblemDocumentType::InsufficientBatchSize),
            Error::PrivacyBudgetExceeded => Some(ProblemDocumentType::PrivacyBudgetExceeded),
            Error::HelperError(_) => Some(ProblemDocumentType::HelperError),
            Error::HelperHttpRequest(_, _) => Some(ProblemDocumentType::HelperError),
            _ => None,
        }
    }

    /// The Helper's problem document, where this error carries one.
    pub fn source_problem_document(&self) -> (r: Option<&HelperProblem>)
        ensures
            match r {
                Some(p) => *self matches Error::HelperError(q) && *p == q,
                None => !(*self matches Error::HelperError(_)),
            },
    {
        if let Error::HelperError(problem_document) = self {
            Some(problem_document)
        } else {
            None
        }
    }
}

} // verus!
