//! Unit tests for bucketing, interval validation, error taxonomy, field
//! arithmetic and the wire codecs.

use ppm_leader::bucketing::bucket;
use ppm_leader::errors::{Error, ProblemDocumentType, RoundViolation};
use ppm_leader::fieldvec::{decode_share, encode_share, merge_into, FIELD_MODULUS};
use ppm_leader::messages::{
    CollectRequest, EncryptedInputShare, Interval, OutputShare, Report, ReportExtension,
    ReportExtensionType, TaskId, Timestamp,
};
use ppm_leader::codec::{decode_output_share, decode_report, encode_output_share, encode_report};
use ppm_leader::parameters::{CollectorHpkeConfig, TaskParameters};
use ppm_leader::messages::HelperProblem;

fn task_id() -> TaskId {
    TaskId { bytes: vec![7u8; 32] }
}

fn params() -> TaskParameters {
    TaskParameters {
        task_id: task_id(),
        aggregator_urls: vec![
            "http://leader.example.net".to_string(),
            "http://helper.example.net".to_string(),
        ],
        collector_config: CollectorHpkeConfig {
            id: 9,
            kem_id: 32,
            kdf_id: 1,
            aead_id: 1,
            public_key: vec![0u8; 32],
        },
        min_batch_duration: 100,
        min_batch_size: 2,
        max_batch_lifetime: 1,
    }
}

#[test]
fn bucket_aligns_timestamps() {
    assert_eq!(bucket(1050, 100), 1000);
    assert_eq!(bucket(1099, 100), 1000);
    assert_eq!(bucket(1000, 100), 1000);
    assert_eq!(bucket(99, 100), 0);
    // Idempotence on concrete values.
    assert_eq!(bucket(bucket(123456, 100), 100), bucket(123456, 100));
}

#[test]
fn batch_interval_validation() {
    let p = params();
    assert!(p.validate_batch_interval(&Interval { start: 1000, duration: 100 }));
    assert!(p.validate_batch_interval(&Interval { start: 1000, duration: 300 }));
    // Unaligned start.
    assert!(!p.validate_batch_interval(&Interval { start: 1050, duration: 100 }));
    // Sub-minimal and unaligned durations.
    assert!(!p.validate_batch_interval(&Interval { start: 1000, duration: 50 }));
    assert!(!p.validate_batch_interval(&Interval { start: 1000, duration: 150 }));
    // Zero start and wrap-around are rejected.
    assert!(!p.validate_batch_interval(&Interval { start: 0, duration: 100 }));
    assert!(!p.validate_batch_interval(&Interval { start: u64::MAX - 99, duration: 200 }));
}

#[test]
fn endpoints_are_derived_from_urls() {
    let p = params();
    assert_eq!(p.upload_endpoint(), "http://leader.example.net/upload");
    assert_eq!(p.collect_endpoint(), "http://leader.example.net/collect");
    assert_eq!(p.aggregate_endpoint(), "http://helper.example.net/aggregate");
    assert_eq!(p.output_share_endpoint(), "http://helper.example.net/output_share");
    assert_eq!(p.hpke_config_endpoint(0), "http://leader.example.net/hpke_config");
}

#[test]
fn problem_document_types() {
    assert_eq!(
        Error::JsonParse.problem_document_type(),
        Some(ProblemDocumentType::UnrecognizedMessage)
    );
    assert_eq!(
        Error::Encryption.problem_document_type(),
        Some(ProblemDocumentType::UnrecognizedMessage)
    );
    assert_eq!(
        Error::UnrecognizedTask(task_id()).problem_document_type(),
        Some(ProblemDocumentType::UnrecognizedTask)
    );
    assert_eq!(
        Error::UnknownHpkeConfig(3).problem_document_type(),
        Some(ProblemDocumentType::OutdatedConfig)
    );
    assert_eq!(
        Error::InvalidBatchInterval(Interval { start: 1, duration: 2 }).problem_document_type(),
        Some(ProblemDocumentType::InvalidBatchInterval)
    );
    assert_eq!(
        Error::InsufficientBatchSize(1).problem_document_type(),
        Some(ProblemDocumentType::InsufficientBatchSize)
    );
    assert_eq!(
        Error::PrivacyBudgetExceeded.problem_document_type(),
        Some(ProblemDocumentType::PrivacyBudgetExceeded)
    );
    assert_eq!(
        Error::HelperHttpRequest(502, vec![]).problem_document_type(),
        Some(ProblemDocumentType::HelperError)
    );
    assert_eq!(
        Error::Vdaf.problem_document_type(),
        None
    );
    assert_eq!(
        Error::AggregateProtocol(RoundViolation::CountMismatch { wanted: 1, got: 2 })
            .problem_document_type(),
        None
    );
}

#[test]
fn problem_document_urls_and_status() {
    assert_eq!(
        ProblemDocumentType::UnrecognizedMessage.type_url(),
        "url:ietf:params:ppm:error:unrecognizedMessage"
    );
    assert_eq!(
        ProblemDocumentType::PrivacyBudgetExceeded.type_url(),
        "url:ietf:params:ppm:error:privacyBudgetExceeded"
    );
    assert_eq!(
        ProblemDocumentType::InsufficientBatchSize.type_url(),
        "url:ietf:params:ppm:error:insufficientBatchSize"
    );
    assert_eq!(ProblemDocumentType::UnrecognizedTask.http_status(), 400);
    assert_eq!(ProblemDocumentType::HelperError.http_status(), 500);
    assert_eq!(ProblemDocumentType::UnknownError.http_status(), 500);
}

#[test]
fn source_problem_document_only_for_helper_errors() {
    let p = HelperProblem { status: 400, type_url: b"x".to_vec(), detail: b"d".to_vec() };
    let e = Error::HelperError(p.clone());
    assert_eq!(e.source_problem_document(), Some(&p));
    assert_eq!(Error::Vdaf.source_problem_document(), None);
}

#[test]
fn field_merge_adds_elementwise() {
    let mut a: Vec<u128> = vec![1, 2];
    let b: Vec<u128> = vec![3, 4];
    assert!(merge_into(&mut a, &b));
    assert_eq!(a, vec![4, 6]);
}

#[test]
fn field_merge_wraps_at_modulus() {
    let mut a: Vec<u128> = vec![FIELD_MODULUS - 1];
    let b: Vec<u128> = vec![2];
    assert!(merge_into(&mut a, &b));
    assert_eq!(a, vec![1]);
}

#[test]
fn field_merge_is_commutative_on_values() {
    let x: Vec<u128> = vec![11, FIELD_MODULUS - 5];
    let y: Vec<u128> = vec![FIELD_MODULUS - 2, 17];
    let mut xy = x.clone();
    assert!(merge_into(&mut xy, &y));
    let mut yx = y.clone();
    assert!(merge_into(&mut yx, &x));
    assert_eq!(xy, yx);
}

#[test]
fn field_merge_rejects_length_mismatch() {
    let mut a: Vec<u128> = vec![1];
    let b: Vec<u128> = vec![1, 2];
    assert!(!merge_into(&mut a, &b));
    assert_eq!(a, vec![1]);
}

#[test]
fn share_codec_round_trip() {
    let v: Vec<u128> = vec![1, FIELD_MODULUS - 1, 42];
    let bytes = encode_share(&v);
    assert_eq!(bytes.len(), 36);
    assert_eq!(decode_share(&bytes), Some(v));
}

#[test]
fn share_codec_exact_bytes() {
    let v: Vec<u128> = vec![1];
    let bytes = encode_share(&v);
    assert_eq!(bytes, vec![0, 0, 0, 0, 0, 0, 0, 0, 0, 0, 0, 1]);
}

#[test]
fn share_codec_rejects_bad_input() {
    // Not a multiple of the element size.
    assert_eq!(decode_share(&vec![0u8; 13]), None);
    // A chunk at or above the modulus.
    assert_eq!(decode_share(&vec![0xffu8; 12]), None);
}

#[test]
fn output_share_codec_round_trip() {
    let share = OutputShare { sum: vec![1, 2, 3], contributions: 7 };
    let bytes = encode_output_share(&share);
    assert_eq!(decode_output_share(&bytes), Some(share));
    assert_eq!(decode_output_share(&vec![0u8; 5]), None);
}

#[test]
fn extension_type_codes() {
    assert_eq!(ReportExtensionType::AuthenticationInformation.code(), 1);
    assert_eq!(ReportExtensionType::MaximumExtensionType.code(), 65535);
    assert_eq!(
        ReportExtensionType::from_code(1),
        Some(ReportExtensionType::AuthenticationInformation)
    );
    assert_eq!(ReportExtensionType::from_code(2), None);
}

#[test]
fn associated_data_is_time_then_nonce_big_endian() {
    let ts = Timestamp { time: 1, nonce: 2 };
    assert_eq!(
        ts.associated_data(),
        vec![0, 0, 0, 0, 0, 0, 0, 1, 0, 0, 0, 0, 0, 0, 0, 2]
    );
}

fn sample_report() -> Report {
    Report {
        task_id: task_id(),
        time: 1001,
        nonce: 100,
        extensions: vec![ReportExtension {
            extension_type: ReportExtensionType::AuthenticationInformation,
            extension_data: vec![0, 1, 2],
        }],
        encrypted_input_shares: vec![
            EncryptedInputShare {
                config_id: 1,
                encapsulated_context: vec![0, 1, 2, 3],
                payload: vec![9, 9, 9],
            },
            EncryptedInputShare {
                config_id: 1,
                encapsulated_context: vec![4, 5],
                payload: vec![8],
            },
        ],
    }
}

#[test]
fn report_codec_round_trip() {
    let report = sample_report();
    let bytes = encode_report(&report);
    let decoded = decode_report(&bytes).unwrap();
    assert_eq!(decoded, report);
}

#[test]
fn report_codec_rejects_trailing_bytes() {
    let report = sample_report();
    let mut bytes = encode_report(&report);
    bytes.push(0);
    assert_eq!(decode_report(&bytes), None);
}

#[test]
fn report_codec_rejects_truncation() {
    let report = sample_report();
    let bytes = encode_report(&report);
    let truncated = bytes[..bytes.len() - 1].to_vec();
    assert_eq!(decode_report(&truncated), None);
    assert_eq!(decode_report(&vec![0u8; 10]), None);
}

#[test]
fn collect_request_holds_interval() {
    let req = CollectRequest {
        task_id: task_id(),
        batch_interval: Interval { start: 1000, duration: 100 },
        aggregation_parameter: None,
    };
    assert_eq!(req.batch_interval.start, 1000);
    assert!(req.aggregation_parameter.is_none());
}
