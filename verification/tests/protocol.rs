//! End-to-end protocol scenarios: upload, aggregate round, collect; the
//! Helper and the Collector are played inline with the real cryptographic
//! libraries.

use hpke::kem::Kem;
use hpke::{Deserializable, Serializable};
use prio::vdaf::prio3::{Prio3InputShare, Prio3PrepareMessage, Prio3Sum64};
use prio::vdaf::suite::Suite;
use prio::vdaf::{Aggregator, Client};
use prio::field::Field96;
use rand::rngs::OsRng;

use ppm_leader::codec::decode_output_share;
use ppm_leader::collector::reconcile_output_shares;
use ppm_leader::errors::{Error, RoundViolation};
use ppm_leader::leader::Leader;
use ppm_leader::messages::{
    CollectRequest, EncryptedInputShare, EncryptedOutputShare, Interval, OutputShare, Report,
    TaskId, Timestamp, VerifyResponse, VerifyStartRequest, VerifySubResponse,
};
use ppm_leader::parameters::{CollectorHpkeConfig, TaskParameters};
use ppm_leader::sealing::{context_info, hpke_open, hpke_seal, HpkeConfig};

const LEADER_CONFIG_ID: u8 = 1;
const HELPER_CONFIG_ID: u8 = 1;
const COLLECTOR_CONFIG_ID: u8 = 9;
const HELPER_ROLE: u8 = ppm_leader::sealing::ROLE_HELPER;
const COLLECTOR_ROLE: u8 = ppm_leader::sealing::ROLE_COLLECTOR;

struct World {
    leader: Leader,
    helper_sk: Vec<u8>,
    collector_sk: Vec<u8>,
    task_id: TaskId,
    helper_pk: Vec<u8>,
    vdaf: Prio3Sum64,
}

fn keypair() -> (Vec<u8>, Vec<u8>) {
    let (sk, pk) = hpke::kem::X25519HkdfSha256::gen_keypair(&mut OsRng);
    (sk.to_bytes().to_vec(), pk.to_bytes().to_vec())
}

fn world(min_batch_size: u64, max_batch_lifetime: u64) -> World {
    let (leader_sk, leader_pk) = keypair();
    let (helper_sk, helper_pk) = keypair();
    let (collector_sk, collector_pk) = keypair();
    let task_id = TaskId { bytes: vec![3u8; 32] };
    let parameters = TaskParameters {
        task_id: TaskId { bytes: task_id.bytes.clone() },
        aggregator_urls: vec![
            "http://leader.example.net".to_string(),
            "http://helper.example.net".to_string(),
        ],
        collector_config: CollectorHpkeConfig {
            id: COLLECTOR_CONFIG_ID,
            kem_id: 32,
            kdf_id: 1,
            aead_id: 1,
            public_key: collector_pk,
        },
        min_batch_duration: 100,
        min_batch_size,
        max_batch_lifetime,
    };
    let hpke_config = HpkeConfig {
        id: LEADER_CONFIG_ID,
        kem_id: 32,
        kdf_id: 1,
        aead_id: 1,
        public_key: leader_pk,
        private_key: leader_sk,
    };
    let leader = Leader::new(parameters, hpke_config).unwrap();
    let vdaf = Prio3Sum64::new(Suite::Blake3, 2, 63).unwrap();
    World { leader, helper_sk, collector_sk, task_id, helper_pk, vdaf }
}

/// A client's report for one measurement, sealed to both aggregators.
fn make_report(w: &World, time: u64, nonce: u64, measurement: u128) -> Report {
    let shares = w.vdaf.shard(&(), &measurement).unwrap();
    let ts = Timestamp { time, nonce };
    let ad = ts.associated_data();

    let leader_pt = serde_json::to_vec(&shares[0]).unwrap();
    let leader_info = context_info(&w.task_id, LEADER_CONFIG_ID, 0);
    let (leader_enc, leader_ct) =
        hpke_seal(&w.leader.hpke_config.public_key, &leader_info, &leader_pt, &ad).unwrap();

    let helper_pt = serde_json::to_vec(&shares[1]).unwrap();
    let helper_info = context_info(&w.task_id, HELPER_CONFIG_ID, HELPER_ROLE);
    let (helper_enc, helper_ct) = hpke_seal(&w.helper_pk, &helper_info, &helper_pt, &ad).unwrap();

    Report {
        task_id: TaskId { bytes: w.task_id.bytes.clone() },
        time,
        nonce,
        extensions: vec![],
        encrypted_input_shares: vec![
            EncryptedInputShare {
                config_id: LEADER_CONFIG_ID,
                encapsulated_context: leader_enc,
                payload: leader_ct,
            },
            EncryptedInputShare {
                config_id: HELPER_CONFIG_ID,
                encapsulated_context: helper_enc,
                payload: helper_ct,
            },
        ],
    }
}

/// Plays the Helper's side of an aggregate round: opens each forwarded
/// share, prepares it, and answers with its prepare messages. Also returns
/// the Helper's output shares so that a later collect can be played out.
fn helper_respond(w: &World, req: &VerifyStartRequest) -> (VerifyResponse, Vec<Vec<Field96>>) {
    let mut sub_responses = Vec::new();
    let mut output_shares = Vec::new();
    for sub in &req.sub_requests {
        let ad = sub.timestamp.associated_data();
        let info = context_info(&w.task_id, sub.helper_share.config_id, HELPER_ROLE);
        let pt = hpke_open(
            &w.helper_sk,
            &sub.helper_share.encapsulated_context,
            &info,
            &sub.helper_share.payload,
            &ad,
        )
        .unwrap();
        let input_share: Prio3InputShare<Field96> = serde_json::from_slice(&pt).unwrap();
        let helper_param = prio::vdaf::prio3::Prio3VerifyParam {
            query_rand_init: prio::vdaf::suite::Key::Blake3([1; 32]),
            aggregator_id: 1,
        };
        let state = w.vdaf.prepare_init(&helper_param, &(), &ad, &input_share).unwrap();
        let (state, helper_msg) = w.vdaf.prepare_start(state).unwrap();
        let leader_msg: Prio3PrepareMessage<Field96> =
            serde_json::from_slice(&sub.verify_message).unwrap();
        let output_share = w
            .vdaf
            .prepare_finish(state, [leader_msg, helper_msg.clone()])
            .unwrap();
        output_shares.push(output_share.as_ref().to_vec());
        sub_responses.push(VerifySubResponse {
            timestamp: sub.timestamp,
            verification_message: serde_json::to_vec(&helper_msg).unwrap(),
        });
    }
    (VerifyResponse { helper_state: b"helper-state-1".to_vec(), sub_responses }, output_shares)
}

fn helper_output_share(shares: &[Vec<Field96>]) -> OutputShare {
    let mut acc: Vec<u128> = shares[0].iter().map(|f| u128::from(*f)).collect();
    for s in &shares[1..] {
        let v: Vec<u128> = s.iter().map(|f| u128::from(*f)).collect();
        assert!(ppm_leader::fieldvec::merge_into(&mut acc, &v));
    }
    OutputShare {
        sum: ppm_leader::fieldvec::encode_share(&acc),
        contributions: shares.len() as u64,
    }
}

fn dummy_helper_encrypted_share() -> EncryptedOutputShare {
    EncryptedOutputShare {
        collector_hpke_config_id: COLLECTOR_CONFIG_ID,
        encapsulated_context: vec![],
        payload: vec![],
    }
}

/// Runs one full aggregate round over the queued reports.
fn run_round(w: &mut World) -> (Result<(), Error>, Vec<Vec<Field96>>) {
    let req = w.leader.begin_aggregate_round();
    let (resp, helper_shares) = helper_respond(w, &req);
    (w.leader.finish_aggregate_round(resp), helper_shares)
}

#[test]
fn upload_rejects_unknown_task() {
    let mut w = world(2, 1);
    let mut report = make_report(&w, 1050, 1, 7);
    report.task_id = TaskId { bytes: vec![0u8; 32] };
    match w.leader.handle_upload(&report) {
        Err(Error::UnrecognizedTask(t)) => assert_eq!(t.bytes, vec![0u8; 32]),
        other => panic!("unexpected: {:?}", other),
    }
}

#[test]
fn upload_rejects_stale_config() {
    let mut w = world(2, 1);
    let mut report = make_report(&w, 1050, 1, 7);
    report.encrypted_input_shares[0].config_id = 77;
    assert_eq!(w.leader.handle_upload(&report), Err(Error::UnknownHpkeConfig(77)));
}

#[test]
fn upload_rejects_malformed_share_list() {
    let mut w = world(2, 1);
    let mut report = make_report(&w, 1050, 1, 7);
    report.encrypted_input_shares.pop();
    assert_eq!(w.leader.handle_upload(&report), Err(Error::JsonParse));
}

#[test]
fn upload_rejects_undecodable_share() {
    let mut w = world(2, 1);
    let mut report = make_report(&w, 1050, 1, 7);
    // Re-seal a plaintext that opens fine but is not an input share.
    let ts = Timestamp { time: 1050, nonce: 1 };
    let ad = ts.associated_data();
    let info = context_info(&w.task_id, LEADER_CONFIG_ID, 0);
    let garbage = b"not an input share".to_vec();
    let (enc, ct) = hpke_seal(&w.leader.hpke_config.public_key, &info, &garbage, &ad).unwrap();
    report.encrypted_input_shares[0].encapsulated_context = enc;
    report.encrypted_input_shares[0].payload = ct;
    assert_eq!(w.leader.handle_upload(&report), Err(Error::JsonParse));
}

#[test]
fn collect_unsealed_carries_sum_and_total() {
    let mut w = world(2, 1);
    let r1 = make_report(&w, 1050, 1, 7);
    let r2 = make_report(&w, 1099, 2, 5);
    w.leader.handle_upload(&r1).unwrap();
    w.leader.handle_upload(&r2).unwrap();
    let (res, helper_shares) = run_round(&mut w);
    res.unwrap();

    let collect_request = CollectRequest {
        task_id: TaskId { bytes: w.task_id.bytes.clone() },
        batch_interval: Interval { start: 1000, duration: 100 },
        aggregation_parameter: None,
    };
    let leader_output = w.leader.collect_unsealed(&collect_request).unwrap();
    assert_eq!(leader_output.contributions, 2);
    let helper_output = helper_output_share(&helper_shares);
    let aggregate = reconcile_output_shares(&leader_output, &helper_output).unwrap();
    assert_eq!(aggregate, vec![12u128]);
}

#[test]
fn upload_rejects_forged_payload() {
    let mut w = world(2, 1);
    let mut report = make_report(&w, 1050, 1, 7);
    report.encrypted_input_shares[0].payload = vec![0u8; 64];
    assert_eq!(w.leader.handle_upload(&report), Err(Error::Encryption));
}

#[test]
fn happy_path_single_bucket() {
    let mut w = world(2, 1);
    let r1 = make_report(&w, 1050, 1, 7);
    let r2 = make_report(&w, 1099, 2, 5);
    w.leader.handle_upload(&r1).unwrap();
    w.leader.handle_upload(&r2).unwrap();
    assert_eq!(w.leader.pending_len(), 2);

    let (res, helper_shares) = run_round(&mut w);
    res.unwrap();
    assert_eq!(w.leader.pending_len(), 0);
    assert_eq!(w.leader.helper_state, b"helper-state-1".to_vec());

    let (_, contributions, budget) = w.leader.accumulators.get(1000).unwrap();
    assert_eq!(contributions, 2);
    assert_eq!(budget, 0);
    assert!(w.leader.accumulators.get(900).is_none());

    // Collect over the bucket.
    let interval = Interval { start: 1000, duration: 100 };
    let collect_request = CollectRequest {
        task_id: TaskId { bytes: w.task_id.bytes.clone() },
        batch_interval: interval,
        aggregation_parameter: None,
    };
    let osr = w.leader.begin_collect(&collect_request).unwrap();
    assert_eq!(osr.batch_interval, interval);

    let response = w
        .leader
        .finish_collect(&collect_request, dummy_helper_encrypted_share())
        .unwrap();
    assert_eq!(response.encrypted_output_shares.len(), 2);
    let leader_sealed = &response.encrypted_output_shares[0];
    assert_eq!(leader_sealed.collector_hpke_config_id, COLLECTOR_CONFIG_ID);

    // The Collector opens the Leader's share and reconciles it with the
    // Helper's.
    let info = context_info(&w.task_id, COLLECTOR_CONFIG_ID, COLLECTOR_ROLE);
    let aad = interval.associated_data();
    let pt = hpke_open(
        &w.collector_sk,
        &leader_sealed.encapsulated_context,
        &info,
        &leader_sealed.payload,
        &aad,
    )
    .unwrap();
    let leader_output = decode_output_share(&pt).unwrap();
    assert_eq!(leader_output.contributions, 2);

    let helper_output = helper_output_share(&helper_shares);
    let aggregate = reconcile_output_shares(&leader_output, &helper_output).unwrap();
    assert_eq!(aggregate, vec![12u128]);

    // The bucket's privacy budget was charged exactly once.
    let (_, _, budget) = w.leader.accumulators.get(1000).unwrap();
    assert_eq!(budget, 1);
}

#[test]
fn invalid_proof_is_dropped() {
    let mut w = world(2, 1);
    let r1 = make_report(&w, 1010, 1, 1);
    let r2 = make_report(&w, 1020, 2, 2);
    let r3 = make_report(&w, 1030, 3, 4);
    w.leader.handle_upload(&r1).unwrap();
    w.leader.handle_upload(&r2).unwrap();
    w.leader.handle_upload(&r3).unwrap();

    let req = w.leader.begin_aggregate_round();
    let (mut resp, _) = helper_respond(&w, &req);
    // The middle sub-response carries the wrong report's message: its
    // proof cannot check out, and only that report is dropped.
    resp.sub_responses[1].verification_message =
        resp.sub_responses[0].verification_message.clone();
    w.leader.finish_aggregate_round(resp).unwrap();

    let (_, contributions, _) = w.leader.accumulators.get(1000).unwrap();
    assert_eq!(contributions, 2);
}

#[test]
fn ordering_violation_aborts_round() {
    let mut w = world(2, 1);
    let r1 = make_report(&w, 1010, 1, 1);
    let r2 = make_report(&w, 1020, 2, 2);
    w.leader.handle_upload(&r1).unwrap();
    w.leader.handle_upload(&r2).unwrap();

    let req = w.leader.begin_aggregate_round();
    let (mut resp, _) = helper_respond(&w, &req);
    resp.sub_responses.swap(0, 1);
    match w.leader.finish_aggregate_round(resp) {
        Err(Error::AggregateProtocol(RoundViolation::OrderMismatch { wanted, got })) => {
            assert_eq!(wanted, Timestamp { time: 1010, nonce: 1 });
            assert_eq!(got, Timestamp { time: 1020, nonce: 2 });
        },
        other => panic!("unexpected: {:?}", other),
    }
    // Nothing was folded.
    assert_eq!(w.leader.accumulators.len(), 0);
    // The helper state was not adopted.
    assert_eq!(w.leader.helper_state, Vec::<u8>::new());
}

#[test]
fn count_mismatch_aborts_round() {
    let mut w = world(2, 1);
    let r1 = make_report(&w, 1010, 1, 1);
    w.leader.handle_upload(&r1).unwrap();
    let req = w.leader.begin_aggregate_round();
    let (mut resp, _) = helper_respond(&w, &req);
    resp.sub_responses.clear();
    match w.leader.finish_aggregate_round(resp) {
        Err(Error::AggregateProtocol(RoundViolation::CountMismatch { wanted, got })) => {
            assert_eq!(wanted, 1);
            assert_eq!(got, 0);
        },
        other => panic!("unexpected: {:?}", other),
    }
    assert_eq!(w.leader.accumulators.len(), 0);
}

#[test]
fn insufficient_batch_size_is_reported() {
    let mut w = world(2, 1);
    let r1 = make_report(&w, 1050, 1, 7);
    w.leader.handle_upload(&r1).unwrap();
    let (res, _) = run_round(&mut w);
    res.unwrap();

    let collect_request = CollectRequest {
        task_id: TaskId { bytes: w.task_id.bytes.clone() },
        batch_interval: Interval { start: 1000, duration: 100 },
        aggregation_parameter: None,
    };
    w.leader.begin_collect(&collect_request).unwrap();
    assert_eq!(
        w.leader.finish_collect(&collect_request, dummy_helper_encrypted_share()),
        Err(Error::InsufficientBatchSize(1))
    );
}

#[test]
fn privacy_budget_is_enforced() {
    let mut w = world(1, 1);
    let r1 = make_report(&w, 1050, 1, 7);
    w.leader.handle_upload(&r1).unwrap();
    let (res, _) = run_round(&mut w);
    res.unwrap();

    let collect_request = CollectRequest {
        task_id: TaskId { bytes: w.task_id.bytes.clone() },
        batch_interval: Interval { start: 1000, duration: 100 },
        aggregation_parameter: None,
    };
    w.leader.begin_collect(&collect_request).unwrap();
    w.leader
        .finish_collect(&collect_request, dummy_helper_encrypted_share())
        .unwrap();
    // The bucket's only lifetime unit is spent: a second collect fails.
    assert_eq!(
        w.leader.finish_collect(&collect_request, dummy_helper_encrypted_share()),
        Err(Error::PrivacyBudgetExceeded)
    );
}

#[test]
fn unaligned_collect_is_rejected_without_helper() {
    let w = world(2, 1);
    let collect_request = CollectRequest {
        task_id: TaskId { bytes: w.task_id.bytes.clone() },
        batch_interval: Interval { start: 1050, duration: 100 },
        aggregation_parameter: None,
    };
    assert_eq!(
        w.leader.begin_collect(&collect_request),
        Err(Error::InvalidBatchInterval(Interval { start: 1050, duration: 100 }))
    );
}

#[test]
fn duplicate_timestamps_queue_once() {
    let mut w = world(2, 1);
    let r1 = make_report(&w, 1050, 1, 7);
    let r1_again = make_report(&w, 1050, 1, 9);
    w.leader.handle_upload(&r1).unwrap();
    w.leader.handle_upload(&r1_again).unwrap();
    assert_eq!(w.leader.pending_len(), 1);
}

#[test]
fn sub_requests_are_sorted_by_timestamp() {
    let mut w = world(2, 1);
    // Upload out of order; the round must send them sorted.
    let r2 = make_report(&w, 1020, 2, 2);
    let r1 = make_report(&w, 1010, 1, 1);
    let r3 = make_report(&w, 1010, 9, 4);
    w.leader.handle_upload(&r2).unwrap();
    w.leader.handle_upload(&r3).unwrap();
    w.leader.handle_upload(&r1).unwrap();
    let req = w.leader.begin_aggregate_round();
    let ts: Vec<(u64, u64)> = req
        .sub_requests
        .iter()
        .map(|s| (s.timestamp.time, s.timestamp.nonce))
        .collect();
    assert_eq!(ts, vec![(1010, 1), (1010, 9), (1020, 2)]);
    assert_eq!(w.leader.pending_len(), 0);
}

#[test]
fn reconcile_rejects_contribution_mismatch() {
    let a = OutputShare { sum: ppm_leader::fieldvec::encode_share(&vec![1u128]), contributions: 1 };
    let b = OutputShare { sum: ppm_leader::fieldvec::encode_share(&vec![2u128]), contributions: 2 };
    assert_eq!(reconcile_output_shares(&a, &b), Err(Error::LengthMismatch(1, 2)));
    let c = OutputShare { sum: vec![1, 2, 3], contributions: 1 };
    assert_eq!(reconcile_output_shares(&a, &c), Err(Error::PrioField));
}
