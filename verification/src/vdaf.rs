//! The adapter over the distributed validity-proof scheme (the sum variant
//! of prio's Prio3).
//!
//! The scheme's states and messages are opaque to the rest of the library;
//! verification of a report ends in a vector of canonical field elements,
//! which is where the verified aggregation logic takes over. Every item
//! here either declares one of the scheme's types or wraps exactly one of
//! its operations.

use vstd::prelude::*;
use crate::fieldvec::share_wf;
use prio::vdaf::Aggregator;

verus! {

#[verifier::external_type_specification]
#[verifier::external_body]
pub struct ExField96(prio::field::Field96);

#[verifier::external_type_specification]
#[verifier::external_body]
#[verifier::reject_recursive_types(F)]
pub struct ExPrio3PrepareStep<F>(prio::vdaf::prio3::Prio3PrepareStep<F>);

#[verifier::external_type_specification]
#[verifier::external_body]
#[verifier::reject_recursive_types(F)]
pub struct ExPrio3PrepareMessage<F>(prio::vdaf::prio3::Prio3PrepareMessage<F>);

#[verifier::external_type_specification]
#[verifier::external_body]
#[verifier::reject_recursive_types(F)]
pub struct ExPrio3InputShare<F>(prio::vdaf::prio3::Prio3InputShare<F>);

/// The concrete scheme: sums of 63-bit measurements over a 96-bit field.
/// The instance is opaque to the verifier; only the wrapped operations
/// below touch it.
#[verifier::external_body]
pub struct SumVdaf {
    inner: prio::vdaf::prio3::Prio3Sum64,
}

/// The scheme's prepare state.
pub type PrepareStep = prio::vdaf::prio3::Prio3PrepareStep<prio::field::Field96>;

/// The scheme's prepare message.
pub type PrepareMessage = prio::vdaf::prio3::Prio3PrepareMessage<prio::field::Field96>;

/// A client's input share for the scheme.
pub type InputShare = prio::vdaf::prio3::Prio3InputShare<prio::field::Field96>;

/// Relies on Prio3Sum64::new: constructing the sum scheme for two
/// aggregators and 63-bit measurements succeeds.
#[verifier::external_body]
pub fn vdaf_new() -> (r: Option<SumVdaf>)
    ensures
        r is Some,
{
    let inner = prio::vdaf::prio3::Prio3Sum64::new(prio::vdaf::suite::Suite::Blake3, 2, 63).ok()?;
    Some(SumVdaf { inner })
}

/// Whether the bytes decode as a client's input share: a pure function of
/// the bytes.
pub uninterp spec fn input_share_decodes(bytes: Seq<u8>) -> bool;

/// Relies on serde_json::from_slice to decode a client's input share;
/// deserialization is a pure function of the bytes.
#[verifier::external_body]
pub fn decode_input_share(bytes: &Vec<u8>) -> (r: Option<InputShare>)
    ensures
        r is Some <==> input_share_decodes(bytes@),
{
    serde_json::from_slice(bytes).ok()
}

/// Whether the Leader's preparation of a report succeeds, given the
/// report's associated data and the decrypted share bytes: the scheme and
/// the Leader's verification parameter are this crate's single fixed
/// configuration, so the outcome is a pure function of these two values.
pub uninterp spec fn leader_prepare_ok(nonce_ad: Seq<u8>, input_share_bytes: Seq<u8>) -> bool;

/// Relies on Prio3's prepare_init and prepare_start: decodes the share,
/// derives the Leader's initial prepare state, and advances it to the
/// first prepare message. prepare_init yields a Ready state on every
/// success and prepare_start on a Ready state never fails, so the pair is
/// the scheme's one opening transition; it succeeds exactly when the named
/// condition holds, which entails that the bytes decode.
#[verifier::external_body]
pub fn vdaf_prepare_leader(
    vdaf: &SumVdaf,
    nonce_ad: &Vec<u8>,
    input_share_bytes: &Vec<u8>,
) -> (r: Option<(PrepareStep, PrepareMessage)>)
    ensures
        r is Some <==> leader_prepare_ok(nonce_ad@, input_share_bytes@),
        r is Some ==> input_share_decodes(input_share_bytes@),
{
    let input_share: InputShare = serde_json::from_slice(input_share_bytes).ok()?;
    let param = prio::vdaf::prio3::Prio3VerifyParam {
        query_rand_init: prio::vdaf::suite::Key::Blake3([1; 32]),
        aggregator_id: 0,
    };
    let state = vdaf.inner.prepare_init(&param, &(), nonce_ad.as_slice(), &input_share).ok()?;
    vdaf.inner.prepare_start(state).ok()
}

/// Relies on serde_json::to_vec to encode a prepare message for the wire:
/// the message is field elements and a fixed-size key, on which
/// serialization cannot fail.
#[verifier::external_body]
pub fn encode_prepare_message(msg: &PrepareMessage) -> (r: Option<Vec<u8>>)
    ensures
        r is Some,
{
    serde_json::to_vec(msg).ok()
}

/// Relies on serde_json::from_slice to decode the Helper's prepare message.
#[verifier::external_body]
pub fn decode_prepare_message(bytes: &Vec<u8>) -> Option<PrepareMessage> {
    serde_json::from_slice(bytes).ok()
}

/// Relies on Prio3's prepare_finish: combines both aggregators' prepare
/// messages with the Leader's state, and, iff the report's validity proof
/// checks out, yields the output share. For the sum scheme the output share
/// is a single canonical field element.
#[verifier::external_body]
pub fn vdaf_prepare_finish(
    vdaf: &SumVdaf,
    state: PrepareStep,
    helper_msg: PrepareMessage,
    leader_msg: PrepareMessage,
) -> (r: Option<Vec<u128>>)
    ensures
        match r {
            Some(v) => v@.len() == 1 && share_wf(v@),
            None => true,
        },
{
    let output_share = vdaf.inner.prepare_finish(state, [helper_msg, leader_msg]).ok()?;
    Some(output_share.as_ref().iter().map(|f| u128::from(*f)).collect())
}

} // verus!
