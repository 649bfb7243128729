//! One-shot HPKE seal and open operations, and the byte strings that bind
//! them to a task, a role and a configuration.
//!
//! The suite is fixed: X25519 KEM, HKDF-SHA256, AES-128-GCM. Opening is a
//! pure function of its inputs and carries a name the contracts can speak
//! of; sealing draws fresh randomness, so nothing relates two seals of the
//! same plaintext.

use vstd::prelude::*;
use crate::codec::enc_u64;
use hpke::Deserializable;
use hpke::Serializable;
use hpke::kem::Kem;

verus! {

/// Role byte of the Leader in HPKE info bindings.
pub const ROLE_LEADER: u8 = 0;

/// Role byte of the Helper in HPKE info bindings.
pub const ROLE_HELPER: u8 = 1;

/// Role byte of the Collector in HPKE info bindings.
pub const ROLE_COLLECTOR: u8 = 2;

/// The info string that keys a report-path or output-path HPKE context:
/// the task id followed by the recipient's config id and role byte.
pub open spec fn spec_context_info(task_id: Seq<u8>, config_id: u8, role: u8) -> Seq<u8> {
    task_id + seq![config_id, role]
}

/// Builds the info string binding an HPKE context to `(task, config, role)`.
pub fn context_info(task_id: &crate::messages::TaskId, config_id: u8, role: u8) -> (r: Vec<u8>)
    ensures
        r@ == spec_context_info(task_id@, config_id, role),
{
    let mut out: Vec<u8> = Vec::new();
    let n = task_id.bytes.len();
    let mut i: usize = 0;
    while i < n
        invariant
            i <= n,
            n == task_id@.len(),
            out@ =~= task_id@.take(i as int),
        decreases n - i,
    {
        out.push(task_id.bytes[i]);
        proof {
            assert(out@ =~= task_id@.take(i + 1));
        }
        i = i + 1;
    }
    out.push(config_id);
    out.push(role);
    proof {
        assert(task_id@.take(n as int) =~= task_id@);
        assert(out@ =~= spec_context_info(task_id@, config_id, role));
    }
    out
}

/// What opening a sealed payload yields: a pure function of the recipient
/// key, the encapsulated context, the info string, the ciphertext and the
/// associated data.
pub uninterp spec fn hpke_open_result(
    sk: Seq<u8>,
    encapped: Seq<u8>,
    info: Seq<u8>,
    ciphertext: Seq<u8>,
    aad: Seq<u8>,
) -> Option<Seq<u8>>;

/// Relies on hpke's single_shot_open with the fixed suite: decapsulates
/// and decrypts, failing on any forgery or key mismatch; the outcome
/// depends on the arguments alone.
#[verifier::external_body]
pub fn hpke_open(
    sk: &Vec<u8>,
    encapped: &Vec<u8>,
    info: &Vec<u8>,
    ciphertext: &Vec<u8>,
    aad: &Vec<u8>,
) -> (r: Option<Vec<u8>>)
    ensures
        match r {
            Some(p) => hpke_open_result(sk@, encapped@, info@, ciphertext@, aad@) == Some(p@),
            None => hpke_open_result(sk@, encapped@, info@, ciphertext@, aad@) is None,
        },
{
    let sk = <<hpke::kem::X25519HkdfSha256 as Kem>::PrivateKey>::from_bytes(sk).ok()?;
    let encapped = <<hpke::kem::X25519HkdfSha256 as Kem>::EncappedKey>::from_bytes(encapped).ok()?;
    hpke::single_shot_open::<hpke::aead::AesGcm128, hpke::kdf::HkdfSha256, hpke::kem::X25519HkdfSha256>(
        &hpke::OpModeR::Base,
        &sk,
        &encapped,
        info,
        ciphertext,
        aad,
    ).ok()
}

/// Relies on hpke's single_shot_seal with the fixed suite: encapsulates to
/// the recipient public key with fresh randomness and encrypts the
/// plaintext bound to the associated data. Returns the encapsulated
/// context and the ciphertext; fails only on a malformed public key.
#[verifier::external_body]
pub fn hpke_seal(
    pk: &Vec<u8>,
    info: &Vec<u8>,
    plaintext: &Vec<u8>,
    aad: &Vec<u8>,
) -> Option<(Vec<u8>, Vec<u8>)> {
    let pk = <<hpke::kem::X25519HkdfSha256 as Kem>::PublicKey>::from_bytes(pk).ok()?;
    let (encapped, ciphertext) = hpke::single_shot_seal::<
        hpke::aead::AesGcm128,
        hpke::kdf::HkdfSha256,
        hpke::kem::X25519HkdfSha256,
        rand::rngs::OsRng,
    >(&hpke::OpModeS::Base, &pk, info, plaintext, aad, &mut rand::rngs::OsRng).ok()?;
    Some((encapped.to_bytes().to_vec(), ciphertext))
}

/// An aggregator's own HPKE configuration: the advertised identifiers and
/// key pair under which clients seal this aggregator's shares.
pub struct HpkeConfig {
    /// Identifier advertised for this configuration.
    pub id: u8,
    /// KEM algorithm identifier.
    pub kem_id: u16,
    /// KDF algorithm identifier.
    pub kdf_id: u16,
    /// AEAD algorithm identifier.
    pub aead_id: u16,
    /// The public key clients seal to.
    pub public_key: Vec<u8>,
    /// The matching private key.
    pub private_key: Vec<u8>,
}

/// The associated data of a report-path share: the report's big-endian
/// time followed by its big-endian nonce.
pub open spec fn spec_report_ad(time: u64, nonce: u64) -> Seq<u8> {
    enc_u64(time) + enc_u64(nonce)
}

} // verus!
