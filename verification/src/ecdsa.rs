//! ECDSA on secp256k1, as the rest of the crate sees it.

use k256::ecdsa::signature::Verifier;
use vstd::prelude::*;

verus! {

/// The public key, as a compressed SEC1 point, that recovery gives for a
/// 32-byte message digest, a signature of 64 bytes (`r`, then `s`, big-endian)
/// and a recovery id; none where the signature cannot be parsed, the id is
/// above three, no key can be recovered or the signature does not verify under
/// the recovered key.
pub uninterp spec fn ecdsa_recovered_key(
    prehash: Seq<u8>,
    signature: Seq<u8>,
    recovery_id: u8,
) -> Option<Seq<u8>>;

/// Whether `signature` (64 bytes: `r`, then `s`) is an ECDSA signature with low
/// `s` of the SHA-256 digest of `message` under the SEC1 point `public_key`.
pub uninterp spec fn ecdsa_signature_valid(
    public_key: Seq<u8>,
    message: Seq<u8>,
    signature: Seq<u8>,
) -> bool;

/// Whether `bytes` are a SEC1 encoding (compressed, uncompressed or compact)
/// of a point of secp256k1 other than the point at infinity.
pub uninterp spec fn is_curve_point(bytes: Seq<u8>) -> bool;

/// Recovers a public key with `VerifyingKey::recover_from_prehash` of `k256`,
/// after parsing the signature with `Signature::from_slice` and the id with
/// `RecoveryId::from_byte`; the key is returned as a compressed SEC1 point.
/// Trusted: the outcome depends on the three arguments alone. A failure of any
/// of the three calls gives `None`.
#[verifier::external_body]
pub(crate) fn recover_key(prehash: &[u8], signature: &[u8], recovery_id: u8) -> (out: Option<
    Vec<u8>,
>)
    ensures
        match out {
            Some(key) => ecdsa_recovered_key(prehash@, signature@, recovery_id) == Some(key@),
            None => ecdsa_recovered_key(prehash@, signature@, recovery_id) is None,
        },
{
    let parsed = k256::ecdsa::Signature::from_slice(signature).ok()?;
    let id = k256::ecdsa::RecoveryId::from_byte(recovery_id)?;
    let key = k256::ecdsa::VerifyingKey::recover_from_prehash(prehash, &parsed, id).ok()?;
    Some(key.to_encoded_point(true).as_bytes().to_vec())
}

/// Verifies with `Verifier::verify` of `k256::ecdsa::VerifyingKey`, after
/// parsing the key with `VerifyingKey::from_sec1_bytes` and the signature with
/// `Signature::from_slice`. Trusted: the outcome depends on the three
/// arguments alone. A key or a signature that cannot be parsed gives `false`.
#[verifier::external_body]
pub(crate) fn verify_signature(public_key: &[u8], message: &[u8], signature: &[u8]) -> (valid: bool)
    ensures
        valid == ecdsa_signature_valid(public_key@, message@, signature@),
{
    match (
        k256::ecdsa::VerifyingKey::from_sec1_bytes(public_key),
        k256::ecdsa::Signature::from_slice(signature),
    ) {
        (Ok(key), Ok(parsed)) => key.verify(message, &parsed).is_ok(),
        _ => false,
    }
}

/// Parses with `PublicKey::from_sec1_bytes` of `k256`. Trusted: the outcome
/// depends on the bytes alone.
#[verifier::external_body]
pub(crate) fn parses_as_point(bytes: &[u8]) -> (valid: bool)
    ensures
        valid == is_curve_point(bytes@),
{
    k256::PublicKey::from_sec1_bytes(bytes).is_ok()
}

} // verus!
