//! The bytes that a job returns: the public key of a lineage, or a signature
//! with its recovery id.

use crate::bytes::{append_bytes, bytes_equal, copy_all};
use crate::committee::EcdsaPublic;
use crate::ecdsa::{ecdsa_recovered_key, is_curve_point, parses_as_point, recover_key};
use crate::error::Error;
use vstd::prelude::*;

verus! {

/// Length of a signature without its recovery id: `r` and `s`, 32 bytes each.
pub const SIGNATURE_LEN: usize = 64;

/// Length of an encoded signature: `r`, `s` and the recovery id.
pub const ENCODED_SIGNATURE_LEN: usize = 65;

/// Number of recovery ids.
pub const RECOVERY_IDS: u8 = 4;

/// Whether `tag` starts a compressed SEC1 point: two for an even `y`, three
/// for an odd one.
pub open spec fn is_compressed_tag(tag: u8) -> bool {
    tag == 2 || tag == 3
}

/// The bytes returned for a public key: its compressed SEC1 point, if it is in
/// compressed form and a point of the curve.
pub open spec fn public_key_output(key: EcdsaPublic, on_curve: bool) -> Result<Seq<u8>, Error> {
    if is_compressed_tag(key.bytes@[0]) && on_curve {
        Ok(key.bytes@)
    } else {
        Err(Error::SerializationError)
    }
}

/// The bytes that a job returns for the public key `key`, or why it returns
/// none.
pub open spec fn returned_key(key: EcdsaPublic) -> Result<Seq<u8>, Error> {
    public_key_output(key, is_curve_point(key.bytes@))
}

/// The bytes to return for `key`, given whether its bytes encode a point of
/// the curve.
pub fn encode_checked_public_key(key: &EcdsaPublic, on_curve: bool) -> (out: Result<Vec<u8>, Error>)
    ensures
        match out {
            Ok(bytes) => public_key_output(*key, on_curve) == Ok::<Seq<u8>, Error>(bytes@),
            Err(error) => public_key_output(*key, on_curve) == Err::<Seq<u8>, Error>(error),
        },
{
    if (key.bytes[0] == 2 || key.bytes[0] == 3) && on_curve {
        Ok(copy_all(key.bytes.as_slice()))
    } else {
        Err(Error::SerializationError)
    }
}

/// The bytes to return for `key`: 33 bytes that decode to a point of the
/// curve, or `SerializationError` if `key` is no such point in compressed
/// form.
pub fn encode_public_key(key: &EcdsaPublic) -> (out: Result<Vec<u8>, Error>)
    ensures
        match out {
            Ok(bytes) => returned_key(*key) == Ok::<Seq<u8>, Error>(bytes@),
            Err(error) => returned_key(*key) == Err::<Seq<u8>, Error>(error),
        },
{
    let on_curve = parses_as_point(key.bytes.as_slice());
    encode_checked_public_key(key, on_curve)
}

/// The public key that returned bytes stand for, if they are 33 bytes.
pub fn decode_public_key(bytes: &[u8]) -> (out: Option<EcdsaPublic>)
    ensures
        match out {
            Some(key) => key.bytes@ == bytes@,
            None => bytes@.len() != 33,
        },
{
    if bytes.len() != 33 {
        return None;
    }
    let mut key = EcdsaPublic { bytes: [0u8; 33] };
    let mut i: usize = 0;
    while i < 33
        invariant
            i <= 33,
            bytes@.len() == 33,
            forall|j: int| 0 <= j < i ==> key.bytes@[j] == bytes@[j],
        decreases 33 - i,
    {
        key.bytes[i] = bytes[i];
        i += 1;
    }
    assert(key.bytes@ =~= bytes@);
    Some(key)
}

/// The least recovery id at or above `from` whose candidate is `key`.
pub open spec fn matching_id_from(candidates: Seq<Option<Seq<u8>>>, key: Seq<u8>, from: int) -> Option<
    u8,
>
    decreases candidates.len() - from,
{
    if from < 0 || from >= candidates.len() || from >= RECOVERY_IDS {
        None
    } else if candidates[from] == Some(key) {
        Some(from as u8)
    } else {
        matching_id_from(candidates, key, from + 1)
    }
}

/// The keys that the four recovery ids give for a digest and a signature.
pub open spec fn recovery_candidates(prehash: Seq<u8>, signature: Seq<u8>) -> Seq<Option<Seq<u8>>> {
    Seq::new(RECOVERY_IDS as nat, |id: int| ecdsa_recovered_key(prehash, signature, id as u8))
}

/// The views of recovered keys.
pub open spec fn candidate_views(candidates: Seq<Option<Vec<u8>>>) -> Seq<Option<Seq<u8>>> {
    Seq::new(
        candidates.len(),
        |i: int|
            match candidates[i] {
                Some(key) => Some(key@),
                None => None,
            },
    )
}

/// What is returned for a signature: `r`, `s` and the recovery id under which
/// the public key is recovered from it; `LocalVerifyFailed` if the signature
/// has not 64 bytes or no recovery id gives the public key.
pub open spec fn signature_output(
    signature: Seq<u8>,
    candidates: Seq<Option<Seq<u8>>>,
    key: EcdsaPublic,
) -> Result<Seq<u8>, Error> {
    if signature.len() != SIGNATURE_LEN {
        Err(Error::LocalVerifyFailed)
    } else {
        match matching_id_from(candidates, key.bytes@, 0) {
            Some(id) => Ok(signature + seq![id]),
            None => Err(Error::LocalVerifyFailed),
        }
    }
}

/// The least recovery id whose candidate is `key`.
pub fn matching_recovery_id(candidates: &Vec<Option<Vec<u8>>>, key: &EcdsaPublic) -> (out: Option<u8>)
    ensures
        out == matching_id_from(candidate_views(candidates@), key.bytes@, 0),
{
    let ghost views = candidate_views(candidates@);
    let mut id: u8 = 0;
    while id < RECOVERY_IDS && (id as usize) < candidates.len()
        invariant
            id <= RECOVERY_IDS,
            views == candidate_views(candidates@),
            matching_id_from(views, key.bytes@, 0) == matching_id_from(views, key.bytes@, id as int),
        decreases RECOVERY_IDS - id,
    {
        let found = match &candidates[id as usize] {
            Some(candidate) => bytes_equal(candidate.as_slice(), key.bytes.as_slice()),
            None => false,
        };
        assert(found == (views[id as int] == Some(key.bytes@)));
        if found {
            return Some(id);
        }
        id += 1;
    }
    None
}

/// Encodes a signature and the keys recovered from it for the public key
/// `key`.
pub fn encode_recovered_signature(
    signature: &[u8],
    candidates: &Vec<Option<Vec<u8>>>,
    key: &EcdsaPublic,
) -> (out: Result<Vec<u8>, Error>)
    ensures
        match out {
            Ok(bytes) => signature_output(signature@, candidate_views(candidates@), *key) == Ok::<
                Seq<u8>,
                Error,
            >(bytes@),
            Err(error) => signature_output(signature@, candidate_views(candidates@), *key)
                == Err::<Seq<u8>, Error>(error),
        },
{
    if signature.len() != SIGNATURE_LEN {
        return Err(Error::LocalVerifyFailed);
    }
    match matching_recovery_id(candidates, key) {
        Some(id) => {
            let mut bytes: Vec<u8> = Vec::new();
            append_bytes(&mut bytes, signature);
            bytes.push(id);
            assert(bytes@ =~= signature@ + seq![id]);
            Ok(bytes)
        },
        None => Err(Error::LocalVerifyFailed),
    }
}

/// Verifies `signature` (`r`, then `s`) of the digest `prehash` against `key`
/// and encodes it: the 65 bytes hold `r`, `s` and the recovery id.
pub fn encode_signature(prehash: &[u8; 32], signature: &[u8], key: &EcdsaPublic) -> (out: Result<
    Vec<u8>,
    Error,
>)
    ensures
        match out {
            Ok(bytes) => signature_output(
                signature@,
                recovery_candidates(prehash@, signature@),
                *key,
            ) == Ok::<Seq<u8>, Error>(bytes@),
            Err(error) => signature_output(
                signature@,
                recovery_candidates(prehash@, signature@),
                *key,
            ) == Err::<Seq<u8>, Error>(error),
        },
{
    let mut candidates: Vec<Option<Vec<u8>>> = Vec::new();
    let mut id: u8 = 0;
    while id < RECOVERY_IDS
        invariant
            id <= RECOVERY_IDS,
            candidates@.len() == id,
            forall|j: int|
                0 <= j < id ==> (#[trigger] candidate_views(candidates@)[j]) == ecdsa_recovered_key(
                    prehash@,
                    signature@,
                    j as u8,
                ),
        decreases RECOVERY_IDS - id,
    {
        let ghost before = candidates@;
        let candidate = recover_key(prehash.as_slice(), signature, id);
        candidates.push(candidate);
        proof {
            assert forall|j: int| 0 <= j < id + 1 implies (#[trigger] candidate_views(
                candidates@,
            )[j]) == ecdsa_recovered_key(prehash@, signature@, j as u8) by {
                if j < id {
                    assert(candidates@[j] == before[j]);
                    assert(candidate_views(before)[j] == ecdsa_recovered_key(
                        prehash@,
                        signature@,
                        j as u8,
                    ));
                }
            }
        }
        id += 1;
    }
    assert(candidate_views(candidates@) =~= recovery_candidates(prehash@, signature@));
    encode_recovered_signature(signature, &candidates, key)
}

/// Splits an encoded signature into `r` and `s` on one side and the recovery
/// id on the other.
pub fn decode_signature(bytes: &[u8]) -> (out: Option<(Vec<u8>, u8)>)
    ensures
        match out {
            Some((signature, id)) => signature@.len() == SIGNATURE_LEN && id < RECOVERY_IDS
                && bytes@ == signature@ + seq![id],
            None => bytes@.len() != ENCODED_SIGNATURE_LEN || bytes@[SIGNATURE_LEN as int]
                >= RECOVERY_IDS,
        },
{
    if bytes.len() != ENCODED_SIGNATURE_LEN {
        return None;
    }
    let id = bytes[SIGNATURE_LEN];
    if id >= RECOVERY_IDS {
        return None;
    }
    let mut signature: Vec<u8> = Vec::new();
    let mut i: usize = 0;
    while i < SIGNATURE_LEN
        invariant
            i <= SIGNATURE_LEN,
            bytes@.len() == ENCODED_SIGNATURE_LEN,
            signature@ == bytes@.subrange(0, i as int),
        decreases SIGNATURE_LEN - i,
    {
        signature.push(bytes[i]);
        assert(signature@ =~= bytes@.subrange(0, i as int + 1));
        i += 1;
    }
    assert(bytes@ =~= signature@ + seq![id]);
    Some((signature, id))
}

/// An encoded signature decodes to what was encoded.
pub proof fn lemma_signature_round_trip(
    signature: Seq<u8>,
    candidates: Seq<Option<Seq<u8>>>,
    key: EcdsaPublic,
)
    ensures
        signature_output(signature, candidates, key) matches Ok(bytes) ==> bytes.len()
            == ENCODED_SIGNATURE_LEN && bytes.subrange(0, SIGNATURE_LEN as int) == signature
            && bytes[SIGNATURE_LEN as int] < RECOVERY_IDS && candidates[bytes[SIGNATURE_LEN as int] as int]
            == Some(key.bytes@),
{
    if signature.len() == SIGNATURE_LEN {
        lemma_matching_id(candidates, key.bytes@, 0);
        if let Some(id) = matching_id_from(candidates, key.bytes@, 0) {
            assert((signature + seq![id]).subrange(0, SIGNATURE_LEN as int) =~= signature);
        }
    }
}

/// The id that is found is below four and its candidate is the key.
proof fn lemma_matching_id(candidates: Seq<Option<Seq<u8>>>, key: Seq<u8>, from: int)
    requires
        0 <= from,
    ensures
        matching_id_from(candidates, key, from) matches Some(id) ==> from <= id < RECOVERY_IDS && id
            < candidates.len() && candidates[id as int] == Some(key),
    decreases candidates.len() - from,
{
    if from < candidates.len() && from < RECOVERY_IDS && candidates[from] != Some(key) {
        lemma_matching_id(candidates, key, from + 1);
    }
}

} // verus!
