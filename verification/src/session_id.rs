//! Derivation of the identifiers that bind the parties of a ceremony.
//!
//! A lineage of key generation, refreshes and signatures shares one session
//! key, under which its record is stored. Every ceremony of the lineage has an
//! execution id of its own.

use crate::bytes::{
    append_ascii, append_bytes, ascii_bytes, be_bytes_u16, be_bytes_u64,
    lemma_be_bytes_u64_injective, u16_to_be, u64_to_be,
};
use crate::hashing::{hex_encode, hex_string, sha256, sha256_digest};
use vstd::prelude::*;

verus! {

/// What a ceremony is run for.
#[derive(Clone, Copy, Debug, PartialEq, Eq)]
pub enum Purpose {
    /// Distributed key generation.
    Keygen,
    /// Generation of auxiliary information, the first half of a refresh.
    AuxInfo,
    /// Key refresh proper, requested by the call `call_id`.
    KeyRefresh { call_id: u64 },
    /// Signing, requested by the call `call_id`.
    Signing { call_id: u64 },
}

/// What is hashed to obtain the session key of a lineage.
pub open spec fn session_key_input(n: u16, blueprint_id: u64, keygen_call_id: u64) -> Seq<u8> {
    be_bytes_u16(n) + be_bytes_u64(blueprint_id) + be_bytes_u64(keygen_call_id) + ascii_bytes(
        "dfns"@,
    )
}

/// The session key of the lineage that key generation `keygen_call_id` starts
/// among `n` parties of blueprint `blueprint_id`.
pub open spec fn session_key_of(n: u16, blueprint_id: u64, keygen_call_id: u64) -> [u8; 32] {
    sha256_digest(session_key_input(n, blueprint_id, keygen_call_id))
}

/// What is hashed to obtain the execution id of key generation.
pub open spec fn keygen_input(session_key: [u8; 32]) -> Seq<u8> {
    session_key@ + ascii_bytes("dfns-keygen"@)
}

/// What is hashed to obtain the execution id of a ceremony of the lineage
/// `session_key`.
pub open spec fn execution_id_input(session_key: [u8; 32], purpose: Purpose) -> Seq<u8> {
    let base = sha256_digest(keygen_input(session_key));
    match purpose {
        Purpose::Keygen => keygen_input(session_key),
        Purpose::AuxInfo => base@ + ascii_bytes("aux-info"@),
        Purpose::KeyRefresh { call_id } => base@ + be_bytes_u64(call_id) + ascii_bytes(
            "dfns-key-refresh"@,
        ),
        Purpose::Signing { call_id } => base@ + be_bytes_u64(call_id) + ascii_bytes(
            "dfns-signing"@,
        ),
    }
}

/// The execution id of a ceremony of the lineage `session_key`.
pub open spec fn execution_id_of(session_key: [u8; 32], purpose: Purpose) -> [u8; 32] {
    sha256_digest(execution_id_input(session_key, purpose))
}

/// Whether `x` and `y` are different inputs with the same SHA-256 digest.
pub open spec fn sha256_collision(x: Seq<u8>, y: Seq<u8>) -> bool {
    x != y && sha256_digest(x) == sha256_digest(y)
}

/// Session key of a lineage. All parties that agree on the number of parties,
/// the blueprint and the call that generated the key obtain the same bytes.
pub fn session_key(n: u16, blueprint_id: u64, keygen_call_id: u64) -> (key: [u8; 32])
    ensures
        key == session_key_of(n, blueprint_id, keygen_call_id),
{
    let mut input: Vec<u8> = Vec::new();
    let n_be = u16_to_be(n);
    let blueprint_be = u64_to_be(blueprint_id);
    let call_be = u64_to_be(keygen_call_id);
    append_bytes(&mut input, n_be.as_slice());
    append_bytes(&mut input, blueprint_be.as_slice());
    append_bytes(&mut input, call_be.as_slice());
    proof {
        reveal_strlit("dfns");
    }
    append_ascii(&mut input, "dfns");
    assert(input@ =~= session_key_input(n, blueprint_id, keygen_call_id));
    sha256(input.as_slice())
}

/// Execution id of key generation for the lineage `session_key`.
fn keygen_execution_id(session_key: &[u8; 32]) -> (id: [u8; 32])
    ensures
        id == execution_id_of(*session_key, Purpose::Keygen),
{
    let mut input: Vec<u8> = Vec::new();
    append_bytes(&mut input, session_key.as_slice());
    proof {
        reveal_strlit("dfns-keygen");
    }
    append_ascii(&mut input, "dfns-keygen");
    assert(input@ =~= keygen_input(*session_key));
    sha256(input.as_slice())
}

/// Execution id of a ceremony of the lineage `session_key`. It depends on the
/// session key and the purpose alone.
pub fn execution_id(session_key: &[u8; 32], purpose: Purpose) -> (id: [u8; 32])
    ensures
        id == execution_id_of(*session_key, purpose),
{
    let base = keygen_execution_id(session_key);
    let mut input: Vec<u8> = Vec::new();
    append_bytes(&mut input, base.as_slice());
    match purpose {
        Purpose::Keygen => {
            return base;
        },
        Purpose::AuxInfo => {
            proof {
                reveal_strlit("aux-info");
            }
            append_ascii(&mut input, "aux-info");
        },
        Purpose::KeyRefresh { call_id } => {
            let call_be = u64_to_be(call_id);
            append_bytes(&mut input, call_be.as_slice());
            proof {
                reveal_strlit("dfns-key-refresh");
            }
            append_ascii(&mut input, "dfns-key-refresh");
        },
        Purpose::Signing { call_id } => {
            let call_be = u64_to_be(call_id);
            append_bytes(&mut input, call_be.as_slice());
            proof {
                reveal_strlit("dfns-signing");
            }
            append_ascii(&mut input, "dfns-signing");
        },
    }
    assert(input@ =~= execution_id_input(*session_key, purpose));
    sha256(input.as_slice())
}

/// The key under which the record of the lineage is stored: the session key
/// in lower-case hexadecimal.
pub fn store_key(session_key: &[u8; 32]) -> (key: String)
    ensures
        key@ == hex_string(session_key@),
{
    hex_encode(session_key.as_slice())
}

/// Ceremonies with different purposes hash different inputs, whatever the
/// lineage: key generation, auxiliary information, and the refresh and the
/// signing of each call.
pub proof fn lemma_execution_id_inputs_distinct(session_key: [u8; 32], p: Purpose, q: Purpose)
    requires
        p != q,
    ensures
        execution_id_input(session_key, p) != execution_id_input(session_key, q),
{
    reveal_strlit("dfns-keygen");
    reveal_strlit("aux-info");
    reveal_strlit("dfns-key-refresh");
    reveal_strlit("dfns-signing");
    let x = execution_id_input(session_key, p);
    let y = execution_id_input(session_key, q);
    let base = sha256_digest(keygen_input(session_key));
    assert(session_key@.len() == 32 && base@.len() == 32);
    match (p, q) {
        (Purpose::KeyRefresh { call_id: c }, Purpose::KeyRefresh { call_id: d }) => {
            if x == y {
                assert(be_bytes_u64(c) =~= x.subrange(32, 40));
                assert(be_bytes_u64(d) =~= y.subrange(32, 40));
                lemma_be_bytes_u64_injective(c, d);
            }
        },
        (Purpose::Signing { call_id: c }, Purpose::Signing { call_id: d }) => {
            if x == y {
                assert(be_bytes_u64(c) =~= x.subrange(32, 40));
                assert(be_bytes_u64(d) =~= y.subrange(32, 40));
                lemma_be_bytes_u64_injective(c, d);
            }
        },
        _ => {
            assert(x.len() != y.len());
        },
    }
}

/// Ceremonies with different purposes have different execution ids, unless
/// their inputs are a collision of SHA-256.
pub proof fn lemma_execution_ids_distinct(session_key: [u8; 32], p: Purpose, q: Purpose)
    requires
        p != q,
    ensures
        execution_id_of(session_key, p) != execution_id_of(session_key, q) || sha256_collision(
            execution_id_input(session_key, p),
            execution_id_input(session_key, q),
        ),
{
    lemma_execution_id_inputs_distinct(session_key, p, q);
}

} // verus!
