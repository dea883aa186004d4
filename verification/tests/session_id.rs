use dfns_cggmp21_blueprint::keygen::compute_deterministic_hashes;
use k256::sha2::Digest;
use dfns_cggmp21_blueprint::session_id::{execution_id, session_key, store_key, Purpose};

fn id_from_hex(text: &str) -> [u8; 32] {
    let bytes = hex::decode(text).unwrap();
    let mut id = [0u8; 32];
    id.copy_from_slice(&bytes);
    id
}

const SESSION_KEY_3_7_42: &str = "d40d6e65969a604873788b419e93cabf94f3799246ddd817124c603fe9858441";

#[test]
fn session_key_of_three_parties_blueprint_seven_call_forty_two() {
    let (meta_hash, deterministic_hash) = compute_deterministic_hashes(3, 7, 42);
    assert_eq!(meta_hash, id_from_hex(SESSION_KEY_3_7_42));
    assert_eq!(
        deterministic_hash,
        id_from_hex("b684eaba9d4bfa4ef6d6ae1f371a382554e17a4f05ce32ca03b2bffc10de10bc")
    );
}

#[test]
fn session_key_is_the_digest_of_the_big_endian_fields_and_the_salt() {
    let mut input: Vec<u8> = vec![0x00, 0x03];
    input.extend_from_slice(&7u64.to_be_bytes());
    input.extend_from_slice(&42u64.to_be_bytes());
    input.extend_from_slice(b"dfns");
    let expected: [u8; 32] = k256::sha2::Sha256::digest(&input).into();
    assert_eq!(session_key(3, 7, 42), expected);
}

#[test]
fn session_key_uses_every_byte_of_its_inputs() {
    let base = session_key(0x0102, 0x0102030405060708, 0x1112131415161718);
    assert_ne!(base, session_key(0x0201, 0x0102030405060708, 0x1112131415161718));
    assert_ne!(base, session_key(0x0102, 0x0802030405060701, 0x1112131415161718));
    assert_ne!(base, session_key(0x0102, 0x0102030405060708, 0x1812131415161711));
    let mut input: Vec<u8> = vec![0x01, 0x02];
    input.extend_from_slice(&[1, 2, 3, 4, 5, 6, 7, 8]);
    input.extend_from_slice(&[0x11, 0x12, 0x13, 0x14, 0x15, 0x16, 0x17, 0x18]);
    input.extend_from_slice(b"dfns");
    let expected: [u8; 32] = k256::sha2::Sha256::digest(&input).into();
    assert_eq!(base, expected);
}

#[test]
fn two_computations_give_the_same_digests() {
    for n in [1u16, 3, 500, u16::MAX] {
        for call in [0u64, 42, u64::MAX] {
            assert_eq!(compute_deterministic_hashes(n, 7, call), compute_deterministic_hashes(n, 7, call));
            let key = session_key(n, 7, call);
            for purpose in [
                Purpose::Keygen,
                Purpose::AuxInfo,
                Purpose::KeyRefresh { call_id: call },
                Purpose::Signing { call_id: call },
            ] {
                assert_eq!(execution_id(&key, purpose), execution_id(&key, purpose));
            }
        }
    }
}

#[test]
fn execution_ids_of_the_lineage_of_call_forty_two() {
    let key = id_from_hex(SESSION_KEY_3_7_42);
    assert_eq!(
        execution_id(&key, Purpose::Keygen),
        id_from_hex("b684eaba9d4bfa4ef6d6ae1f371a382554e17a4f05ce32ca03b2bffc10de10bc")
    );
    assert_eq!(
        execution_id(&key, Purpose::AuxInfo),
        id_from_hex("ae8080f021f7a0fc7ab6e3f42f18529440ea666bcdbf213ce600532ffd20bd17")
    );
    assert_eq!(
        execution_id(&key, Purpose::KeyRefresh { call_id: 43 }),
        id_from_hex("93b1bbdc5971a30e5608c0a03746b026fea57c0559eccab97b8f43b9949eb66c")
    );
    assert_eq!(
        execution_id(&key, Purpose::Signing { call_id: 44 }),
        id_from_hex("d057d87b8986f1c63c4f1d7b22d3ac395308b3d758d4ebb8160429ca2f675911")
    );
}

#[test]
fn execution_ids_of_six_ceremonies_are_pairwise_distinct() {
    let key = session_key(3, 7, 42);
    let ids = [
        execution_id(&key, Purpose::Keygen),
        execution_id(&key, Purpose::AuxInfo),
        execution_id(&key, Purpose::KeyRefresh { call_id: 43 }),
        execution_id(&key, Purpose::Signing { call_id: 43 }),
        execution_id(&key, Purpose::KeyRefresh { call_id: 44 }),
        execution_id(&key, Purpose::Signing { call_id: 44 }),
    ];
    for i in 0..ids.len() {
        for j in 0..ids.len() {
            if i != j {
                assert_ne!(ids[i], ids[j]);
            }
        }
    }
}

#[test]
fn store_key_is_the_session_key_in_lower_case_hex() {
    let key = id_from_hex(SESSION_KEY_3_7_42);
    assert_eq!(store_key(&key), SESSION_KEY_3_7_42.to_string());
    let mut mixed = [0u8; 32];
    mixed[0] = 0xAB;
    mixed[1] = 0x0F;
    mixed[31] = 0xF0;
    assert_eq!(
        store_key(&mixed),
        "ab0f0000000000000000000000000000000000000000000000000000000000f0".to_string()
    );
}
