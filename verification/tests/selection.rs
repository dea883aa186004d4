use k256::sha2::Digest;
use dfns_cggmp21_blueprint::selection::{
    draw_from, select_signers, select_with_draws, signer_position,
};

#[test]
fn draws_exchange_parties_round_by_round() {
    assert_eq!(select_with_draws(5, 3, &vec![7, 2, 9]), Some(vec![2, 3, 0]));
    assert_eq!(select_with_draws(5, 5, &vec![0, 0, 0, 0, 0]), Some(vec![0, 1, 2, 3, 4]));
    assert_eq!(select_with_draws(4, 4, &vec![3, 2, 1, 0]), Some(vec![3, 0, 1, 2]));
    assert_eq!(select_with_draws(3, 1, &vec![u64::MAX]), Some(vec![0]));
    assert_eq!(select_with_draws(3, 1, &vec![u64::MAX - 1]), Some(vec![2]));
    assert_eq!(select_with_draws(1, 1, &vec![12345]), Some(vec![0]));
}

#[test]
fn a_selection_needs_a_threshold_within_the_parties_and_one_draw_each() {
    assert_eq!(select_with_draws(3, 4, &vec![1, 2, 3, 4]), None);
    assert_eq!(select_with_draws(3, 2, &vec![1]), None);
    assert_eq!(select_with_draws(3, 2, &vec![1, 2, 3]), None);
    assert_eq!(select_with_draws(3, 0, &vec![]), Some(vec![]));
    assert_eq!(select_with_draws(0, 0, &vec![]), Some(vec![]));
    assert_eq!(select_signers(&[0u8; 32], 3, 4), None);
}

#[test]
fn signers_are_as_many_as_the_threshold_and_all_different() {
    for n in [1u16, 2, 3, 7, 50] {
        for t in 0..=n {
            let mut seed = [0u8; 32];
            seed[0] = n as u8;
            seed[1] = t as u8;
            let signers = select_signers(&seed, n, t).unwrap();
            assert_eq!(signers.len(), t as usize);
            for (i, a) in signers.iter().enumerate() {
                assert!(*a < n);
                for b in &signers[..i] {
                    assert_ne!(a, b);
                }
            }
        }
    }
}

#[test]
fn signers_follow_from_the_execution_id() {
    assert_eq!(select_signers(&[0u8; 32], 5, 3), Some(vec![0, 2, 4]));
    assert_eq!(select_signers(&[1u8; 32], 10, 4), Some(vec![5, 4, 3, 1]));
    let id = hex::decode("d057d87b8986f1c63c4f1d7b22d3ac395308b3d758d4ebb8160429ca2f675911").unwrap();
    let mut signing = [0u8; 32];
    signing.copy_from_slice(&id);
    assert_eq!(select_signers(&signing, 3, 2), Some(vec![1, 2]));
    assert_eq!(select_signers(&signing, 3, 2), select_signers(&signing, 3, 2));
}

#[test]
fn a_signer_knows_its_place() {
    let signers = vec![5u16, 4, 3, 1];
    assert_eq!(signer_position(&signers, 5), Some(0));
    assert_eq!(signer_position(&signers, 3), Some(2));
    assert_eq!(signer_position(&signers, 1), Some(3));
    assert_eq!(signer_position(&signers, 0), None);
    assert_eq!(signer_position(&Vec::new(), 0), None);
}

#[test]
fn a_draw_is_spelled_by_the_first_eight_bytes_of_a_digest() {
    let mut digest = [0xffu8; 32];
    digest[..8].copy_from_slice(&[0x01, 0x02, 0x03, 0x04, 0x05, 0x06, 0x07, 0x08]);
    assert_eq!(draw_from(&digest), 0x0102030405060708);
    assert_eq!(draw_from(&[0u8; 32]), 0);
    assert_eq!(draw_from(&[0xff; 32]), u64::MAX);
    let first: [u8; 32] = {
        let mut input = vec![0u8; 32];
        input.extend_from_slice(&[0, 0]);
        input.extend_from_slice(b"dfns-signers");
        k256::sha2::Sha256::digest(&input).into()
    };
    assert_eq!(draw_from(&first), 1815421718493246620);
}
