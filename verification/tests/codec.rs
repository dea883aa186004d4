use dfns_cggmp21_blueprint::codec::{
    decode_public_key, decode_signature, encode_checked_public_key, encode_public_key,
    encode_recovered_signature, encode_signature, matching_recovery_id,
};
use dfns_cggmp21_blueprint::committee::EcdsaPublic;
use dfns_cggmp21_blueprint::error::Error;
use k256::ecdsa::SigningKey;
use k256::sha2::{Digest, Sha256};

fn codec_signer(seed: u8) -> SigningKey {
    SigningKey::from_slice(&[seed; 32]).unwrap()
}

fn codec_public(signer: &SigningKey) -> EcdsaPublic {
    let point = signer.verifying_key().to_encoded_point(true);
    let mut bytes = [0u8; 33];
    bytes.copy_from_slice(point.as_bytes());
    EcdsaPublic { bytes }
}

fn digest_of(message: &[u8]) -> [u8; 32] {
    Sha256::digest(message).into()
}

#[test]
fn a_signature_is_returned_with_its_recovery_id() {
    for seed in 1..20u8 {
        let signer = codec_signer(seed);
        let digest = digest_of(&[seed, 1, 2, 3]);
        let (signature, id) = signer.sign_prehash_recoverable(&digest).unwrap();
        let raw = signature.to_bytes().to_vec();
        let encoded = encode_signature(&digest, &raw, &codec_public(&signer)).unwrap();
        assert_eq!(encoded.len(), 65);
        assert_eq!(&encoded[..64], &raw[..]);
        assert_eq!(encoded[64], id.to_byte());
        assert_eq!(decode_signature(&encoded), Some((raw, id.to_byte())));
    }
}

#[test]
fn a_signature_that_does_not_verify_is_refused() {
    let signer = codec_signer(7);
    let digest = digest_of(b"hello");
    let (signature, _) = signer.sign_prehash_recoverable(&digest).unwrap();
    let raw = signature.to_bytes().to_vec();
    let key = codec_public(&signer);
    assert!(encode_signature(&digest, &raw, &key).is_ok());
    assert_eq!(
        encode_signature(&digest, &raw, &codec_public(&codec_signer(8))),
        Err(Error::LocalVerifyFailed)
    );
    assert_eq!(encode_signature(&digest_of(b"hallo"), &raw, &key), Err(Error::LocalVerifyFailed));
    let mut tampered = raw.clone();
    tampered[40] ^= 1;
    assert_eq!(encode_signature(&digest, &tampered, &key), Err(Error::LocalVerifyFailed));
    assert_eq!(encode_signature(&digest, &raw[..63], &key), Err(Error::LocalVerifyFailed));
    let mut longer = raw.clone();
    longer.push(0);
    assert_eq!(encode_signature(&digest, &longer, &key), Err(Error::LocalVerifyFailed));
    assert_eq!(encode_signature(&digest, &[0u8; 64], &key), Err(Error::LocalVerifyFailed));
}

#[test]
fn the_least_recovery_id_that_gives_the_key_is_taken() {
    let key = EcdsaPublic { bytes: [2u8; 33] };
    let own = Some(vec![2u8; 33]);
    let other = Some(vec![3u8; 33]);
    assert_eq!(matching_recovery_id(&vec![None, other.clone(), own.clone(), own.clone()], &key), Some(2));
    assert_eq!(matching_recovery_id(&vec![own.clone(), None, None, None], &key), Some(0));
    assert_eq!(matching_recovery_id(&vec![None, None, None, own.clone()], &key), Some(3));
    assert_eq!(matching_recovery_id(&vec![None, other.clone(), None, None], &key), None);
    assert_eq!(matching_recovery_id(&vec![None, None, None, None, own.clone()], &key), None);
    assert_eq!(matching_recovery_id(&vec![Some(vec![2u8; 32])], &key), None);
    assert_eq!(matching_recovery_id(&Vec::new(), &key), None);
}

#[test]
fn recovered_keys_decide_what_is_returned() {
    let key = EcdsaPublic { bytes: [2u8; 33] };
    let own = Some(vec![2u8; 33]);
    let signature = vec![9u8; 64];
    let mut expected = signature.clone();
    expected.push(1);
    assert_eq!(
        encode_recovered_signature(&signature, &vec![None, own.clone(), None, None], &key),
        Ok(expected)
    );
    assert_eq!(
        encode_recovered_signature(&signature, &vec![None, None, None, None], &key),
        Err(Error::LocalVerifyFailed)
    );
    assert_eq!(
        encode_recovered_signature(&signature[..10], &vec![own.clone()], &key),
        Err(Error::LocalVerifyFailed)
    );
}

#[test]
fn encoded_signatures_have_sixty_five_bytes_and_an_id_below_four() {
    let mut bytes = vec![7u8; 65];
    bytes[64] = 3;
    assert_eq!(decode_signature(&bytes), Some((vec![7u8; 64], 3)));
    bytes[64] = 4;
    assert_eq!(decode_signature(&bytes), None);
    assert_eq!(decode_signature(&vec![0u8; 64]), None);
    assert_eq!(decode_signature(&vec![0u8; 66]), None);
    assert_eq!(decode_signature(&[]), None);
}

#[test]
fn a_public_key_is_returned_as_its_compressed_point() {
    let key = codec_public(&codec_signer(5));
    let encoded = encode_public_key(&key).unwrap();
    assert_eq!(encoded, key.bytes.to_vec());
    assert!(k256::PublicKey::from_sec1_bytes(&encoded).is_ok());
    assert_eq!(decode_public_key(&encoded), Some(key));
    assert_eq!(decode_public_key(&encoded[..32]), None);
}

#[test]
fn bytes_that_are_no_point_are_not_returned() {
    let mut wrong_tag = codec_public(&codec_signer(5));
    wrong_tag.bytes[0] = 0x05;
    assert_eq!(encode_public_key(&wrong_tag), Err(Error::SerializationError));
    assert_eq!(encode_public_key(&EcdsaPublic { bytes: [0xff; 33] }), Err(Error::SerializationError));
    assert_eq!(encode_public_key(&EcdsaPublic { bytes: [0u8; 33] }), Err(Error::SerializationError));
    let key = EcdsaPublic { bytes: [2u8; 33] };
    assert_eq!(encode_checked_public_key(&key, true), Ok(vec![2u8; 33]));
    assert_eq!(encode_checked_public_key(&key, false), Err(Error::SerializationError));
    let mut odd = key;
    odd.bytes[0] = 3;
    assert_eq!(encode_checked_public_key(&odd, true), Ok(odd.bytes.to_vec()));
    for tag in [0u8, 1, 4, 5, 6, 255] {
        let mut other = key;
        other.bytes[0] = tag;
        assert_eq!(encode_checked_public_key(&other, true), Err(Error::SerializationError));
    }
}
