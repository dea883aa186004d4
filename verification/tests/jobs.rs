use dfns_cggmp21_blueprint::committee::{AccountId, EcdsaPublic, Operator};
use dfns_cggmp21_blueprint::context::{CoreKeyShare, DfnsContext, DfnsStore, KeyShare};
use dfns_cggmp21_blueprint::coordinator::Interruption;
use dfns_cggmp21_blueprint::error::{ContextError, Error};
use dfns_cggmp21_blueprint::key_refresh::{key_refresh, RefreshAction, RefreshEvent, RefreshState};
use dfns_cggmp21_blueprint::keygen::{keygen, KeygenAction, KeygenEvent, KeygenState};
use dfns_cggmp21_blueprint::record_format::decode_record;
use dfns_cggmp21_blueprint::signing::{sign, SignAction, SignEvent, SignState};
use dfns_cggmp21_blueprint::store::SessionStore;
use k256::ecdsa::SigningKey;
use k256::sha2::{Digest, Sha256};

const STORE_KEY_42: &str = "d40d6e65969a604873788b419e93cabf94f3799246ddd817124c603fe9858441";

fn hex_id(text: &str) -> [u8; 32] {
    let mut id = [0u8; 32];
    id.copy_from_slice(&hex::decode(text).unwrap());
    id
}

fn node_account(node: u16) -> AccountId {
    let mut bytes = [0u8; 32];
    bytes[0] = 10 * (node as u8 + 1);
    AccountId { bytes }
}

fn point_of(seed: u8) -> EcdsaPublic {
    let signer = SigningKey::from_slice(&[seed; 32]).unwrap();
    let mut bytes = [0u8; 33];
    bytes.copy_from_slice(signer.verifying_key().to_encoded_point(true).as_bytes());
    EcdsaPublic { bytes }
}

fn lineage_signer() -> SigningKey {
    SigningKey::from_slice(&[99u8; 32]).unwrap()
}

fn lineage_key() -> EcdsaPublic {
    point_of(99)
}

fn transport_keys() -> Vec<EcdsaPublic> {
    vec![point_of(1), point_of(2), point_of(3)]
}

fn context_of(node: u16, call_id: u64) -> DfnsContext {
    let operators = vec![
        Operator { account: node_account(2), key: Some(point_of(3)) },
        Operator { account: node_account(0), key: Some(point_of(1)) },
        Operator { account: node_account(1), key: Some(point_of(2)) },
    ];
    DfnsContext::new(Some(7), Some(node_account(node)), operators).for_call(call_id)
}

fn generated_share(node: u16) -> CoreKeyShare {
    CoreKeyShare {
        min_signers: 2,
        shared_public_key: lineage_key(),
        public_shares: vec![point_of(11), point_of(12), point_of(13)],
        secret_share: vec![node as u8 + 1; 32],
    }
}

fn refreshed_share(node: u16, round: u8) -> KeyShare {
    KeyShare {
        min_signers: 2,
        shared_public_key: lineage_key(),
        public_shares: vec![point_of(21 + round), point_of(22 + round), point_of(23 + round)],
        secret_share: vec![node as u8 + 100 + round; 32],
        aux_info: vec![round; 8],
    }
}

fn interrupted(interruption: Interruption) -> KeygenEvent {
    KeygenEvent::Interrupted { interruption }
}

fn run_keygen(node: u16, store: &mut SessionStore) -> Vec<u8> {
    let (state, action) = keygen(
        KeygenState::Ready { t: 2 },
        KeygenEvent::Start { context: context_of(node, 42) },
        store,
    );
    assert_eq!(
        action,
        KeygenAction::Generate {
            execution_id: hex_id("b684eaba9d4bfa4ef6d6ae1f371a382554e17a4f05ce32ca03b2bffc10de10bc"),
            party_index: node,
            n: 3,
            threshold: 2,
            parties: transport_keys(),
            reliable_broadcast: false,
            deadline_secs: 600,
        }
    );
    let (state, action) =
        keygen(state, KeygenEvent::Generated { share: generated_share(node) }, store);
    assert_eq!(action, KeygenAction::GeneratePrimes);
    let (state, action) =
        keygen(state, KeygenEvent::PrimesGenerated { primes: vec![3, 5, 7] }, store);
    match action {
        KeygenAction::Persist { store_key, record, encoded } => {
            assert_eq!(store_key, STORE_KEY_42);
            assert_eq!(decode_record(&encoded), Ok(record.clone()));
            assert_eq!(record.keygen_output.clone().unwrap().core_key_share, generated_share(node));
            assert_eq!(record.keygen_output.clone().unwrap().pregenerated_primes, vec![3, 5, 7]);
            assert_eq!(record.aux_keyshare, None);
            assert_eq!(record.refreshed_key, None);
            store.set(&store_key, record);
        }
        other => panic!("unexpected action {:?}", other),
    }
    let (state, action) = keygen(state, KeygenEvent::Persisted, store);
    match (state, action) {
        (KeygenState::Done { output }, KeygenAction::Respond { output: returned }) => {
            assert_eq!(output, returned);
            output
        }
        other => panic!("unexpected end {:?}", other),
    }
}

fn run_refresh(node: u16, call_id: u64, round: u8, store: &mut SessionStore) -> Vec<u8> {
    let session_key = hex_id(STORE_KEY_42);
    let (state, action) = key_refresh(
        RefreshState::Ready { keygen_call_id: 42 },
        RefreshEvent::Start { context: context_of(node, call_id) },
        store,
    );
    assert_eq!(
        action,
        RefreshAction::GenerateAux {
            execution_id: hex_id("ae8080f021f7a0fc7ab6e3f42f18529440ea666bcdbf213ce600532ffd20bd17"),
            party_index: node,
            parties: transport_keys(),
            pregenerated_primes: vec![3, 5, 7],
            deadline_secs: 300,
        }
    );
    let (state, action) =
        key_refresh(state, RefreshEvent::AuxGenerated { aux_info: vec![round; 8] }, store);
    let expected_aux = generated_share(node).with_aux(vec![round; 8]);
    match action {
        RefreshAction::Persist { store_key, record, encoded } => {
            assert_eq!(store_key, STORE_KEY_42);
            assert_eq!(decode_record(&encoded), Ok(record.clone()));
            assert_eq!(record.aux_keyshare, Some(expected_aux.clone()));
            assert!(record.keygen_output.is_some());
            store.set(&store_key, record);
        }
        other => panic!("unexpected action {:?}", other),
    }
    let (state, action) = key_refresh(state, RefreshEvent::Persisted, store);
    assert_eq!(
        action,
        RefreshAction::Refresh {
            execution_id: dfns_cggmp21_blueprint::session_id::execution_id(
                &session_key,
                dfns_cggmp21_blueprint::session_id::Purpose::KeyRefresh { call_id },
            ),
            party_index: node,
            parties: transport_keys(),
            key_share: expected_aux,
            pregenerated_primes: vec![3, 5, 7],
            deadline_secs: 300,
        }
    );
    let (state, action) =
        key_refresh(state, RefreshEvent::Refreshed { key: refreshed_share(node, round) }, store);
    match action {
        RefreshAction::Persist { store_key, record, encoded } => {
            assert_eq!(store_key, STORE_KEY_42);
            assert_eq!(decode_record(&encoded), Ok(record.clone()));
            assert_eq!(record.refreshed_key, Some(refreshed_share(node, round)));
            assert_eq!(
                record.refreshed_key.clone().unwrap().shared_public_key,
                record.keygen_output.clone().unwrap().public_key.shared_public_key
            );
            store.set(&store_key, record);
        }
        other => panic!("unexpected action {:?}", other),
    }
    let (state, action) = key_refresh(state, RefreshEvent::Persisted, store);
    match (state, action) {
        (RefreshState::Done { output }, RefreshAction::Respond { output: returned }) => {
            assert_eq!(output, returned);
            output
        }
        other => panic!("unexpected end {:?}", other),
    }
}

fn start_sign(node: u16, store: &SessionStore) -> (SignState, SignAction) {
    sign(
        SignState::Ready { keygen_call_id: 42, message: b"hello".to_vec() },
        SignEvent::Start { context: context_of(node, 44) },
        store,
    )
}

#[test]
fn keygen_happy_path() {
    for node in 0..3u16 {
        let mut store = SessionStore::new();
        let output = run_keygen(node, &mut store);
        assert_eq!(output, lineage_key().bytes.to_vec());
        assert!(k256::PublicKey::from_sec1_bytes(&output).is_ok());
        let record = store.get(STORE_KEY_42).unwrap();
        assert!(record.keygen_output.is_some());
        assert!(record.aux_keyshare.is_none());
        assert!(record.refreshed_key.is_none());
    }
}

#[test]
fn refresh_happy_path() {
    for node in 0..3u16 {
        let mut store = SessionStore::new();
        let generated = run_keygen(node, &mut store);
        let refreshed = run_refresh(node, 43, 0, &mut store);
        assert_eq!(refreshed, generated);
        let record = store.get(STORE_KEY_42).unwrap();
        assert_eq!(record.refreshed_key, Some(refreshed_share(node, 0)));
        assert_eq!(
            record.keygen_output.unwrap().public_key.shared_public_key,
            lineage_key()
        );
    }
}

#[test]
fn refresh_after_refresh_keeps_the_public_key() {
    let mut store = SessionStore::new();
    let generated = run_keygen(1, &mut store);
    for round in 0..4u8 {
        let returned = run_refresh(1, 43 + round as u64, round, &mut store);
        assert_eq!(returned, generated);
        let record = store.get(STORE_KEY_42).unwrap();
        assert_eq!(record.refreshed_key.unwrap().shared_public_key, lineage_key());
        assert!(record.keygen_output.is_some());
    }
}

#[test]
fn sign_happy_path() {
    let digest: [u8; 32] = Sha256::digest(b"hello").into();
    let (signature, recovery_id) = lineage_signer().sign_prehash_recoverable(&digest).unwrap();
    let mut selected = 0;
    for node in 0..3u16 {
        let mut store = SessionStore::new();
        run_keygen(node, &mut store);
        run_refresh(node, 43, 0, &mut store);
        let (state, action) = start_sign(node, &store);
        if node == 0 {
            assert_eq!(action, SignAction::StandDown);
            assert!(matches!(state, SignState::NotSelected { .. }));
            continue;
        }
        selected += 1;
        assert_eq!(
            action,
            SignAction::Sign {
                execution_id: hex_id(
                    "d057d87b8986f1c63c4f1d7b22d3ac395308b3d758d4ebb8160429ca2f675911"
                ),
                signer_index: node - 1,
                signers: vec![1, 2],
                parties: transport_keys(),
                key_share: refreshed_share(node, 0),
                data_to_sign: hex_id(
                    "2cf24dba5fb0a30e26e83b2ac5b9e29e1b161e5c1fa7425e73043362938b9824"
                ),
                deadline_secs: 120,
            }
        );
        let (state, action) =
            sign(state, SignEvent::Signed { signature: signature.to_bytes().to_vec() }, &store);
        let mut expected = signature.to_bytes().to_vec();
        expected.push(recovery_id.to_byte());
        assert_eq!(action, SignAction::Respond { output: expected.clone() });
        assert_eq!(state, SignState::Done { output: expected.clone() });
        let recovered = k256::ecdsa::VerifyingKey::recover_from_prehash(
            &digest,
            &k256::ecdsa::Signature::from_slice(&expected[..64]).unwrap(),
            k256::ecdsa::RecoveryId::from_byte(expected[64]).unwrap(),
        )
        .unwrap();
        assert_eq!(recovered.to_encoded_point(true).as_bytes(), &lineage_key().bytes[..]);
    }
    assert_eq!(selected, 2);
}

#[test]
fn refresh_without_keygen() {
    let mut store = SessionStore::new();
    run_keygen(0, &mut store);
    let before = store.clone();
    let (state, action) = key_refresh(
        RefreshState::Ready { keygen_call_id: 99 },
        RefreshEvent::Start { context: context_of(0, 100) },
        &store,
    );
    assert_eq!(state, RefreshState::Failed { error: Error::StoreMissing });
    assert_eq!(action, RefreshAction::Abort { error: Error::StoreMissing });
    assert_eq!(store, before);
    assert!(!store.contains("3090b8f16db5d9c2b2201249a103189fb25e7cc389b79e8acf150c356be12996"));
}

#[test]
fn sign_without_refresh() {
    let mut store = SessionStore::new();
    run_keygen(1, &mut store);
    let (state, action) = start_sign(1, &store);
    assert_eq!(state, SignState::Failed { error: Error::StoreMissing });
    assert_eq!(action, SignAction::Abort { error: Error::StoreMissing });
    let empty = SessionStore::new();
    let (state, _) = start_sign(1, &empty);
    assert_eq!(state, SignState::Failed { error: Error::StoreMissing });
}

#[test]
fn byzantine_drop() {
    // Signing: the party that was not selected is gone, the signers finish.
    let digest: [u8; 32] = Sha256::digest(b"hello").into();
    let (signature, _) = lineage_signer().sign_prehash_recoverable(&digest).unwrap();
    let mut store = SessionStore::new();
    run_keygen(0, &mut store);
    run_refresh(0, 43, 0, &mut store);
    let (idle, _) = start_sign(0, &store);
    let (idle, action) = sign(
        idle,
        SignEvent::Interrupted { interruption: Interruption::TransportFailed },
        &store,
    );
    assert!(matches!(idle, SignState::NotSelected { .. }));
    assert_eq!(action, SignAction::Ignore);
    for node in 1..3u16 {
        let mut store = SessionStore::new();
        run_keygen(node, &mut store);
        run_refresh(node, 43, 0, &mut store);
        let (state, _) = start_sign(node, &store);
        let (state, _) =
            sign(state, SignEvent::Signed { signature: signature.to_bytes().to_vec() }, &store);
        assert!(matches!(state, SignState::Done { .. }));
    }
    // Key generation: a party is gone, the rounds abort, nothing is written.
    for node in 0..2u16 {
        let store = SessionStore::new();
        let (state, _) = keygen(
            KeygenState::Ready { t: 2 },
            KeygenEvent::Start { context: context_of(node, 42) },
            &store,
        );
        let (state, action) = keygen(state, interrupted(Interruption::ProtocolFailed), &store);
        assert_eq!(state, KeygenState::Failed { error: Error::ProtocolError });
        assert_eq!(action, KeygenAction::Abort { error: Error::ProtocolError });
        assert_eq!(store.get(STORE_KEY_42), None);
        let (state, action) =
            keygen(state, KeygenEvent::Generated { share: generated_share(node) }, &store);
        assert_eq!(state, KeygenState::Failed { error: Error::ProtocolError });
        assert_eq!(action, KeygenAction::Ignore);
    }
}

#[test]
fn a_signature_that_does_not_verify_fails_the_job() {
    let digest: [u8; 32] = Sha256::digest(b"other").into();
    let (signature, _) = lineage_signer().sign_prehash_recoverable(&digest).unwrap();
    let mut store = SessionStore::new();
    run_keygen(1, &mut store);
    run_refresh(1, 43, 0, &mut store);
    let (state, _) = start_sign(1, &store);
    let (state, action) =
        sign(state, SignEvent::Signed { signature: signature.to_bytes().to_vec() }, &store);
    assert_eq!(state, SignState::Failed { error: Error::LocalVerifyFailed });
    assert_eq!(action, SignAction::Abort { error: Error::LocalVerifyFailed });
}

#[test]
fn a_refresh_that_changes_the_public_key_fails_the_job() {
    let mut store = SessionStore::new();
    run_keygen(1, &mut store);
    let (state, _) = key_refresh(
        RefreshState::Ready { keygen_call_id: 42 },
        RefreshEvent::Start { context: context_of(1, 43) },
        &store,
    );
    let (state, action) =
        key_refresh(state, RefreshEvent::AuxGenerated { aux_info: vec![1] }, &store);
    if let RefreshAction::Persist { store_key, record, .. } = action {
        store.set(&store_key, record);
    }
    let (state, _) = key_refresh(state, RefreshEvent::Persisted, &store);
    let before = store.clone();
    let mut drifted = refreshed_share(1, 0);
    drifted.shared_public_key = point_of(98);
    let (state, action) = key_refresh(state, RefreshEvent::Refreshed { key: drifted }, &store);
    assert_eq!(state, RefreshState::Failed { error: Error::RefreshPublicKeyMismatch });
    assert_eq!(action, RefreshAction::Abort { error: Error::RefreshPublicKeyMismatch });
    assert_eq!(store, before);
}

#[test]
fn key_generation_checks_its_threshold_and_its_lineage() {
    let mut store = SessionStore::new();
    for t in [0u16, 4, 100] {
        let (state, action) = keygen(
            KeygenState::Ready { t },
            KeygenEvent::Start { context: context_of(0, 42) },
            &store,
        );
        assert_eq!(state, KeygenState::Failed { error: Error::InvalidThreshold });
        assert_eq!(action, KeygenAction::Abort { error: Error::InvalidThreshold });
    }
    for t in [1u16, 3] {
        let (state, _) = keygen(
            KeygenState::Ready { t },
            KeygenEvent::Start { context: context_of(0, 42) },
            &store,
        );
        assert!(matches!(state, KeygenState::Running { .. }));
    }
    run_keygen(0, &mut store);
    let (state, _) = keygen(
        KeygenState::Ready { t: 2 },
        KeygenEvent::Start { context: context_of(0, 42) },
        &store,
    );
    assert_eq!(state, KeygenState::Failed { error: Error::DuplicateKeygen });
    let (state, _) = keygen(
        KeygenState::Ready { t: 2 },
        KeygenEvent::Start { context: context_of(0, 45) },
        &store,
    );
    assert!(matches!(state, KeygenState::Running { .. }));
}

#[test]
fn key_generation_refuses_a_share_that_does_not_fit() {
    let store = SessionStore::new();
    let started = || {
        keygen(KeygenState::Ready { t: 2 }, KeygenEvent::Start { context: context_of(0, 42) }, &store).0
    };
    let mut other_threshold = generated_share(0);
    other_threshold.min_signers = 3;
    let (state, _) = keygen(started(), KeygenEvent::Generated { share: other_threshold }, &store);
    assert_eq!(state, KeygenState::Failed { error: Error::ProtocolError });
    let mut fewer_parties = generated_share(0);
    fewer_parties.public_shares.pop();
    let (state, _) = keygen(started(), KeygenEvent::Generated { share: fewer_parties }, &store);
    assert_eq!(state, KeygenState::Failed { error: Error::ProtocolError });
}

#[test]
fn a_job_needs_its_context() {
    let store = SessionStore::new();
    let start = |context: DfnsContext| {
        keygen(KeygenState::Ready { t: 2 }, KeygenEvent::Start { context }, &store).0
    };
    let mut context = context_of(0, 42);
    context.signer = None;
    assert_eq!(
        start(context),
        KeygenState::Failed { error: Error::Context(ContextError::MissingSigner) }
    );
    let mut context = context_of(0, 42);
    context.blueprint_id = None;
    assert_eq!(
        start(context),
        KeygenState::Failed { error: Error::Context(ContextError::MissingBlueprintId) }
    );
    let mut context = context_of(0, 42);
    context.call_id = None;
    assert_eq!(
        start(context),
        KeygenState::Failed { error: Error::Context(ContextError::MissingCallId) }
    );
    let mut context = context_of(0, 42);
    context.operators[1].key = None;
    assert_eq!(
        start(context),
        KeygenState::Failed {
            error: Error::Context(ContextError::MissingOperatorKey(node_account(0)))
        }
    );
    let mut context = context_of(0, 42);
    context.signer = Some(AccountId { bytes: [0xee; 32] });
    assert_eq!(start(context), KeygenState::Failed { error: Error::NotInCommittee });
    assert_eq!(DfnsContext::new(Some(7), None, Vec::new()).call_id, None);
}

#[test]
fn whatever_cuts_a_ceremony_short_ends_the_job() {
    let store = SessionStore::new();
    let cases = [
        (Interruption::ChainQueryFailed, Error::Context(ContextError::ChainQueryFailed)),
        (Interruption::ProtocolFailed, Error::ProtocolError),
        (Interruption::TransportFailed, Error::TransportError),
        (Interruption::StoreFailed, Error::StoreFailed),
        (Interruption::Cancelled, Error::Cancelled),
        (Interruption::DeadlineExpired, Error::Timeout),
    ];
    for (interruption, error) in cases {
        let (running, _) = keygen(
            KeygenState::Ready { t: 2 },
            KeygenEvent::Start { context: context_of(0, 42) },
            &store,
        );
        let (state, action) = keygen(running, interrupted(interruption), &store);
        assert_eq!(state, KeygenState::Failed { error });
        assert_eq!(action, KeygenAction::Abort { error });
        let (state, action) = key_refresh(
            RefreshState::Ready { keygen_call_id: 42 },
            RefreshEvent::Interrupted { interruption },
            &store,
        );
        assert_eq!(state, RefreshState::Failed { error });
        assert_eq!(action, RefreshAction::Abort { error });
        let (state, action) = sign(
            SignState::Ready { keygen_call_id: 42, message: Vec::new() },
            SignEvent::Interrupted { interruption },
            &store,
        );
        assert_eq!(state, SignState::Failed { error });
        assert_eq!(action, SignAction::Abort { error });
    }
}

#[test]
fn events_that_a_state_does_not_wait_for_are_ignored() {
    let store = SessionStore::new();
    let (state, action) = keygen(KeygenState::Ready { t: 2 }, KeygenEvent::Persisted, &store);
    assert_eq!(state, KeygenState::Ready { t: 2 });
    assert_eq!(action, KeygenAction::Ignore);
    let (running, _) = keygen(
        KeygenState::Ready { t: 2 },
        KeygenEvent::Start { context: context_of(0, 42) },
        &store,
    );
    let (state, action) =
        keygen(running.clone(), KeygenEvent::PrimesGenerated { primes: vec![1] }, &store);
    assert_eq!(state, running);
    assert_eq!(action, KeygenAction::Ignore);
    let done = KeygenState::Done { output: vec![1, 2] };
    let (state, action) = keygen(done.clone(), interrupted(Interruption::Cancelled), &store);
    assert_eq!(state, done);
    assert_eq!(action, KeygenAction::Ignore);
    let (state, action) = key_refresh(
        RefreshState::Ready { keygen_call_id: 42 },
        RefreshEvent::Persisted,
        &store,
    );
    assert_eq!(state, RefreshState::Ready { keygen_call_id: 42 });
    assert_eq!(action, RefreshAction::Ignore);
    let ready = SignState::Ready { keygen_call_id: 42, message: b"m".to_vec() };
    let (state, action) = sign(ready.clone(), SignEvent::Signed { signature: vec![0; 64] }, &store);
    assert_eq!(state, ready);
    assert_eq!(action, SignAction::Ignore);
}

#[test]
fn a_record_that_cannot_be_built_on_is_corrupt() {
    let mut store = SessionStore::new();
    run_keygen(1, &mut store);
    let mut record: DfnsStore = store.get(STORE_KEY_42).unwrap();
    record.refreshed_key = Some(refreshed_share(1, 0));
    store.set(STORE_KEY_42, record);
    let (state, _) = start_sign(1, &store);
    assert_eq!(state, SignState::Failed { error: Error::StoreCorrupt });
    let (state, _) = key_refresh(
        RefreshState::Ready { keygen_call_id: 42 },
        RefreshEvent::Start { context: context_of(1, 43) },
        &store,
    );
    assert_eq!(state, RefreshState::Failed { error: Error::StoreCorrupt });
}

#[test]
fn a_configured_deadline_replaces_the_default() {
    let store = SessionStore::new();
    let (_, action) = keygen(
        KeygenState::Ready { t: 2 },
        KeygenEvent::Start { context: context_of(0, 42).with_deadline(30) },
        &store,
    );
    assert!(matches!(action, KeygenAction::Generate { deadline_secs: 30, .. }));
    let mut store = SessionStore::new();
    run_keygen(1, &mut store);
    let (state, action) = key_refresh(
        RefreshState::Ready { keygen_call_id: 42 },
        RefreshEvent::Start { context: context_of(1, 43).with_deadline(45) },
        &store,
    );
    assert!(matches!(action, RefreshAction::GenerateAux { deadline_secs: 45, .. }));
    let (state, action) =
        key_refresh(state, RefreshEvent::AuxGenerated { aux_info: vec![1] }, &store);
    if let RefreshAction::Persist { store_key, record, .. } = action {
        store.set(&store_key, record);
    }
    let (_, action) = key_refresh(state, RefreshEvent::Persisted, &store);
    assert!(matches!(action, RefreshAction::Refresh { deadline_secs: 45, .. }));
    run_refresh(1, 43, 0, &mut store);
    let (_, action) = sign(
        SignState::Ready { keygen_call_id: 42, message: b"hello".to_vec() },
        SignEvent::Start { context: context_of(1, 44).with_deadline(5) },
        &store,
    );
    assert!(matches!(action, SignAction::Sign { deadline_secs: 5, .. }));
}

fn no_point() -> EcdsaPublic {
    EcdsaPublic { bytes: [0u8; 33] }
}

fn to_the_refresh_ceremony(node: u16, store: &mut SessionStore) -> RefreshState {
    let (state, _) = key_refresh(
        RefreshState::Ready { keygen_call_id: 42 },
        RefreshEvent::Start { context: context_of(node, 43) },
        store,
    );
    let (state, action) =
        key_refresh(state, RefreshEvent::AuxGenerated { aux_info: vec![1] }, store);
    match action {
        RefreshAction::Persist { store_key, record, .. } => store.set(&store_key, record),
        other => panic!("unexpected action {:?}", other),
    }
    let (state, action) = key_refresh(state, RefreshEvent::Persisted, store);
    assert!(matches!(action, RefreshAction::Refresh { .. }));
    state
}

#[test]
fn a_key_that_cannot_be_returned_fails_key_generation_before_anything_is_written() {
    for key in [no_point(), EcdsaPublic { bytes: [0xff; 33] }] {
        let store = SessionStore::new();
        let (state, _) = keygen(
            KeygenState::Ready { t: 2 },
            KeygenEvent::Start { context: context_of(0, 42) },
            &store,
        );
        let mut share = generated_share(0);
        share.shared_public_key = key;
        let (state, action) = keygen(state, KeygenEvent::Generated { share }, &store);
        assert_eq!(state, KeygenState::Failed { error: Error::SerializationError });
        assert_eq!(action, KeygenAction::Abort { error: Error::SerializationError });
        assert_eq!(store.get(STORE_KEY_42), None);
    }
    let mut compact = generated_share(0);
    compact.shared_public_key.bytes[0] = 0x05;
    let store = SessionStore::new();
    let (state, _) = keygen(
        KeygenState::Ready { t: 2 },
        KeygenEvent::Start { context: context_of(0, 42) },
        &store,
    );
    let (state, _) = keygen(state, KeygenEvent::Generated { share: compact }, &store);
    assert_eq!(state, KeygenState::Failed { error: Error::SerializationError });
}

#[test]
fn a_share_with_such_a_key_is_not_written_either() {
    let store = SessionStore::new();
    let (started, _) = keygen(
        KeygenState::Ready { t: 2 },
        KeygenEvent::Start { context: context_of(0, 42) },
        &store,
    );
    let session = match started {
        KeygenState::Running { session, .. } => session,
        other => panic!("unexpected state {:?}", other),
    };
    let mut share = generated_share(0);
    share.shared_public_key = no_point();
    let (state, action) = keygen(
        KeygenState::GeneratingPrimes { session, share },
        KeygenEvent::PrimesGenerated { primes: vec![3, 5, 7] },
        &store,
    );
    assert_eq!(state, KeygenState::Failed { error: Error::SerializationError });
    assert_eq!(action, KeygenAction::Abort { error: Error::SerializationError });
}

#[test]
fn once_the_record_is_written_key_generation_returns_the_key() {
    let store = SessionStore::new();
    let (started, _) = keygen(
        KeygenState::Ready { t: 2 },
        KeygenEvent::Start { context: context_of(0, 42) },
        &store,
    );
    let session = match started {
        KeygenState::Running { session, .. } => session,
        other => panic!("unexpected state {:?}", other),
    };
    let (state, action) = keygen(
        KeygenState::Persisting { session, output: vec![1, 2, 3] },
        KeygenEvent::Persisted,
        &store,
    );
    assert_eq!(state, KeygenState::Done { output: vec![1, 2, 3] });
    assert_eq!(action, KeygenAction::Respond { output: vec![1, 2, 3] });
    let (state, action) = key_refresh(
        RefreshState::Persisting { session, output: vec![4, 5] },
        RefreshEvent::Persisted,
        &store,
    );
    assert_eq!(state, RefreshState::Done { output: vec![4, 5] });
    assert_eq!(action, RefreshAction::Respond { output: vec![4, 5] });
}

#[test]
fn a_lineage_whose_key_cannot_be_returned_is_not_refreshed() {
    let mut store = SessionStore::new();
    let mut share = generated_share(1);
    share.shared_public_key = no_point();
    let record = DfnsStore::after_keygen(
        dfns_cggmp21_blueprint::context::KeygenOutput::new(vec![3, 5, 7], share),
    );
    assert!(record.is_valid());
    store.set(STORE_KEY_42, record);
    let before = store.clone();
    let (state, action) = key_refresh(
        RefreshState::Ready { keygen_call_id: 42 },
        RefreshEvent::Start { context: context_of(1, 43) },
        &store,
    );
    assert_eq!(state, RefreshState::Failed { error: Error::SerializationError });
    assert_eq!(action, RefreshAction::Abort { error: Error::SerializationError });
    assert_eq!(store, before);
}

#[test]
fn a_refreshed_share_with_such_a_key_is_not_written() {
    let mut store = SessionStore::new();
    run_keygen(1, &mut store);
    run_refresh(1, 43, 0, &mut store);
    let state = to_the_refresh_ceremony(1, &mut store);
    let session = match state {
        RefreshState::Refreshing { session } => session,
        other => panic!("unexpected state {:?}", other),
    };
    let mut record = store.get(STORE_KEY_42).unwrap();
    record.keygen_output.as_mut().unwrap().public_key.shared_public_key = no_point();
    record.keygen_output.as_mut().unwrap().core_key_share.shared_public_key = no_point();
    record.aux_keyshare.as_mut().unwrap().shared_public_key = no_point();
    record.refreshed_key.as_mut().unwrap().shared_public_key = no_point();
    assert!(record.is_valid());
    store.set(STORE_KEY_42, record);
    let before = store.clone();
    let mut key = refreshed_share(1, 1);
    key.shared_public_key = no_point();
    let (state, action) = key_refresh(
        RefreshState::Refreshing { session },
        RefreshEvent::Refreshed { key },
        &store,
    );
    assert_eq!(state, RefreshState::Failed { error: Error::SerializationError });
    assert_eq!(action, RefreshAction::Abort { error: Error::SerializationError });
    assert_eq!(store, before);
    assert_eq!(
        store.get(STORE_KEY_42).unwrap().refreshed_key.unwrap().secret_share,
        refreshed_share(1, 0).secret_share
    );
}

#[test]
fn a_refresh_that_fails_leaves_the_refreshed_share_as_it_was() {
    let mut store = SessionStore::new();
    run_keygen(1, &mut store);
    run_refresh(1, 43, 0, &mut store);
    let earlier = store.get(STORE_KEY_42).unwrap().refreshed_key;
    assert_eq!(earlier, Some(refreshed_share(1, 0)));
    let state = to_the_refresh_ceremony(1, &mut store);
    assert_eq!(store.get(STORE_KEY_42).unwrap().refreshed_key, earlier);
    let mut drifted = refreshed_share(1, 1);
    drifted.shared_public_key = point_of(98);
    let mut other_threshold = refreshed_share(1, 1);
    other_threshold.min_signers = 3;
    let mut other_parties = refreshed_share(1, 1);
    other_parties.public_shares.push(point_of(50));
    let failures = [
        (RefreshEvent::Refreshed { key: drifted }, Error::RefreshPublicKeyMismatch),
        (RefreshEvent::Refreshed { key: other_threshold }, Error::ProtocolError),
        (RefreshEvent::Refreshed { key: other_parties }, Error::ProtocolError),
        (
            RefreshEvent::Interrupted { interruption: Interruption::ProtocolFailed },
            Error::ProtocolError,
        ),
        (RefreshEvent::Interrupted { interruption: Interruption::DeadlineExpired }, Error::Timeout),
    ];
    for (event, error) in failures {
        let (next, action) = key_refresh(state.clone(), event, &store);
        assert_eq!(next, RefreshState::Failed { error });
        assert_eq!(action, RefreshAction::Abort { error });
        assert_eq!(store.get(STORE_KEY_42).unwrap().refreshed_key, earlier);
    }
    let (next, action) =
        key_refresh(state, RefreshEvent::Refreshed { key: refreshed_share(1, 1) }, &store);
    assert!(matches!(next, RefreshState::Persisting { .. }));
    match action {
        RefreshAction::Persist { record, .. } => {
            assert_eq!(record.refreshed_key, Some(refreshed_share(1, 1)))
        }
        other => panic!("unexpected action {:?}", other),
    }
}
