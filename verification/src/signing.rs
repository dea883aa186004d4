//! Threshold signing with the refreshed share of a lineage.

use crate::bytes::copy_all;
use crate::codec::{encode_signature, recovery_candidates, signature_output};
use crate::committee::EcdsaPublic;
use crate::context::{DfnsContext, DfnsStoreView, KeyShare, KeyShareView};
use crate::coordinator::{error_of, interruption_error, load_record, loaded_record, Interruption};
use crate::dispatch::SIGN_DEADLINE_SECS;
use crate::error::Error;
use crate::hashing::{sha256, sha256_digest};
use crate::selection::{place_of, select_signers, signer_position, signers_of};
use crate::session::{open_session, session_outcome, Session};
use crate::session_id::{execution_id, execution_id_of, Purpose};
use crate::store::SessionStore;
use vstd::prelude::*;

verus! {

/// Where a signing job stands.
#[derive(Clone, Debug, PartialEq, Eq)]
pub enum SignState {
    /// Not started.
    Ready { keygen_call_id: u64, message: Vec<u8> },
    /// The signing ceremony runs, and this node is one of the signers.
    Signing { session: Session, public_key: EcdsaPublic, data_to_sign: [u8; 32] },
    /// This node is not one of the signers: it has nothing to do.
    NotSelected { session: Session },
    /// The job returned the encoded signature.
    Done { output: Vec<u8> },
    /// The job ended with an error.
    Failed { error: Error },
}

/// What a signing job is told.
#[derive(Clone, Debug, PartialEq, Eq)]
pub enum SignEvent {
    /// The job was called, in this context.
    Start { context: DfnsContext },
    /// The ceremony produced a signature: `r`, then `s`.
    Signed { signature: Vec<u8> },
    /// The ceremony was cut short.
    Interrupted { interruption: Interruption },
}

/// What a signing job asks for.
#[derive(Clone, Debug, PartialEq, Eq)]
pub enum SignAction {
    /// Run the signing ceremony over a channel bound to `execution_id`, as
    /// signer number `signer_index` of `signers`, for `deadline_secs` seconds
    /// at most.
    Sign {
        execution_id: [u8; 32],
        signer_index: u16,
        signers: Vec<u16>,
        parties: Vec<EcdsaPublic>,
        key_share: KeyShare,
        data_to_sign: [u8; 32],
        deadline_secs: u64,
    },
    /// Leave the ceremony to the signers.
    StandDown,
    /// Return `output` as the result of the job.
    Respond { output: Vec<u8> },
    /// Drop the channel and return `error`.
    Abort { error: Error },
    /// Nothing to do.
    Ignore,
}

/// What a signing job starts from, or why it does not start: the session, the
/// parties and the refreshed share, which must be one among as many parties as
/// the committee has.
pub open spec fn sign_start(
    context: DfnsContext,
    keygen_call_id: u64,
    store: Map<Seq<char>, DfnsStoreView>,
) -> Result<(Session, Seq<EcdsaPublic>, KeyShareView), Error> {
    match session_outcome(context, Some(keygen_call_id), SIGN_DEADLINE_SECS) {
        Err(error) => Err(error),
        Ok((session, parties)) => match loaded_record(store, session.session_key) {
            Err(error) => Err(error),
            Ok(record) => match record.refreshed_key {
                None => Err(Error::StoreMissing),
                Some(key) => if key.public_shares.len() != session.n {
                    Err(Error::StoreCorrupt)
                } else {
                    Ok((session, parties, key))
                },
            },
        },
    }
}

/// The execution id of the signing that `session` is about.
pub open spec fn signing_id(session: Session) -> [u8; 32] {
    execution_id_of(session.session_key, Purpose::Signing { call_id: session.call_id })
}

/// Whether the job ended with `error`.
pub open spec fn sign_fails(next: SignState, action: SignAction, error: Error) -> bool {
    next == (SignState::Failed { error }) && action == (SignAction::Abort { error })
}

/// One step of a signing job: from `state`, on `event` and with the store as
/// it is, the job goes to `next` and asks for `action`.
pub open spec fn sign_step(
    state: SignState,
    event: SignEvent,
    store: Map<Seq<char>, DfnsStoreView>,
    next: SignState,
    action: SignAction,
) -> bool {
    match (state, event) {
        (SignState::Done { .. }, _) | (SignState::Failed { .. }, _) | (
            SignState::NotSelected { .. },
            _,
        ) => next == state && action is Ignore,
        (_, SignEvent::Interrupted { interruption }) => sign_fails(
            next,
            action,
            interruption_error(interruption),
        ),
        (SignState::Ready { keygen_call_id, message }, SignEvent::Start { context }) => match sign_start(
            context,
            keygen_call_id,
            store,
        ) {
            Err(error) => sign_fails(next, action, error),
            Ok((session, parties, key)) => {
                let chosen = signers_of(signing_id(session), session.n, key.min_signers);
                let place = place_of(chosen, session.party_index, 0);
                if place >= chosen.len() {
                    next == (SignState::NotSelected { session }) && action is StandDown
                } else {
                    &&& next == (SignState::Signing {
                        session,
                        public_key: key.shared_public_key,
                        data_to_sign: sha256_digest(message@),
                    })
                    &&& action matches SignAction::Sign {
                        execution_id,
                        signer_index,
                        signers,
                        parties: sent,
                        key_share,
                        data_to_sign,
                        deadline_secs,
                    }
                    &&& execution_id == signing_id(session)
                    &&& deadline_secs == session.deadline_secs
                    &&& signer_index == place
                    &&& signers@ == chosen
                    &&& sent@ == parties
                    &&& key_share@ == key
                    &&& data_to_sign == sha256_digest(message@)
                }
            },
        },
        (
            SignState::Signing { session, public_key, data_to_sign },
            SignEvent::Signed { signature },
        ) => match signature_output(
            signature@,
            recovery_candidates(data_to_sign@, signature@),
            public_key,
        ) {
            Err(error) => sign_fails(next, action, error),
            Ok(bytes) => {
                &&& next matches SignState::Done { output: returned }
                &&& returned@ == bytes
                &&& action matches SignAction::Respond { output }
                &&& output@ == bytes
            },
        },
        _ => next == state && action is Ignore,
    }
}

/// The job ends with `error`.
fn fail(error: Error) -> (out: (SignState, SignAction))
    ensures
        sign_fails(out.0, out.1, error),
{
    (SignState::Failed { error }, SignAction::Abort { error })
}

/// Starts the job: establishes the session, selects the signers and, if this
/// node is one of them, asks for the ceremony.
fn start(context: DfnsContext, keygen_call_id: u64, message: Vec<u8>, store: &SessionStore) -> (out: (
    SignState,
    SignAction,
))
    requires
        store.wf(),
    ensures
        sign_step(
            SignState::Ready { keygen_call_id, message },
            SignEvent::Start { context },
            store@,
            out.0,
            out.1,
        ),
{
    let (session, parties) = match open_session(&context, Some(keygen_call_id), SIGN_DEADLINE_SECS) {
        Ok(opened) => opened,
        Err(error) => {
            return fail(error);
        },
    };
    let record = match load_record(store, &session.session_key) {
        Ok(record) => record,
        Err(error) => {
            return fail(error);
        },
    };
    let key_share = match record.refreshed_key {
        Some(key) => key,
        None => {
            return fail(Error::StoreMissing);
        },
    };
    if key_share.public_shares.len() != session.n as usize {
        return fail(Error::StoreCorrupt);
    }
    let execution_id = execution_id(
        &session.session_key,
        Purpose::Signing { call_id: session.call_id },
    );
    let signers = match select_signers(&execution_id, session.n, key_share.min_signers) {
        Some(signers) => signers,
        None => {
            return fail(Error::StoreCorrupt);
        },
    };
    proof {
        crate::selection::lemma_selected_are_distinct_parties(
            session.n,
            key_share.min_signers,
            crate::selection::draws_of(execution_id, key_share.min_signers),
        );
    }
    match signer_position(&signers, session.party_index) {
        None => (SignState::NotSelected { session }, SignAction::StandDown),
        Some(signer_index) => {
            let data_to_sign = sha256(message.as_slice());
            (
                SignState::Signing {
                    session,
                    public_key: key_share.shared_public_key,
                    data_to_sign,
                },
                SignAction::Sign {
                    execution_id,
                    signer_index,
                    signers,
                    parties,
                    key_share,
                    data_to_sign,
                    deadline_secs: session.deadline_secs,
                },
            )
        },
    }
}

/// One step of a signing job.
///
/// The job reads the refreshed share of the lineage that key generation
/// `keygen_call_id` started, selects as many signers as the threshold of the
/// share asks for, the same on every party, and stands down if this node is
/// not one of them. Otherwise it has the digest of the message signed,
/// verifies the signature against the public key of the lineage and returns it
/// with its recovery id.
pub fn sign(state: SignState, event: SignEvent, store: &SessionStore) -> (out: (SignState, SignAction))
    requires
        store.wf(),
    ensures
        sign_step(state, event, store@, out.0, out.1),
{
    match state {
        SignState::Done { output } => (SignState::Done { output }, SignAction::Ignore),
        SignState::Failed { error } => (SignState::Failed { error }, SignAction::Ignore),
        SignState::NotSelected { session } => (SignState::NotSelected { session }, SignAction::Ignore),
        SignState::Ready { keygen_call_id, message } => match event {
            SignEvent::Interrupted { interruption } => fail(error_of(interruption)),
            SignEvent::Start { context } => start(context, keygen_call_id, message, store),
            _ => (SignState::Ready { keygen_call_id, message }, SignAction::Ignore),
        },
        SignState::Signing { session, public_key, data_to_sign } => match event {
            SignEvent::Interrupted { interruption } => fail(error_of(interruption)),
            SignEvent::Signed { signature } => match encode_signature(
                &data_to_sign,
                signature.as_slice(),
                &public_key,
            ) {
                Err(error) => fail(error),
                Ok(bytes) => {
                    let output = copy_all(bytes.as_slice());
                    (SignState::Done { output: bytes }, SignAction::Respond { output })
                },
            },
            _ => (SignState::Signing { session, public_key, data_to_sign }, SignAction::Ignore),
        },
    }
}

/// The signers that a signing job names are as many as the threshold of the
/// refreshed share, all different and all parties of the committee, and this
/// node is the signer at the place that the job names.
pub proof fn lemma_signers_are_a_threshold_of_parties(
    state: SignState,
    event: SignEvent,
    store: Map<Seq<char>, DfnsStoreView>,
    next: SignState,
    action: SignAction,
)
    requires
        sign_step(state, event, store, next, action),
        action is Sign,
        state is Ready,
        event is Start,
    ensures
        ({
            let started = sign_start(event->context, state->keygen_call_id, store);
            let session = started->Ok_0.0;
            let key = started->Ok_0.2;
            let signers = action->signers@;
            &&& started is Ok
            &&& signers.len() == key.min_signers
            &&& forall|i: int| 0 <= i < signers.len() ==> #[trigger] signers[i] < session.n
            &&& forall|i: int, j: int|
                0 <= i < j < signers.len() ==> #[trigger] signers[i] != #[trigger] signers[j]
            &&& action->signer_index < signers.len()
            &&& signers[action->signer_index as int] == session.party_index
        }),
{
    let started = sign_start(event->context, state->keygen_call_id, store);
    let session = started->Ok_0.0;
    let key = started->Ok_0.2;
    crate::selection::lemma_selected_are_distinct_parties(
        session.n,
        key.min_signers,
        crate::selection::draws_of(signing_id(session), key.min_signers),
    );
    lemma_place_found(action->signers@, session.party_index, 0);
}

/// A place below the number of signers holds the party.
proof fn lemma_place_found(signers: Seq<u16>, party: u16, from: int)
    requires
        0 <= from,
    ensures
        place_of(signers, party, from) < signers.len() ==> from <= place_of(signers, party, from)
            && signers[place_of(signers, party, from)] == party,
    decreases signers.len() - from,
{
    if from < signers.len() && signers[from] != party {
        lemma_place_found(signers, party, from + 1);
    }
}

} // verus!
