//! Key refresh: auxiliary information is generated, then the shares of the
//! lineage are refreshed. The public key stays.

use crate::bytes::copy_all;
use crate::codec::{encode_public_key, returned_key};
use crate::committee::EcdsaPublic;
use crate::context::{DfnsContext, DfnsStore, DfnsStoreView, KeyShare};
use crate::coordinator::{error_of, interruption_error, load_record, loaded_record, Interruption};
use crate::dispatch::KEY_REFRESH_DEADLINE_SECS;
use crate::error::Error;
use crate::hashing::hex_string;
use crate::record_format::{
    encode_record, lemma_record_round_trip, parse_record, record_bytes, record_fits,
};
use crate::session::{open_session, session_outcome, Session};
use crate::session_id::{execution_id, execution_id_of, store_key, Purpose};
use crate::store::SessionStore;
use vstd::prelude::*;

verus! {

/// Where a key refresh stands.
#[derive(Clone, Debug, PartialEq, Eq)]
pub enum RefreshState {
    /// Not started.
    Ready { keygen_call_id: u64 },
    /// The ceremony that generates auxiliary information runs.
    GeneratingAux { session: Session, parties: Vec<EcdsaPublic> },
    /// The record with the auxiliary share is being written.
    PersistingAux { session: Session, parties: Vec<EcdsaPublic> },
    /// The refresh ceremony runs.
    Refreshing { session: Session },
    /// The record with the refreshed share is being written; `output` is the
    /// encoded public key that the job returns once it is.
    Persisting { session: Session, output: Vec<u8> },
    /// The job returned the encoded public key.
    Done { output: Vec<u8> },
    /// The job ended with an error.
    Failed { error: Error },
}

/// What a key refresh is told.
#[derive(Clone, Debug, PartialEq, Eq)]
pub enum RefreshEvent {
    /// The job was called, in this context.
    Start { context: DfnsContext },
    /// The first ceremony produced auxiliary information.
    AuxGenerated { aux_info: Vec<u8> },
    /// The second ceremony produced a share.
    Refreshed { key: KeyShare },
    /// The record was written.
    Persisted,
    /// The job was cut short: what was asked for last was not done.
    Interrupted { interruption: Interruption },
}

/// What a key refresh asks for.
#[derive(Clone, Debug, PartialEq, Eq)]
pub enum RefreshAction {
    /// Run the generation of auxiliary information over a channel bound to
    /// `execution_id`, for `deadline_secs` seconds at most.
    GenerateAux {
        execution_id: [u8; 32],
        party_index: u16,
        parties: Vec<EcdsaPublic>,
        pregenerated_primes: Vec<u8>,
        deadline_secs: u64,
    },
    /// Write `record` under `store_key`; `encoded` holds it as it stands on
    /// disk. The answer is `Persisted` once it is written; an interruption in
    /// its place says that it was not written.
    Persist { store_key: String, record: DfnsStore, encoded: Vec<u8> },
    /// Run the key refresh over a channel bound to `execution_id`, for
    /// `deadline_secs` seconds at most.
    Refresh {
        execution_id: [u8; 32],
        party_index: u16,
        parties: Vec<EcdsaPublic>,
        key_share: KeyShare,
        pregenerated_primes: Vec<u8>,
        deadline_secs: u64,
    },
    /// Return `output` as the result of the job.
    Respond { output: Vec<u8> },
    /// Drop the channel and return `error`.
    Abort { error: Error },
    /// Nothing to do.
    Ignore,
}

/// What a key refresh starts from, or why it does not start: the session and
/// the parties, and the record that key generation left, whose public key the
/// job must be able to return.
pub open spec fn refresh_start(
    context: DfnsContext,
    keygen_call_id: u64,
    store: Map<Seq<char>, DfnsStoreView>,
) -> Result<(Session, Seq<EcdsaPublic>, DfnsStoreView), Error> {
    match session_outcome(context, Some(keygen_call_id), KEY_REFRESH_DEADLINE_SECS) {
        Err(error) => Err(error),
        Ok((session, parties)) => match loaded_record(store, session.session_key) {
            Err(error) => Err(error),
            Ok(record) => if record.keygen_output is None {
                Err(Error::StoreMissing)
            } else {
                match returned_key(record.keygen_output->Some_0.public_key.shared_public_key) {
                    Err(error) => Err(error),
                    Ok(_) => Ok((session, parties, record)),
                }
            },
        },
    }
}

/// A record that can be written, or `SerializationError`.
pub open spec fn writable(record: DfnsStoreView) -> Result<DfnsStoreView, Error> {
    if record_fits(record) {
        Ok(record)
    } else {
        Err(Error::SerializationError)
    }
}

/// The record to write once auxiliary information was generated.
pub open spec fn record_with_aux(
    store: Map<Seq<char>, DfnsStoreView>,
    session: Session,
    aux_info: Seq<u8>,
) -> Result<DfnsStoreView, Error> {
    match loaded_record(store, session.session_key) {
        Err(error) => Err(error),
        Ok(record) => match record.with_aux(aux_info) {
            Err(error) => Err(error),
            Ok(record) => writable(record),
        },
    }
}

/// The record that the refresh ceremony starts from: one with an auxiliary
/// share.
pub open spec fn record_to_refresh(store: Map<Seq<char>, DfnsStoreView>, session: Session) -> Result<
    DfnsStoreView,
    Error,
> {
    match loaded_record(store, session.session_key) {
        Err(error) => Err(error),
        Ok(record) => if record.aux_keyshare is None {
            Err(Error::StoreMissing)
        } else {
            Ok(record)
        },
    }
}

/// The record to write once the refresh produced `key`, and the bytes that
/// the job returns for the public key; or why nothing is written.
pub open spec fn record_with_refreshed(
    store: Map<Seq<char>, DfnsStoreView>,
    session: Session,
    key: crate::context::KeyShareView,
) -> Result<(DfnsStoreView, Seq<u8>), Error> {
    match loaded_record(store, session.session_key) {
        Err(error) => Err(error),
        Ok(record) => match record.with_refreshed(key) {
            Err(error) => Err(error),
            Ok(record) => match returned_key(key.shared_public_key) {
                Err(error) => Err(error),
                Ok(bytes) => match writable(record) {
                    Err(error) => Err(error),
                    Ok(record) => Ok((record, bytes)),
                },
            },
        },
    }
}

/// Whether the job ended with `error`.
pub open spec fn refresh_fails(next: RefreshState, action: RefreshAction, error: Error) -> bool {
    next == (RefreshState::Failed { error }) && action == (RefreshAction::Abort { error })
}

/// Whether `action` asks to write `record` for the lineage of `session`.
pub open spec fn asks_to_persist(action: RefreshAction, session: Session, record: DfnsStoreView) -> bool {
    action matches RefreshAction::Persist { store_key, record: written, encoded } && store_key@
        == hex_string(session.session_key@) && written@ == record && encoded@ == record_bytes(
        record,
    )
}

/// One step of a key refresh: from `state`, on `event` and with the store as
/// it is, the job goes to `next` and asks for `action`.
pub open spec fn refresh_step(
    state: RefreshState,
    event: RefreshEvent,
    store: Map<Seq<char>, DfnsStoreView>,
    next: RefreshState,
    action: RefreshAction,
) -> bool {
    match (state, event) {
        (RefreshState::Done { .. }, _) | (RefreshState::Failed { .. }, _) => next == state
            && action is Ignore,
        (_, RefreshEvent::Interrupted { interruption }) => refresh_fails(
            next,
            action,
            interruption_error(interruption),
        ),
        (RefreshState::Ready { keygen_call_id }, RefreshEvent::Start { context }) => match refresh_start(
            context,
            keygen_call_id,
            store,
        ) {
            Err(error) => refresh_fails(next, action, error),
            Ok((session, parties, record)) => {
                &&& next matches RefreshState::GeneratingAux { session: kept, parties: known }
                &&& kept == session
                &&& known@ == parties
                &&& action matches RefreshAction::GenerateAux {
                    execution_id,
                    party_index,
                    parties: sent,
                    pregenerated_primes,
                    deadline_secs,
                }
                &&& execution_id == execution_id_of(session.session_key, Purpose::AuxInfo)
                &&& deadline_secs == session.deadline_secs
                &&& party_index == session.party_index
                &&& sent@ == parties
                &&& pregenerated_primes@ == record.keygen_output->Some_0.pregenerated_primes
            },
        },
        (
            RefreshState::GeneratingAux { session, parties },
            RefreshEvent::AuxGenerated { aux_info },
        ) => match record_with_aux(store, session, aux_info@) {
            Err(error) => refresh_fails(next, action, error),
            Ok(record) => {
                &&& next matches RefreshState::PersistingAux { session: kept, parties: known }
                &&& kept == session
                &&& known@ == parties@
                &&& asks_to_persist(action, session, record)
            },
        },
        (RefreshState::PersistingAux { session, parties }, RefreshEvent::Persisted) => match record_to_refresh(
            store,
            session,
        ) {
            Err(error) => refresh_fails(next, action, error),
            Ok(record) => {
                &&& next == (RefreshState::Refreshing { session })
                &&& action matches RefreshAction::Refresh {
                    execution_id,
                    party_index,
                    parties: sent,
                    key_share,
                    pregenerated_primes,
                    deadline_secs,
                }
                &&& deadline_secs == session.deadline_secs
                &&& execution_id == execution_id_of(
                    session.session_key,
                    Purpose::KeyRefresh { call_id: session.call_id },
                )
                &&& party_index == session.party_index
                &&& sent@ == parties@
                &&& Some(key_share@) == record.aux_keyshare
                &&& pregenerated_primes@ == record.keygen_output->Some_0.pregenerated_primes
            },
        },
        (RefreshState::Refreshing { session }, RefreshEvent::Refreshed { key }) => match record_with_refreshed(
            store,
            session,
            key@,
        ) {
            Err(error) => refresh_fails(next, action, error),
            Ok((record, bytes)) => {
                &&& next matches RefreshState::Persisting { session: kept, output }
                &&& kept == session
                &&& output@ == bytes
                &&& asks_to_persist(action, session, record)
            },
        },
        (RefreshState::Persisting { session, output }, RefreshEvent::Persisted) => {
            &&& next matches RefreshState::Done { output: returned }
            &&& returned@ == output@
            &&& action matches RefreshAction::Respond { output: sent }
            &&& sent@ == output@
        },
        _ => next == state && action is Ignore,
    }
}

/// The job ends with `error`.
fn fail(error: Error) -> (out: (RefreshState, RefreshAction))
    ensures
        refresh_fails(out.0, out.1, error),
{
    (RefreshState::Failed { error }, RefreshAction::Abort { error })
}

/// Starts the job: establishes the session and asks for the generation of
/// auxiliary information.
fn start(context: DfnsContext, keygen_call_id: u64, store: &SessionStore) -> (out: (
    RefreshState,
    RefreshAction,
))
    requires
        store.wf(),
    ensures
        refresh_step(
            RefreshState::Ready { keygen_call_id },
            RefreshEvent::Start { context },
            store@,
            out.0,
            out.1,
        ),
{
    let (session, parties) = match open_session(
        &context,
        Some(keygen_call_id),
        KEY_REFRESH_DEADLINE_SECS,
    ) {
        Ok(opened) => opened,
        Err(error) => {
            return fail(error);
        },
    };
    let record = match load_record(store, &session.session_key) {
        Ok(record) => record,
        Err(error) => {
            return fail(error);
        },
    };
    let output = match record.keygen_output {
        Some(output) => output,
        None => {
            return fail(Error::StoreMissing);
        },
    };
    match encode_public_key(&output.public_key.shared_public_key) {
        Ok(_) => {},
        Err(error) => {
            return fail(error);
        },
    }
    let sent = copy_all(parties.as_slice());
    (
        RefreshState::GeneratingAux { session, parties },
        RefreshAction::GenerateAux {
            execution_id: execution_id(&session.session_key, Purpose::AuxInfo),
            party_index: session.party_index,
            parties: sent,
            pregenerated_primes: output.pregenerated_primes,
            deadline_secs: session.deadline_secs,
        },
    )
}

/// One step of a key refresh.
///
/// The job reads the record of the lineage that key generation `keygen_call_id`
/// started, has auxiliary information generated and the record written with
/// the auxiliary share, has the shares refreshed and the record written with
/// the refreshed share, and returns the public key, which a refresh must keep
/// as it must keep the threshold and the number of parties. A lineage whose
/// public key cannot be returned ends the job before any ceremony. The
/// auxiliary share is written before the refresh ceremony, which needs it; the
/// write of the refreshed share is the last thing that the job asks for, so a
/// job that fails leaves the refreshed share as it was.
pub fn key_refresh(state: RefreshState, event: RefreshEvent, store: &SessionStore) -> (out: (
    RefreshState,
    RefreshAction,
))
    requires
        store.wf(),
    ensures
        refresh_step(state, event, store@, out.0, out.1),
{
    match state {
        RefreshState::Done { output } => (RefreshState::Done { output }, RefreshAction::Ignore),
        RefreshState::Failed { error } => (RefreshState::Failed { error }, RefreshAction::Ignore),
        RefreshState::Ready { keygen_call_id } => match event {
            RefreshEvent::Interrupted { interruption } => fail(error_of(interruption)),
            RefreshEvent::Start { context } => start(context, keygen_call_id, store),
            _ => (RefreshState::Ready { keygen_call_id }, RefreshAction::Ignore),
        },
        RefreshState::GeneratingAux { session, parties } => match event {
            RefreshEvent::Interrupted { interruption } => fail(error_of(interruption)),
            RefreshEvent::AuxGenerated { aux_info } => {
                let record = match load_record(store, &session.session_key) {
                    Ok(record) => record,
                    Err(error) => {
                        return fail(error);
                    },
                };
                let record = match record.with_aux(aux_info) {
                    Ok(record) => record,
                    Err(error) => {
                        return fail(error);
                    },
                };
                match encode_record(&record) {
                    Err(error) => fail(error),
                    Ok(encoded) => (
                        RefreshState::PersistingAux { session, parties },
                        RefreshAction::Persist {
                            store_key: store_key(&session.session_key),
                            record,
                            encoded,
                        },
                    ),
                }
            },
            _ => (RefreshState::GeneratingAux { session, parties }, RefreshAction::Ignore),
        },
        RefreshState::PersistingAux { session, parties } => match event {
            RefreshEvent::Interrupted { interruption } => fail(error_of(interruption)),
            RefreshEvent::Persisted => {
                let record = match load_record(store, &session.session_key) {
                    Ok(record) => record,
                    Err(error) => {
                        return fail(error);
                    },
                };
                let key_share = match record.aux_keyshare {
                    Some(share) => share,
                    None => {
                        return fail(Error::StoreMissing);
                    },
                };
                let pregenerated_primes = match record.keygen_output {
                    Some(output) => output.pregenerated_primes,
                    None => {
                        return fail(Error::StoreMissing);
                    },
                };
                (
                    RefreshState::Refreshing { session },
                    RefreshAction::Refresh {
                        execution_id: execution_id(
                            &session.session_key,
                            Purpose::KeyRefresh { call_id: session.call_id },
                        ),
                        party_index: session.party_index,
                        parties,
                        key_share,
                        pregenerated_primes,
                        deadline_secs: session.deadline_secs,
                    },
                )
            },
            _ => (RefreshState::PersistingAux { session, parties }, RefreshAction::Ignore),
        },
        RefreshState::Refreshing { session } => match event {
            RefreshEvent::Interrupted { interruption } => fail(error_of(interruption)),
            RefreshEvent::Refreshed { key } => {
                let record = match load_record(store, &session.session_key) {
                    Ok(record) => record,
                    Err(error) => {
                        return fail(error);
                    },
                };
                let public_key = key.shared_public_key;
                let record = match record.with_refreshed(key) {
                    Ok(record) => record,
                    Err(error) => {
                        return fail(error);
                    },
                };
                let output = match encode_public_key(&public_key) {
                    Ok(bytes) => bytes,
                    Err(error) => {
                        return fail(error);
                    },
                };
                match encode_record(&record) {
                    Err(error) => fail(error),
                    Ok(encoded) => (
                        RefreshState::Persisting { session, output },
                        RefreshAction::Persist {
                            store_key: store_key(&session.session_key),
                            record,
                            encoded,
                        },
                    ),
                }
            },
            _ => (RefreshState::Refreshing { session }, RefreshAction::Ignore),
        },
        RefreshState::Persisting { session, output } => match event {
            RefreshEvent::Interrupted { interruption } => fail(error_of(interruption)),
            RefreshEvent::Persisted => {
                let sent = copy_all(output.as_slice());
                (RefreshState::Done { output }, RefreshAction::Respond { output: sent })
            },
            _ => (RefreshState::Persisting { session, output }, RefreshAction::Ignore),
        },
    }
}

/// What a key refresh writes keeps what the store holds for the lineage: the
/// output of key generation as it is, and a share wherever there was one. The
/// record it writes is well formed, so its refreshed share is a share of the
/// public key that key generation produced, and the bytes that go to disk are
/// read back as the record. A step that fails asks for no write.
pub proof fn lemma_refresh_writes_only_grow(
    state: RefreshState,
    event: RefreshEvent,
    store: Map<Seq<char>, DfnsStoreView>,
    next: RefreshState,
    action: RefreshAction,
)
    requires
        refresh_step(state, event, store, next, action),
    ensures
        action matches RefreshAction::Persist { store_key, record, encoded } ==> {
            &&& store.dom().contains(store_key@)
            &&& store[store_key@].kept_by(record@)
            &&& record@.wf()
            &&& parse_record(encoded@) == Some(record@)
        },
        next is Failed ==> !(action is Persist),
{
    if let RefreshAction::Persist { store_key, record, encoded } = action {
        lemma_record_round_trip(record@);
    }
}

/// A key refresh writes twice. The first write adds the auxiliary share that
/// the refresh ceremony needs, and leaves the refreshed share as it was. The
/// second write, which puts the new refreshed share in its place, is the last
/// thing that the job asks for: when the record is written, the job returns
/// the public key. So a job that fails has left the refreshed share as it was.
pub proof fn lemma_refresh_answers_once_written(
    state: RefreshState,
    event: RefreshEvent,
    store: Map<Seq<char>, DfnsStoreView>,
    next: RefreshState,
    action: RefreshAction,
    later: Map<Seq<char>, DfnsStoreView>,
    last: RefreshState,
    answer: RefreshAction,
)
    requires
        refresh_step(state, event, store, next, action),
        action is Persist,
        refresh_step(next, RefreshEvent::Persisted, later, last, answer),
    ensures
        next is PersistingAux || next is Persisting,
        next is PersistingAux ==> {
            let before = store[action->Persist_store_key@];
            let written = action->Persist_record@;
            &&& written.refreshed_key == before.refreshed_key
            &&& written.keygen_output == before.keygen_output
        },
        next is Persisting ==> {
            &&& last is Done
            &&& answer matches RefreshAction::Respond { output }
            &&& Ok::<Seq<u8>, Error>(output@) == returned_key(
                action->Persist_record@.refreshed_key->Some_0.shared_public_key,
            )
        },
{
}


/// Whether `store` holds the lineages that `before` holds, each with the
/// output of key generation and the refreshed share that it has in `before`.
pub open spec fn same_refreshed_shares(
    before: Map<Seq<char>, DfnsStoreView>,
    store: Map<Seq<char>, DfnsStoreView>,
) -> bool {
    &&& store.dom() == before.dom()
    &&& forall|key: Seq<char>| #[trigger]
        before.dom().contains(key) ==> store[key].refreshed_key == before[key].refreshed_key
            && store[key].keygen_output == before[key].keygen_output
}

/// A run of a key refresh: the states that the job goes through, what it is
/// told and what it asks for, and the store as each step finds it, with the
/// store at the end in the last place. The store changes only where the job
/// asked for a write and is then told that the record was written.
pub open spec fn refresh_run(
    states: Seq<RefreshState>,
    events: Seq<RefreshEvent>,
    actions: Seq<RefreshAction>,
    stores: Seq<Map<Seq<char>, DfnsStoreView>>,
) -> bool {
    &&& states.len() == events.len() + 1
    &&& actions.len() == events.len()
    &&& stores.len() == events.len() + 1
    &&& forall|i: int|
        0 <= i < events.len() ==> #[trigger] refresh_step(
            states[i],
            events[i],
            stores[i],
            states[i + 1],
            actions[i],
        )
    &&& forall|i: int|
        0 <= i < events.len() ==> #[trigger] stores[i + 1] == if actions[i] is Persist && i + 1
            < events.len() && events[i + 1] is Persisted {
            stores[i].insert(actions[i]->Persist_store_key@, actions[i]->Persist_record@)
        } else {
            stores[i]
        }
}

/// Until a key refresh is done, every lineage has the refreshed share that
/// the job found: at most the one write that the job ends with is under way.
proof fn lemma_refresh_run_keeps_the_shares(
    states: Seq<RefreshState>,
    events: Seq<RefreshEvent>,
    actions: Seq<RefreshAction>,
    stores: Seq<Map<Seq<char>, DfnsStoreView>>,
    i: int,
)
    requires
        refresh_run(states, events, actions, stores),
        0 <= i <= events.len(),
    ensures
        same_refreshed_shares(stores[0], stores[i]) || states[i] is Done || (
        states[i] is Persisting && i < events.len() && events[i] is Persisted),
    decreases i,
{
    if i > 0 {
        let k = i - 1;
        lemma_refresh_run_keeps_the_shares(states, events, actions, stores, k);
        assert(refresh_step(states[k], events[k], stores[k], states[k + 1], actions[k]));
        assert(stores[k + 1] == if actions[k] is Persist && k + 1 < events.len() && events[k
            + 1] is Persisted {
            stores[k].insert(actions[k]->Persist_store_key@, actions[k]->Persist_record@)
        } else {
            stores[k]
        });
        if actions[k] is Persist && k + 1 < events.len() && events[k + 1] is Persisted
            && states[k + 1] is PersistingAux {
            let key = actions[k]->Persist_store_key@;
            let written = actions[k]->Persist_record@;
            assert(same_refreshed_shares(stores[0], stores[k]));
            assert(stores[k].dom().contains(key));
            assert(stores[k + 1].dom() =~= stores[0].dom());
            assert forall|other: Seq<char>| #[trigger]
                stores[0].dom().contains(other) implies stores[k + 1][other].refreshed_key
                == stores[0][other].refreshed_key && stores[k + 1][other].keygen_output
                == stores[0][other].keygen_output by {
                assert(stores[k][other].refreshed_key == stores[0][other].refreshed_key);
            }
        }
    }
}

/// A key refresh that fails leaves every lineage with the output of key
/// generation and the refreshed share that it had, and adds no lineage: the
/// share that signs is replaced only by a job that succeeds.
pub proof fn lemma_failed_refresh_leaves_the_shares(
    states: Seq<RefreshState>,
    events: Seq<RefreshEvent>,
    actions: Seq<RefreshAction>,
    stores: Seq<Map<Seq<char>, DfnsStoreView>>,
)
    requires
        refresh_run(states, events, actions, stores),
        states.last() is Failed,
    ensures
        same_refreshed_shares(stores[0], stores.last()),
{
    lemma_refresh_run_keeps_the_shares(states, events, actions, stores, events.len() as int);
}

} // verus!
