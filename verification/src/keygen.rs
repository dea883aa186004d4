//! Distributed key generation: the ceremony that starts a lineage.

use crate::bytes::copy_all;
use crate::codec::{encode_public_key, returned_key};
use crate::committee::EcdsaPublic;
use crate::context::{CoreKeyShare, CoreKeyShareView, DfnsContext, DfnsStore, DfnsStoreView, KeygenOutput};
use crate::coordinator::{error_of, interruption_error, Interruption};
use crate::dispatch::KEYGEN_DEADLINE_SECS;
use crate::error::Error;
use crate::hashing::hex_string;
use crate::record_format::{
    encode_record, lemma_record_round_trip, parse_record, record_bytes, record_fits,
};
use crate::network::{InboundView, NetworkDelivery, NetworkDeliveryView, DEFAULT_PEER_CAPACITY};
use crate::session::{open_session, session_outcome, Session};
use crate::session_id::{execution_id, execution_id_of, session_key, session_key_of, store_key, Purpose};
use crate::store::SessionStore;
use vstd::prelude::*;

verus! {

/// The two digests that key generation starts from: the session key of the
/// lineage, and the execution id of the key generation itself.
pub fn compute_deterministic_hashes(n: u16, blueprint_id: u64, call_id: u64) -> (out: (
    [u8; 32],
    [u8; 32],
))
    ensures
        out.0 == session_key_of(n, blueprint_id, call_id),
        out.1 == execution_id_of(session_key_of(n, blueprint_id, call_id), Purpose::Keygen),
{
    let meta_hash = session_key(n, blueprint_id, call_id);
    let deterministic_hash = execution_id(&meta_hash, Purpose::Keygen);
    (meta_hash, deterministic_hash)
}

/// The channel of a ceremony: bound to the execution id `deterministic_hash`,
/// among `parties`, of which this node is number `party_index`. Nothing has
/// arrived on it yet.
pub fn setup_network_party(
    party_index: usize,
    deterministic_hash: [u8; 32],
    parties: Vec<EcdsaPublic>,
) -> (out: NetworkDelivery)
    requires
        party_index < parties@.len() <= u16::MAX,
    ensures
        out@.wf(),
        out@ == (NetworkDeliveryView {
            execution_id: deterministic_hash,
            party_index: party_index as u16,
            parties: parties@,
            capacity: DEFAULT_PEER_CAPACITY as nat,
            pending: Seq::<InboundView>::empty(),
            seen: Set::<(u16, u16)>::empty(),
            rejected: 0,
        }),
{
    NetworkDelivery::open(deterministic_hash, party_index as u16, parties, DEFAULT_PEER_CAPACITY)
}

/// Where a key generation stands.
#[derive(Clone, Debug, PartialEq, Eq)]
pub enum KeygenState {
    /// Not started.
    Ready { t: u16 },
    /// The key generation ceremony runs.
    Running { session: Session, t: u16 },
    /// The primes for later refreshes are being generated.
    GeneratingPrimes { session: Session, share: CoreKeyShare },
    /// The record of the lineage is being written; `output` is the encoded
    /// public key that the job returns once it is.
    Persisting { session: Session, output: Vec<u8> },
    /// The job returned the encoded public key.
    Done { output: Vec<u8> },
    /// The job ended with an error.
    Failed { error: Error },
}

/// What a key generation is told.
#[derive(Clone, Debug, PartialEq, Eq)]
pub enum KeygenEvent {
    /// The job was called, in this context.
    Start { context: DfnsContext },
    /// The ceremony produced a share.
    Generated { share: CoreKeyShare },
    /// The primes are generated.
    PrimesGenerated { primes: Vec<u8> },
    /// The record was written.
    Persisted,
    /// The job was cut short: what was asked for last was not done.
    Interrupted { interruption: Interruption },
}

/// What a key generation asks for.
#[derive(Clone, Debug, PartialEq, Eq)]
pub enum KeygenAction {
    /// Run threshold key generation over a channel bound to `execution_id`,
    /// for `deadline_secs` seconds at most. The transport authenticates every
    /// message, so the rounds run with `reliable_broadcast` off.
    Generate {
        execution_id: [u8; 32],
        party_index: u16,
        n: u16,
        threshold: u16,
        parties: Vec<EcdsaPublic>,
        reliable_broadcast: bool,
        deadline_secs: u64,
    },
    /// Generate the primes on a worker that may block.
    GeneratePrimes,
    /// Write `record` under `store_key`; `encoded` holds it as it stands on
    /// disk. The answer is `Persisted` once it is written; an interruption in
    /// its place says that it was not written.
    Persist { store_key: String, record: DfnsStore, encoded: Vec<u8> },
    /// Return `output` as the result of the job.
    Respond { output: Vec<u8> },
    /// Drop the channel and return `error`.
    Abort { error: Error },
    /// Nothing to do.
    Ignore,
}

/// What a key generation with threshold `t` starts from, or why it does not
/// start: the threshold must be positive and at most the number of parties,
/// and the lineage must be new.
pub open spec fn keygen_start(context: DfnsContext, t: u16, store: Map<Seq<char>, DfnsStoreView>) -> Result<
    (Session, Seq<EcdsaPublic>),
    Error,
> {
    match session_outcome(context, None, KEYGEN_DEADLINE_SECS) {
        Err(error) => Err(error),
        Ok((session, parties)) => if t == 0 || t > session.n {
            Err(Error::InvalidThreshold)
        } else if store.dom().contains(hex_string(session.session_key@)) {
            Err(Error::DuplicateKeygen)
        } else {
            Ok((session, parties))
        },
    }
}

/// Whether `share` is what a key generation with threshold `t` among the
/// parties of `session` produces.
pub open spec fn share_fits(share: CoreKeyShareView, session: Session, t: u16) -> bool {
    share.wf() && share.min_signers == t && share.public_shares.len() == session.n
}

/// The record that key generation writes for a share and the primes.
pub open spec fn keygen_record(share: CoreKeyShareView, primes: Seq<u8>) -> DfnsStoreView {
    DfnsStoreView::after_keygen(
        crate::context::KeygenOutputView {
            pregenerated_primes: primes,
            core_key_share: share,
            public_key: crate::context::PublicKey { shared_public_key: share.shared_public_key },
        },
    )
}

/// Whether the job ended with `error`.
pub open spec fn keygen_fails(next: KeygenState, action: KeygenAction, error: Error) -> bool {
    next == (KeygenState::Failed { error }) && action == (KeygenAction::Abort { error })
}

/// One step of a key generation: from `state`, on `event` and with the store
/// as it is, the job goes to `next` and asks for `action`.
pub open spec fn keygen_step(
    state: KeygenState,
    event: KeygenEvent,
    store: Map<Seq<char>, DfnsStoreView>,
    next: KeygenState,
    action: KeygenAction,
) -> bool {
    match (state, event) {
        (KeygenState::Done { .. }, _) | (KeygenState::Failed { .. }, _) => next == state
            && action is Ignore,
        (_, KeygenEvent::Interrupted { interruption }) => keygen_fails(
            next,
            action,
            interruption_error(interruption),
        ),
        (KeygenState::Ready { t }, KeygenEvent::Start { context }) => match keygen_start(
            context,
            t,
            store,
        ) {
            Err(error) => keygen_fails(next, action, error),
            Ok((session, parties)) => {
                &&& next == (KeygenState::Running { session, t })
                &&& action matches KeygenAction::Generate {
                    execution_id,
                    party_index,
                    n,
                    threshold,
                    parties: sent,
                    reliable_broadcast,
                    deadline_secs,
                }
                &&& execution_id == execution_id_of(session.session_key, Purpose::Keygen)
                &&& deadline_secs == session.deadline_secs
                &&& party_index == session.party_index
                &&& n == session.n
                &&& threshold == t
                &&& sent@ == parties
                &&& !reliable_broadcast
            },
        },
        (KeygenState::Running { session, t }, KeygenEvent::Generated { share }) => match returned_key(
            share.shared_public_key,
        ) {
            Err(error) => keygen_fails(next, action, error),
            Ok(_) => if !share_fits(share@, session, t) {
                keygen_fails(next, action, Error::ProtocolError)
            } else {
                &&& next matches KeygenState::GeneratingPrimes { session: kept, share: held }
                &&& kept == session
                &&& held@ == share@
                &&& action is GeneratePrimes
            },
        },
        (
            KeygenState::GeneratingPrimes { session, share },
            KeygenEvent::PrimesGenerated { primes },
        ) => if store.dom().contains(hex_string(session.session_key@)) {
            keygen_fails(next, action, Error::DuplicateKeygen)
        } else {
            match returned_key(share.shared_public_key) {
                Err(error) => keygen_fails(next, action, error),
                Ok(bytes) => if !record_fits(keygen_record(share@, primes@)) {
                    keygen_fails(next, action, Error::SerializationError)
                } else {
                    &&& next matches KeygenState::Persisting { session: kept, output }
                    &&& kept == session
                    &&& output@ == bytes
                    &&& action matches KeygenAction::Persist { store_key, record, encoded }
                    &&& store_key@ == hex_string(session.session_key@)
                    &&& record@ == keygen_record(share@, primes@)
                    &&& encoded@ == record_bytes(record@)
                },
            }
        },
        (KeygenState::Persisting { session, output }, KeygenEvent::Persisted) => {
            &&& next matches KeygenState::Done { output: returned }
            &&& returned@ == output@
            &&& action matches KeygenAction::Respond { output: sent }
            &&& sent@ == output@
        },
        _ => next == state && action is Ignore,
    }
}

/// The job ends with `error`.
fn fail(error: Error) -> (out: (KeygenState, KeygenAction))
    ensures
        keygen_fails(out.0, out.1, error),
{
    (KeygenState::Failed { error }, KeygenAction::Abort { error })
}

/// Starts the job: establishes the session and asks for the ceremony.
fn start(context: DfnsContext, t: u16, store: &SessionStore) -> (out: (KeygenState, KeygenAction))
    requires
        store.wf(),
    ensures
        keygen_step(KeygenState::Ready { t }, KeygenEvent::Start { context }, store@, out.0, out.1),
{
    let (session, parties) = match open_session(&context, None, KEYGEN_DEADLINE_SECS) {
        Ok(opened) => opened,
        Err(error) => {
            return fail(error);
        },
    };
    if t == 0 || t > session.n {
        return fail(Error::InvalidThreshold);
    }
    let key = store_key(&session.session_key);
    if store.contains(key.as_str()) {
        return fail(Error::DuplicateKeygen);
    }
    (
        KeygenState::Running { session, t },
        KeygenAction::Generate {
            execution_id: execution_id(&session.session_key, Purpose::Keygen),
            party_index: session.party_index,
            n: session.n,
            threshold: t,
            parties,
            reliable_broadcast: false,
            deadline_secs: session.deadline_secs,
        },
    )
}

/// One step of a key generation.
///
/// The job establishes its session, has the key generated with threshold `t`,
/// has the primes generated, has the record of the new lineage written and
/// returns the public key. It never writes over a record: a lineage that
/// exists makes it fail with `DuplicateKeygen`. A share that does not fit the
/// ceremony, or whose public key cannot be returned, ends the job before the
/// primes are generated. The write is the last thing that the job asks for:
/// whatever makes the job fail does so before, or is the failure of the write
/// itself.
pub fn keygen(state: KeygenState, event: KeygenEvent, store: &SessionStore) -> (out: (
    KeygenState,
    KeygenAction,
))
    requires
        store.wf(),
    ensures
        keygen_step(state, event, store@, out.0, out.1),
{
    match state {
        KeygenState::Done { output } => (KeygenState::Done { output }, KeygenAction::Ignore),
        KeygenState::Failed { error } => (KeygenState::Failed { error }, KeygenAction::Ignore),
        KeygenState::Ready { t } => match event {
            KeygenEvent::Interrupted { interruption } => fail(error_of(interruption)),
            KeygenEvent::Start { context } => start(context, t, store),
            _ => (KeygenState::Ready { t }, KeygenAction::Ignore),
        },
        KeygenState::Running { session, t } => match event {
            KeygenEvent::Interrupted { interruption } => fail(error_of(interruption)),
            KeygenEvent::Generated { share } => match encode_public_key(&share.shared_public_key) {
                Err(error) => fail(error),
                Ok(_) => {
                    if share.is_valid() && share.min_signers == t && share.public_shares.len()
                        == session.n as usize {
                        (
                            KeygenState::GeneratingPrimes { session, share },
                            KeygenAction::GeneratePrimes,
                        )
                    } else {
                        fail(Error::ProtocolError)
                    }
                },
            },
            _ => (KeygenState::Running { session, t }, KeygenAction::Ignore),
        },
        KeygenState::GeneratingPrimes { session, share } => match event {
            KeygenEvent::Interrupted { interruption } => fail(error_of(interruption)),
            KeygenEvent::PrimesGenerated { primes } => {
                let key = store_key(&session.session_key);
                if store.contains(key.as_str()) {
                    return fail(Error::DuplicateKeygen);
                }
                let output = match encode_public_key(&share.shared_public_key) {
                    Ok(bytes) => bytes,
                    Err(error) => {
                        return fail(error);
                    },
                };
                let record = DfnsStore::after_keygen(KeygenOutput::new(primes, share));
                match encode_record(&record) {
                    Err(error) => fail(error),
                    Ok(encoded) => (
                        KeygenState::Persisting { session, output },
                        KeygenAction::Persist { store_key: key, record, encoded },
                    ),
                }
            },
            _ => (KeygenState::GeneratingPrimes { session, share }, KeygenAction::Ignore),
        },
        KeygenState::Persisting { session, output } => match event {
            KeygenEvent::Interrupted { interruption } => fail(error_of(interruption)),
            KeygenEvent::Persisted => {
                let sent = copy_all(output.as_slice());
                (KeygenState::Done { output }, KeygenAction::Respond { output: sent })
            },
            _ => (KeygenState::Persisting { session, output }, KeygenAction::Ignore),
        },
    }
}

/// What key generation writes is the record of a new lineage: nothing was
/// stored under its key, the record holds the output of key generation and no
/// share beyond it, its public key can be returned, it is well formed if the
/// share is, and the bytes that go to disk are read back as the record. A step
/// that fails asks for no write.
pub proof fn lemma_keygen_writes_a_new_record(
    state: KeygenState,
    event: KeygenEvent,
    store: Map<Seq<char>, DfnsStoreView>,
    next: KeygenState,
    action: KeygenAction,
)
    requires
        keygen_step(state, event, store, next, action),
    ensures
        action matches KeygenAction::Persist { store_key, record, encoded } ==> {
            &&& !store.dom().contains(store_key@)
            &&& record@.keygen_output is Some
            &&& record@.aux_keyshare is None
            &&& record@.refreshed_key is None
            &&& returned_key(record@.keygen_output->Some_0.public_key.shared_public_key) is Ok
            &&& state->GeneratingPrimes_share@.wf() ==> record@.wf()
            &&& parse_record(encoded@) == Some(record@)
        },
        next is Failed ==> !(action is Persist),
{
    if let KeygenAction::Persist { store_key, record, encoded } = action {
        lemma_record_round_trip(record@);
    }
}

/// Once key generation has asked for its record to be written, nothing but
/// the write itself can fail: when the record is written, the job returns the
/// public key of the record. So a job that fails has left the store as it was.
pub proof fn lemma_keygen_answers_once_written(
    state: KeygenState,
    event: KeygenEvent,
    store: Map<Seq<char>, DfnsStoreView>,
    next: KeygenState,
    action: KeygenAction,
    later: Map<Seq<char>, DfnsStoreView>,
    last: KeygenState,
    answer: KeygenAction,
)
    requires
        keygen_step(state, event, store, next, action),
        action is Persist,
        keygen_step(next, KeygenEvent::Persisted, later, last, answer),
    ensures
        last is Done,
        answer matches KeygenAction::Respond { output } && Ok::<Seq<u8>, Error>(output@)
            == returned_key(
            action->Persist_record@.keygen_output->Some_0.public_key.shared_public_key,
        ),
{
}


/// A run of a key generation: the states that the job goes through, what it
/// is told and what it asks for, and the store as each step finds it, with
/// the store at the end in the last place. The store changes only where the
/// job asked for a write and is then told that the record was written.
pub open spec fn keygen_run(
    states: Seq<KeygenState>,
    events: Seq<KeygenEvent>,
    actions: Seq<KeygenAction>,
    stores: Seq<Map<Seq<char>, DfnsStoreView>>,
) -> bool {
    &&& states.len() == events.len() + 1
    &&& actions.len() == events.len()
    &&& stores.len() == events.len() + 1
    &&& forall|i: int|
        0 <= i < events.len() ==> #[trigger] keygen_step(
            states[i],
            events[i],
            stores[i],
            states[i + 1],
            actions[i],
        )
    &&& forall|i: int|
        0 <= i < events.len() ==> #[trigger] stores[i + 1] == if actions[i] is Persist && i + 1
            < events.len() && events[i + 1] is Persisted {
            stores[i].insert(actions[i]->Persist_store_key@, actions[i]->Persist_record@)
        } else {
            stores[i]
        }
}

/// Until a key generation is done, the store is as the job found it: at most
/// the one write that the job ends with is under way.
proof fn lemma_keygen_run_keeps_the_store(
    states: Seq<KeygenState>,
    events: Seq<KeygenEvent>,
    actions: Seq<KeygenAction>,
    stores: Seq<Map<Seq<char>, DfnsStoreView>>,
    i: int,
)
    requires
        keygen_run(states, events, actions, stores),
        0 <= i <= events.len(),
    ensures
        stores[i] == stores[0] || states[i] is Done || (states[i] is Persisting && i < events.len()
            && events[i] is Persisted),
    decreases i,
{
    if i > 0 {
        let k = i - 1;
        lemma_keygen_run_keeps_the_store(states, events, actions, stores, k);
        assert(keygen_step(states[k], events[k], stores[k], states[k + 1], actions[k]));
        assert(stores[k + 1] == if actions[k] is Persist && k + 1 < events.len() && events[k
            + 1] is Persisted {
            stores[k].insert(actions[k]->Persist_store_key@, actions[k]->Persist_record@)
        } else {
            stores[k]
        });
    }
}

/// A key generation that fails leaves the store as it found it: no record and
/// no part of one is written.
pub proof fn lemma_failed_keygen_leaves_the_store(
    states: Seq<KeygenState>,
    events: Seq<KeygenEvent>,
    actions: Seq<KeygenAction>,
    stores: Seq<Map<Seq<char>, DfnsStoreView>>,
)
    requires
        keygen_run(states, events, actions, stores),
        states.last() is Failed,
    ensures
        stores.last() == stores[0],
{
    lemma_keygen_run_keeps_the_store(states, events, actions, stores, events.len() as int);
}

} // verus!
