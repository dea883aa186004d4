//! What the three jobs have in common: how a ceremony is cut short, and how
//! the record of a lineage is read.

use crate::context::{DfnsStore, DfnsStoreView};
use crate::error::{ContextError, Error};
use crate::hashing::hex_string;
use crate::session_id::store_key;
use crate::store::SessionStore;
use vstd::prelude::*;

verus! {

/// What cuts a ceremony short.
#[derive(Clone, Copy, Debug, PartialEq, Eq)]
pub enum Interruption {
    /// The chain could not be queried.
    ChainQueryFailed,
    /// The rounds of the protocol were aborted.
    ProtocolFailed,
    /// A message could not be sent or received.
    TransportFailed,
    /// The store could not be written.
    StoreFailed,
    /// The ceremony was cancelled.
    Cancelled,
    /// The deadline of the ceremony passed.
    DeadlineExpired,
}

/// The error that a job ends with when its ceremony is cut short.
pub open spec fn interruption_error(interruption: Interruption) -> Error {
    match interruption {
        Interruption::ChainQueryFailed => Error::Context(ContextError::ChainQueryFailed),
        Interruption::ProtocolFailed => Error::ProtocolError,
        Interruption::TransportFailed => Error::TransportError,
        Interruption::StoreFailed => Error::StoreFailed,
        Interruption::Cancelled => Error::Cancelled,
        Interruption::DeadlineExpired => Error::Timeout,
    }
}

/// The error that a job ends with when its ceremony is cut short.
pub fn error_of(interruption: Interruption) -> (error: Error)
    ensures
        error == interruption_error(interruption),
{
    match interruption {
        Interruption::ChainQueryFailed => Error::Context(ContextError::ChainQueryFailed),
        Interruption::ProtocolFailed => Error::ProtocolError,
        Interruption::TransportFailed => Error::TransportError,
        Interruption::StoreFailed => Error::StoreFailed,
        Interruption::Cancelled => Error::Cancelled,
        Interruption::DeadlineExpired => Error::Timeout,
    }
}

/// The record of the lineage `session_key` as a job reads it: `StoreMissing`
/// if none was written, `StoreCorrupt` if what was written is not well formed.
pub open spec fn loaded_record(store: Map<Seq<char>, DfnsStoreView>, session_key: [u8; 32]) -> Result<
    DfnsStoreView,
    Error,
> {
    let key = hex_string(session_key@);
    if !store.dom().contains(key) {
        Err(Error::StoreMissing)
    } else if !store[key].wf() {
        Err(Error::StoreCorrupt)
    } else {
        Ok(store[key])
    }
}

/// Reads the record of the lineage `session_key`.
pub fn load_record(store: &SessionStore, session_key: &[u8; 32]) -> (out: Result<DfnsStore, Error>)
    requires
        store.wf(),
    ensures
        match out {
            Ok(record) => loaded_record(store@, *session_key) == Ok::<DfnsStoreView, Error>(
                record@,
            ),
            Err(error) => loaded_record(store@, *session_key) == Err::<DfnsStoreView, Error>(
                error,
            ),
        },
{
    let key = store_key(session_key);
    match store.get(key.as_str()) {
        None => Err(Error::StoreMissing),
        Some(record) => {
            if record.is_valid() {
                Ok(record)
            } else {
                Err(Error::StoreCorrupt)
            }
        },
    }
}

} // verus!
