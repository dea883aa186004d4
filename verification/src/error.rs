//! What can end a job before its result.

use crate::committee::AccountId;
use vstd::prelude::*;

verus! {

/// Why the context of a job could not be established.
#[derive(Clone, Copy, Debug, PartialEq, Eq)]
pub enum ContextError {
    /// The blueprint that the job belongs to is not known.
    MissingBlueprintId,
    /// The job was not given a call id.
    MissingCallId,
    /// The node has no signing account.
    MissingSigner,
    /// The chain could not be queried.
    ChainQueryFailed,
    /// An operator of the blueprint has no ECDSA key on record.
    MissingOperatorKey(AccountId),
    /// More operators than party indices.
    CommitteeTooLarge,
}

/// Why a job ended without a result.
#[derive(Clone, Copy, Debug, PartialEq, Eq)]
pub enum Error {
    /// The context of the job could not be established.
    Context(ContextError),
    /// The node is not among the operators of the blueprint.
    NotInCommittee,
    /// The job is none of key generation, key refresh and signing.
    UnsupportedJob,
    /// The arguments of the call do not fit the job.
    InvalidArguments,
    /// The threshold is zero or exceeds the number of parties.
    InvalidThreshold,
    /// A record already exists for the lineage that key generation would start.
    DuplicateKeygen,
    /// The record that the job builds on is absent.
    StoreMissing,
    /// The record that the job builds on cannot be used.
    StoreCorrupt,
    /// The record could not be written.
    StoreFailed,
    /// The rounds of the protocol were aborted.
    ProtocolError,
    /// A message could not be sent or received.
    TransportError,
    /// The result could not be encoded.
    SerializationError,
    /// The signature that the protocol produced does not verify.
    LocalVerifyFailed,
    /// The public key after a refresh differs from the stored one.
    RefreshPublicKeyMismatch,
    /// The deadline of the ceremony passed.
    Timeout,
    /// The ceremony was cancelled.
    Cancelled,
}

} // verus!
