//! What every job establishes before its ceremony: who the parties are, which
//! of them this node is, and which lineage the job belongs to.

use crate::committee::{
    committee_outcome, current_committee, keys_of, member_index, snapshot_of, EcdsaPublic,
};
use crate::context::DfnsContext;
use crate::error::{ContextError, Error};
use crate::session_id::{session_key, session_key_of};
use vstd::prelude::*;

verus! {

/// The place of a job: its party, its lineage and its call.
#[derive(Clone, Copy, Debug, PartialEq, Eq)]
pub struct Session {
    /// Index of this node in the committee.
    pub party_index: u16,
    /// Number of parties.
    pub n: u16,
    /// Session key of the lineage.
    pub session_key: [u8; 32],
    /// The call that the job serves.
    pub call_id: u64,
    /// Seconds that a ceremony of the job may take.
    pub deadline_secs: u64,
}

/// The session of a job and the keys of its parties by index, or why the job
/// cannot start. `keygen_call_id` names the key generation that started the
/// lineage; key generation itself starts one with its own call. A ceremony may
/// take as long as the context says, or else `default_deadline_secs`.
pub open spec fn session_outcome(
    context: DfnsContext,
    keygen_call_id: Option<u64>,
    default_deadline_secs: u64,
) -> Result<(Session, Seq<EcdsaPublic>), Error> {
    if context.signer is None {
        Err(Error::Context(ContextError::MissingSigner))
    } else {
        match committee_outcome(snapshot_of(context.operators@)) {
            Err(error) => Err(error),
            Ok(members) => {
                let index = member_index(members, context.signer->Some_0, 0);
                if index >= members.len() {
                    Err(Error::NotInCommittee)
                } else if context.blueprint_id is None {
                    Err(Error::Context(ContextError::MissingBlueprintId))
                } else if context.call_id is None {
                    Err(Error::Context(ContextError::MissingCallId))
                } else {
                    let call_id = context.call_id->Some_0;
                    let seed = match keygen_call_id {
                        Some(id) => id,
                        None => call_id,
                    };
                    Ok(
                        (
                            Session {
                                party_index: index as u16,
                                n: members.len() as u16,
                                session_key: session_key_of(
                                    members.len() as u16,
                                    context.blueprint_id->Some_0,
                                    seed,
                                ),
                                call_id,
                                deadline_secs: match context.deadline_secs {
                                    Some(seconds) => seconds,
                                    None => default_deadline_secs,
                                },
                            },
                            keys_of(members),
                        ),
                    )
                }
            },
        }
    }
}

/// Resolves the committee, finds this node in it and derives the session key.
pub fn open_session(
    context: &DfnsContext,
    keygen_call_id: Option<u64>,
    default_deadline_secs: u64,
) -> (out: Result<(Session, Vec<EcdsaPublic>), Error>)
    ensures
        match out {
            Ok((session, parties)) => session_outcome(
                *context,
                keygen_call_id,
                default_deadline_secs,
            ) == Ok::<(Session, Seq<EcdsaPublic>), Error>((session, parties@)) && parties@.len()
                == session.n && session.party_index < session.n,
            Err(error) => session_outcome(*context, keygen_call_id, default_deadline_secs) == Err::<
                (Session, Seq<EcdsaPublic>),
                Error,
            >(error),
        },
{
    let signer = match context.signer {
        Some(signer) => signer,
        None => {
            return Err(Error::Context(ContextError::MissingSigner));
        },
    };
    let committee = match current_committee(&context.operators) {
        Ok(committee) => committee,
        Err(error) => {
            return Err(error);
        },
    };
    let (party_index, parties) = match committee.party_index_and_parties(&signer) {
        Ok(found) => found,
        Err(error) => {
            return Err(error);
        },
    };
    let blueprint_id = match context.blueprint_id {
        Some(id) => id,
        None => {
            return Err(Error::Context(ContextError::MissingBlueprintId));
        },
    };
    let call_id = match context.call_id {
        Some(id) => id,
        None => {
            return Err(Error::Context(ContextError::MissingCallId));
        },
    };
    let seed = match keygen_call_id {
        Some(id) => id,
        None => call_id,
    };
    let n = committee.len();
    let session = Session {
        party_index,
        n,
        session_key: session_key(n, blueprint_id, seed),
        call_id,
        deadline_secs: match context.deadline_secs {
            Some(seconds) => seconds,
            None => default_deadline_secs,
        },
    };
    Ok((session, parties))
}

} // verus!
