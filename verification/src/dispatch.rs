//! From a call on the chain to the job that serves it.

use crate::bytes::copy_all;
use crate::error::Error;
use vstd::prelude::*;

verus! {

/// Job id of key generation.
pub const KEYGEN_JOB_ID: u8 = 0;

/// Job id of key refresh.
pub const KEY_REFRESH_JOB_ID: u8 = 1;

/// Job id of signing.
pub const SIGN_JOB_ID: u8 = 2;

/// Seconds that the ceremony of a key generation may take by default.
pub const KEYGEN_DEADLINE_SECS: u64 = 600;

/// Seconds that each ceremony of a key refresh may take by default.
pub const KEY_REFRESH_DEADLINE_SECS: u64 = 300;

/// Seconds that the ceremony of a signing may take by default.
pub const SIGN_DEADLINE_SECS: u64 = 120;

/// An argument of a call.
#[derive(Clone, Debug, PartialEq, Eq)]
pub enum TypedValue {
    Bool(bool),
    Uint8(u8),
    Uint16(u16),
    Uint32(u32),
    Uint64(u64),
    Bytes(Vec<u8>),
}

/// A call of a job, as the chain reports it.
#[derive(Clone, Debug, PartialEq, Eq)]
pub struct ServiceCall {
    pub blueprint_id: u64,
    pub service_id: u64,
    pub call_id: u64,
    pub job_id: u8,
    pub args: Vec<TypedValue>,
}

/// A job with its arguments.
#[derive(Clone, Debug, PartialEq, Eq)]
pub enum JobRequest {
    /// Generate a key that `t` parties sign with.
    Keygen { t: u16 },
    /// Refresh the shares of the lineage that `keygen_call_id` started.
    KeyRefresh { keygen_call_id: u64 },
    /// Sign `message` with the key of the lineage that `keygen_call_id`
    /// started.
    Sign { keygen_call_id: u64, message: Vec<u8> },
}

/// Whether `request` is the job that `job_id` names, with `args` as its
/// arguments: a threshold for key generation, the call of the key generation
/// for a refresh, that call and the message for signing.
pub open spec fn serves(request: JobRequest, job_id: u8, args: Seq<TypedValue>) -> bool {
    match request {
        JobRequest::Keygen { t } => job_id == KEYGEN_JOB_ID && args.len() == 1
            && args[0] == TypedValue::Uint16(t),
        JobRequest::KeyRefresh { keygen_call_id } => job_id == KEY_REFRESH_JOB_ID && args.len() == 1
            && args[0] == TypedValue::Uint64(keygen_call_id),
        JobRequest::Sign { keygen_call_id, message } => job_id == SIGN_JOB_ID && args.len() == 2
            && args[0] == TypedValue::Uint64(keygen_call_id) && (args[1] matches TypedValue::Bytes(
            bytes,
        ) && bytes@ == message@),
    }
}

/// Whether `args` are the arguments that the job `job_id` takes.
pub open spec fn arguments_fit(job_id: u8, args: Seq<TypedValue>) -> bool {
    if job_id == KEYGEN_JOB_ID {
        args.len() == 1 && args[0] is Uint16
    } else if job_id == KEY_REFRESH_JOB_ID {
        args.len() == 1 && args[0] is Uint64
    } else {
        args.len() == 2 && args[0] is Uint64 && args[1] is Bytes
    }
}

/// The job that a call asks for: `UnsupportedJob` for a job id other than
/// those of the three jobs, `InvalidArguments` where number or types of the
/// arguments are not those of the job.
pub fn dispatch(call: &ServiceCall) -> (out: Result<JobRequest, Error>)
    ensures
        match out {
            Ok(request) => serves(request, call.job_id, call.args@),
            Err(error) => if call.job_id > SIGN_JOB_ID {
                error == Error::UnsupportedJob
            } else {
                error == Error::InvalidArguments && !arguments_fit(call.job_id, call.args@)
            },
        },
{
    if call.job_id > SIGN_JOB_ID {
        return Err(Error::UnsupportedJob);
    }
    if call.job_id == KEYGEN_JOB_ID {
        if call.args.len() == 1 {
            if let TypedValue::Uint16(t) = &call.args[0] {
                return Ok(JobRequest::Keygen { t: *t });
            }
        }
    } else if call.job_id == KEY_REFRESH_JOB_ID {
        if call.args.len() == 1 {
            if let TypedValue::Uint64(id) = &call.args[0] {
                return Ok(JobRequest::KeyRefresh { keygen_call_id: *id });
            }
        }
    } else if call.args.len() == 2 {
        if let TypedValue::Uint64(id) = &call.args[0] {
            if let TypedValue::Bytes(bytes) = &call.args[1] {
                return Ok(
                    JobRequest::Sign { keygen_call_id: *id, message: copy_all(bytes.as_slice()) },
                );
            }
        }
    }
    Err(Error::InvalidArguments)
}

/// Seconds that a ceremony of a job may take unless configured otherwise: ten
/// minutes for key generation, five for a refresh, two for signing.
pub open spec fn default_deadline(job_id: u8) -> Option<u64> {
    if job_id == KEYGEN_JOB_ID {
        Some(KEYGEN_DEADLINE_SECS)
    } else if job_id == KEY_REFRESH_JOB_ID {
        Some(KEY_REFRESH_DEADLINE_SECS)
    } else if job_id == SIGN_JOB_ID {
        Some(SIGN_DEADLINE_SECS)
    } else {
        None
    }
}

/// Seconds that a ceremony of the job `job_id` may take by default; none for
/// a job id that names no job.
pub fn default_deadline_secs(job_id: u8) -> (out: Option<u64>)
    ensures
        out == default_deadline(job_id),
{
    if job_id == KEYGEN_JOB_ID {
        Some(KEYGEN_DEADLINE_SECS)
    } else if job_id == KEY_REFRESH_JOB_ID {
        Some(KEY_REFRESH_DEADLINE_SECS)
    } else if job_id == SIGN_JOB_ID {
        Some(SIGN_DEADLINE_SECS)
    } else {
        None
    }
}

} // verus!
