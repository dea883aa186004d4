//! Coordination logic for a node that takes part in threshold-ECDSA ceremonies
//! (distributed key generation, key refresh and signing) among the operators of
//! a blueprint.
//!
//! The cryptographic rounds, the gossip transport, the chain client and the
//! durable store are collaborators of this crate: it derives the identifiers
//! that bind a ceremony, resolves the committee, keeps the session records,
//! filters and orders the inbound messages, and decides, step by step, what a
//! job does next.

pub mod bytes;
pub mod codec;
pub mod committee;
pub mod context;
pub mod coordinator;
pub mod dispatch;
pub mod ecdsa;
pub mod envelope;
pub mod error;
pub mod hashing;
pub mod key_refresh;
pub mod keygen;
pub mod network;
pub mod record_format;
pub mod selection;
pub mod session;
pub mod session_id;
pub mod signing;
pub mod store;
pub mod wire;
