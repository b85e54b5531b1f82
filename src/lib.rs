//! Signing and key-custody core of a hardware wallet: resumable confirmation
//! cursors and their stored records, the descriptor key-origin verifier, the
//! policy checks of a new descriptor, the signature differ, the key/value
//! wire codec used to send back only new signature material, and the
//! decisions of the signing flow and of request dispatch.

pub mod codec;
pub mod descriptor;
pub mod flow;
pub mod orchestrator;
pub mod order;
pub mod policy;
pub mod record;
pub mod resumable;
pub mod signatures;
