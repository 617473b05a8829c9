//! Output encryption for contract execution results.
//!
//! The pipeline parses a result document, classifies it into an error branch,
//! a string success branch, an object success branch or an unrecognized
//! shape, derives a one-time symmetric key from a caller's key agreement, and
//! replaces the designated fields with deterministic authenticated
//! ciphertext, leaving everything else exactly as it came.

pub mod bridge;
pub mod field;
pub mod json;
pub mod keys;
pub mod laws;
pub mod msg;
pub mod output;

use vstd::prelude::*;

verus! {

/// The terminal failures of one request.
#[derive(Clone, Copy, Debug, PartialEq, Eq, Structural)]
pub enum EnclaveError {
    FailedToDeserialize,
    FailedToSerialize,
    EncryptionError,
}

} // verus!
