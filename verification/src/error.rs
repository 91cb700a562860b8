//! The error taxonomy of the repository contract. Every backend translates
//! its storage engine's native failures into exactly one of these kinds at
//! the contract boundary; no storage-specific error type crosses it.

use vstd::prelude::*;

verus! {

/// What a repository operation can fail with.
#[derive(Clone, Copy, Debug, PartialEq, Eq, Structural)]
pub enum ServerError {
    /// The account id is not provisioned. Terminal; maps to "not found".
    UserNotFound(u32),
    /// The balance rule rejected the transaction; no mutation occurred.
    /// Terminal; maps to "unprocessable".
    TransactionWouldExceedLimit,
    /// A storage or connectivity failure; no mutation is observable. Retry
    /// policy is the caller's concern, never the repository's.
    Transient,
}

impl ServerError {
    /// The HTTP status code this error maps to at the transport boundary.
    pub fn status_code(&self) -> (c: u16)
        ensures
            c == match self {
                ServerError::UserNotFound(_) => 404int,
                ServerError::TransactionWouldExceedLimit => 422int,
                ServerError::Transient => 422int,
            },
    {
        match self {
            ServerError::UserNotFound(_) => 404,
            ServerError::TransactionWouldExceedLimit => 422,
            ServerError::Transient => 422,
        }
    }

    /// A short human-readable description, for transport-level bodies.
    pub fn message(&self) -> (m: &'static str)
    {
        match self {
            ServerError::UserNotFound(_) => "user not found",
            ServerError::TransactionWouldExceedLimit => "transaction would exceed limit",
            ServerError::Transient => "storage failure",
        }
    }
}

} // verus!
