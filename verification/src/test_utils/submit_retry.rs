//! Submitting a transaction again if the node does not know the notes it consumes yet.
//!
//! A service that funds accounts answers with the note before it submits the transaction that
//! creates it, so a transaction that consumes the note can reach the node first. The node refuses it
//! then, and accepts the same transaction later.
use vstd::prelude::*;

use crate::rpc::errors::node::{AddTransactionError, EndpointError};
use crate::rpc::errors::rpc_error::{GrpcError, RpcError};
use crate::text::{contains, occurs_in};

verus! {

/// What a node says of a transaction that consumes notes it does not know.
pub const UNKNOWN_UNAUTHENTICATED_NOTES: &'static str = "unauthenticated input notes are unknown";

/// For how many milliseconds a submission is repeated.
pub const RETRY_DEADLINE_MS: u64 = 120_000;

/// How many milliseconds lie between two submissions.
pub const RETRY_INTERVAL_MS: u64 = 500;

/// A client of a node that submits again what is refused because of unknown notes.
#[derive(Debug)]
pub struct UnknownNoteRetryRpcClient<T> {
    pub inner: T,
}

impl<T> UnknownNoteRetryRpcClient<T> {
    /// Wraps a client.
    pub fn new(inner: T) -> (client: Self)
        ensures
            client.inner == inner,
    {
        UnknownNoteRetryRpcClient { inner }
    }
}

/// The phrase stands in one of the messages.
pub open spec fn occurs_in_any(messages: Seq<String>, part: Seq<char>) -> bool {
    exists|i: int| 0 <= i < messages.len() && occurs_in((#[trigger] messages[i])@, part)
}

/// The phrase stands in what the error says, or in what one of the errors behind it says.
pub open spec fn mentions(error: RpcError, part: Seq<char>) -> bool {
    match error {
        RpcError::AcceptHeaderError(message) => occurs_in(message@, part),
        RpcError::ConnectionError(message) => occurs_in(message@, part),
        RpcError::DeserializationError(message) => occurs_in(message@, part),
        RpcError::ExpectedDataMissing(message) => occurs_in(message@, part),
        RpcError::InvalidResponse(message) => occurs_in(message@, part),
        RpcError::NoteNotFound(_) => false,
        RpcError::PaginationError(_) => false,
        RpcError::RequestError { error_kind, source, .. } => occurs_in_any(source@, part) || (
        error_kind matches GrpcError::Unknown(message) && occurs_in(message@, part)),
        RpcError::TransactionEncryptionKeyRejected(message) => occurs_in(message@, part),
    }
}

/// The node refused a submission because it consumes notes the node does not know. A refused
/// transaction comes with the error of the endpoint. A refused batch comes with a message only.
pub open spec fn is_unknown_note_error(error: RpcError) -> bool {
    match error {
        RpcError::RequestError {
            endpoint_error: Some(
                EndpointError::AddTransaction(AddTransactionError::StateConflict { message }),
            ),
            ..
        } => occurs_in(message@, UNKNOWN_UNAUTHENTICATED_NOTES@),
        _ => mentions(error, UNKNOWN_UNAUTHENTICATED_NOTES@),
    }
}

/// Returns true if the phrase stands in one of the messages.
fn any_contains(messages: &Vec<String>, part: &str) -> (found: bool)
    ensures
        found == occurs_in_any(messages@, part@),
{
    let mut i: usize = 0;
    while i < messages.len()
        invariant
            i <= messages.len(),
            forall|k: int| 0 <= k < i ==> !occurs_in((#[trigger] messages@[k])@, part@),
        decreases messages.len() - i,
    {
        if contains(messages[i].as_str(), part) {
            assert(occurs_in(messages@[i as int]@, part@));
            return true;
        }
        i += 1;
    }
    false
}

/// Returns true if the node refused a submission because it consumes notes the node does not know.
pub fn is_unknown_unauthenticated_note(error: &RpcError) -> (unknown: bool)
    ensures
        unknown == is_unknown_note_error(*error),
{
    let phrase = UNKNOWN_UNAUTHENTICATED_NOTES;
    match error {
        RpcError::RequestError { error_kind, endpoint_error, source, .. } => {
            if let Some(
                EndpointError::AddTransaction(AddTransactionError::StateConflict { message }),
            ) = endpoint_error {
                return contains(message.as_str(), phrase);
            }
            if any_contains(source, phrase) {
                return true;
            }
            match error_kind {
                GrpcError::Unknown(message) => contains(message.as_str(), phrase),
                _ => false,
            }
        },
        RpcError::AcceptHeaderError(message) => contains(message.as_str(), phrase),
        RpcError::ConnectionError(message) => contains(message.as_str(), phrase),
        RpcError::DeserializationError(message) => contains(message.as_str(), phrase),
        RpcError::ExpectedDataMissing(message) => contains(message.as_str(), phrase),
        RpcError::InvalidResponse(message) => contains(message.as_str(), phrase),
        RpcError::NoteNotFound(_) => false,
        RpcError::PaginationError(_) => false,
        RpcError::TransactionEncryptionKeyRejected(message) => contains(message.as_str(), phrase),
    }
}

/// Returns true if a submission is to be repeated: it was refused because of unknown notes, and the
/// deadline has not passed.
pub fn should_resubmit<V>(
    result: &Result<V, RpcError>,
    elapsed_ms: u64,
    deadline_ms: u64,
) -> (repeat: bool)
    ensures
        repeat == match *result {
            Ok(_) => false,
            Err(error) => is_unknown_note_error(error) && elapsed_ms < deadline_ms,
        },
{
    match result {
        Ok(_) => false,
        Err(error) => is_unknown_unauthenticated_note(error) && elapsed_ms < deadline_ms,
    }
}

} // verus!
