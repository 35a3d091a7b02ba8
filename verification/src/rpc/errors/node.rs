//! Errors that a node reports for the endpoint that was called.
use vstd::prelude::*;

use crate::rpc::endpoint::RpcEndpoint;
use crate::rpc::errors::rpc_error::{is_status_error, GrpcError};

verus! {

/// An error that a node reports by a code.
#[derive(Debug)]
pub struct CodedError {
    pub code: u8,
    pub message: String,
}

impl CodedError {
    /// Creates the error of a code.
    pub fn from_code(code: u8, message: &str) -> (error: Self)
        ensures
            error.code == code,
            error.message@ == message@,
    {
        CodedError { code, message: message.to_owned() }
    }
}

/// Why a node refused a transaction.
#[derive(Debug)]
pub enum AddTransactionError {
    /// The transaction does not fit the state of the node.
    StateConflict { message: String },
    /// The transaction expired.
    Expired,
    /// A code of another meaning.
    Other(CodedError),
}

/// Why a node did not return an account.
#[derive(Debug)]
pub enum GetAccountError {
    Internal,
    DeserializationFailed,
    /// The account is not there at the requested block.
    AccountNotFound,
    /// The account is not public.
    AccountNotPublic,
    /// The requested block is unknown.
    UnknownBlock,
    /// The requested block has been pruned.
    BlockPruned,
    /// The code is none that the client knows; the node may be newer.
    Unknown { code: u8, message: String },
}

impl GetAccountError {
    /// Returns the error of a code.
    pub fn from_code(code: u8, message: &str) -> (error: Self)
        ensures
            match code {
                0 => error is Internal,
                1 => error is DeserializationFailed,
                2 => error is AccountNotFound,
                3 => error is AccountNotPublic,
                4 => error is UnknownBlock,
                5 => error is BlockPruned,
                _ => error matches GetAccountError::Unknown { code: c, message: m } && c == code
                    && m@ == message@,
            },
    {
        match code {
            0 => GetAccountError::Internal,
            1 => GetAccountError::DeserializationFailed,
            2 => GetAccountError::AccountNotFound,
            3 => GetAccountError::AccountNotPublic,
            4 => GetAccountError::UnknownBlock,
            5 => GetAccountError::BlockPruned,
            _ => GetAccountError::Unknown { code, message: message.to_owned() },
        }
    }
}

/// Why a node refused a registration.
#[derive(Debug)]
pub enum RegisterAccountError {
    /// The invitation code does not exist.
    InvitationNotFound,
    /// The invitation code or the account is registered already.
    AlreadyRegistered,
    /// The account id was missing or not readable, or the invitation code was empty.
    InvalidRequest(String),
}

impl RegisterAccountError {
    /// Returns the error for the status codes by which a node refuses a registration. Other codes
    /// tell of a failure of the transport or of the node, and decide nothing.
    pub fn from_grpc_error(error_kind: &GrpcError, message: &str) -> (error: Option<Self>)
        ensures
            match *error_kind {
                GrpcError::NotFound => error matches Some(RegisterAccountError::InvitationNotFound),
                GrpcError::AlreadyExists => error matches Some(
                    RegisterAccountError::AlreadyRegistered,
                ),
                GrpcError::InvalidArgument => error matches Some(
                    RegisterAccountError::InvalidRequest(m),
                ) && m@ == message@,
                _ => error is None,
            },
    {
        match error_kind {
            GrpcError::NotFound => Some(RegisterAccountError::InvitationNotFound),
            GrpcError::AlreadyExists => Some(RegisterAccountError::AlreadyRegistered),
            GrpcError::InvalidArgument => Some(
                RegisterAccountError::InvalidRequest(message.to_owned()),
            ),
            _ => None,
        }
    }
}

/// An error that a node reports for the endpoint that was called.
#[derive(Debug)]
pub enum EndpointError {
    AddTransaction(AddTransactionError),
    GetBlockHeader(CodedError),
    GetBlockByNumber(CodedError),
    NoteSync(CodedError),
    SyncNullifiers(CodedError),
    SyncAccountVault(CodedError),
    SyncStorageMaps(CodedError),
    SyncTransactions(CodedError),
    GetNotesById(CodedError),
    GetNoteScriptByRoot(CodedError),
    GetAccount(GetAccountError),
    RegisterAccount(RegisterAccountError),
}

/// The endpoint reports errors by codes.
pub open spec fn has_codes(endpoint: RpcEndpoint) -> bool {
    match endpoint {
        RpcEndpoint::SyncChainMmr => false,
        RpcEndpoint::Status => false,
        RpcEndpoint::GetLimits => false,
        RpcEndpoint::GetNetworkNoteStatus => false,
        RpcEndpoint::GetTransactionEncryptionKey => false,
        RpcEndpoint::RegisterAccount => false,
        RpcEndpoint::IsAccountAllowed => false,
        RpcEndpoint::SubmitProvenBatch => false,
        _ => true,
    }
}

/// The error has this code and this message.
pub open spec fn is_coded(error: CodedError, code: u8, message: Seq<char>) -> bool {
    error.code == code && error.message@ == message
}

/// The error is that of the endpoint for the code.
pub open spec fn is_error_of(
    error: EndpointError,
    endpoint: RpcEndpoint,
    code: u8,
    message: Seq<char>,
) -> bool {
    match (endpoint, error) {
        (
            RpcEndpoint::SubmitProvenTx,
            EndpointError::AddTransaction(AddTransactionError::Other(e)),
        ) => is_coded(e, code, message),
        (RpcEndpoint::GetBlockHeaderByNumber, EndpointError::GetBlockHeader(e)) => is_coded(
            e,
            code,
            message,
        ),
        (RpcEndpoint::GetBlockByNumber, EndpointError::GetBlockByNumber(e)) => is_coded(
            e,
            code,
            message,
        ),
        (RpcEndpoint::SyncNotes, EndpointError::NoteSync(e)) => is_coded(e, code, message),
        (RpcEndpoint::SyncNullifiers, EndpointError::SyncNullifiers(e)) => is_coded(
            e,
            code,
            message,
        ),
        (RpcEndpoint::SyncAccountVault, EndpointError::SyncAccountVault(e)) => is_coded(
            e,
            code,
            message,
        ),
        (RpcEndpoint::SyncStorageMaps, EndpointError::SyncStorageMaps(e)) => is_coded(
            e,
            code,
            message,
        ),
        (RpcEndpoint::SyncTransactions, EndpointError::SyncTransactions(e)) => is_coded(
            e,
            code,
            message,
        ),
        (RpcEndpoint::GetNotesById, EndpointError::GetNotesById(e)) => is_coded(e, code, message),
        (RpcEndpoint::GetNoteScriptByRoot, EndpointError::GetNoteScriptByRoot(e)) => is_coded(
            e,
            code,
            message,
        ),
        (RpcEndpoint::GetAccount, EndpointError::GetAccount(e)) => match code {
            0 => e is Internal,
            1 => e is DeserializationFailed,
            2 => e is AccountNotFound,
            3 => e is AccountNotPublic,
            4 => e is UnknownBlock,
            5 => e is BlockPruned,
            _ => e matches GetAccountError::Unknown { code: c, message: m } && c == code && m@
                == message,
        },
        _ => false,
    }
}

/// Returns the error that the code in the details stands for. There is none if there are no details,
/// or if the endpoint reports no errors by codes.
pub fn parse_node_error(endpoint: &RpcEndpoint, details: &[u8], message: &str) -> (error: Option<
    EndpointError,
>)
    ensures
        match error {
            Some(error) => details@.len() > 0 && is_error_of(
                error,
                *endpoint,
                details@[0],
                message@,
            ),
            None => details@.len() == 0 || !has_codes(*endpoint),
        },
        error is Some == (details@.len() > 0 && has_codes(*endpoint)),
{
    if details.len() == 0 {
        return None;
    }
    let code: u8 = details[0];
    match endpoint {
        RpcEndpoint::SubmitProvenTx => Some(
            EndpointError::AddTransaction(
                AddTransactionError::Other(CodedError::from_code(code, message)),
            ),
        ),
        RpcEndpoint::GetBlockHeaderByNumber => Some(
            EndpointError::GetBlockHeader(CodedError::from_code(code, message)),
        ),
        RpcEndpoint::GetBlockByNumber => Some(
            EndpointError::GetBlockByNumber(CodedError::from_code(code, message)),
        ),
        RpcEndpoint::SyncNotes => Some(
            EndpointError::NoteSync(CodedError::from_code(code, message)),
        ),
        RpcEndpoint::SyncNullifiers => Some(
            EndpointError::SyncNullifiers(CodedError::from_code(code, message)),
        ),
        RpcEndpoint::SyncAccountVault => Some(
            EndpointError::SyncAccountVault(CodedError::from_code(code, message)),
        ),
        RpcEndpoint::SyncStorageMaps => Some(
            EndpointError::SyncStorageMaps(CodedError::from_code(code, message)),
        ),
        RpcEndpoint::SyncTransactions => Some(
            EndpointError::SyncTransactions(CodedError::from_code(code, message)),
        ),
        RpcEndpoint::GetNotesById => Some(
            EndpointError::GetNotesById(CodedError::from_code(code, message)),
        ),
        RpcEndpoint::GetNoteScriptByRoot => Some(
            EndpointError::GetNoteScriptByRoot(CodedError::from_code(code, message)),
        ),
        RpcEndpoint::GetAccount => Some(
            EndpointError::GetAccount(GetAccountError::from_code(code, message)),
        ),
        RpcEndpoint::SyncChainMmr => None,
        RpcEndpoint::Status => None,
        RpcEndpoint::GetLimits => None,
        RpcEndpoint::GetNetworkNoteStatus => None,
        RpcEndpoint::GetTransactionEncryptionKey => None,
        RpcEndpoint::RegisterAccount => None,
        RpcEndpoint::IsAccountAllowed => None,
        RpcEndpoint::SubmitProvenBatch => None,
    }
}

/// Returns the error that the status code stands for. Every endpoint is listed, so that a new one
/// has to be decided upon.
pub fn parse_status_error(endpoint: &RpcEndpoint, error_kind: &GrpcError, message: &str) -> (error:
    Option<EndpointError>)
    ensures
        is_status_error(error, *endpoint, *error_kind, message@),
{
    match endpoint {
        RpcEndpoint::RegisterAccount => match RegisterAccountError::from_grpc_error(
            error_kind,
            message,
        ) {
            Some(error) => Some(EndpointError::RegisterAccount(error)),
            None => None,
        },
        RpcEndpoint::SubmitProvenTx
        | RpcEndpoint::GetBlockHeaderByNumber
        | RpcEndpoint::GetBlockByNumber
        | RpcEndpoint::SyncNotes
        | RpcEndpoint::SyncNullifiers
        | RpcEndpoint::SyncAccountVault
        | RpcEndpoint::SyncStorageMaps
        | RpcEndpoint::SyncTransactions
        | RpcEndpoint::GetNotesById
        | RpcEndpoint::GetNoteScriptByRoot
        | RpcEndpoint::GetAccount
        | RpcEndpoint::SyncChainMmr
        | RpcEndpoint::Status
        | RpcEndpoint::GetLimits
        | RpcEndpoint::GetNetworkNoteStatus
        | RpcEndpoint::GetTransactionEncryptionKey
        | RpcEndpoint::IsAccountAllowed
        | RpcEndpoint::SubmitProvenBatch => None,
    }
}

} // verus!
