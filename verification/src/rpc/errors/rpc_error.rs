//! Errors of a call to a node.
use vstd::prelude::*;

use crate::rpc::endpoint::RpcEndpoint;
use crate::rpc::errors::node::{
    has_codes, is_error_of, parse_node_error, parse_status_error, EndpointError,
    RegisterAccountError,
};
use crate::types::NoteId;

verus! {

/// The status of a call that failed, by the status codes of gRPC.
#[derive(Debug)]
pub enum GrpcError {
    Cancelled,
    InvalidArgument,
    DeadlineExceeded,
    NotFound,
    AlreadyExists,
    PermissionDenied,
    ResourceExhausted,
    FailedPrecondition,
    Unimplemented,
    Internal,
    Unavailable,
    Unauthenticated,
    /// Another status, with its message.
    Unknown(String),
}

impl GrpcError {
    /// The error is that of the status code.
    pub open spec fn is_of_code(self, code: i32, message: Seq<char>) -> bool {
        match code {
            1 => self is Cancelled,
            3 => self is InvalidArgument,
            4 => self is DeadlineExceeded,
            5 => self is NotFound,
            6 => self is AlreadyExists,
            7 => self is PermissionDenied,
            8 => self is ResourceExhausted,
            9 => self is FailedPrecondition,
            12 => self is Unimplemented,
            13 => self is Internal,
            14 => self is Unavailable,
            16 => self is Unauthenticated,
            _ => self matches GrpcError::Unknown(m) && m@ == message,
        }
    }

    /// Returns the error of a status code.
    pub fn from_code(code: i32, message: &str) -> (error: Self)
        ensures
            error.is_of_code(code, message@),
    {
        match code {
            1 => GrpcError::Cancelled,
            3 => GrpcError::InvalidArgument,
            4 => GrpcError::DeadlineExceeded,
            5 => GrpcError::NotFound,
            6 => GrpcError::AlreadyExists,
            7 => GrpcError::PermissionDenied,
            8 => GrpcError::ResourceExhausted,
            9 => GrpcError::FailedPrecondition,
            12 => GrpcError::Unimplemented,
            13 => GrpcError::Internal,
            14 => GrpcError::Unavailable,
            16 => GrpcError::Unauthenticated,
            _ => GrpcError::Unknown(message.to_owned()),
        }
    }
}

/// The status with which a node answers a call that failed.
#[derive(Debug)]
pub struct NodeStatus {
    /// The status code.
    pub code: i32,
    pub message: String,
    /// What the node adds to the status. The first byte is the code of its error.
    pub details: Vec<u8>,
    /// The text of the `retry-after` header, if there is one.
    pub retry_after: Option<String>,
}

/// What is wrong with the pages of an answer.
#[derive(Clone, Copy, Debug, PartialEq, Eq, Structural)]
pub enum PaginationError {
    /// There are more pages than any answer should have.
    TooManyPages,
    /// A page ends before it starts.
    WentBackwards,
}

/// Why a call to a node failed.
#[derive(Debug)]
pub enum RpcError {
    /// The node refuses the version or the network of the client.
    AcceptHeaderError(String),
    ConnectionError(String),
    DeserializationError(String),
    /// A part of an answer is missing.
    ExpectedDataMissing(String),
    /// An answer makes no sense, or is not about what was asked.
    InvalidResponse(String),
    NoteNotFound(NoteId),
    PaginationError(PaginationError),
    /// The node answered with an error.
    RequestError {
        endpoint: RpcEndpoint,
        error_kind: GrpcError,
        endpoint_error: Option<EndpointError>,
        /// The messages of the errors behind this one, outermost first.
        source: Vec<String>,
    },
    /// There is no key that transactions can be encrypted with.
    TransactionEncryptionKeyRejected(String),
}

impl RpcError {
    /// Returns the error of the endpoint, if the node reported one.
    pub fn endpoint_error(&self) -> (error: Option<&EndpointError>)
        ensures
            match (*self, error) {
                (RpcError::RequestError { endpoint_error: Some(own), .. }, Some(error)) => *error
                    == own,
                (RpcError::RequestError { endpoint_error: Some(own), .. }, None) => false,
                (_, error) => error is None,
            },
    {
        match self {
            RpcError::RequestError { endpoint_error: Some(error), .. } => Some(error),
            _ => None,
        }
    }

    /// Returns the error that a status stands for. `accept_error` is what the message says of the
    /// version and the network of the client, if it speaks of them. Otherwise the error of the
    /// endpoint is given by the code in the details, or else by the status code.
    pub fn from_grpc_error_with_context(
        endpoint: RpcEndpoint,
        status: NodeStatus,
        accept_error: Option<String>,
    ) -> (error: Self)
        ensures
            match accept_error {
                Some(message) => error == RpcError::AcceptHeaderError(message),
                None => error matches RpcError::RequestError {
                    endpoint: e,
                    error_kind,
                    endpoint_error,
                    source,
                } && {
                    &&& e == endpoint
                    &&& error_kind.is_of_code(status.code, status.message@)
                    &&& source@ == seq![status.message]
                    &&& if status.details@.len() > 0 && has_codes(endpoint) {
                        endpoint_error matches Some(of_code) && is_error_of(
                            of_code,
                            endpoint,
                            status.details@[0],
                            status.message@,
                        )
                    } else {
                        is_status_error(endpoint_error, endpoint, error_kind, status.message@)
                    }
                },
            },
    {
        if let Some(message) = accept_error {
            return RpcError::AcceptHeaderError(message);
        }
        let error_kind = GrpcError::from_code(status.code, status.message.as_str());
        let of_code = parse_node_error(&endpoint, &status.details, status.message.as_str());
        let endpoint_error = match of_code {
            Some(error) => Some(error),
            None => parse_status_error(&endpoint, &error_kind, status.message.as_str()),
        };
        let mut source: Vec<String> = Vec::new();
        source.push(status.message);
        RpcError::RequestError { endpoint, error_kind, endpoint_error, source }
    }
}

/// The error of the endpoint is the one that the status code stands for. Only a registration is
/// refused by a status code.
pub open spec fn is_status_error(
    error: Option<EndpointError>,
    endpoint: RpcEndpoint,
    error_kind: GrpcError,
    message: Seq<char>,
) -> bool {
    if endpoint is RegisterAccount {
        match error_kind {
            GrpcError::NotFound => error matches Some(
                EndpointError::RegisterAccount(RegisterAccountError::InvitationNotFound),
            ),
            GrpcError::AlreadyExists => error matches Some(
                EndpointError::RegisterAccount(RegisterAccountError::AlreadyRegistered),
            ),
            GrpcError::InvalidArgument => error matches Some(
                EndpointError::RegisterAccount(RegisterAccountError::InvalidRequest(m)),
            ) && m@ == message,
            _ => error is None,
        }
    } else {
        error is None
    }
}

} // verus!
