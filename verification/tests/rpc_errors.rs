//! Tests of the errors of a node, and of repeating calls.
use miden_client::rpc::endpoint::RpcEndpoint;
use miden_client::rpc::errors::node::{
    parse_node_error, parse_status_error, AddTransactionError, CodedError, EndpointError,
    GetAccountError, RegisterAccountError,
};
use miden_client::rpc::errors::rpc_error::{GrpcError, NodeStatus, RpcError};
use miden_client::rpc::retry::{
    is_retryable, retry_delay, RetryState, DEFAULT_MAX_RETRIES, DEFAULT_RETRY_INTERVAL_MS,
};
use miden_client::test_utils::submit_retry::{
    is_unknown_unauthenticated_note, should_resubmit, UnknownNoteRetryRpcClient,
};
use tonic::Code;

fn status(code: Code, message: &str) -> NodeStatus {
    NodeStatus {
        code: code as i32,
        message: message.to_string(),
        details: Vec::new(),
        retry_after: None,
    }
}

fn status_with_retry_after(retry_after: &str) -> NodeStatus {
    NodeStatus {
        retry_after: Some(retry_after.to_string()),
        ..status(Code::ResourceExhausted, "Too Many Requests! Wait for 0s")
    }
}

/// `RegisterAccount` is the only endpoint that classifies a status code into a typed error. The
/// other endpoints must return `None` for the same code, so a rejection from one of them is
/// never reported as a registration decision.
#[test]
fn only_the_register_account_endpoint_classifies_a_status_code() {
    let registration =
        parse_status_error(&RpcEndpoint::RegisterAccount, &GrpcError::NotFound, "unknown");

    assert!(matches!(
        registration,
        Some(EndpointError::RegisterAccount(RegisterAccountError::InvitationNotFound))
    ));

    for endpoint in [
        RpcEndpoint::GetAccount,
        RpcEndpoint::SubmitProvenTx,
        RpcEndpoint::GetNotesById,
        RpcEndpoint::Status,
    ] {
        assert!(
            parse_status_error(&endpoint, &GrpcError::NotFound, "unknown").is_none(),
            "{endpoint:?} must not classify a status code"
        );
    }
}

/// A transport failure on the registration endpoint carries no decision about the code, so it
/// must stay unclassified.
#[test]
fn a_transport_failure_on_the_registration_endpoint_stays_unclassified() {
    assert!(
        parse_status_error(
            &RpcEndpoint::RegisterAccount,
            &GrpcError::Unavailable,
            "node is down"
        )
        .is_none()
    );
}

#[test]
fn the_errors_of_a_registration_are_told_apart() {
    let parse = |kind: GrpcError| {
        parse_status_error(&RpcEndpoint::RegisterAccount, &kind, "the message")
    };
    assert!(matches!(
        parse(GrpcError::AlreadyExists),
        Some(EndpointError::RegisterAccount(RegisterAccountError::AlreadyRegistered))
    ));
    assert!(matches!(
        parse(GrpcError::InvalidArgument),
        Some(EndpointError::RegisterAccount(RegisterAccountError::InvalidRequest(message)))
            if message == "the message"
    ));
}

#[test]
fn the_first_detail_byte_is_the_code_of_an_error() {
    let parse = |details: &[u8]| parse_node_error(&RpcEndpoint::GetAccount, details, "why");
    assert!(matches!(
        parse(&[2]),
        Some(EndpointError::GetAccount(GetAccountError::AccountNotFound))
    ));
    assert!(matches!(
        parse(&[3]),
        Some(EndpointError::GetAccount(GetAccountError::AccountNotPublic))
    ));
    assert!(matches!(
        parse(&[99]),
        Some(EndpointError::GetAccount(GetAccountError::Unknown { code: 99, message }))
            if message == "why"
    ));
    assert!(parse(&[]).is_none());
    assert!(parse_node_error(&RpcEndpoint::Status, &[2], "why").is_none());
    assert!(matches!(
        parse_node_error(&RpcEndpoint::SyncNotes, &[4], "why"),
        Some(EndpointError::NoteSync(CodedError { code: 4, message })) if message == "why"
    ));
}

#[test]
fn a_status_becomes_an_error_of_its_endpoint() {
    let error = RpcError::from_grpc_error_with_context(
        RpcEndpoint::GetAccount,
        NodeStatus { details: vec![2], ..status(Code::NotFound, "not here") },
        None,
    );
    assert!(matches!(
        error.endpoint_error(),
        Some(EndpointError::GetAccount(GetAccountError::AccountNotFound))
    ));
    assert!(matches!(
        error,
        RpcError::RequestError {
            endpoint: RpcEndpoint::GetAccount,
            error_kind: GrpcError::NotFound,
            ..
        }
    ));

    let refused = RpcError::from_grpc_error_with_context(
        RpcEndpoint::GetAccount,
        status(Code::InvalidArgument, "accept header"),
        Some("another version".to_string()),
    );
    assert!(matches!(refused, RpcError::AcceptHeaderError(text) if text == "another version"));
}

#[test]
fn status_codes_are_told_apart() {
    for (code, kind) in [
        (Code::Cancelled, GrpcError::Cancelled),
        (Code::InvalidArgument, GrpcError::InvalidArgument),
        (Code::DeadlineExceeded, GrpcError::DeadlineExceeded),
        (Code::NotFound, GrpcError::NotFound),
        (Code::AlreadyExists, GrpcError::AlreadyExists),
        (Code::PermissionDenied, GrpcError::PermissionDenied),
        (Code::ResourceExhausted, GrpcError::ResourceExhausted),
        (Code::FailedPrecondition, GrpcError::FailedPrecondition),
        (Code::Unimplemented, GrpcError::Unimplemented),
        (Code::Internal, GrpcError::Internal),
        (Code::Unavailable, GrpcError::Unavailable),
        (Code::Unauthenticated, GrpcError::Unauthenticated),
    ] {
        let read = GrpcError::from_code(code as i32, "text");
        assert_eq!(format!("{read:?}"), format!("{kind:?}"));
    }
    let unknown = GrpcError::from_code(Code::DataLoss as i32, "text");
    assert!(matches!(unknown, GrpcError::Unknown(_)));
}

/// A call that changes state and whose response was lost may already have been applied, so
/// repeating it would surface the resulting conflict instead of the original success.
#[test]
fn state_changing_calls_do_not_retry_unavailable() {
    for endpoint in [
        RpcEndpoint::SubmitProvenTx,
        RpcEndpoint::SubmitProvenBatch,
        RpcEndpoint::RegisterAccount,
    ] {
        assert!(!is_retryable(endpoint, &status(Code::Unavailable, "transport error")));
    }
}

#[test]
fn state_changing_calls_retry_resource_exhausted() {
    for endpoint in [
        RpcEndpoint::SubmitProvenTx,
        RpcEndpoint::SubmitProvenBatch,
        RpcEndpoint::RegisterAccount,
    ] {
        assert!(is_retryable(endpoint, &status(Code::ResourceExhausted, "rate limited")));
    }
}

#[test]
fn reads_retry_both_transient_codes() {
    let endpoint = RpcEndpoint::GetBlockHeaderByNumber;

    assert!(is_retryable(endpoint, &status(Code::Unavailable, "transport error")));
    assert!(is_retryable(endpoint, &status(Code::ResourceExhausted, "rate limited")));
}

#[test]
fn other_codes_are_never_retried() {
    for endpoint in [RpcEndpoint::SubmitProvenTx, RpcEndpoint::GetBlockHeaderByNumber] {
        assert!(!is_retryable(endpoint, &status(Code::Internal, "node error")));
    }
}

#[test]
fn zero_retry_after_uses_fallback_delay() {
    assert_eq!(
        retry_delay(&status_with_retry_after("0"), DEFAULT_RETRY_INTERVAL_MS),
        u128::from(DEFAULT_RETRY_INTERVAL_MS)
    );
}

#[test]
fn the_delay_of_the_node_is_in_seconds() {
    assert_eq!(retry_delay(&status_with_retry_after("3"), 100), 3000);
    assert_eq!(retry_delay(&status_with_retry_after("+3"), 100), 3000);
    assert_eq!(retry_delay(&status_with_retry_after("soon"), 100), 100);
    assert_eq!(retry_delay(&status_with_retry_after("-1"), 100), 100);
    assert_eq!(retry_delay(&status_with_retry_after("18446744073709551616"), 100), 100);
    assert_eq!(
        retry_delay(&status_with_retry_after("18446744073709551615"), 100),
        u128::from(u64::MAX) * 1000
    );
    assert_eq!(retry_delay(&status(Code::Unavailable, "down"), 250), 250);
}

#[test]
fn retries_are_bounded() {
    let mut state = RetryState::new(RpcEndpoint::SyncNotes, DEFAULT_MAX_RETRIES, 100);
    let down = status(Code::Unavailable, "down");
    for _ in 0..DEFAULT_MAX_RETRIES {
        assert_eq!(state.should_retry(&down), Some(100));
    }
    assert_eq!(state.should_retry(&down), None);

    let mut state = RetryState::new(RpcEndpoint::SubmitProvenTx, 4, 100);
    assert_eq!(state.should_retry(&down), None);
    assert_eq!(state.attempt, 0);
}

/// The rejection of a transaction submission, which carries the typed endpoint error.
fn transaction_rejection(error: AddTransactionError) -> RpcError {
    RpcError::RequestError {
        endpoint: RpcEndpoint::SubmitProvenTx,
        error_kind: GrpcError::InvalidArgument,
        endpoint_error: Some(EndpointError::AddTransaction(error)),
        source: Vec::new(),
    }
}

fn unknown_notes_rejection() -> RpcError {
    transaction_rejection(AddTransactionError::StateConflict {
        message: String::from("unauthenticated input notes are unknown: [0x01]"),
    })
}

/// The rejection of a batch submission, which carries only the node's message.
fn batch_rejection(message: &str) -> RpcError {
    RpcError::RequestError {
        endpoint: RpcEndpoint::SubmitProvenBatch,
        error_kind: GrpcError::InvalidArgument,
        endpoint_error: None,
        source: vec![String::from(message)],
    }
}

#[test]
fn a_transaction_rejected_for_unknown_notes_is_recognized() {
    assert!(is_unknown_unauthenticated_note(&unknown_notes_rejection()));
}

#[test]
fn a_batch_rejected_for_unknown_notes_is_recognized() {
    assert!(is_unknown_unauthenticated_note(&batch_rejection(
        "unauthenticated input notes are unknown: [0x01]"
    )));
}

#[test]
fn other_rejections_are_not_recognized() {
    let other_conflict = transaction_rejection(AddTransactionError::StateConflict {
        message: String::from("nullifiers already exist"),
    });
    assert!(!is_unknown_unauthenticated_note(&other_conflict));
    assert!(!is_unknown_unauthenticated_note(&transaction_rejection(
        AddTransactionError::Expired
    )));
    assert!(!is_unknown_unauthenticated_note(&batch_rejection("mempool is full")));
    assert!(!is_unknown_unauthenticated_note(&RpcError::InvalidResponse(String::from(
        "unexpected block"
    ))));
}

/// Submits until the library says that there is no point in it, and returns the number of calls.
fn submit(mut answer: impl FnMut(usize) -> Result<u32, RpcError>, deadline_ms: u64) -> (Result<u32, RpcError>, usize) {
    let mut calls = 0;
    loop {
        let result = answer(calls);
        calls += 1;
        if !should_resubmit(&result, 0, deadline_ms) {
            return (result, calls);
        }
    }
}

#[test]
fn a_submission_is_repeated_until_the_node_knows_the_notes() {
    let (result, calls) = submit(
        |call| if call < 2 { Err(unknown_notes_rejection()) } else { Ok(7u32) },
        10_000,
    );

    assert_eq!(result.unwrap(), 7u32);
    assert_eq!(calls, 3);
}

#[test]
fn another_error_is_returned_without_a_retry() {
    let (result, calls) =
        submit(|_| Err(transaction_rejection(AddTransactionError::Expired)), 10_000);

    assert!(matches!(
        result.unwrap_err().endpoint_error(),
        Some(EndpointError::AddTransaction(AddTransactionError::Expired))
    ));
    assert_eq!(calls, 1);
}

/// A funding transaction which never reaches the node must not hang the test forever.
#[test]
fn the_rejection_is_returned_after_the_deadline() {
    let (result, calls) = submit(|_| Err(unknown_notes_rejection()), 0);

    assert!(is_unknown_unauthenticated_note(&result.unwrap_err()));
    assert_eq!(calls, 1);
}

#[test]
fn the_retrying_client_holds_its_inner_client() {
    assert_eq!(UnknownNoteRetryRpcClient::new(9).inner, 9);
}
