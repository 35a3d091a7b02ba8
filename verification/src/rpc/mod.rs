//! Talking to a node: what is asked, what comes back, and what can be wrong with it.
pub mod domain;
pub mod endpoint;
pub mod errors;
pub mod grpc_client;
pub mod paged_requests;
pub mod pagination;
pub mod retry;
pub mod rpc_calls;
pub mod rpc_laws;
pub mod verifying_client;
