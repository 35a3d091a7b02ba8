//! What can go wrong in a call to a node.
pub mod node;
pub mod rpc_error;
