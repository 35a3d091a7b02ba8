//! Following the chain: what a sync takes from a node's answers.

pub mod account_laws;
pub mod account_sync;
pub mod account_updates;
pub mod block_header;
pub mod blockchain_updates;
pub mod chain_laws;
pub mod chain_sync;
pub mod execution_chain;
pub mod execution_laws;
pub mod note_laws;
pub mod note_sync;
pub mod state_sync;
pub mod sync_calls;
pub mod sync_laws;
pub mod transaction_laws;
pub mod transaction_updates;
