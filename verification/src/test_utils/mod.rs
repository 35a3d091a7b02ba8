//! Decisions of the helpers that tests of a client use.
pub mod common;
pub mod fee;
pub mod helper_laws;
pub mod mock;
pub mod mock_account;
pub mod mock_answers;
pub mod mock_chain;
pub mod mock_laws;
pub mod mock_notes;
pub mod mock_sync;
pub mod submit_retry;
