//! The values exchanged with a node.

pub mod account;
pub mod account_laws;
pub mod account_proof;
pub mod account_storage;
pub mod note;
pub mod sync;
pub mod transaction;
