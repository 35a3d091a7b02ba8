//! A light client for the Miden network: the rules by which it follows the chain, accounts and
//! notes.

pub mod account;
pub mod account_laws;
pub mod bytes;
pub mod collections;
pub mod errors;
pub mod mmr;
pub mod note;
pub mod note_transport;
pub mod protocol_config;
pub mod rpc;
pub mod store;
pub mod sync;
pub mod test_utils;
pub mod text;
pub mod text_laws;
pub mod transaction;
pub mod types;
