//! Notes of the client: importing them, and finding them again.
pub mod import;
pub mod import_calls;
pub mod import_laws;
pub mod retrieval;
