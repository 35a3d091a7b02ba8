//! Sending private notes over the note transport layer, and receiving them.
pub mod backfill;
pub mod cursor;
pub mod fetch;
pub mod relay;
pub mod transport_calls;
pub mod transport_laws;
pub mod wire;
