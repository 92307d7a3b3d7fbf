//! An in-memory key-value store speaking the RESP wire protocol.
//!
//! The crate holds the three verified cores of a small Redis-compatible
//! server: the RESP codec (framing bytes to and from tagged values), the
//! keyed store with per-key expiration, and the command layer that parses
//! a decoded request and applies it to the store. All I/O stays outside;
//! every function here works on plain values and carries a contract.

pub mod client;
pub mod command;
pub mod db;
pub mod handler;
pub mod laws;
pub mod num;
pub mod resp;
