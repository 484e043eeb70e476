//! Client-side frame codec for the Modbus request/response protocol.
//!
//! Requests are generated into a caller-supplied output container and
//! responses are validated against the request that produced them.
pub mod checksum;
pub mod client;
pub mod container;
pub mod error;
pub mod proofs;
