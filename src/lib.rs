//! Signing core for settlement attestations: fixed-point amount conversion,
//! a durably persisted nonce counter, a canonical message digest and its
//! signature.
pub mod bytes;
pub mod conversion;
pub mod engine;
pub mod error;
pub mod message;
pub mod nonce;
pub mod settings;
pub mod signing;
pub mod whitelist;
