//! NDEF codec and paged-memory access protocol for NFC-style tags.
//!
//! The crate encodes and decodes NDEF (NFC Data Exchange Format) messages
//! wrapped in a TLV container, and drives page-by-page read, write and
//! capacity-probe loops over an injected transport that exposes only
//! fixed-size page exchanges with two-byte status words.

pub mod codec;
pub mod error;
pub mod paged;
pub mod records;
pub mod transport;
