//! A small persistent key-value store over an append-only, checksummed log,
//! together with a few byte-level helpers (MAC addresses and a turtle that
//! turns hexadecimal digits into a drawing path).

pub mod codec;
pub mod index;
pub mod store;
pub mod laws;
pub mod mac;
pub mod turtle;
