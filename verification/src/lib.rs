//! A minimal name registry: it maps a human-readable domain string to a short
//! IPv4 record string, together with the 32-byte identity of the caller that
//! registered it and a creation timestamp.
//!
//! The crate is organised around four pieces:
//! - [`validate`]: the rules that gate which domain and record strings may be
//!   stored;
//! - [`address`]: the derivation of a storage slot identifier from a domain;
//! - [`codec`]: the fixed 327-byte binary layout of a stored record;
//! - [`registry`]: the Register / Resolve protocol over a content-addressed
//!   slot store.

pub mod address;
mod bytes;
pub mod codec;
pub mod error;
pub mod record;
pub mod registry;
pub mod validate;
