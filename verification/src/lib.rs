//! Verified core of an archive inspection and extraction tool.
//!
//! The library normalizes several archive container formats behind one
//! listing/extraction protocol: filename-based format detection, entry
//! normalization, assembly of flat entry lists into display forests,
//! directory synthesis for containers without explicit directory records,
//! error classification, and per-entry extraction planning. The unverified
//! backends (the actual compressed-stream readers) live outside this crate
//! and exchange plain values with it.

pub mod paths;
pub mod format;
pub mod entry;
pub mod tree;
pub mod errors;
pub mod handlers;
pub mod inspect;
