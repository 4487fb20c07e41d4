//! Verified core of an object-storage binding: given the flat listing that a
//! storage backend reports for a directory, keep only that directory's direct
//! children, name each of them, and name a single object from its path.
//!
//! Everything here works on plain values. Talking to the storage backend and
//! to the host environment is left to the code around this library.

pub mod entry;
pub mod failure;
pub mod listing;
pub mod path;
pub mod stat;
