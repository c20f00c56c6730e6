//! In-process storage and addressing engine for a content-addressed data
//! substrate: immutable chunks, versioned registers, mutable pointers,
//! public/private scratchpads, file archives, graph entries, a mutable name
//! registry, and bucket/object key-value storage.
//!
//! All primitives share one associative byte store. Addresses are hex-encoded
//! content hashes; mutable primitives derive a creation-time address from a
//! canonical envelope of their name and content.

pub mod assoc;
pub mod b64;
pub mod clock;
pub mod codec;
pub mod digest;
pub mod engine;
pub mod hexstr;
pub mod laws;
pub mod models;
