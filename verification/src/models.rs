//! Data shapes of the storage engine: request and response records for each
//! primitive, the storage-intent selector type, and the failure taxonomy.

use vstd::prelude::*;

use crate::assoc::AssocMap;

verus! {

// ---------------------------------------------------------------------------
// Chunks — immutable, content-addressed byte blobs
// ---------------------------------------------------------------------------

/// Request to create a chunk; the content is base64-encoded.
#[derive(Debug, Clone)]
pub struct ChunkRequest {
    /// Base64-encoded content.
    pub content: String,
}

/// Response after creating a chunk.
#[derive(Debug, Clone)]
pub struct ChunkResponse {
    /// Address under which the chunk is retrievable.
    pub address: String,
}

/// Chunk data handed back on retrieval.
#[derive(Debug, Clone)]
pub struct ChunkData {
    /// Base64-encoded content.
    pub content: String,
}

// ---------------------------------------------------------------------------
// Registers — named values with an append-only history
// ---------------------------------------------------------------------------

/// Request to create or update a register; the content is hex-encoded.
#[derive(Debug, Clone)]
pub struct RegisterRequest {
    /// Name of the register.
    pub name: String,
    /// Hex-encoded content (not base64).
    pub content: String,
}

/// Response after creating a register.
#[derive(Debug, Clone)]
pub struct RegisterResponse {
    /// Address under which the register is retrievable.
    pub address: String,
}

/// A register's current value.
#[derive(Debug, Clone)]
pub struct RegisterData {
    /// Hex-encoded content.
    pub content: String,
}

/// One entry of a register's history.
#[derive(Debug, Clone, PartialEq, Eq)]
pub struct RegisterHistoryEntry {
    /// Hex-encoded content the register held.
    pub content: String,
    /// Unix timestamp of the write, in seconds.
    pub timestamp: i64,
}

impl View for RegisterHistoryEntry {
    type V = (Seq<char>, i64);

    open spec fn view(&self) -> (Seq<char>, i64) {
        (self.content@, self.timestamp)
    }
}

// ---------------------------------------------------------------------------
// Pointers — mutable references to another address
// ---------------------------------------------------------------------------

/// Request to create or update a pointer.
#[derive(Debug, Clone)]
pub struct PointerRequest {
    /// Name of the pointer.
    pub name: String,
    /// Target address the pointer refers to.
    pub content: String,
}

/// Response after creating a pointer.
#[derive(Debug, Clone)]
pub struct PointerResponse {
    /// Address under which the pointer is retrievable.
    pub address: String,
}

/// A pointer's current target.
#[derive(Debug, Clone)]
pub struct PointerData {
    /// The address this pointer refers to.
    pub content: String,
}

// ---------------------------------------------------------------------------
// Scratchpads — mutable blobs, public or per-name private
// ---------------------------------------------------------------------------

/// Request to create a scratchpad; the content is base64-encoded.
#[derive(Debug, Clone)]
pub struct ScratchpadRequest {
    /// Name; selects the namespace of a private scratchpad.
    pub name: String,
    /// Base64-encoded content.
    pub content: String,
}

/// Request to update a scratchpad.
#[derive(Debug, Clone)]
pub struct ScratchpadUpdateRequest {
    /// Base64-encoded content.
    pub content: String,
}

/// Response after creating a scratchpad.
#[derive(Debug, Clone)]
pub struct ScratchpadResponse {
    /// Address under which the scratchpad is retrievable.
    pub address: String,
}

/// A scratchpad's current content.
#[derive(Debug, Clone)]
pub struct ScratchpadData {
    /// Base64-encoded content.
    pub content: String,
}

// ---------------------------------------------------------------------------
// Archives — ordered path/content bundles stored as one unit
// ---------------------------------------------------------------------------

/// Response after creating an archive.
#[derive(Debug, Clone)]
pub struct ArchiveResponse {
    /// Address under which the archive is retrievable.
    pub address: String,
}

/// One file of an archive.
#[derive(Debug, Clone, PartialEq, Eq)]
pub struct ArchiveFile {
    /// Path of the file within the archive.
    pub path: String,
    /// Raw file content.
    pub content: Vec<u8>,
}

impl View for ArchiveFile {
    type V = (Seq<char>, Seq<u8>);

    open spec fn view(&self) -> (Seq<char>, Seq<u8>) {
        (self.path@, self.content@)
    }
}

// ---------------------------------------------------------------------------
// Graph entries — content-addressed (name, hex content) pairs
// ---------------------------------------------------------------------------

/// Request to create a graph entry; the content is hex-encoded.
#[derive(Debug, Clone)]
pub struct GraphEntryRequest {
    /// Name of the entry.
    pub name: String,
    /// Hex-encoded content.
    pub content: String,
}

// ---------------------------------------------------------------------------
// Name registry (PNR) — a name mapped to typed records
// ---------------------------------------------------------------------------

/// One typed record of a name-registry entry.
#[derive(Debug, Clone)]
pub struct PnrRecord {
    /// Address the record resolves to.
    pub address: String,
    /// Kind of the record.
    pub record_type: String,
    /// Time-to-live, in seconds.
    pub ttl: u32,
}

impl View for PnrRecord {
    type V = (Seq<char>, Seq<char>, u32);

    open spec fn view(&self) -> (Seq<char>, Seq<char>, u32) {
        (self.address@, self.record_type@, self.ttl)
    }
}

/// A record map of the name registry, keyed by record key.
pub type PnrRecords = AssocMap<PnrRecord>;

/// Request to create, replace, or merge-append name-registry records.
pub struct PnrRequest {
    /// The registered name.
    pub name: String,
    /// Record key to record.
    pub records: PnrRecords,
}

// ---------------------------------------------------------------------------
// Key-value objects — bucket/object compound keys
// ---------------------------------------------------------------------------

/// Request to create a key-value entry; the content is base64-encoded.
#[derive(Debug, Clone)]
pub struct KeyValueRequest {
    /// Bucket the object lives in.
    pub bucket: String,
    /// Object key within the bucket.
    pub object: String,
    /// Base64-encoded content.
    pub content: String,
}

/// A key-value entry's content.
#[derive(Debug, Clone)]
pub struct KeyValueData {
    /// Base64-encoded content.
    pub content: String,
}

// ---------------------------------------------------------------------------
// Failures
// ---------------------------------------------------------------------------

/// The failure taxonomy of the engine. A request for an unavailable backend
/// is not an error: the selector silently downgrades it (see
/// `crate::engine::resolve_backend`).
#[derive(Debug, Clone, Copy, PartialEq, Eq, Structural)]
pub enum StoreError {
    /// No value is stored under the given key, address, or name.
    NotFound,
    /// The payload fails its primitive's declared encoding check; nothing
    /// was mutated.
    InvalidEncoding,
    /// A stored envelope that should always round-trip failed to decode: an
    /// invariant violation, not a user error.
    Internal,
}

/// An error rendering handed to the transport layer.
#[derive(Debug, Clone)]
pub struct ErrorResponse {
    /// Short description of the failure.
    pub error: String,
    /// Optional details.
    pub details: Option<String>,
}

impl ErrorResponse {
    /// An error rendering without details.
    pub fn new(error: String) -> (r: Self)
        ensures
            r.error@ == error@,
            r.details is None,
    {
        ErrorResponse { error, details: None }
    }

    /// An error rendering with details.
    pub fn with_details(error: String, details: String) -> (r: Self)
        ensures
            r.error@ == error@,
            r.details matches Some(d) && d@ == details@,
    {
        ErrorResponse { error, details: Some(details) }
    }
}

// ---------------------------------------------------------------------------
// Storage intent
// ---------------------------------------------------------------------------

/// The caller-declared target backend of an operation.
#[derive(Debug, Clone, Copy, PartialEq, Eq, Structural)]
pub enum StoreType {
    /// In-memory storage: fast, lives for the process.
    Memory,
    /// Disk storage; the reference behavior delegates to the same in-memory
    /// store.
    Disk,
    /// Distributed network storage; downgraded to memory while no network
    /// capability is present.
    Network,
}

/// The case-folded code point of a character: ASCII uppercase letters map to
/// their lowercase counterparts, all else is untouched.
pub open spec fn lower_code(c: char) -> u32 {
    if 'A' <= c && c <= 'Z' {
        (c as u32 + 32) as u32
    } else {
        c as u32
    }
}

/// Whether `s` equals `t` after ASCII case folding of `s`.
pub open spec fn lower_eq(s: Seq<char>, t: Seq<char>) -> bool {
    s.len() == t.len() && forall|i: int| 0 <= i < s.len() ==> lower_code(#[trigger] s[i]) == t[i]
        as u32
}

/// The storage intent a header value names, matched case-insensitively.
pub open spec fn spec_store_type_of(s: Seq<char>) -> Option<StoreType> {
    if lower_eq(s, "memory"@) {
        Some(StoreType::Memory)
    } else if lower_eq(s, "disk"@) {
        Some(StoreType::Disk)
    } else if lower_eq(s, "network"@) {
        Some(StoreType::Network)
    } else {
        None
    }
}

/// Whether `s` equals the lowercase string `t` after ASCII case folding of
/// `s`.
fn eq_lower(s: &str, t: &str) -> (r: bool)
    ensures
        r == lower_eq(s@, t@),
{
    let n = s.unicode_len();
    if n != t.unicode_len() {
        return false;
    }
    let mut i: usize = 0;
    while i < n
        invariant
            0 <= i <= n,
            n == s@.len(),
            n == t@.len(),
            forall|j: int| 0 <= j < i ==> lower_code(#[trigger] s@[j]) == t@[j] as u32,
        decreases n - i,
    {
        let c = s.get_char(i);
        let d = t.get_char(i);
        let code: u32 = if c >= 'A' && c <= 'Z' {
            (c as u32) + 32
        } else {
            c as u32
        };
        if code != d as u32 {
            return false;
        }
        i = i + 1;
    }
    true
}

impl StoreType {
    /// Parses a storage intent, matching `memory`, `disk` or `network` in
    /// any character case.
    pub fn from_str(s: &str) -> (r: Option<StoreType>)
        ensures
            r == spec_store_type_of(s@),
    {
        if eq_lower(s, "memory") {
            Some(StoreType::Memory)
        } else if eq_lower(s, "disk") {
            Some(StoreType::Disk)
        } else if eq_lower(s, "network") {
            Some(StoreType::Network)
        } else {
            None
        }
    }
}

impl Default for StoreType {
    /// The intent assumed when a request names none.
    fn default() -> (r: Self)
        ensures
            r == StoreType::Memory,
    {
        StoreType::Memory
    }
}

} // verus!
