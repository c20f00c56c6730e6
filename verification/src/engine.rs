//! The storage engine: one entry point per primitive operation, all of them
//! backed by the shared keyed store.
//!
//! Every operation takes a storage intent and runs it through the backend
//! selector first. This engine carries no network capability, so a `network`
//! intent silently downgrades to memory, and the `disk` intent delegates to
//! the same in-memory store; all resolved backends therefore share one keyed
//! store.

use vstd::prelude::*;

use crate::assoc::AssocMap;
use crate::b64::{b64_decode, b64_encode, base64_decoded, base64_encoded};
use crate::clock::now_timestamp;
use crate::codec::{
    dec_env2, dec_env3, dec_files, dec_hist, dec_pnr, env2, env3, env_files, env_hist, env_pnr,
    files_view,
    hist_view, lemma_pnr_items_map_entries, make_env2, make_env3, make_files, make_hist, make_pnr,
    parse_env2, parse_env3, parse_files, parse_hist, parse_pnr, pnr_items_map, pnr_items_view,
    pnr_items_wf,
    PnrItemV, TAG_ARCHIVE, TAG_GRAPH, TAG_KEY_VALUE, TAG_PNR, TAG_POINTER, TAG_REGISTER,
    TAG_SCRATCHPAD_PRIVATE, TAG_SCRATCHPAD_PUBLIC, TAG_TARCHIVE,
};
use crate::digest::{address_for, spec_address_of};
use crate::hexstr::{check_hex, is_hex, u64_dec, u64_to_dec};
use crate::models::{ArchiveFile, PnrRecords, RegisterHistoryEntry, StoreError, StoreType};

verus! {

use vstd::string::StringExecFns;
use vstd::utf8::encode_utf8;

// ---------------------------------------------------------------------------
// Backend selector
// ---------------------------------------------------------------------------

/// The backend an intent resolves to: a `network` intent falls back to
/// memory while no network capability is available; everything else is
/// honored as requested.
pub open spec fn spec_resolve_backend(intent: StoreType, network_available: bool) -> StoreType {
    if intent == StoreType::Network && !network_available {
        StoreType::Memory
    } else {
        intent
    }
}

/// Resolves a storage intent to an available backend. A `network` request
/// without a network capability silently downgrades to `memory`, still
/// reporting success; callers must not assume durability beyond the
/// in-memory store in that case.
pub fn resolve_backend(intent: StoreType, network_available: bool) -> (r: StoreType)
    ensures
        r == spec_resolve_backend(intent, network_available),
{
    match intent {
        StoreType::Network => if network_available {
            StoreType::Network
        } else {
            StoreType::Memory
        },
        StoreType::Memory => StoreType::Memory,
        StoreType::Disk => StoreType::Disk,
    }
}

// ---------------------------------------------------------------------------
// Key derivation
// ---------------------------------------------------------------------------

/// The key of a chunk: the content address of its bytes.
pub open spec fn chunk_key(content: Seq<u8>) -> Seq<char> {
    spec_address_of(content)
}

/// The creation-time address of a register: the content address of its
/// canonical (name, content) envelope.
pub open spec fn register_address(name: Seq<char>, content: Seq<char>) -> Seq<char> {
    spec_address_of(env2(TAG_REGISTER, name, content))
}

/// The key of a register's history, paired with its current-value key.
pub open spec fn history_key(address: Seq<char>) -> Seq<char> {
    address + "_history"@
}

/// The creation-time address of a pointer.
pub open spec fn pointer_address(name: Seq<char>, target: Seq<char>) -> Seq<char> {
    spec_address_of(env2(TAG_POINTER, name, target))
}

fn history_key_for(address: &String) -> (r: String)
    ensures
        r@ == history_key(address@),
{
    let mut k = address.clone();
    k.append("_history");
    k
}

// ---------------------------------------------------------------------------
// Stored-value readers
// ---------------------------------------------------------------------------

/// The content a stored register envelope carries, if the value is one.
pub open spec fn register_content_of(v: Seq<u8>) -> Option<Seq<char>> {
    match dec_env2(v) {
        Some((tag, name, content)) => if tag == TAG_REGISTER {
            Some(content)
        } else {
            None
        },
        None => None,
    }
}

/// The target a stored pointer envelope carries, if the value is one.
pub open spec fn pointer_target_of(v: Seq<u8>) -> Option<Seq<char>> {
    match dec_env2(v) {
        Some((tag, name, target)) => if tag == TAG_POINTER {
            Some(target)
        } else {
            None
        },
        None => None,
    }
}

/// The history a register's paired history key carries in a store: an
/// absent history reads as empty, an undecodable one as `None`.
pub open spec fn register_history_of(m: Map<Seq<char>, Seq<u8>>, address: Seq<char>) -> Option<
    Seq<(Seq<char>, i64)>,
> {
    if m.contains_key(history_key(address)) {
        dec_hist(m[history_key(address)])
    } else {
        Some(Seq::empty())
    }
}

fn clone_bytes(v: &Vec<u8>) -> (r: Vec<u8>)
    ensures
        r@ == v@,
{
    let r = v.clone();
    proof {
        assert(r@ =~= v@);
    }
    r
}

// ---------------------------------------------------------------------------
// The engine
// ---------------------------------------------------------------------------

/// The storage engine: every primitive operation, over one shared keyed
/// store. Its view is the map from store keys to stored byte values.
pub struct StorageEngine {
    store: AssocMap<Vec<u8>>,
}

impl View for StorageEngine {
    type V = Map<Seq<char>, Seq<u8>>;

    closed spec fn view(&self) -> Map<Seq<char>, Seq<u8>> {
        self.store@
    }
}

impl StorageEngine {
    /// How many keys the shared store holds.
    pub closed spec fn num_entries(&self) -> nat {
        self.store.num_entries()
    }

    /// Creates an engine with an empty store and no network capability.
    pub fn new() -> (r: Self)
        ensures
            r@ == Map::<Seq<char>, Seq<u8>>::empty(),
            r.num_entries() == 0,
    {
        StorageEngine { store: AssocMap::new() }
    }

    /// The number of keys the shared store holds.
    pub fn store_len(&self) -> (n: usize)
        ensures
            n == self.num_entries(),
    {
        self.store.len()
    }

    // -----------------------------------------------------------------------
    // Chunks and public data: immutable, content-addressed bytes
    // -----------------------------------------------------------------------

    /// Stores raw bytes as an immutable chunk and yields their content
    /// address. Storing the same bytes again yields the same address and
    /// leaves the store — its size included — as it was.
    pub fn store_chunk(&mut self, intent: StoreType, data: Vec<u8>) -> (r: String)
        ensures
            r@ == chunk_key(data@),
            r@.len() == 64,
            final(self)@ == old(self)@.insert(chunk_key(data@), data@),
            old(self)@.contains_key(chunk_key(data@)) ==> final(self).num_entries() == old(
                self,
            ).num_entries(),
            !old(self)@.contains_key(chunk_key(data@)) ==> final(self).num_entries() == old(
                self,
            ).num_entries() + 1,
    {
        let _resolved = resolve_backend(intent, false);
        let addr = address_for(data.as_slice());
        self.store.put(addr.clone(), data);
        addr
    }

    /// Retrieves a chunk's raw bytes.
    pub fn get_chunk_bytes(&self, intent: StoreType, address: &String) -> (r: Result<
        Vec<u8>,
        StoreError,
    >)
        ensures
            match r {
                Ok(v) => self@.contains_key(address@) && v@ == self@[address@],
                Err(e) => e == StoreError::NotFound && !self@.contains_key(address@),
            },
    {
        let _resolved = resolve_backend(intent, false);
        match self.store.get(address) {
            Some(v) => Ok(clone_bytes(v)),
            None => Err(StoreError::NotFound),
        }
    }

    /// Decodes base64 content and stores it as a chunk; rejects content that
    /// is not valid base64 before any mutation.
    pub fn create_chunk(&mut self, intent: StoreType, content: &str) -> (r: Result<
        String,
        StoreError,
    >)
        ensures
            match base64_decoded(content@) {
                Some(bytes) => {
                    &&& r matches Ok(addr) && addr@ == chunk_key(bytes)
                    &&& base64_encoded(bytes) == content@
                    &&& bytes.len() <= content@.len()
                    &&& final(self)@ == old(self)@.insert(chunk_key(bytes), bytes)
                    &&& old(self)@.contains_key(chunk_key(bytes)) ==> final(self).num_entries()
                        == old(self).num_entries()
                    &&& !old(self)@.contains_key(chunk_key(bytes)) ==> final(self).num_entries()
                        == old(self).num_entries() + 1
                },
                None => {
                    &&& r matches Err(e) && e == StoreError::InvalidEncoding
                    &&& final(self)@ == old(self)@
                    &&& final(self).num_entries() == old(self).num_entries()
                },
            },
    {
        match b64_decode(content) {
            Some(bytes) => Ok(self.store_chunk(intent, bytes)),
            None => Err(StoreError::InvalidEncoding),
        }
    }

    /// Retrieves a chunk as base64 content.
    pub fn get_chunk(&self, intent: StoreType, address: &String) -> (r: Result<
        String,
        StoreError,
    >)
        ensures
            match r {
                Ok(content) => self@.contains_key(address@) && content@ == base64_encoded(
                    self@[address@],
                ),
                Err(e) => if !self@.contains_key(address@) {
                    e == StoreError::NotFound
                } else {
                    e == StoreError::Internal && self@[address@].len() > usize::MAX as int / 4
                },
            },
    {
        let _resolved = resolve_backend(intent, false);
        match self.store.get(address) {
            Some(v) => {
                if v.len() <= usize::MAX / 4 {
                    Ok(b64_encode(v.as_slice()))
                } else {
                    Err(StoreError::Internal)
                }
            },
            None => Err(StoreError::NotFound),
        }
    }

    /// Stores raw bytes as public data; public data shares the chunk
    /// semantics.
    pub fn store_public_data(&mut self, intent: StoreType, data: Vec<u8>) -> (r: String)
        ensures
            r@ == chunk_key(data@),
            r@.len() == 64,
            final(self)@ == old(self)@.insert(chunk_key(data@), data@),
            old(self)@.contains_key(chunk_key(data@)) ==> final(self).num_entries() == old(
                self,
            ).num_entries(),
            !old(self)@.contains_key(chunk_key(data@)) ==> final(self).num_entries() == old(
                self,
            ).num_entries() + 1,
    {
        self.store_chunk(intent, data)
    }

    /// Retrieves public data's raw bytes.
    pub fn get_public_data(&self, intent: StoreType, address: &String) -> (r: Result<
        Vec<u8>,
        StoreError,
    >)
        ensures
            match r {
                Ok(v) => self@.contains_key(address@) && v@ == self@[address@],
                Err(e) => e == StoreError::NotFound && !self@.contains_key(address@),
            },
    {
        self.get_chunk_bytes(intent, address)
    }

    // -----------------------------------------------------------------------
    // Registers: named values with an append-only history
    // -----------------------------------------------------------------------

    /// Creates a register: validates that the content is hex, derives the
    /// creation-time address from the canonical envelope, and writes the
    /// current value together with a one-entry history in one step. Content
    /// that is not hex is rejected before any mutation.
    pub fn create_register(&mut self, intent: StoreType, name: &str, content: &str) -> (r: Result<
        String,
        StoreError,
    >)
        ensures
            is_hex(content@) ==> {
                &&& r matches Ok(addr) && addr@ == register_address(name@, content@)
                &&& exists|t: i64|
                    final(self)@ == old(self)@.insert(
                        register_address(name@, content@),
                        env2(TAG_REGISTER, name@, content@),
                    ).insert(
                        history_key(register_address(name@, content@)),
                        env_hist(seq![(content@, t)]),
                    )
            },
            !is_hex(content@) ==> {
                &&& r matches Err(e) && e == StoreError::InvalidEncoding
                &&& final(self)@ == old(self)@
                &&& final(self).num_entries() == old(self).num_entries()
            },
    {
        let _resolved = resolve_backend(intent, false);
        if !check_hex(content) {
            return Err(StoreError::InvalidEncoding);
        }
        let env = make_env2(TAG_REGISTER, name, content);
        let addr = address_for(env.as_slice());
        let ts = now_timestamp();
        let mut entries: Vec<RegisterHistoryEntry> = Vec::new();
        entries.push(RegisterHistoryEntry { content: content.to_owned(), timestamp: ts });
        let hist_env = make_hist(&entries);
        let hkey = history_key_for(&addr);
        self.store.put(addr.clone(), env);
        self.store.put(hkey, hist_env);
        proof {
            assert(hist_view(entries@) =~= seq![(content@, ts)]);
            assert(final(self)@ == old(self)@.insert(
                register_address(name@, content@),
                env2(TAG_REGISTER, name@, content@),
            ).insert(
                history_key(register_address(name@, content@)),
                env_hist(seq![(content@, ts)]),
            ));
        }
        Ok(addr)
    }

    /// Updates a register at an address: appends the new content to the
    /// history and overwrites the current value, both in this one atomic
    /// call — no caller can observe one without the other. Content that is
    /// not hex, or a history that fails to decode, is rejected before any
    /// mutation.
    #[verifier::rlimit(50)]
    pub fn update_register(
        &mut self,
        intent: StoreType,
        address: &String,
        name: &str,
        content: &str,
    ) -> (r: Result<(), StoreError>)
        ensures
            !is_hex(content@) ==> {
                &&& r matches Err(e) && e == StoreError::InvalidEncoding
                &&& final(self)@ == old(self)@
            },
            is_hex(content@) && register_history_of(old(self)@, address@) is Some ==> {
                &&& r is Ok
                &&& exists|t: i64|
                    final(self)@ == old(self)@.insert(
                        address@,
                        env2(TAG_REGISTER, name@, content@),
                    ).insert(
                        history_key(address@),
                        env_hist(
                            register_history_of(old(self)@, address@).unwrap().push(
                                (content@, t),
                            ),
                        ),
                    )
            },
            is_hex(content@) && register_history_of(old(self)@, address@) is None ==> {
                &&& r matches Err(e) && e == StoreError::Internal
                &&& final(self)@ == old(self)@
            },
    {
        let _resolved = resolve_backend(intent, false);
        if !check_hex(content) {
            return Err(StoreError::InvalidEncoding);
        }
        let hkey = history_key_for(address);
        let mut entries: Vec<RegisterHistoryEntry> = match self.store.get(&hkey) {
            Some(v) => match parse_hist(v) {
                Some(es) => es,
                None => {
                    return Err(StoreError::Internal);
                },
            },
            None => Vec::new(),
        };
        let ghost prev = hist_view(entries@);
        proof {
            if !old(self)@.contains_key(history_key(address@)) {
                assert(prev =~= Seq::<(Seq<char>, i64)>::empty());
            }
            assert(register_history_of(old(self)@, address@) == Some(prev));
        }
        let ts = now_timestamp();
        entries.push(RegisterHistoryEntry { content: content.to_owned(), timestamp: ts });
        let hist_env = make_hist(&entries);
        let env = make_env2(TAG_REGISTER, name, content);
        self.store.put(address.clone(), env);
        self.store.put(hkey, hist_env);
        proof {
            assert(hist_view(entries@) =~= prev.push((content@, ts)));
            assert(register_history_of(old(self)@, address@).unwrap() == prev);
            assert(final(self)@ == old(self)@.insert(
                address@,
                env2(TAG_REGISTER, name@, content@),
            ).insert(
                history_key(address@),
                env_hist(register_history_of(old(self)@, address@).unwrap().push((content@, ts))),
            ));
        }
        Ok(())
    }

    /// Reads a register's current value.
    pub fn get_register(&self, intent: StoreType, address: &String) -> (r: Result<
        String,
        StoreError,
    >)
        ensures
            match r {
                Ok(content) => self@.contains_key(address@) && register_content_of(
                    self@[address@],
                ) == Some(content@),
                Err(e) => if !self@.contains_key(address@) {
                    e == StoreError::NotFound
                } else {
                    e == StoreError::Internal && register_content_of(self@[address@]) is None
                },
            },
    {
        let _resolved = resolve_backend(intent, false);
        match self.store.get(address) {
            Some(v) => match parse_env2(v) {
                Some((tag, _name, content)) => if tag == TAG_REGISTER {
                    Ok(content)
                } else {
                    Err(StoreError::Internal)
                },
                None => Err(StoreError::Internal),
            },
            None => Err(StoreError::NotFound),
        }
    }

    /// Reads a register's full history, oldest entry first.
    pub fn get_register_history(&self, intent: StoreType, address: &String) -> (r: Result<
        Vec<RegisterHistoryEntry>,
        StoreError,
    >)
        ensures
            match r {
                Ok(es) => self@.contains_key(history_key(address@)) && dec_hist(
                    self@[history_key(address@)],
                ) == Some(hist_view(es@)),
                Err(e) => if !self@.contains_key(history_key(address@)) {
                    e == StoreError::NotFound
                } else {
                    e == StoreError::Internal && dec_hist(self@[history_key(address@)]) is None
                },
            },
    {
        let _resolved = resolve_backend(intent, false);
        let hkey = history_key_for(address);
        match self.store.get(&hkey) {
            Some(v) => match parse_hist(v) {
                Some(es) => Ok(es),
                None => Err(StoreError::Internal),
            },
            None => Err(StoreError::NotFound),
        }
    }

    // -----------------------------------------------------------------------
    // Pointers: mutable references, no history
    // -----------------------------------------------------------------------

    /// Creates a pointer to a target address and yields its creation-time
    /// address.
    pub fn store_pointer(&mut self, intent: StoreType, name: &str, target: &str) -> (r: String)
        ensures
            r@ == pointer_address(name@, target@),
            final(self)@ == old(self)@.insert(
                pointer_address(name@, target@),
                env2(TAG_POINTER, name@, target@),
            ),
    {
        let _resolved = resolve_backend(intent, false);
        let env = make_env2(TAG_POINTER, name, target);
        let addr = address_for(env.as_slice());
        self.store.put(addr.clone(), env);
        addr
    }

    /// Replaces a pointer's value in place; no history is retained.
    pub fn update_pointer(&mut self, intent: StoreType, address: &String, name: &str, target: &str)
        ensures
            final(self)@ == old(self)@.insert(address@, env2(TAG_POINTER, name@, target@)),
    {
        let _resolved = resolve_backend(intent, false);
        let env = make_env2(TAG_POINTER, name, target);
        self.store.put(address.clone(), env);
    }

    /// Reads a pointer's current target.
    pub fn get_pointer(&self, intent: StoreType, address: &String) -> (r: Result<
        String,
        StoreError,
    >)
        ensures
            match r {
                Ok(target) => self@.contains_key(address@) && pointer_target_of(self@[address@])
                    == Some(target@),
                Err(e) => if !self@.contains_key(address@) {
                    e == StoreError::NotFound
                } else {
                    e == StoreError::Internal && pointer_target_of(self@[address@]) is None
                },
            },
    {
        let _resolved = resolve_backend(intent, false);
        match self.store.get(address) {
            Some(v) => match parse_env2(v) {
                Some((tag, _name, target)) => if tag == TAG_POINTER {
                    Ok(target)
                } else {
                    Err(StoreError::Internal)
                },
                None => Err(StoreError::Internal),
            },
            None => Err(StoreError::NotFound),
        }
    }
}


// ---------------------------------------------------------------------------
// Scratchpad, graph, name-registry, key-value and archive derivations
// ---------------------------------------------------------------------------

/// The creation-time address of a public scratchpad.
pub open spec fn public_scratchpad_address(name: Seq<char>, content: Seq<char>) -> Seq<char> {
    spec_address_of(env2(TAG_SCRATCHPAD_PUBLIC, name, content))
}

/// The creation-time address of a private scratchpad.
pub open spec fn private_scratchpad_address(name: Seq<char>, content: Seq<char>) -> Seq<char> {
    spec_address_of(env2(TAG_SCRATCHPAD_PRIVATE, name, content))
}

/// The composite key of a private scratchpad: address, separator, namespace
/// name. Distinct names under one address never share a key.
pub open spec fn private_scratchpad_key(address: Seq<char>, name: Seq<char>) -> Seq<char> {
    address + ":"@ + name
}

/// The content a stored scratchpad envelope with the given tag carries.
pub open spec fn scratchpad_content_of(v: Seq<u8>, tag: u8) -> Option<Seq<char>> {
    match dec_env2(v) {
        Some((t, name, content)) => if t == tag {
            Some(content)
        } else {
            None
        },
        None => None,
    }
}

/// The creation-time address of a graph entry.
pub open spec fn graph_address(name: Seq<char>, content: Seq<char>) -> Seq<char> {
    spec_address_of(env2(TAG_GRAPH, name, content))
}

/// The name and content a stored graph envelope carries.
pub open spec fn graph_entry_of(v: Seq<u8>) -> Option<(Seq<char>, Seq<char>)> {
    match dec_env2(v) {
        Some((t, name, content)) => if t == TAG_GRAPH {
            Some((name, content))
        } else {
            None
        },
        None => None,
    }
}

/// The fixed key of a name-registry entry: derived from the name alone,
/// since the entry is mutable by name.
pub open spec fn pnr_key(name: Seq<char>) -> Seq<char> {
    "pnr:"@ + name
}

/// The record map a name's registry entry carries in a store: an absent
/// entry reads as empty, an undecodable one as `None`.
pub open spec fn pnr_records_of(m: Map<Seq<char>, Seq<u8>>, name: Seq<char>) -> Option<
    Map<Seq<char>, (Seq<char>, Seq<char>, u32)>,
> {
    if m.contains_key(pnr_key(name)) {
        match dec_pnr(m[pnr_key(name)]) {
            Some((stored_name, items)) => Some(pnr_items_map(items)),
            None => None,
        }
    } else {
        Some(Map::empty())
    }
}

/// The compound key of a key-value object: tag, decimal length of the
/// bucket, separator, bucket, object. The length prefix keeps distinct
/// (bucket, object) pairs at distinct keys even when a name holds the
/// separator itself.
pub open spec fn kv_key(bucket: Seq<char>, object: Seq<char>) -> Seq<char> {
    "kv:"@ + u64_dec(bucket.len() as u64) + seq![':'] + bucket + object
}

/// The creation-time address of a key-value entry.
pub open spec fn kv_address(bucket: Seq<char>, object: Seq<char>, content: Seq<char>) -> Seq<
    char,
> {
    spec_address_of(env3(TAG_KEY_VALUE, bucket, object, content))
}

/// The content a stored key-value envelope carries.
pub open spec fn kv_content_of(v: Seq<u8>) -> Option<Seq<char>> {
    match dec_env3(v) {
        Some((t, bucket, object, content)) => if t == TAG_KEY_VALUE {
            Some(content)
        } else {
            None
        },
        None => None,
    }
}

/// The content address of an archive: derived from its serialized file
/// list.
pub open spec fn archive_address(items: Seq<(Seq<char>, Seq<u8>)>) -> Seq<char> {
    spec_address_of(env_files(TAG_ARCHIVE, items))
}

/// The content address of a tar-style archive.
pub open spec fn tarchive_address(items: Seq<(Seq<char>, Seq<u8>)>) -> Seq<char> {
    spec_address_of(env_files(TAG_TARCHIVE, items))
}

/// The content of the first file with the given path in an archive's file
/// list.
pub open spec fn find_file(items: Seq<(Seq<char>, Seq<u8>)>, path: Seq<char>) -> Option<Seq<u8>>
    decreases items.len(),
{
    if items.len() == 0 {
        None
    } else if items[0].0 == path {
        Some(items[0].1)
    } else {
        find_file(items.drop_first(), path)
    }
}

proof fn lemma_find_file_at(items: Seq<(Seq<char>, Seq<u8>)>, i: int, path: Seq<char>)
    requires
        0 <= i < items.len(),
        items[i].0 == path,
        forall|j: int| 0 <= j < i ==> (#[trigger] items[j]).0 != path,
    ensures
        find_file(items, path) == Some(items[i].1),
    decreases i,
{
    if i > 0 {
        lemma_find_file_at(items.drop_first(), i - 1, path);
    }
}

proof fn lemma_find_file_absent(items: Seq<(Seq<char>, Seq<u8>)>, path: Seq<char>)
    requires
        forall|j: int| 0 <= j < items.len() ==> (#[trigger] items[j]).0 != path,
    ensures
        find_file(items, path) is None,
    decreases items.len(),
{
    if items.len() > 0 {
        lemma_find_file_absent(items.drop_first(), path);
    }
}

fn private_key_for(address: &str, name: &str) -> (r: String)
    ensures
        r@ == private_scratchpad_key(address@, name@),
{
    let mut k = String::new();
    k.append(address);
    k.append(":");
    k.append(name);
    proof {
        assert(k@ =~= private_scratchpad_key(address@, name@));
    }
    k
}

fn pnr_key_for(name: &str) -> (r: String)
    ensures
        r@ == pnr_key(name@),
{
    let mut k = String::new();
    k.append("pnr:");
    k.append(name);
    proof {
        assert(k@ =~= pnr_key(name@));
    }
    k
}

fn kv_key_for(bucket: &str, object: &str) -> (r: String)
    ensures
        r@ == kv_key(bucket@, object@),
{
    let blen = bucket.unicode_len();
    let mut k = String::new();
    k.append("kv:");
    let len_digits = u64_to_dec(blen as u64);
    k.append(len_digits.as_str());
    k.append(":");
    k.append(bucket);
    k.append(object);
    proof {
        reveal_strlit(":");
        assert(":"@ =~= seq![':']);
        assert(k@ =~= kv_key(bucket@, object@));
    }
    k
}

impl StorageEngine {
    // -----------------------------------------------------------------------
    // Scratchpads: mutable blobs, public by address, private by address+name
    // -----------------------------------------------------------------------

    /// Creates a public scratchpad; content that is not valid base64 is
    /// rejected before any mutation.
    pub fn create_public_scratchpad(&mut self, intent: StoreType, name: &str, content: &str) -> (r:
        Result<String, StoreError>)
        ensures
            base64_decoded(content@) is Some ==> {
                &&& r matches Ok(addr) && addr@ == public_scratchpad_address(name@, content@)
                &&& final(self)@ == old(self)@.insert(
                    public_scratchpad_address(name@, content@),
                    env2(TAG_SCRATCHPAD_PUBLIC, name@, content@),
                )
            },
            base64_decoded(content@) is None ==> {
                &&& r matches Err(e) && e == StoreError::InvalidEncoding
                &&& final(self)@ == old(self)@
            },
    {
        let _resolved = resolve_backend(intent, false);
        if b64_decode(content).is_none() {
            return Err(StoreError::InvalidEncoding);
        }
        let env = make_env2(TAG_SCRATCHPAD_PUBLIC, name, content);
        let addr = address_for(env.as_slice());
        self.store.put(addr.clone(), env);
        Ok(addr)
    }

    /// Overwrites a public scratchpad in place; content that is not valid
    /// base64 is rejected before any mutation.
    pub fn update_public_scratchpad(
        &mut self,
        intent: StoreType,
        address: &String,
        name: &str,
        content: &str,
    ) -> (r: Result<(), StoreError>)
        ensures
            base64_decoded(content@) is Some ==> {
                &&& r is Ok
                &&& final(self)@ == old(self)@.insert(
                    address@,
                    env2(TAG_SCRATCHPAD_PUBLIC, name@, content@),
                )
            },
            base64_decoded(content@) is None ==> {
                &&& r matches Err(e) && e == StoreError::InvalidEncoding
                &&& final(self)@ == old(self)@
            },
    {
        let _resolved = resolve_backend(intent, false);
        if b64_decode(content).is_none() {
            return Err(StoreError::InvalidEncoding);
        }
        let env = make_env2(TAG_SCRATCHPAD_PUBLIC, name, content);
        self.store.put(address.clone(), env);
        Ok(())
    }

    /// Reads a public scratchpad's content.
    pub fn get_public_scratchpad(&self, intent: StoreType, address: &String) -> (r: Result<
        String,
        StoreError,
    >)
        ensures
            match r {
                Ok(content) => self@.contains_key(address@) && scratchpad_content_of(
                    self@[address@],
                    TAG_SCRATCHPAD_PUBLIC,
                ) == Some(content@),
                Err(e) => if !self@.contains_key(address@) {
                    e == StoreError::NotFound
                } else {
                    e == StoreError::Internal && scratchpad_content_of(
                        self@[address@],
                        TAG_SCRATCHPAD_PUBLIC,
                    ) is None
                },
            },
    {
        let _resolved = resolve_backend(intent, false);
        match self.store.get(address) {
            Some(v) => match parse_env2(v) {
                Some((tag, _name, content)) => if tag == TAG_SCRATCHPAD_PUBLIC {
                    Ok(content)
                } else {
                    Err(StoreError::Internal)
                },
                None => Err(StoreError::Internal),
            },
            None => Err(StoreError::NotFound),
        }
    }

    /// Creates a private scratchpad: the value lives under its address plus
    /// the caller's name, so each name is an isolated namespace. Content
    /// that is not valid base64 is rejected before any mutation.
    pub fn create_private_scratchpad(&mut self, intent: StoreType, name: &str, content: &str) -> (
        r: Result<String, StoreError>)
        ensures
            base64_decoded(content@) is Some ==> {
                &&& r matches Ok(addr) && addr@ == private_scratchpad_address(name@, content@)
                &&& final(self)@ == old(self)@.insert(
                    private_scratchpad_key(
                        private_scratchpad_address(name@, content@),
                        name@,
                    ),
                    env2(TAG_SCRATCHPAD_PRIVATE, name@, content@),
                )
            },
            base64_decoded(content@) is None ==> {
                &&& r matches Err(e) && e == StoreError::InvalidEncoding
                &&& final(self)@ == old(self)@
            },
    {
        let _resolved = resolve_backend(intent, false);
        if b64_decode(content).is_none() {
            return Err(StoreError::InvalidEncoding);
        }
        let env = make_env2(TAG_SCRATCHPAD_PRIVATE, name, content);
        let addr = address_for(env.as_slice());
        let key = private_key_for(addr.as_str(), name);
        self.store.put(key, env);
        Ok(addr)
    }

    /// Overwrites a private scratchpad in its own (address, name) namespace;
    /// content that is not valid base64 is rejected before any mutation.
    pub fn update_private_scratchpad(
        &mut self,
        intent: StoreType,
        address: &String,
        name: &str,
        content: &str,
    ) -> (r: Result<(), StoreError>)
        ensures
            base64_decoded(content@) is Some ==> {
                &&& r is Ok
                &&& final(self)@ == old(self)@.insert(
                    private_scratchpad_key(address@, name@),
                    env2(TAG_SCRATCHPAD_PRIVATE, name@, content@),
                )
            },
            base64_decoded(content@) is None ==> {
                &&& r matches Err(e) && e == StoreError::InvalidEncoding
                &&& final(self)@ == old(self)@
            },
    {
        let _resolved = resolve_backend(intent, false);
        if b64_decode(content).is_none() {
            return Err(StoreError::InvalidEncoding);
        }
        let env = make_env2(TAG_SCRATCHPAD_PRIVATE, name, content);
        let key = private_key_for(address.as_str(), name);
        self.store.put(key, env);
        Ok(())
    }

    /// Reads a private scratchpad from its (address, name) namespace.
    pub fn get_private_scratchpad(&self, intent: StoreType, address: &String, name: &str) -> (r:
        Result<String, StoreError>)
        ensures
            match r {
                Ok(content) => self@.contains_key(private_scratchpad_key(address@, name@))
                    && scratchpad_content_of(
                    self@[private_scratchpad_key(address@, name@)],
                    TAG_SCRATCHPAD_PRIVATE,
                ) == Some(content@),
                Err(e) => if !self@.contains_key(private_scratchpad_key(address@, name@)) {
                    e == StoreError::NotFound
                } else {
                    e == StoreError::Internal && scratchpad_content_of(
                        self@[private_scratchpad_key(address@, name@)],
                        TAG_SCRATCHPAD_PRIVATE,
                    ) is None
                },
            },
    {
        let _resolved = resolve_backend(intent, false);
        let key = private_key_for(address.as_str(), name);
        match self.store.get(&key) {
            Some(v) => match parse_env2(v) {
                Some((tag, _name, content)) => if tag == TAG_SCRATCHPAD_PRIVATE {
                    Ok(content)
                } else {
                    Err(StoreError::Internal)
                },
                None => Err(StoreError::Internal),
            },
            None => Err(StoreError::NotFound),
        }
    }

    // -----------------------------------------------------------------------
    // Graph entries: content-addressed (name, hex content) pairs
    // -----------------------------------------------------------------------

    /// Creates a graph entry; content that is not hex-decodable is rejected
    /// before any mutation (validate-then-commit).
    pub fn create_graph_entry(&mut self, intent: StoreType, name: &str, content: &str) -> (r:
        Result<String, StoreError>)
        ensures
            is_hex(content@) ==> {
                &&& r matches Ok(addr) && addr@ == graph_address(name@, content@)
                &&& final(self)@ == old(self)@.insert(
                    graph_address(name@, content@),
                    env2(TAG_GRAPH, name@, content@),
                )
            },
            !is_hex(content@) ==> {
                &&& r matches Err(e) && e == StoreError::InvalidEncoding
                &&& final(self)@ == old(self)@
            },
    {
        let _resolved = resolve_backend(intent, false);
        if !check_hex(content) {
            return Err(StoreError::InvalidEncoding);
        }
        let env = make_env2(TAG_GRAPH, name, content);
        let addr = address_for(env.as_slice());
        self.store.put(addr.clone(), env);
        Ok(addr)
    }

    /// Reads a graph entry's name and content.
    pub fn get_graph_entry(&self, intent: StoreType, address: &String) -> (r: Result<
        (String, String),
        StoreError,
    >)
        ensures
            match r {
                Ok(entry) => self@.contains_key(address@) && graph_entry_of(self@[address@])
                    == Some((entry.0@, entry.1@)),
                Err(e) => if !self@.contains_key(address@) {
                    e == StoreError::NotFound
                } else {
                    e == StoreError::Internal && graph_entry_of(self@[address@]) is None
                },
            },
    {
        let _resolved = resolve_backend(intent, false);
        match self.store.get(address) {
            Some(v) => match parse_env2(v) {
                Some((tag, name, content)) => if tag == TAG_GRAPH {
                    Ok((name, content))
                } else {
                    Err(StoreError::Internal)
                },
                None => Err(StoreError::Internal),
            },
            None => Err(StoreError::NotFound),
        }
    }

    // -----------------------------------------------------------------------
    // Name registry (PNR): replace and merge-append by name
    // -----------------------------------------------------------------------

    /// Creates a name-registry entry, overwriting the whole record map for
    /// the name, and yields the content address of the serialized records.
    pub fn store_pnr(&mut self, intent: StoreType, name: &str, records: PnrRecords) -> (r: String)
        ensures
            exists|items: Seq<PnrItemV>|
                {
                    &&& pnr_items_map(items) == records@
                    &&& pnr_items_wf(items)
                    &&& r@ == spec_address_of(env_pnr(name@, items))
                    &&& final(self)@ == old(self)@.insert(pnr_key(name@), env_pnr(name@, items))
                },
            encode_utf8(name@).len() <= u64::MAX,
    {
        let _resolved = resolve_backend(intent, false);
        let env = make_pnr(name, &records);
        let addr = address_for(env.as_slice());
        let key = pnr_key_for(name);
        self.store.put(key, env);
        proof {
            lemma_pnr_items_map_entries(records.entry_seq());
            assert(pnr_items_map(pnr_items_view(records.entry_seq())) == records@);
            assert(final(self)@ == old(self)@.insert(
                pnr_key(name@),
                env_pnr(name@, pnr_items_view(records.entry_seq())),
            ));
        }
        addr
    }

    /// Replaces a name's whole record map.
    pub fn update_pnr(&mut self, intent: StoreType, name: &str, records: PnrRecords)
        ensures
            exists|items: Seq<PnrItemV>|
                {
                    &&& pnr_items_map(items) == records@
                    &&& pnr_items_wf(items)
                    &&& final(self)@ == old(self)@.insert(pnr_key(name@), env_pnr(name@, items))
                },
            encode_utf8(name@).len() <= u64::MAX,
    {
        let _resolved = resolve_backend(intent, false);
        let env = make_pnr(name, &records);
        let key = pnr_key_for(name);
        self.store.put(key, env);
        proof {
            lemma_pnr_items_map_entries(records.entry_seq());
            assert(pnr_items_map(pnr_items_view(records.entry_seq())) == records@);
            assert(final(self)@ == old(self)@.insert(
                pnr_key(name@),
                env_pnr(name@, pnr_items_view(records.entry_seq())),
            ));
        }
    }

    /// Reads a name's record map.
    pub fn get_pnr(&self, intent: StoreType, name: &str) -> (r: Result<PnrRecords, StoreError>)
        ensures
            match r {
                Ok(recs) => self@.contains_key(pnr_key(name@)) && match dec_pnr(
                    self@[pnr_key(name@)],
                ) {
                    Some((stored_name, items)) => recs@ == pnr_items_map(items),
                    None => false,
                },
                Err(e) => if !self@.contains_key(pnr_key(name@)) {
                    e == StoreError::NotFound
                } else {
                    e == StoreError::Internal && dec_pnr(self@[pnr_key(name@)]) is None
                },
            },
    {
        let _resolved = resolve_backend(intent, false);
        let key = pnr_key_for(name);
        match self.store.get(&key) {
            Some(v) => match parse_pnr(v) {
                Some((_stored_name, items)) => {
                    proof {
                        lemma_pnr_items_map_entries(items@);
                    }
                    Ok(AssocMap::from_entries(items))
                },
                None => Err(StoreError::Internal),
            },
            None => Err(StoreError::NotFound),
        }
    }

    /// Merge-appends records into a name's record map: the existing map is
    /// read, the new records are laid over it — a new value wins on key
    /// collision, every other existing key survives untouched — and the
    /// merged map is written back. An existing entry that fails to decode
    /// is rejected before any mutation.
    pub fn append_pnr(&mut self, intent: StoreType, name: &str, new_records: PnrRecords) -> (r:
        Result<(), StoreError>)
        ensures
            pnr_records_of(old(self)@, name@) is Some ==> {
                &&& r is Ok
                &&& exists|items: Seq<PnrItemV>|
                    {
                        &&& pnr_items_map(items) == pnr_records_of(
                            old(self)@,
                            name@,
                        ).unwrap().union_prefer_right(new_records@)
                        &&& pnr_items_wf(items)
                        &&& final(self)@ == old(self)@.insert(
                            pnr_key(name@),
                            env_pnr(name@, items),
                        )
                    }
            },
            pnr_records_of(old(self)@, name@) is Some ==> encode_utf8(name@).len() <= u64::MAX,
            pnr_records_of(old(self)@, name@) is None ==> {
                &&& r matches Err(e) && e == StoreError::Internal
                &&& final(self)@ == old(self)@
            },
    {
        let _resolved = resolve_backend(intent, false);
        let key = pnr_key_for(name);
        let mut merged: PnrRecords = match self.store.get(&key) {
            Some(v) => match parse_pnr(v) {
                Some((_stored_name, items)) => {
                    proof {
                        lemma_pnr_items_map_entries(items@);
                    }
                    AssocMap::from_entries(items)
                },
                None => {
                    return Err(StoreError::Internal);
                },
            },
            None => AssocMap::new(),
        };
        proof {
            assert(pnr_records_of(old(self)@, name@) == Some(merged@));
        }
        let ghost prev_map = merged@;
        merged.merge_from(new_records);
        let env = make_pnr(name, &merged);
        self.store.put(key, env);
        proof {
            lemma_pnr_items_map_entries(merged.entry_seq());
            assert(pnr_items_map(pnr_items_view(merged.entry_seq())) == pnr_records_of(
                old(self)@,
                name@,
            ).unwrap().union_prefer_right(new_records@));
            assert(final(self)@ == old(self)@.insert(
                pnr_key(name@),
                env_pnr(name@, pnr_items_view(merged.entry_seq())),
            ));
        }
        Ok(())
    }

    // -----------------------------------------------------------------------
    // Key-value objects: bucket/object compound keys
    // -----------------------------------------------------------------------

    /// Creates a key-value entry under its bucket/object compound key and
    /// yields the content address of the serialized entry. Content that is
    /// not valid base64 is rejected before any mutation.
    pub fn create_key_value(
        &mut self,
        intent: StoreType,
        bucket: &str,
        object: &str,
        content: &str,
    ) -> (r: Result<String, StoreError>)
        ensures
            base64_decoded(content@) is Some ==> {
                &&& r matches Ok(addr) && addr@ == kv_address(bucket@, object@, content@)
                &&& final(self)@ == old(self)@.insert(
                    kv_key(bucket@, object@),
                    env3(TAG_KEY_VALUE, bucket@, object@, content@),
                )
            },
            base64_decoded(content@) is None ==> {
                &&& r matches Err(e) && e == StoreError::InvalidEncoding
                &&& final(self)@ == old(self)@
            },
    {
        let _resolved = resolve_backend(intent, false);
        if b64_decode(content).is_none() {
            return Err(StoreError::InvalidEncoding);
        }
        let env = make_env3(TAG_KEY_VALUE, bucket, object, content);
        let addr = address_for(env.as_slice());
        let key = kv_key_for(bucket, object);
        self.store.put(key, env);
        Ok(addr)
    }

    /// Reads a key-value entry's content.
    pub fn get_key_value(&self, intent: StoreType, bucket: &str, object: &str) -> (r: Result<
        String,
        StoreError,
    >)
        ensures
            match r {
                Ok(content) => self@.contains_key(kv_key(bucket@, object@)) && kv_content_of(
                    self@[kv_key(bucket@, object@)],
                ) == Some(content@),
                Err(e) => if !self@.contains_key(kv_key(bucket@, object@)) {
                    e == StoreError::NotFound
                } else {
                    e == StoreError::Internal && kv_content_of(
                        self@[kv_key(bucket@, object@)],
                    ) is None
                },
            },
    {
        let _resolved = resolve_backend(intent, false);
        let key = kv_key_for(bucket, object);
        match self.store.get(&key) {
            Some(v) => match parse_env3(v) {
                Some((tag, _bucket, _object, content)) => if tag == TAG_KEY_VALUE {
                    Ok(content)
                } else {
                    Err(StoreError::Internal)
                },
                None => Err(StoreError::Internal),
            },
            None => Err(StoreError::NotFound),
        }
    }

    // -----------------------------------------------------------------------
    // Archives: path/content bundles addressed as one serialized unit
    // -----------------------------------------------------------------------

    /// Stores an archive as one serialized unit and yields its content
    /// address.
    pub fn store_archive(&mut self, intent: StoreType, files: Vec<ArchiveFile>) -> (r: String)
        ensures
            r@ == archive_address(files_view(files@)),
            final(self)@ == old(self)@.insert(
                archive_address(files_view(files@)),
                env_files(TAG_ARCHIVE, files_view(files@)),
            ),
    {
        let _resolved = resolve_backend(intent, false);
        let env = make_files(TAG_ARCHIVE, &files);
        let addr = address_for(env.as_slice());
        self.store.put(addr.clone(), env);
        addr
    }

    /// Stores a tar-style archive as one serialized unit and yields its
    /// content address.
    pub fn store_tarchive(&mut self, intent: StoreType, files: Vec<ArchiveFile>) -> (r: String)
        ensures
            r@ == tarchive_address(files_view(files@)),
            final(self)@ == old(self)@.insert(
                tarchive_address(files_view(files@)),
                env_files(TAG_TARCHIVE, files_view(files@)),
            ),
    {
        let _resolved = resolve_backend(intent, false);
        let env = make_files(TAG_TARCHIVE, &files);
        let addr = address_for(env.as_slice());
        self.store.put(addr.clone(), env);
        addr
    }

    /// Retrieves an archive's complete file list.
    pub fn get_archive(&self, intent: StoreType, address: &String) -> (r: Result<
        Vec<ArchiveFile>,
        StoreError,
    >)
        ensures
            match r {
                Ok(fs) => self@.contains_key(address@) && dec_files(TAG_ARCHIVE, self@[address@])
                    == Some(files_view(fs@)),
                Err(e) => if !self@.contains_key(address@) {
                    e == StoreError::NotFound
                } else {
                    e == StoreError::Internal && dec_files(TAG_ARCHIVE, self@[address@]) is None
                },
            },
    {
        let _resolved = resolve_backend(intent, false);
        match self.store.get(address) {
            Some(v) => match parse_files(TAG_ARCHIVE, v) {
                Some(fs) => Ok(fs),
                None => Err(StoreError::Internal),
            },
            None => Err(StoreError::NotFound),
        }
    }

    /// Retrieves one file of an archive by its path: the first file with
    /// that path, in archive order.
    pub fn get_archive_file(&self, intent: StoreType, address: &String, path: &String) -> (r:
        Result<Vec<u8>, StoreError>)
        ensures
            match r {
                Ok(content) => self@.contains_key(address@) && match dec_files(
                    TAG_ARCHIVE,
                    self@[address@],
                ) {
                    Some(items) => find_file(items, path@) == Some(content@),
                    None => false,
                },
                Err(e) => if !self@.contains_key(address@) {
                    e == StoreError::NotFound
                } else {
                    match dec_files(TAG_ARCHIVE, self@[address@]) {
                        Some(items) => e == StoreError::NotFound && find_file(
                            items,
                            path@,
                        ) is None,
                        None => e == StoreError::Internal,
                    }
                },
            },
    {
        let mut files = match self.get_archive(intent, address) {
            Ok(fs) => fs,
            Err(e) => {
                return Err(e);
            },
        };
        let n = files.len();
        let mut i: usize = 0;
        while i < n
            invariant
                0 <= i <= n,
                n == files@.len(),
                self@.contains_key(address@),
                dec_files(TAG_ARCHIVE, self@[address@]) == Some(files_view(files@)),
                forall|j: int| 0 <= j < i ==> (#[trigger] files@[j]).path@ != path@,
            decreases n - i,
        {
            if files[i].path == *path {
                proof {
                    let items = files_view(files@);
                    assert(forall|j: int|
                        0 <= j < i ==> (#[trigger] items[j]).0 != path@);
                    lemma_find_file_at(items, i as int, path@);
                }
                let f = files.swap_remove(i);
                return Ok(f.content);
            }
            i = i + 1;
        }
        proof {
            let items = files_view(files@);
            assert(forall|j: int| 0 <= j < items.len() ==> (#[trigger] items[j]).0 != path@);
            lemma_find_file_absent(items, path@);
        }
        Err(StoreError::NotFound)
    }
}

} // verus!
