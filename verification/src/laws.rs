//! Laws of the storage engine, stated over the same map views and spec
//! functions that the engine's contracts use, and proved from them.

use vstd::prelude::*;

use crate::codec::{
    env2, env_hist, env_pnr, lemma_env2_round_trip, lemma_env_hist_round_trip,
    lemma_env_pnr_round_trip, pnr_items_map, pnr_items_wf, PnrItemV, TAG_REGISTER,
};
use crate::engine::{
    chunk_key, history_key, kv_key, pnr_key, pnr_records_of, private_scratchpad_key,
    register_content_of, register_history_of,
};
use crate::hexstr::{lemma_u64_dec_digits, lemma_u64_dec_injective, u64_dec};

verus! {

use vstd::utf8::encode_utf8;

/// Law: addressing is idempotent. Storing a byte sequence yields its content
/// address, a second store of the same bytes yields the same address — the
/// key is one function of the bytes — and is a no-op: the store map is
/// unchanged, and since the key is already present, so is the entry count
/// (see `StorageEngine::store_chunk`).
pub proof fn lemma_chunk_idempotent(m: Map<Seq<char>, Seq<u8>>, data: Seq<u8>)
    ensures
        ({
            let m1 = m.insert(chunk_key(data), data);
            &&& m1.contains_key(chunk_key(data))
            &&& m1.insert(chunk_key(data), data) == m1
        }),
{
    let m1 = m.insert(chunk_key(data), data);
    assert(m1.insert(chunk_key(data), data) =~= m1);
}

/// Law: a register update is atomic. After one update writes the current
/// value and the extended history — a single transition of the store map —
/// reading the register yields exactly the new content, and the history
/// reads back with the new entry as its last element: no state exists in
/// which the current value is missing from the history.
pub proof fn lemma_register_update_atomic(
    m: Map<Seq<char>, Seq<u8>>,
    address: Seq<char>,
    name: Seq<char>,
    content: Seq<char>,
    t: i64,
    prev: Seq<(Seq<char>, i64)>,
)
    requires
        prev.len() + 1 <= u64::MAX,
        forall|i: int|
            0 <= i < prev.len() ==> encode_utf8((#[trigger] prev[i]).0).len() <= u64::MAX,
        encode_utf8(name).len() <= u64::MAX,
        encode_utf8(content).len() <= u64::MAX,
    ensures
        ({
            let hist = prev.push((content, t));
            let m2 = m.insert(address, env2(TAG_REGISTER, name, content)).insert(
                history_key(address),
                env_hist(hist),
            );
            &&& m2.contains_key(address)
            &&& register_content_of(m2[address]) == Some(content)
            &&& register_history_of(m2, address) == Some(hist)
            &&& hist.len() > 0
            &&& hist.last() == (content, t)
            &&& hist.last().0 == content
        }),
{
    let hist = prev.push((content, t));
    let m2 = m.insert(address, env2(TAG_REGISTER, name, content)).insert(
        history_key(address),
        env_hist(hist),
    );
    reveal_strlit("_history");
    assert(history_key(address).len() == address.len() + 8);
    assert(history_key(address) != address);
    assert(m2[address] == env2(TAG_REGISTER, name, content));
    lemma_env2_round_trip(TAG_REGISTER, name, content);
    assert(forall|i: int|
        0 <= i < hist.len() ==> encode_utf8((#[trigger] hist[i]).0).len() <= u64::MAX);
    lemma_env_hist_round_trip(hist);
}

/// A name-registry entry written to the store reads back as exactly the
/// record map that was written: the serialized envelope round-trips.
pub proof fn lemma_pnr_reads_back(
    m: Map<Seq<char>, Seq<u8>>,
    name: Seq<char>,
    items: Seq<PnrItemV>,
)
    requires
        pnr_items_wf(items),
        encode_utf8(name).len() <= u64::MAX,
    ensures
        pnr_records_of(m.insert(pnr_key(name), env_pnr(name, items)), name) == Some(
            pnr_items_map(items),
        ),
{
    lemma_env_pnr_round_trip(name, items);
}

/// Law: merge-append is a key-wise union in which new values win. Appending
/// `{a: x}` and then `{b: y}` to a record map leaves `a` at `x` and `b` at
/// `y`; a further append of `{a: z}` moves `a` to `z` while `b` keeps `y`;
/// and every other existing key survives all three appends untouched (see
/// `StorageEngine::append_pnr`, whose transition is exactly this union).
pub proof fn lemma_pnr_merge_law(
    r: Map<Seq<char>, (Seq<char>, Seq<char>, u32)>,
    a: Seq<char>,
    x: (Seq<char>, Seq<char>, u32),
    b: Seq<char>,
    y: (Seq<char>, Seq<char>, u32),
    z: (Seq<char>, Seq<char>, u32),
)
    requires
        a != b,
    ensures
        ({
            let r1 = r.union_prefer_right(Map::empty().insert(a, x));
            let r2 = r1.union_prefer_right(Map::empty().insert(b, y));
            let r3 = r2.union_prefer_right(Map::empty().insert(a, z));
            &&& r2.contains_key(a) && r2[a] == x
            &&& r2.contains_key(b) && r2[b] == y
            &&& r3.contains_key(a) && r3[a] == z
            &&& r3.contains_key(b) && r3[b] == y
            &&& forall|k: Seq<char>|
                r.contains_key(k) && k != a && k != b ==> r3.contains_key(k) && r3[k] == r[k]
        }),
{
}

/// Law: private scratchpads are isolated by name. Two different names under
/// one address have different store keys, so writing one namespace never
/// changes whether the other is present, nor what it holds.
pub proof fn lemma_private_scratchpad_isolation(
    m: Map<Seq<char>, Seq<u8>>,
    address: Seq<char>,
    n1: Seq<char>,
    n2: Seq<char>,
    v: Seq<u8>,
)
    requires
        n1 != n2,
    ensures
        private_scratchpad_key(address, n1) != private_scratchpad_key(address, n2),
        ({
            let k2 = private_scratchpad_key(address, n2);
            let m2 = m.insert(private_scratchpad_key(address, n1), v);
            &&& m2.contains_key(k2) == m.contains_key(k2)
            &&& m.contains_key(k2) ==> m2[k2] == m[k2]
        }),
{
    let k1 = private_scratchpad_key(address, n1);
    let k2 = private_scratchpad_key(address, n2);
    if k1 == k2 {
        let sep: int = ":"@.len() as int;
        assert(k1.len() == address.len() + sep + n1.len());
        assert(k2.len() == address.len() + sep + n2.len());
        assert(n1.len() == n2.len());
        assert forall|i: int| 0 <= i < n1.len() implies n1[i] == n2[i] by {
            assert(k1[address.len() + sep + i] == n1[i]);
            assert(k2[address.len() + sep + i] == n2[i]);
        }
        assert(n1 =~= n2);
    }
}


proof fn lemma_kv_key_injective(b1: Seq<char>, o1: Seq<char>, b2: Seq<char>, o2: Seq<char>)
    requires
        kv_key(b1, o1) == kv_key(b2, o2),
        b1.len() <= u64::MAX,
        b2.len() <= u64::MAX,
    ensures
        b1 == b2,
        o1 == o2,
{
    reveal_strlit("kv:");
    let p = "kv:"@;
    assert(p.len() == 3);
    let k1 = kv_key(b1, o1);
    let k2 = kv_key(b2, o2);
    let d1 = u64_dec(b1.len() as u64);
    let d2 = u64_dec(b2.len() as u64);
    lemma_u64_dec_digits(b1.len() as u64);
    lemma_u64_dec_digits(b2.len() as u64);
    let l1 = d1.len() as int;
    let l2 = d2.len() as int;
    if l1 < l2 {
        assert(k1[3 + l1] == ':');
        assert(k2[3 + l1] == d2[l1]);
        assert('0' <= d2[l1] <= '9');
        assert(false);
    }
    if l2 < l1 {
        assert(k2[3 + l2] == ':');
        assert(k1[3 + l2] == d1[l2]);
        assert('0' <= d1[l2] <= '9');
        assert(false);
    }
    assert forall|i: int| 0 <= i < l1 implies d1[i] == d2[i] by {
        assert(k1[3 + i] == d1[i]);
        assert(k2[3 + i] == d2[i]);
    }
    assert(d1 =~= d2);
    lemma_u64_dec_injective(b1.len() as u64, b2.len() as u64);
    assert(b1.len() == b2.len());
    assert forall|i: int| 0 <= i < b1.len() implies b1[i] == b2[i] by {
        assert(k1[3 + l1 + 1 + i] == b1[i]);
        assert(k2[3 + l1 + 1 + i] == b2[i]);
    }
    assert(b1 =~= b2);
    assert(k1.len() == 3 + l1 + 1 + b1.len() + o1.len());
    assert(k2.len() == 3 + l2 + 1 + b2.len() + o2.len());
    assert(o1.len() == o2.len());
    assert forall|i: int| 0 <= i < o1.len() implies o1[i] == o2[i] by {
        assert(k1[3 + l1 + 1 + b1.len() as int + i] == o1[i]);
        assert(k2[3 + l1 + 1 + b1.len() as int + i] == o2[i]);
    }
    assert(o1 =~= o2);
}

/// Law: key-value pairs are isolated. Two distinct (bucket, object) pairs
/// have distinct store keys — the bucket-length prefix inside the key keeps
/// a separator inside a name from gluing two different pairs together — so
/// writing one pair never changes whether the other is present, nor what it
/// holds.
pub proof fn lemma_key_value_isolation(
    m: Map<Seq<char>, Seq<u8>>,
    b1: Seq<char>,
    o1: Seq<char>,
    b2: Seq<char>,
    o2: Seq<char>,
    v: Seq<u8>,
)
    requires
        !(b1 == b2 && o1 == o2),
        b1.len() <= u64::MAX,
        b2.len() <= u64::MAX,
    ensures
        kv_key(b1, o1) != kv_key(b2, o2),
        ({
            let k2 = kv_key(b2, o2);
            let m2 = m.insert(kv_key(b1, o1), v);
            &&& m2.contains_key(k2) == m.contains_key(k2)
            &&& m.contains_key(k2) ==> m2[k2] == m[k2]
        }),
{
    if kv_key(b1, o1) == kv_key(b2, o2) {
        lemma_kv_key_injective(b1, o1, b2, o2);
        assert(false);
    }
}

} // verus!
