//! Byte envelopes for the stored primitives.
//!
//! Every mutable primitive is kept in the shared byte store as a tagged
//! envelope: a one-byte tag, then length-prefixed fields. Encoding and
//! decoding are verified against each other: decoding an encoded envelope
//! always yields the fields that went in.

use vstd::prelude::*;

verus! {

use vstd::bytes::{
    lemma_auto_spec_u32_to_from_le_bytes,
    lemma_auto_spec_u64_to_from_le_bytes,
    spec_u32_from_le_bytes,
    spec_u32_to_le_bytes,
    spec_u64_from_le_bytes,
    spec_u64_to_le_bytes,
    u32_from_le_bytes,
    u32_to_le_bytes,
    u64_from_le_bytes,
    u64_to_le_bytes,
};

use crate::assoc::entries_map;
use crate::models::{ArchiveFile, PnrRecord, PnrRecords, RegisterHistoryEntry};
use vstd::slice::{slice_subrange, slice_to_vec};
use vstd::utf8::{decode_utf8, encode_utf8, encode_utf8_decode_utf8, encode_utf8_valid_utf8,
    valid_utf8};

/// Envelope tag for a register's current value.
pub const TAG_REGISTER: u8 = 1;

/// Envelope tag for a register's history.
pub const TAG_HISTORY: u8 = 2;

/// Envelope tag for a pointer.
pub const TAG_POINTER: u8 = 3;

/// Envelope tag for a public scratchpad.
pub const TAG_SCRATCHPAD_PUBLIC: u8 = 4;

/// Envelope tag for a private scratchpad.
pub const TAG_SCRATCHPAD_PRIVATE: u8 = 5;

/// Envelope tag for a graph entry.
pub const TAG_GRAPH: u8 = 6;

/// Envelope tag for a name-registry record map.
pub const TAG_PNR: u8 = 7;

/// Envelope tag for a bucket/object key-value entry.
pub const TAG_KEY_VALUE: u8 = 8;

/// Envelope tag for a file archive.
pub const TAG_ARCHIVE: u8 = 9;

/// Envelope tag for a tar-style file archive.
pub const TAG_TARCHIVE: u8 = 10;

// ---------------------------------------------------------------------------
// Field encodings
// ---------------------------------------------------------------------------

/// A 64-bit little-endian field.
pub open spec fn enc_u64(x: u64) -> Seq<u8> {
    spec_u64_to_le_bytes(x)
}

/// A signed timestamp field, carried in the two's-complement image of the
/// value.
pub open spec fn enc_i64(x: i64) -> Seq<u8> {
    spec_u64_to_le_bytes(x as u64)
}

/// A length-prefixed byte field.
pub open spec fn enc_bytes(b: Seq<u8>) -> Seq<u8> {
    enc_u64(b.len() as u64) + b
}

/// A length-prefixed string field, carried as UTF-8.
pub open spec fn enc_str(s: Seq<char>) -> Seq<u8> {
    enc_bytes(encode_utf8(s))
}

/// Reads a 64-bit little-endian field at `pos`.
pub open spec fn dec_u64(data: Seq<u8>, pos: int) -> Option<(u64, int)> {
    if 0 <= pos && pos + 8 <= data.len() {
        Some((spec_u64_from_le_bytes(data.subrange(pos, pos + 8)), pos + 8))
    } else {
        None
    }
}

/// Reads a signed timestamp field at `pos`.
pub open spec fn dec_i64(data: Seq<u8>, pos: int) -> Option<(i64, int)> {
    match dec_u64(data, pos) {
        Some((x, p)) => Some((x as i64, p)),
        None => None,
    }
}

/// Reads a length-prefixed byte field at `pos`.
pub open spec fn dec_bytes(data: Seq<u8>, pos: int) -> Option<(Seq<u8>, int)> {
    match dec_u64(data, pos) {
        Some((n, p)) => if p + n <= data.len() {
            Some((data.subrange(p, p + n), p + n))
        } else {
            None
        },
        None => None,
    }
}

/// Reads a length-prefixed string field at `pos`.
pub open spec fn dec_str(data: Seq<u8>, pos: int) -> Option<(Seq<char>, int)> {
    match dec_bytes(data, pos) {
        Some((b, p)) => if valid_utf8(b) {
            Some((decode_utf8(b), p))
        } else {
            None
        },
        None => None,
    }
}

// ---------------------------------------------------------------------------
// Field round trips
// ---------------------------------------------------------------------------

proof fn lemma_cast_i64_round(x: i64)
    ensures
        (x as u64) as i64 == x,
{
    assert((x as u64) as i64 == x) by (bit_vector);
}

proof fn lemma_dec_u64(prefix: Seq<u8>, x: u64, suffix: Seq<u8>)
    ensures
        dec_u64(prefix + enc_u64(x) + suffix, prefix.len() as int) == Some((
            x,
            prefix.len() as int + 8,
        )),
{
    lemma_auto_spec_u64_to_from_le_bytes();
    let data = prefix + enc_u64(x) + suffix;
    assert(data.subrange(prefix.len() as int, prefix.len() as int + 8) =~= spec_u64_to_le_bytes(
        x,
    ));
}

proof fn lemma_dec_i64(prefix: Seq<u8>, x: i64, suffix: Seq<u8>)
    ensures
        dec_i64(prefix + enc_i64(x) + suffix, prefix.len() as int) == Some((
            x,
            prefix.len() as int + 8,
        )),
{
    lemma_dec_u64(prefix, x as u64, suffix);
    lemma_cast_i64_round(x);
}

proof fn lemma_dec_bytes(prefix: Seq<u8>, b: Seq<u8>, suffix: Seq<u8>)
    requires
        b.len() <= u64::MAX,
    ensures
        dec_bytes(prefix + enc_bytes(b) + suffix, prefix.len() as int) == Some((
            b,
            prefix.len() as int + 8 + b.len() as int,
        )),
{
    lemma_auto_spec_u64_to_from_le_bytes();
    let data = prefix + enc_bytes(b) + suffix;
    assert(data =~= prefix + enc_u64(b.len() as u64) + (b + suffix));
    lemma_dec_u64(prefix, b.len() as u64, b + suffix);
    assert(data.subrange(prefix.len() as int + 8, prefix.len() as int + 8 + b.len() as int)
        =~= b);
}

proof fn lemma_dec_str(prefix: Seq<u8>, s: Seq<char>, suffix: Seq<u8>)
    requires
        encode_utf8(s).len() <= u64::MAX,
    ensures
        dec_str(prefix + enc_str(s) + suffix, prefix.len() as int) == Some((
            s,
            prefix.len() as int + 8 + encode_utf8(s).len() as int,
        )),
{
    lemma_dec_bytes(prefix, encode_utf8(s), suffix);
    encode_utf8_valid_utf8(s);
    encode_utf8_decode_utf8(s);
}

// ---------------------------------------------------------------------------
// Executable field readers and writers
// ---------------------------------------------------------------------------

/// Relies on String::from_utf8: yields the unique string whose UTF-8
/// encoding is the input, or `None` when the input is not valid UTF-8.
#[verifier::external_body]
fn bytes_to_string(v: Vec<u8>) -> (r: Option<String>)
    ensures
        match r {
            Some(s) => encode_utf8(s@) == v@,
            None => !valid_utf8(v@),
        },
{
    String::from_utf8(v).ok()
}

fn write_u64(out: &mut Vec<u8>, x: u64)
    ensures
        final(out)@ == old(out)@ + enc_u64(x),
{
    let mut b = u64_to_le_bytes(x);
    out.append(&mut b);
}

#[verifier::truncate]
fn write_i64(out: &mut Vec<u8>, x: i64)
    ensures
        final(out)@ == old(out)@ + enc_i64(x),
{
    write_u64(out, x as u64);
}

fn write_bytes(out: &mut Vec<u8>, b: &[u8])
    ensures
        final(out)@ == old(out)@ + enc_bytes(b@),
        b@.len() <= u64::MAX,
{
    write_u64(out, b.len() as u64);
    out.extend_from_slice(b);
    assert(final(out)@ =~= old(out)@ + enc_bytes(b@));
}

fn write_str(out: &mut Vec<u8>, s: &str)
    ensures
        final(out)@ == old(out)@ + enc_str(s@),
        encode_utf8(s@).len() <= u64::MAX,
{
    write_bytes(out, s.as_bytes());
}

fn read_u64(data: &Vec<u8>, pos: usize) -> (r: Option<(u64, usize)>)
    ensures
        match r {
            Some((x, p)) => dec_u64(data@, pos as int) == Some((x, p as int)),
            None => dec_u64(data@, pos as int) is None,
        },
{
    if data.len() >= 8 && pos <= data.len() - 8 {
        let s = slice_subrange(data.as_slice(), pos, pos + 8);
        let x = u64_from_le_bytes(s);
        Some((x, pos + 8))
    } else {
        None
    }
}

#[verifier::truncate]
fn read_i64(data: &Vec<u8>, pos: usize) -> (r: Option<(i64, usize)>)
    ensures
        match r {
            Some((x, p)) => dec_i64(data@, pos as int) == Some((x, p as int)),
            None => dec_i64(data@, pos as int) is None,
        },
{
    match read_u64(data, pos) {
        Some((x, p)) => Some((x as i64, p)),
        None => None,
    }
}

fn read_bytes(data: &Vec<u8>, pos: usize) -> (r: Option<(Vec<u8>, usize)>)
    ensures
        match r {
            Some((v, p)) => dec_bytes(data@, pos as int) == Some((v@, p as int)),
            None => dec_bytes(data@, pos as int) is None,
        },
{
    match read_u64(data, pos) {
        Some((n, p)) => {
            if n <= (data.len() - p) as u64 {
                let end = p + (n as usize);
                let s = slice_subrange(data.as_slice(), p, end);
                Some((slice_to_vec(s), end))
            } else {
                None
            }
        },
        None => None,
    }
}

fn read_string(data: &Vec<u8>, pos: usize) -> (r: Option<(String, usize)>)
    ensures
        match r {
            Some((s, p)) => dec_str(data@, pos as int) == Some((s@, p as int)),
            None => dec_str(data@, pos as int) is None,
        },
{
    match read_bytes(data, pos) {
        Some((b, p)) => {
            let ghost bv = b@;
            match bytes_to_string(b) {
                Some(s) => {
                    proof {
                        encode_utf8_valid_utf8(s@);
                        encode_utf8_decode_utf8(s@);
                    }
                    Some((s, p))
                },
                None => None,
            }
        },
        None => None,
    }
}

// ---------------------------------------------------------------------------
// Tagged two- and three-string envelopes
// ---------------------------------------------------------------------------

/// A tagged envelope of two string fields (registers, pointers, scratchpads
/// and graph entries store a name and a content/target field).
pub open spec fn env2(tag: u8, a: Seq<char>, b: Seq<char>) -> Seq<u8> {
    seq![tag] + enc_str(a) + enc_str(b)
}

/// Decodes a tagged two-string envelope; the whole input must be consumed.
pub open spec fn dec_env2(data: Seq<u8>) -> Option<(u8, Seq<char>, Seq<char>)> {
    if data.len() < 1 {
        None
    } else {
        match dec_str(data, 1) {
            Some((a, p)) => match dec_str(data, p) {
                Some((b, p2)) => if p2 == data.len() {
                    Some((data[0], a, b))
                } else {
                    None
                },
                None => None,
            },
            None => None,
        }
    }
}

/// Decoding a two-string envelope yields exactly the fields that were
/// encoded.
pub proof fn lemma_env2_round_trip(tag: u8, a: Seq<char>, b: Seq<char>)
    requires
        encode_utf8(a).len() <= u64::MAX,
        encode_utf8(b).len() <= u64::MAX,
    ensures
        dec_env2(env2(tag, a, b)) == Some((tag, a, b)),
{
    lemma_auto_spec_u64_to_from_le_bytes();
    let data = env2(tag, a, b);
    assert(data =~= seq![tag] + enc_str(a) + enc_str(b));
    lemma_dec_str(seq![tag], a, enc_str(b));
    assert(data =~= (seq![tag] + enc_str(a)) + enc_str(b) + Seq::<u8>::empty());
    lemma_dec_str(seq![tag] + enc_str(a), b, Seq::<u8>::empty());
}

/// Builds a tagged two-string envelope.
pub fn make_env2(tag: u8, a: &str, b: &str) -> (r: Vec<u8>)
    ensures
        r@ == env2(tag, a@, b@),
{
    let mut out: Vec<u8> = Vec::new();
    out.push(tag);
    assert(out@ =~= seq![tag]);
    write_str(&mut out, a);
    write_str(&mut out, b);
    assert(out@ =~= env2(tag, a@, b@));
    out
}

/// Takes a tagged two-string envelope apart.
pub fn parse_env2(data: &Vec<u8>) -> (r: Option<(u8, String, String)>)
    ensures
        match r {
            Some((tag, a, b)) => dec_env2(data@) == Some((tag, a@, b@)),
            None => dec_env2(data@) is None,
        },
{
    if data.len() < 1 {
        return None;
    }
    let tag = data[0];
    match read_string(data, 1) {
        Some((a, p)) => match read_string(data, p) {
            Some((b, p2)) => if p2 == data.len() {
                Some((tag, a, b))
            } else {
                None
            },
            None => None,
        },
        None => None,
    }
}

/// A tagged envelope of three string fields (a key-value entry stores
/// bucket, object and content).
pub open spec fn env3(tag: u8, a: Seq<char>, b: Seq<char>, c: Seq<char>) -> Seq<u8> {
    seq![tag] + enc_str(a) + enc_str(b) + enc_str(c)
}

/// Decodes a tagged three-string envelope; the whole input must be consumed.
pub open spec fn dec_env3(data: Seq<u8>) -> Option<(u8, Seq<char>, Seq<char>, Seq<char>)> {
    if data.len() < 1 {
        None
    } else {
        match dec_str(data, 1) {
            Some((a, p)) => match dec_str(data, p) {
                Some((b, p2)) => match dec_str(data, p2) {
                    Some((c, p3)) => if p3 == data.len() {
                        Some((data[0], a, b, c))
                    } else {
                        None
                    },
                    None => None,
                },
                None => None,
            },
            None => None,
        }
    }
}

/// Decoding a three-string envelope yields exactly the fields that were
/// encoded.
pub proof fn lemma_env3_round_trip(tag: u8, a: Seq<char>, b: Seq<char>, c: Seq<char>)
    requires
        encode_utf8(a).len() <= u64::MAX,
        encode_utf8(b).len() <= u64::MAX,
        encode_utf8(c).len() <= u64::MAX,
    ensures
        dec_env3(env3(tag, a, b, c)) == Some((tag, a, b, c)),
{
    lemma_auto_spec_u64_to_from_le_bytes();
    let data = env3(tag, a, b, c);
    assert(data =~= seq![tag] + enc_str(a) + (enc_str(b) + enc_str(c)));
    lemma_dec_str(seq![tag], a, enc_str(b) + enc_str(c));
    assert(data =~= (seq![tag] + enc_str(a)) + enc_str(b) + enc_str(c));
    lemma_dec_str(seq![tag] + enc_str(a), b, enc_str(c));
    assert(data =~= (seq![tag] + enc_str(a) + enc_str(b)) + enc_str(c) + Seq::<u8>::empty());
    lemma_dec_str(seq![tag] + enc_str(a) + enc_str(b), c, Seq::<u8>::empty());
}

/// Builds a tagged three-string envelope.
pub fn make_env3(tag: u8, a: &str, b: &str, c: &str) -> (r: Vec<u8>)
    ensures
        r@ == env3(tag, a@, b@, c@),
{
    let mut out: Vec<u8> = Vec::new();
    out.push(tag);
    assert(out@ =~= seq![tag]);
    write_str(&mut out, a);
    write_str(&mut out, b);
    write_str(&mut out, c);
    assert(out@ =~= env3(tag, a@, b@, c@));
    out
}

/// Takes a tagged three-string envelope apart.
pub fn parse_env3(data: &Vec<u8>) -> (r: Option<(u8, String, String, String)>)
    ensures
        match r {
            Some((tag, a, b, c)) => dec_env3(data@) == Some((tag, a@, b@, c@)),
            None => dec_env3(data@) is None,
        },
{
    if data.len() < 1 {
        return None;
    }
    let tag = data[0];
    match read_string(data, 1) {
        Some((a, p)) => match read_string(data, p) {
            Some((b, p2)) => match read_string(data, p2) {
                Some((c, p3)) => if p3 == data.len() {
                    Some((tag, a, b, c))
                } else {
                    None
                },
                None => None,
            },
            None => None,
        },
        None => None,
    }
}

// ---------------------------------------------------------------------------
// u32 fields (record time-to-live)
// ---------------------------------------------------------------------------

/// A 32-bit little-endian field.
pub open spec fn enc_u32(x: u32) -> Seq<u8> {
    spec_u32_to_le_bytes(x)
}

/// Reads a 32-bit little-endian field at `pos`.
pub open spec fn dec_u32(data: Seq<u8>, pos: int) -> Option<(u32, int)> {
    if 0 <= pos && pos + 4 <= data.len() {
        Some((spec_u32_from_le_bytes(data.subrange(pos, pos + 4)), pos + 4))
    } else {
        None
    }
}

proof fn lemma_dec_u32(prefix: Seq<u8>, x: u32, suffix: Seq<u8>)
    ensures
        dec_u32(prefix + enc_u32(x) + suffix, prefix.len() as int) == Some((
            x,
            prefix.len() as int + 4,
        )),
{
    lemma_auto_spec_u32_to_from_le_bytes();
    let data = prefix + enc_u32(x) + suffix;
    assert(data.subrange(prefix.len() as int, prefix.len() as int + 4) =~= spec_u32_to_le_bytes(
        x,
    ));
}

fn write_u32(out: &mut Vec<u8>, x: u32)
    ensures
        final(out)@ == old(out)@ + enc_u32(x),
{
    let mut b = u32_to_le_bytes(x);
    out.append(&mut b);
}

fn read_u32(data: &Vec<u8>, pos: usize) -> (r: Option<(u32, usize)>)
    ensures
        match r {
            Some((x, p)) => dec_u32(data@, pos as int) == Some((x, p as int)),
            None => dec_u32(data@, pos as int) is None,
        },
{
    if data.len() >= 4 && pos <= data.len() - 4 {
        let s = slice_subrange(data.as_slice(), pos, pos + 4);
        let x = u32_from_le_bytes(s);
        Some((x, pos + 4))
    } else {
        None
    }
}

// ---------------------------------------------------------------------------
// Register history envelope: a counted list of (content, timestamp) entries
// ---------------------------------------------------------------------------

/// The view of a history entry vector: content characters and timestamp of
/// each entry, in order.
pub open spec fn hist_view(s: Seq<RegisterHistoryEntry>) -> Seq<(Seq<char>, i64)> {
    s.map_values(|e: RegisterHistoryEntry| e@)
}

/// The encoded entry list of a history envelope.
pub open spec fn enc_hist_items(items: Seq<(Seq<char>, i64)>) -> Seq<u8>
    decreases items.len(),
{
    if items.len() == 0 {
        Seq::empty()
    } else {
        enc_str(items[0].0) + enc_i64(items[0].1) + enc_hist_items(items.drop_first())
    }
}

/// A register-history envelope: tag, entry count, then the entries.
pub open spec fn env_hist(items: Seq<(Seq<char>, i64)>) -> Seq<u8> {
    seq![TAG_HISTORY] + enc_u64(items.len() as u64) + enc_hist_items(items)
}

/// Reads `n` history entries at `pos`.
pub open spec fn dec_hist_items(data: Seq<u8>, pos: int, n: nat) -> Option<(
    Seq<(Seq<char>, i64)>,
    int,
)>
    decreases n,
{
    if n == 0 {
        Some((Seq::empty(), pos))
    } else {
        match dec_str(data, pos) {
            Some((c, p)) => match dec_i64(data, p) {
                Some((t, p2)) => match dec_hist_items(data, p2, (n - 1) as nat) {
                    Some((rest, p3)) => Some((seq![(c, t)] + rest, p3)),
                    None => None,
                },
                None => None,
            },
            None => None,
        }
    }
}

/// Decodes a register-history envelope; the whole input must be consumed.
pub open spec fn dec_hist(data: Seq<u8>) -> Option<Seq<(Seq<char>, i64)>> {
    if data.len() < 1 || data[0] != TAG_HISTORY {
        None
    } else {
        match dec_u64(data, 1) {
            Some((n, p)) => match dec_hist_items(data, p, n as nat) {
                Some((items, p2)) => if p2 == data.len() {
                    Some(items)
                } else {
                    None
                },
                None => None,
            },
            None => None,
        }
    }
}

/// Appending an entry extends the encoded list at the back.
pub proof fn lemma_enc_hist_items_push(items: Seq<(Seq<char>, i64)>, e: (Seq<char>, i64))
    ensures
        enc_hist_items(items.push(e)) == enc_hist_items(items) + enc_str(e.0) + enc_i64(e.1),
    decreases items.len(),
{
    let t = items.push(e);
    if items.len() == 0 {
        assert(t[0] == e);
        assert(t.drop_first() =~= Seq::<(Seq<char>, i64)>::empty());
        assert(enc_hist_items(Seq::<(Seq<char>, i64)>::empty()) == Seq::<u8>::empty());
        assert(enc_hist_items(t) == enc_str(e.0) + enc_i64(e.1) + Seq::<u8>::empty());
        assert(enc_hist_items(t) =~= enc_hist_items(items) + enc_str(e.0) + enc_i64(e.1));
    } else {
        lemma_enc_hist_items_push(items.drop_first(), e);
        assert(t[0] == items[0]);
        assert(t.drop_first() =~= items.drop_first().push(e));
        assert(enc_hist_items(t) == enc_str(items[0].0) + enc_i64(items[0].1) + enc_hist_items(
            items.drop_first().push(e),
        ));
        assert(enc_hist_items(items.drop_first().push(e)) == enc_hist_items(items.drop_first())
            + enc_str(e.0) + enc_i64(e.1));
        assert(enc_hist_items(items) == enc_str(items[0].0) + enc_i64(items[0].1)
            + enc_hist_items(items.drop_first()));
        assert(enc_hist_items(t) =~= enc_hist_items(items) + enc_str(e.0) + enc_i64(e.1));
    }
}

proof fn lemma_dec_hist_items(prefix: Seq<u8>, items: Seq<(Seq<char>, i64)>, suffix: Seq<u8>)
    requires
        forall|i: int|
            0 <= i < items.len() ==> encode_utf8((#[trigger] items[i]).0).len() <= u64::MAX,
    ensures
        dec_hist_items(
            prefix + enc_hist_items(items) + suffix,
            prefix.len() as int,
            items.len() as nat,
        ) == Some((items, prefix.len() as int + enc_hist_items(items).len() as int)),
    decreases items.len(),
{
    lemma_auto_spec_u64_to_from_le_bytes();
    let data = prefix + enc_hist_items(items) + suffix;
    if items.len() == 0 {
        assert(enc_hist_items(items) =~= Seq::<u8>::empty());
        assert(dec_hist_items(data, prefix.len() as int, 0) == Some((
            Seq::<(Seq<char>, i64)>::empty(),
            prefix.len() as int,
        )));
        assert(items =~= Seq::<(Seq<char>, i64)>::empty());
    } else {
        let e = items[0];
        let rest = items.drop_first();
        assert(data =~= prefix + enc_str(e.0) + (enc_i64(e.1) + enc_hist_items(rest) + suffix));
        lemma_dec_str(prefix, e.0, enc_i64(e.1) + enc_hist_items(rest) + suffix);
        let p1 = prefix + enc_str(e.0);
        assert(data =~= p1 + enc_i64(e.1) + (enc_hist_items(rest) + suffix));
        lemma_dec_i64(p1, e.1, enc_hist_items(rest) + suffix);
        let p2 = p1 + enc_i64(e.1);
        assert(data =~= p2 + enc_hist_items(rest) + suffix);
        lemma_dec_hist_items(p2, rest, suffix);
        assert(seq![(e.0, e.1)] + rest =~= items);
        assert(enc_hist_items(items).len() == enc_str(e.0).len() + enc_i64(e.1).len()
            + enc_hist_items(rest).len());
    }
}

/// Decoding a history envelope yields exactly the entries that were encoded.
pub proof fn lemma_env_hist_round_trip(items: Seq<(Seq<char>, i64)>)
    requires
        items.len() <= u64::MAX,
        forall|i: int|
            0 <= i < items.len() ==> encode_utf8((#[trigger] items[i]).0).len() <= u64::MAX,
    ensures
        dec_hist(env_hist(items)) == Some(items),
{
    lemma_auto_spec_u64_to_from_le_bytes();
    let data = env_hist(items);
    assert(data =~= seq![TAG_HISTORY] + enc_u64(items.len() as u64) + enc_hist_items(items));
    lemma_dec_u64(seq![TAG_HISTORY], items.len() as u64, enc_hist_items(items));
    let p = seq![TAG_HISTORY] + enc_u64(items.len() as u64);
    assert(data =~= p + enc_hist_items(items) + Seq::<u8>::empty());
    lemma_dec_hist_items(p, items, Seq::<u8>::empty());
    assert(data[0] == TAG_HISTORY);
}

/// Builds a register-history envelope from history entries.
pub fn make_hist(entries: &Vec<RegisterHistoryEntry>) -> (r: Vec<u8>)
    ensures
        r@ == env_hist(hist_view(entries@)),
{
    let n = entries.len();
    let mut out: Vec<u8> = Vec::new();
    out.push(TAG_HISTORY);
    assert(out@ =~= seq![TAG_HISTORY]);
    write_u64(&mut out, n as u64);
    let ghost head = seq![TAG_HISTORY] + enc_u64(n as u64);
    assert(out@ =~= head + enc_hist_items(hist_view(entries@.take(0))));
    let mut i: usize = 0;
    while i < n
        invariant
            0 <= i <= n,
            n == entries@.len(),
            out@ == head + enc_hist_items(hist_view(entries@.take(i as int))),
        decreases n - i,
    {
        let e = &entries[i];
        write_str(&mut out, e.content.as_str());
        write_i64(&mut out, e.timestamp);
        proof {
            let pre = hist_view(entries@.take(i as int));
            lemma_enc_hist_items_push(pre, entries@[i as int]@);
            assert(hist_view(entries@.take(i as int + 1)) =~= pre.push(entries@[i as int]@));
            assert(out@ =~= head + enc_hist_items(hist_view(entries@.take(i as int + 1))));
        }
        i = i + 1;
    }
    proof {
        assert(entries@.take(n as int) =~= entries@);
        assert(out@ =~= env_hist(hist_view(entries@)));
    }
    out
}

/// Takes a register-history envelope apart.
pub fn parse_hist(data: &Vec<u8>) -> (r: Option<Vec<RegisterHistoryEntry>>)
    ensures
        match r {
            Some(v) => dec_hist(data@) == Some(hist_view(v@)),
            None => dec_hist(data@) is None,
        },
{
    if data.len() < 1 {
        return None;
    }
    if data[0] != TAG_HISTORY {
        return None;
    }
    let (n, start) = match read_u64(data, 1) {
        Some(x) => x,
        None => {
            return None;
        },
    };
    let mut items: Vec<RegisterHistoryEntry> = Vec::new();
    let mut pos: usize = start;
    let mut i: u64 = 0;
    while i < n
        invariant
            0 <= i <= n,
            items@.len() == i,
            data@.len() >= 1,
            data@[0] == TAG_HISTORY,
            dec_u64(data@, 1) == Some((n, start as int)),
            dec_hist_items(data@, start as int, n as nat) == (match dec_hist_items(
                data@,
                pos as int,
                (n - i) as nat,
            ) {
                Some((rest, end)) => Some((hist_view(items@) + rest, end)),
                None => None::<(Seq<(Seq<char>, i64)>, int)>,
            }),
        decreases n - i,
    {
        let (content, p) = match read_string(data, pos) {
            Some(x) => x,
            None => {
                return None;
            },
        };
        let (ts, p2) = match read_i64(data, p) {
            Some(x) => x,
            None => {
                return None;
            },
        };
        let ghost pre = hist_view(items@);
        let ghost e: (Seq<char>, i64) = (content@, ts);
        items.push(RegisterHistoryEntry { content, timestamp: ts });
        pos = p2;
        i = i + 1;
        proof {
            assert(hist_view(items@) =~= pre.push(e));
            assert(forall|rest: Seq<(Seq<char>, i64)>|
                (pre + (seq![e] + rest)) =~= (#[trigger] (pre.push(e) + rest)));
        }
    }
    proof {
        assert(dec_hist_items(data@, pos as int, 0) == Some((
            Seq::<(Seq<char>, i64)>::empty(),
            pos as int,
        )));
        assert(hist_view(items@) + Seq::<(Seq<char>, i64)>::empty() =~= hist_view(items@));
    }
    if pos != data.len() {
        return None;
    }
    Some(items)
}

// ---------------------------------------------------------------------------
// Name-registry envelope: a name and a counted list of keyed records
// ---------------------------------------------------------------------------

/// The view of one name-registry entry: record key, then the record's
/// address, type and time-to-live.
pub type PnrItemV = (Seq<char>, (Seq<char>, Seq<char>, u32));

/// The view of a record entry vector.
pub open spec fn pnr_items_view(s: Seq<(String, PnrRecord)>) -> Seq<PnrItemV> {
    s.map_values(|e: (String, PnrRecord)| (e.0@, e.1@))
}

/// A record item list an executable record store can actually hold: the
/// count and every string's UTF-8 length fit their length prefixes.
pub open spec fn pnr_items_wf(items: Seq<PnrItemV>) -> bool {
    &&& items.len() <= u64::MAX
    &&& forall|i: int|
        0 <= i < items.len() ==> {
            &&& encode_utf8((#[trigger] items[i]).0).len() <= u64::MAX
            &&& encode_utf8(items[i].1.0).len() <= u64::MAX
            &&& encode_utf8(items[i].1.1).len() <= u64::MAX
        }
}

/// The map read of a record item list: the first occurrence of a key wins,
/// as in `crate::assoc::entries_map`.
pub open spec fn pnr_items_map(items: Seq<PnrItemV>) -> Map<Seq<char>, (Seq<char>, Seq<char>, u32)>
    decreases items.len(),
{
    if items.len() == 0 {
        Map::empty()
    } else {
        pnr_items_map(items.drop_first()).insert(items[0].0, items[0].1)
    }
}

/// The map read of encoded items agrees with the map read of the record
/// store they came from.
pub proof fn lemma_pnr_items_map_entries(s: Seq<(String, PnrRecord)>)
    ensures
        pnr_items_map(pnr_items_view(s)) == entries_map(s),
    decreases s.len(),
{
    if s.len() == 0 {
        assert(pnr_items_view(s) =~= Seq::<PnrItemV>::empty());
        assert(pnr_items_map(pnr_items_view(s)) =~= entries_map(s));
    } else {
        lemma_pnr_items_map_entries(s.drop_first());
        assert(pnr_items_view(s).drop_first() =~= pnr_items_view(s.drop_first()));
        assert(pnr_items_map(pnr_items_view(s)) =~= entries_map(s));
    }
}

/// The encoded record list of a name-registry envelope.
pub open spec fn enc_pnr_items(items: Seq<PnrItemV>) -> Seq<u8>
    decreases items.len(),
{
    if items.len() == 0 {
        Seq::empty()
    } else {
        enc_str(items[0].0) + enc_str(items[0].1.0) + enc_str(items[0].1.1) + enc_u32(
            items[0].1.2,
        ) + enc_pnr_items(items.drop_first())
    }
}

/// A name-registry envelope: tag, name, record count, then the records.
pub open spec fn env_pnr(name: Seq<char>, items: Seq<PnrItemV>) -> Seq<u8> {
    seq![TAG_PNR] + enc_str(name) + enc_u64(items.len() as u64) + enc_pnr_items(items)
}

/// Reads `n` record items at `pos`.
pub open spec fn dec_pnr_items(data: Seq<u8>, pos: int, n: nat) -> Option<(Seq<PnrItemV>, int)>
    decreases n,
{
    if n == 0 {
        Some((Seq::empty(), pos))
    } else {
        match dec_str(data, pos) {
            Some((k, p)) => match dec_str(data, p) {
                Some((a, p2)) => match dec_str(data, p2) {
                    Some((ty, p3)) => match dec_u32(data, p3) {
                        Some((ttl, p4)) => match dec_pnr_items(data, p4, (n - 1) as nat) {
                            Some((rest, p5)) => Some((seq![(k, (a, ty, ttl))] + rest, p5)),
                            None => None,
                        },
                        None => None,
                    },
                    None => None,
                },
                None => None,
            },
            None => None,
        }
    }
}

/// Decodes a name-registry envelope; the whole input must be consumed.
pub open spec fn dec_pnr(data: Seq<u8>) -> Option<(Seq<char>, Seq<PnrItemV>)> {
    if data.len() < 1 || data[0] != TAG_PNR {
        None
    } else {
        match dec_str(data, 1) {
            Some((name, p)) => match dec_u64(data, p) {
                Some((n, p2)) => match dec_pnr_items(data, p2, n as nat) {
                    Some((items, p3)) => if p3 == data.len() {
                        Some((name, items))
                    } else {
                        None
                    },
                    None => None,
                },
                None => None,
            },
            None => None,
        }
    }
}

/// Appending a record extends the encoded list at the back.
proof fn lemma_enc_pnr_items_push(items: Seq<PnrItemV>, e: PnrItemV)
    ensures
        enc_pnr_items(items.push(e)) == enc_pnr_items(items) + enc_str(e.0) + enc_str(e.1.0)
            + enc_str(e.1.1) + enc_u32(e.1.2),
    decreases items.len(),
{
    let t = items.push(e);
    let tail = enc_str(e.0) + enc_str(e.1.0) + enc_str(e.1.1) + enc_u32(e.1.2);
    if items.len() == 0 {
        assert(t[0] == e);
        assert(t.drop_first() =~= Seq::<PnrItemV>::empty());
        assert(enc_pnr_items(Seq::<PnrItemV>::empty()) == Seq::<u8>::empty());
        assert(enc_pnr_items(t) =~= enc_pnr_items(items) + enc_str(e.0) + enc_str(e.1.0)
            + enc_str(e.1.1) + enc_u32(e.1.2));
    } else {
        lemma_enc_pnr_items_push(items.drop_first(), e);
        assert(t[0] == items[0]);
        assert(t.drop_first() =~= items.drop_first().push(e));
        assert(enc_pnr_items(items.drop_first().push(e)) == enc_pnr_items(items.drop_first())
            + enc_str(e.0) + enc_str(e.1.0) + enc_str(e.1.1) + enc_u32(e.1.2));
        assert(enc_pnr_items(t) =~= enc_pnr_items(items) + enc_str(e.0) + enc_str(e.1.0)
            + enc_str(e.1.1) + enc_u32(e.1.2));
    }
}

#[verifier::spinoff_prover]
#[verifier::rlimit(60)]
proof fn lemma_dec_pnr_items(prefix: Seq<u8>, items: Seq<PnrItemV>, suffix: Seq<u8>)
    requires
        forall|i: int|
            0 <= i < items.len() ==> {
                &&& encode_utf8((#[trigger] items[i]).0).len() <= u64::MAX
                &&& encode_utf8(items[i].1.0).len() <= u64::MAX
                &&& encode_utf8(items[i].1.1).len() <= u64::MAX
            },
    ensures
        dec_pnr_items(
            prefix + enc_pnr_items(items) + suffix,
            prefix.len() as int,
            items.len() as nat,
        ) == Some((items, prefix.len() as int + enc_pnr_items(items).len() as int)),
    decreases items.len(),
{
    lemma_auto_spec_u64_to_from_le_bytes();
    lemma_auto_spec_u32_to_from_le_bytes();
    let data = prefix + enc_pnr_items(items) + suffix;
    if items.len() == 0 {
        assert(enc_pnr_items(items) =~= Seq::<u8>::empty());
        assert(dec_pnr_items(data, prefix.len() as int, 0) == Some((
            Seq::<PnrItemV>::empty(),
            prefix.len() as int,
        )));
        assert(items =~= Seq::<PnrItemV>::empty());
    } else {
        let e = items[0];
        let rest = items.drop_first();
        assert(data =~= prefix + enc_str(e.0) + (enc_str(e.1.0) + enc_str(e.1.1) + enc_u32(e.1.2)
            + enc_pnr_items(rest) + suffix));
        lemma_dec_str(
            prefix,
            e.0,
            enc_str(e.1.0) + enc_str(e.1.1) + enc_u32(e.1.2) + enc_pnr_items(rest) + suffix,
        );
        let p1 = prefix + enc_str(e.0);
        assert(data =~= p1 + enc_str(e.1.0) + (enc_str(e.1.1) + enc_u32(e.1.2) + enc_pnr_items(
            rest,
        ) + suffix));
        lemma_dec_str(p1, e.1.0, enc_str(e.1.1) + enc_u32(e.1.2) + enc_pnr_items(rest) + suffix);
        let p2 = p1 + enc_str(e.1.0);
        assert(data =~= p2 + enc_str(e.1.1) + (enc_u32(e.1.2) + enc_pnr_items(rest) + suffix));
        lemma_dec_str(p2, e.1.1, enc_u32(e.1.2) + enc_pnr_items(rest) + suffix);
        let p3 = p2 + enc_str(e.1.1);
        assert(data =~= p3 + enc_u32(e.1.2) + (enc_pnr_items(rest) + suffix));
        lemma_dec_u32(p3, e.1.2, enc_pnr_items(rest) + suffix);
        let p4 = p3 + enc_u32(e.1.2);
        assert(data =~= p4 + enc_pnr_items(rest) + suffix);
        lemma_dec_pnr_items(p4, rest, suffix);
        assert(seq![(e.0, (e.1.0, e.1.1, e.1.2))] + rest =~= items);
        assert(enc_pnr_items(items).len() == enc_str(e.0).len() + enc_str(e.1.0).len() + enc_str(
            e.1.1,
        ).len() + enc_u32(e.1.2).len() + enc_pnr_items(rest).len());
    }
}

/// Decoding a name-registry envelope yields exactly the name and records
/// that were encoded.
pub proof fn lemma_env_pnr_round_trip(name: Seq<char>, items: Seq<PnrItemV>)
    requires
        pnr_items_wf(items),
        encode_utf8(name).len() <= u64::MAX,
    ensures
        dec_pnr(env_pnr(name, items)) == Some((name, items)),
{
    lemma_auto_spec_u64_to_from_le_bytes();
    let data = env_pnr(name, items);
    assert(data =~= seq![TAG_PNR] + enc_str(name) + (enc_u64(items.len() as u64) + enc_pnr_items(
        items,
    )));
    lemma_dec_str(seq![TAG_PNR], name, enc_u64(items.len() as u64) + enc_pnr_items(items));
    let p = seq![TAG_PNR] + enc_str(name);
    assert(data =~= p + enc_u64(items.len() as u64) + enc_pnr_items(items));
    lemma_dec_u64(p, items.len() as u64, enc_pnr_items(items));
    let p2 = p + enc_u64(items.len() as u64);
    assert(data =~= p2 + enc_pnr_items(items) + Seq::<u8>::empty());
    lemma_dec_pnr_items(p2, items, Seq::<u8>::empty());
    assert(data[0] == TAG_PNR);
}

/// Builds a name-registry envelope from a record store.
pub fn make_pnr(name: &str, records: &PnrRecords) -> (r: Vec<u8>)
    ensures
        r@ == env_pnr(name@, pnr_items_view(records.entry_seq())),
        pnr_items_wf(pnr_items_view(records.entry_seq())),
        encode_utf8(name@).len() <= u64::MAX,
{
    let n = records.len();
    let mut out: Vec<u8> = Vec::new();
    out.push(TAG_PNR);
    assert(out@ =~= seq![TAG_PNR]);
    write_str(&mut out, name);
    write_u64(&mut out, n as u64);
    let ghost head = seq![TAG_PNR] + enc_str(name@) + enc_u64(n as u64);
    assert(out@ =~= head + enc_pnr_items(pnr_items_view(records.entry_seq().take(0))));
    let mut i: usize = 0;
    while i < n
        invariant
            0 <= i <= n,
            n == records.entry_seq().len(),
            out@ == head + enc_pnr_items(pnr_items_view(records.entry_seq().take(i as int))),
            forall|j: int|
                0 <= j < i ==> {
                    &&& encode_utf8((#[trigger] records.entry_seq()[j]).0@).len() <= u64::MAX
                    &&& encode_utf8(records.entry_seq()[j].1.address@).len() <= u64::MAX
                    &&& encode_utf8(records.entry_seq()[j].1.record_type@).len() <= u64::MAX
                },
        decreases n - i,
    {
        let e = records.entry_at(i);
        write_str(&mut out, e.0.as_str());
        write_str(&mut out, e.1.address.as_str());
        write_str(&mut out, e.1.record_type.as_str());
        write_u32(&mut out, e.1.ttl);
        proof {
            let s = records.entry_seq();
            let pre = pnr_items_view(s.take(i as int));
            let ev: PnrItemV = (s[i as int].0@, s[i as int].1@);
            lemma_enc_pnr_items_push(pre, ev);
            assert(pnr_items_view(s.take(i as int + 1)) =~= pre.push(ev));
            assert(out@ =~= head + enc_pnr_items(pnr_items_view(s.take(i as int + 1))));
        }
        i = i + 1;
    }
    proof {
        let s = records.entry_seq();
        assert(s.take(n as int) =~= s);
        assert(pnr_items_view(s).len() == s.len());
        assert(out@ =~= env_pnr(name@, pnr_items_view(s)));
        assert forall|j: int| 0 <= j < pnr_items_view(s).len() implies {
            &&& encode_utf8((#[trigger] pnr_items_view(s)[j]).0).len() <= u64::MAX
            &&& encode_utf8(pnr_items_view(s)[j].1.0).len() <= u64::MAX
            &&& encode_utf8(pnr_items_view(s)[j].1.1).len() <= u64::MAX
        } by {
            assert(encode_utf8(s[j].0@).len() <= u64::MAX);
        }
    }
    out
}

/// Takes a name-registry envelope apart.
pub fn parse_pnr(data: &Vec<u8>) -> (r: Option<(String, Vec<(String, PnrRecord)>)>)
    ensures
        match r {
            Some((name, v)) => dec_pnr(data@) == Some((name@, pnr_items_view(v@))),
            None => dec_pnr(data@) is None,
        },
{
    if data.len() < 1 {
        return None;
    }
    if data[0] != TAG_PNR {
        return None;
    }
    let (name, pn) = match read_string(data, 1) {
        Some(x) => x,
        None => {
            return None;
        },
    };
    let (n, start) = match read_u64(data, pn) {
        Some(x) => x,
        None => {
            return None;
        },
    };
    let mut items: Vec<(String, PnrRecord)> = Vec::new();
    let mut pos: usize = start;
    let mut i: u64 = 0;
    while i < n
        invariant
            0 <= i <= n,
            items@.len() == i,
            data@.len() >= 1,
            data@[0] == TAG_PNR,
            dec_str(data@, 1) == Some((name@, pn as int)),
            dec_u64(data@, pn as int) == Some((n, start as int)),
            dec_pnr_items(data@, start as int, n as nat) == (match dec_pnr_items(
                data@,
                pos as int,
                (n - i) as nat,
            ) {
                Some((rest, end)) => Some((pnr_items_view(items@) + rest, end)),
                None => None::<(Seq<PnrItemV>, int)>,
            }),
        decreases n - i,
    {
        let (k, p) = match read_string(data, pos) {
            Some(x) => x,
            None => {
                return None;
            },
        };
        let (addr, p2) = match read_string(data, p) {
            Some(x) => x,
            None => {
                return None;
            },
        };
        let (ty, p3) = match read_string(data, p2) {
            Some(x) => x,
            None => {
                return None;
            },
        };
        let (ttl, p4) = match read_u32(data, p3) {
            Some(x) => x,
            None => {
                return None;
            },
        };
        let ghost pre = pnr_items_view(items@);
        let ghost ev: PnrItemV = (k@, (addr@, ty@, ttl));
        items.push((k, PnrRecord { address: addr, record_type: ty, ttl }));
        pos = p4;
        i = i + 1;
        proof {
            assert(pnr_items_view(items@) =~= pre.push(ev));
            assert(forall|rest: Seq<PnrItemV>|
                (pre + (seq![ev] + rest)) =~= (#[trigger] (pre.push(ev) + rest)));
        }
    }
    proof {
        assert(dec_pnr_items(data@, pos as int, 0) == Some((
            Seq::<PnrItemV>::empty(),
            pos as int,
        )));
        assert(pnr_items_view(items@) + Seq::<PnrItemV>::empty() =~= pnr_items_view(items@));
    }
    if pos != data.len() {
        return None;
    }
    Some((name, items))
}

// ---------------------------------------------------------------------------
// Archive envelope: a counted list of (path, content) files
// ---------------------------------------------------------------------------

/// The view of an archive file vector: path characters and content bytes of
/// each file, in order.
pub open spec fn files_view(s: Seq<ArchiveFile>) -> Seq<(Seq<char>, Seq<u8>)> {
    s.map_values(|f: ArchiveFile| f@)
}

/// The encoded file list of an archive envelope.
pub open spec fn enc_file_items(items: Seq<(Seq<char>, Seq<u8>)>) -> Seq<u8>
    decreases items.len(),
{
    if items.len() == 0 {
        Seq::empty()
    } else {
        enc_str(items[0].0) + enc_bytes(items[0].1) + enc_file_items(items.drop_first())
    }
}

/// An archive envelope: tag (plain or tar-style), file count, then the
/// files.
pub open spec fn env_files(tag: u8, items: Seq<(Seq<char>, Seq<u8>)>) -> Seq<u8> {
    seq![tag] + enc_u64(items.len() as u64) + enc_file_items(items)
}

/// Reads `n` file items at `pos`.
pub open spec fn dec_file_items(data: Seq<u8>, pos: int, n: nat) -> Option<(
    Seq<(Seq<char>, Seq<u8>)>,
    int,
)>
    decreases n,
{
    if n == 0 {
        Some((Seq::empty(), pos))
    } else {
        match dec_str(data, pos) {
            Some((path, p)) => match dec_bytes(data, p) {
                Some((content, p2)) => match dec_file_items(data, p2, (n - 1) as nat) {
                    Some((rest, p3)) => Some((seq![(path, content)] + rest, p3)),
                    None => None,
                },
                None => None,
            },
            None => None,
        }
    }
}

/// Decodes an archive envelope with the given tag; the whole input must be
/// consumed.
pub open spec fn dec_files(tag: u8, data: Seq<u8>) -> Option<Seq<(Seq<char>, Seq<u8>)>> {
    if data.len() < 1 || data[0] != tag {
        None
    } else {
        match dec_u64(data, 1) {
            Some((n, p)) => match dec_file_items(data, p, n as nat) {
                Some((items, p2)) => if p2 == data.len() {
                    Some(items)
                } else {
                    None
                },
                None => None,
            },
            None => None,
        }
    }
}

/// Appending a file extends the encoded list at the back.
proof fn lemma_enc_file_items_push(items: Seq<(Seq<char>, Seq<u8>)>, e: (Seq<char>, Seq<u8>))
    ensures
        enc_file_items(items.push(e)) == enc_file_items(items) + enc_str(e.0) + enc_bytes(e.1),
    decreases items.len(),
{
    let t = items.push(e);
    if items.len() == 0 {
        assert(t[0] == e);
        assert(t.drop_first() =~= Seq::<(Seq<char>, Seq<u8>)>::empty());
        assert(enc_file_items(Seq::<(Seq<char>, Seq<u8>)>::empty()) == Seq::<u8>::empty());
        assert(enc_file_items(t) =~= enc_file_items(items) + enc_str(e.0) + enc_bytes(e.1));
    } else {
        lemma_enc_file_items_push(items.drop_first(), e);
        assert(t[0] == items[0]);
        assert(t.drop_first() =~= items.drop_first().push(e));
        assert(enc_file_items(items.drop_first().push(e)) == enc_file_items(items.drop_first())
            + enc_str(e.0) + enc_bytes(e.1));
        assert(enc_file_items(t) =~= enc_file_items(items) + enc_str(e.0) + enc_bytes(e.1));
    }
}

proof fn lemma_dec_file_items(
    prefix: Seq<u8>,
    items: Seq<(Seq<char>, Seq<u8>)>,
    suffix: Seq<u8>,
)
    requires
        forall|i: int|
            0 <= i < items.len() ==> {
                &&& encode_utf8((#[trigger] items[i]).0).len() <= u64::MAX
                &&& items[i].1.len() <= u64::MAX
            },
    ensures
        dec_file_items(
            prefix + enc_file_items(items) + suffix,
            prefix.len() as int,
            items.len() as nat,
        ) == Some((items, prefix.len() as int + enc_file_items(items).len() as int)),
    decreases items.len(),
{
    lemma_auto_spec_u64_to_from_le_bytes();
    let data = prefix + enc_file_items(items) + suffix;
    if items.len() == 0 {
        assert(enc_file_items(items) =~= Seq::<u8>::empty());
        assert(dec_file_items(data, prefix.len() as int, 0) == Some((
            Seq::<(Seq<char>, Seq<u8>)>::empty(),
            prefix.len() as int,
        )));
        assert(items =~= Seq::<(Seq<char>, Seq<u8>)>::empty());
    } else {
        let e = items[0];
        let rest = items.drop_first();
        assert(data =~= prefix + enc_str(e.0) + (enc_bytes(e.1) + enc_file_items(rest) + suffix));
        lemma_dec_str(prefix, e.0, enc_bytes(e.1) + enc_file_items(rest) + suffix);
        let p1 = prefix + enc_str(e.0);
        assert(data =~= p1 + enc_bytes(e.1) + (enc_file_items(rest) + suffix));
        lemma_dec_bytes(p1, e.1, enc_file_items(rest) + suffix);
        let p2 = p1 + enc_bytes(e.1);
        assert(data =~= p2 + enc_file_items(rest) + suffix);
        lemma_dec_file_items(p2, rest, suffix);
        assert(seq![(e.0, e.1)] + rest =~= items);
        assert(enc_file_items(items).len() == enc_str(e.0).len() + enc_bytes(e.1).len()
            + enc_file_items(rest).len());
    }
}

/// Decoding an archive envelope yields exactly the files that were encoded.
pub proof fn lemma_env_files_round_trip(tag: u8, items: Seq<(Seq<char>, Seq<u8>)>)
    requires
        items.len() <= u64::MAX,
        forall|i: int|
            0 <= i < items.len() ==> {
                &&& encode_utf8((#[trigger] items[i]).0).len() <= u64::MAX
                &&& items[i].1.len() <= u64::MAX
            },
    ensures
        dec_files(tag, env_files(tag, items)) == Some(items),
{
    lemma_auto_spec_u64_to_from_le_bytes();
    let data = env_files(tag, items);
    assert(data =~= seq![tag] + enc_u64(items.len() as u64) + enc_file_items(items));
    lemma_dec_u64(seq![tag], items.len() as u64, enc_file_items(items));
    let p = seq![tag] + enc_u64(items.len() as u64);
    assert(data =~= p + enc_file_items(items) + Seq::<u8>::empty());
    lemma_dec_file_items(p, items, Seq::<u8>::empty());
    assert(data[0] == tag);
}

/// Builds an archive envelope with the given tag.
pub fn make_files(tag: u8, files: &Vec<ArchiveFile>) -> (r: Vec<u8>)
    ensures
        r@ == env_files(tag, files_view(files@)),
{
    let n = files.len();
    let mut out: Vec<u8> = Vec::new();
    out.push(tag);
    assert(out@ =~= seq![tag]);
    write_u64(&mut out, n as u64);
    let ghost head = seq![tag] + enc_u64(n as u64);
    assert(out@ =~= head + enc_file_items(files_view(files@.take(0))));
    let mut i: usize = 0;
    while i < n
        invariant
            0 <= i <= n,
            n == files@.len(),
            out@ == head + enc_file_items(files_view(files@.take(i as int))),
        decreases n - i,
    {
        let f = &files[i];
        write_str(&mut out, f.path.as_str());
        write_bytes(&mut out, f.content.as_slice());
        proof {
            let pre = files_view(files@.take(i as int));
            lemma_enc_file_items_push(pre, files@[i as int]@);
            assert(files_view(files@.take(i as int + 1)) =~= pre.push(files@[i as int]@));
            assert(out@ =~= head + enc_file_items(files_view(files@.take(i as int + 1))));
        }
        i = i + 1;
    }
    proof {
        assert(files@.take(n as int) =~= files@);
        assert(files_view(files@).len() == files@.len());
        assert(out@ =~= env_files(tag, files_view(files@)));
    }
    out
}

/// Takes an archive envelope with the given tag apart.
pub fn parse_files(tag: u8, data: &Vec<u8>) -> (r: Option<Vec<ArchiveFile>>)
    ensures
        match r {
            Some(v) => dec_files(tag, data@) == Some(files_view(v@)),
            None => dec_files(tag, data@) is None,
        },
{
    if data.len() < 1 {
        return None;
    }
    if data[0] != tag {
        return None;
    }
    let (n, start) = match read_u64(data, 1) {
        Some(x) => x,
        None => {
            return None;
        },
    };
    let mut items: Vec<ArchiveFile> = Vec::new();
    let mut pos: usize = start;
    let mut i: u64 = 0;
    while i < n
        invariant
            0 <= i <= n,
            items@.len() == i,
            data@.len() >= 1,
            data@[0] == tag,
            dec_u64(data@, 1) == Some((n, start as int)),
            dec_file_items(data@, start as int, n as nat) == (match dec_file_items(
                data@,
                pos as int,
                (n - i) as nat,
            ) {
                Some((rest, end)) => Some((files_view(items@) + rest, end)),
                None => None::<(Seq<(Seq<char>, Seq<u8>)>, int)>,
            }),
        decreases n - i,
    {
        let (path, p) = match read_string(data, pos) {
            Some(x) => x,
            None => {
                return None;
            },
        };
        let (content, p2) = match read_bytes(data, p) {
            Some(x) => x,
            None => {
                return None;
            },
        };
        let ghost pre = files_view(items@);
        let ghost ev: (Seq<char>, Seq<u8>) = (path@, content@);
        items.push(ArchiveFile { path, content });
        pos = p2;
        i = i + 1;
        proof {
            assert(files_view(items@) =~= pre.push(ev));
            assert(forall|rest: Seq<(Seq<char>, Seq<u8>)>|
                (pre + (seq![ev] + rest)) =~= (#[trigger] (pre.push(ev) + rest)));
        }
    }
    proof {
        assert(dec_file_items(data@, pos as int, 0) == Some((
            Seq::<(Seq<char>, Seq<u8>)>::empty(),
            pos as int,
        )));
        assert(files_view(items@) + Seq::<(Seq<char>, Seq<u8>)>::empty() =~= files_view(items@));
    }
    if pos != data.len() {
        return None;
    }
    Some(items)
}

} // verus!
