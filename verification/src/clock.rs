//! Clock access and time-derived identifiers.
//!
//! The clock readings themselves cannot be pinned by a contract — they differ
//! between calls — so the wrappers promise nothing about the values; every
//! caller states what holds of any outcome.

use vstd::prelude::*;

use crate::hexstr::{u128_hex, u128_to_hex, u64_to_dec, u64_dec};

verus! {

/// Relies on std::time::SystemTime: nanoseconds since the Unix epoch, or 0
/// when the clock reads earlier than the epoch.
#[verifier::external_body]
fn now_unix_nanos() -> u128 {
    match std::time::SystemTime::now().duration_since(std::time::UNIX_EPOCH) {
        Ok(d) => d.as_nanos(),
        Err(_) => 0,
    }
}

/// Relies on std::time::SystemTime: whole seconds since the Unix epoch,
/// saturating at the i64 range, or 0 when the clock reads earlier than the
/// epoch. Never panics, whatever the clock reads.
#[verifier::external_body]
pub(crate) fn now_timestamp() -> i64 {
    match std::time::SystemTime::now().duration_since(std::time::UNIX_EPOCH) {
        Ok(d) => i64::try_from(d.as_secs()).unwrap_or(i64::MAX),
        Err(_) => 0,
    }
}

/// Produces a fresh identifier of the form `prefix_<hex nanoseconds>`: the
/// prefix, an underscore, then the hex numeral of a clock reading. Which
/// reading is not pinned — it comes from the clock.
pub fn generate_address(prefix: &str) -> (r: String)
    ensures
        r@.len() > prefix@.len() + 1,
        r@.subrange(0, prefix@.len() as int) == prefix@,
        r@[prefix@.len() as int] == '_',
        exists|n: u128| r@ == prefix@ + seq!['_'] + u128_hex(n),
{
    let nanos = now_unix_nanos();
    let mut s = String::new();
    s.append(prefix);
    s.append("_");
    let suffix = u128_to_hex(nanos);
    s.append(suffix.as_str());
    proof {
        reveal_strlit("_");
        assert("_"@ =~= seq!['_']);
        assert(s@.subrange(0, prefix@.len() as int) =~= prefix@);
        assert(s@ == prefix@ + seq!['_'] + u128_hex(nanos));
    }
    s
}

/// The current Unix time, in whole seconds, as a decimal numeral.
pub fn get_current_timestamp() -> (r: String)
    ensures
        exists|n: u64| r@ == u64_dec(n),
{
    let nanos = now_unix_nanos();
    let quot = nanos / 1_000_000_000;
    let secs: u64 = if quot > u64::MAX as u128 {
        u64::MAX
    } else {
        quot as u64
    };
    u64_to_dec(secs)
}

} // verus!
