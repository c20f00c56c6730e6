//! Hex-encoding predicates and digit/number-to-text helpers.
//!
//! Register and graph-entry payloads must be hex-encoded; this module holds
//! the character-level validity check and small verified formatting helpers
//! used when building addresses and timestamps.

use vstd::prelude::*;

verus! {

/// A character that may appear in a hex-encoded payload.
pub open spec fn is_hex_digit(c: char) -> bool {
    ('0' <= c && c <= '9') || ('a' <= c && c <= 'f') || ('A' <= c && c <= 'F')
}

/// A well-formed hex payload: even length, hex digits only.
pub open spec fn is_hex(s: Seq<char>) -> bool {
    s.len() % 2 == 0 && forall|i: int| 0 <= i < s.len() ==> is_hex_digit(#[trigger] s[i])
}

/// The lowercase hex digit for a nibble value.
pub open spec fn hex_char(d: u8) -> char {
    if d == 0 {
        '0'
    } else if d == 1 {
        '1'
    } else if d == 2 {
        '2'
    } else if d == 3 {
        '3'
    } else if d == 4 {
        '4'
    } else if d == 5 {
        '5'
    } else if d == 6 {
        '6'
    } else if d == 7 {
        '7'
    } else if d == 8 {
        '8'
    } else if d == 9 {
        '9'
    } else if d == 10 {
        'a'
    } else if d == 11 {
        'b'
    } else if d == 12 {
        'c'
    } else if d == 13 {
        'd'
    } else if d == 14 {
        'e'
    } else {
        'f'
    }
}

/// A one-character string slice holding the lowercase hex digit for `d`.
fn digit_str(d: u8) -> (r: &'static str)
    requires
        d < 16,
    ensures
        r@ =~= seq![hex_char(d)],
{
    proof {
        reveal_strlit("0");
        reveal_strlit("1");
        reveal_strlit("2");
        reveal_strlit("3");
        reveal_strlit("4");
        reveal_strlit("5");
        reveal_strlit("6");
        reveal_strlit("7");
        reveal_strlit("8");
        reveal_strlit("9");
        reveal_strlit("a");
        reveal_strlit("b");
        reveal_strlit("c");
        reveal_strlit("d");
        reveal_strlit("e");
        reveal_strlit("f");
    }
    match d {
        0 => "0",
        1 => "1",
        2 => "2",
        3 => "3",
        4 => "4",
        5 => "5",
        6 => "6",
        7 => "7",
        8 => "8",
        9 => "9",
        10 => "a",
        11 => "b",
        12 => "c",
        13 => "d",
        14 => "e",
        _ => "f",
    }
}

/// The lowercase hex numeral of `x`, most significant digit first, with no
/// leading zeros (a single `'0'` for zero).
pub open spec fn u128_hex(x: u128) -> Seq<char>
    decreases x,
{
    if x < 16 {
        seq![hex_char(x as u8)]
    } else {
        u128_hex(x / 16) + seq![hex_char((x % 16) as u8)]
    }
}

/// Renders `x` as a lowercase hex numeral.
pub fn u128_to_hex(x: u128) -> (r: String)
    ensures
        r@ == u128_hex(x),
    decreases x,
{
    if x < 16 {
        let mut s = String::new();
        s.append(digit_str((x % 16) as u8));
        proof {
            assert(s@ =~= u128_hex(x));
        }
        s
    } else {
        let mut s = u128_to_hex(x / 16);
        s.append(digit_str((x % 16) as u8));
        proof {
            assert(s@ =~= u128_hex(x));
        }
        s
    }
}

/// The decimal numeral of `x`, most significant digit first, with no leading
/// zeros (a single `'0'` for zero).
pub open spec fn u64_dec(x: u64) -> Seq<char>
    decreases x,
{
    if x < 10 {
        seq![hex_char(x as u8)]
    } else {
        u64_dec(x / 10) + seq![hex_char((x % 10) as u8)]
    }
}

/// Every character of a decimal numeral is a digit.
pub proof fn lemma_u64_dec_digits(x: u64)
    ensures
        forall|i: int| 0 <= i < u64_dec(x).len() ==> '0' <= #[trigger] u64_dec(x)[i] <= '9',
    decreases x,
{
    if x < 10 {
        assert(u64_dec(x) =~= seq![hex_char(x as u8)]);
    } else {
        lemma_u64_dec_digits(x / 10);
        assert(u64_dec(x) == u64_dec(x / 10) + seq![hex_char((x % 10) as u8)]);
        assert forall|i: int| 0 <= i < u64_dec(x).len() implies '0' <= #[trigger] u64_dec(x)[i]
            <= '9' by {
            if i < u64_dec(x / 10).len() {
                assert(u64_dec(x)[i] == u64_dec(x / 10)[i]);
            } else {
                assert(u64_dec(x)[i] == hex_char((x % 10) as u8));
            }
        }
    }
}

proof fn lemma_u64_dec_len_pos(x: u64)
    ensures
        u64_dec(x).len() >= 1,
{
}

/// Distinct numbers have distinct decimal numerals.
pub proof fn lemma_u64_dec_injective(a: u64, b: u64)
    requires
        u64_dec(a) == u64_dec(b),
    ensures
        a == b,
    decreases a,
{
    if a < 10 && b < 10 {
        assert(u64_dec(a)[0] == hex_char(a as u8));
        assert(u64_dec(b)[0] == hex_char(b as u8));
        assert(a == b);
    } else if a < 10 {
        lemma_u64_dec_len_pos(b / 10);
        assert(u64_dec(b).len() >= 2);
        assert(u64_dec(a).len() == 1);
        assert(false);
    } else if b < 10 {
        lemma_u64_dec_len_pos(a / 10);
        assert(u64_dec(a).len() >= 2);
        assert(u64_dec(b).len() == 1);
        assert(false);
    } else {
        let la = u64_dec(a).len() as int;
        assert(u64_dec(a)[la - 1] == hex_char((a % 10) as u8));
        assert(u64_dec(b)[la - 1] == hex_char((b % 10) as u8));
        assert(a % 10 == b % 10);
        assert(u64_dec(a / 10) =~= u64_dec(a).subrange(0, la - 1));
        assert(u64_dec(b / 10) =~= u64_dec(b).subrange(0, la - 1));
        lemma_u64_dec_injective(a / 10, b / 10);
    }
}

/// Renders `x` as a decimal numeral.
pub fn u64_to_dec(x: u64) -> (r: String)
    ensures
        r@ == u64_dec(x),
    decreases x,
{
    if x < 10 {
        let mut s = String::new();
        s.append(digit_str((x % 10) as u8));
        proof {
            assert(s@ =~= u64_dec(x));
        }
        s
    } else {
        let mut s = u64_to_dec(x / 10);
        s.append(digit_str((x % 10) as u8));
        proof {
            assert(s@ =~= u64_dec(x));
        }
        s
    }
}

fn check_hex_digit(c: char) -> (r: bool)
    ensures
        r == is_hex_digit(c),
{
    ('0' <= c && c <= '9') || ('a' <= c && c <= 'f') || ('A' <= c && c <= 'F')
}

/// Checks that a payload is hex-encoded: even length, hex digits only.
pub fn check_hex(s: &str) -> (r: bool)
    ensures
        r == is_hex(s@),
{
    let n = s.unicode_len();
    if n % 2 != 0 {
        return false;
    }
    let mut i: usize = 0;
    while i < n
        invariant
            0 <= i <= n,
            n == s@.len(),
            n % 2 == 0,
            forall|j: int| 0 <= j < i ==> is_hex_digit(#[trigger] s@[j]),
        decreases n - i,
    {
        if !check_hex_digit(s.get_char(i)) {
            return false;
        }
        i = i + 1;
    }
    true
}

} // verus!
