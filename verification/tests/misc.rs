use anttp_store::clock::{generate_address, get_current_timestamp};
use anttp_store::digest::address_for;
use anttp_store::engine::resolve_backend;
use anttp_store::hexstr::{check_hex, u128_to_hex, u64_to_dec};
use anttp_store::models::{ErrorResponse, StoreType};

#[test]
fn address_is_sha256_hex() {
    // SHA-256 of b"Hello", rendered as lowercase hex.
    let addr = address_for(b"Hello");
    assert_eq!(
        addr,
        "185f8db32271fe25f561a6fc938b2e264306ec304eda518007d1764826381969"
    );
    assert_eq!(addr.len(), 64);
    // Deterministic across calls.
    assert_eq!(address_for(b"Hello"), addr);
}

#[test]
fn hex_check_accepts_and_rejects() {
    assert!(check_hex(""));
    assert!(check_hex("48656c6c6f"));
    assert!(check_hex("ABCDEF01"));
    assert!(!check_hex("abc"));
    assert!(!check_hex("not-hex!!"));
    assert!(!check_hex("0g"));
}

#[test]
fn store_type_parses_case_insensitively() {
    assert_eq!(StoreType::from_str("memory"), Some(StoreType::Memory));
    assert_eq!(StoreType::from_str("MEMORY"), Some(StoreType::Memory));
    assert_eq!(StoreType::from_str("Disk"), Some(StoreType::Disk));
    assert_eq!(StoreType::from_str("netWORK"), Some(StoreType::Network));
    assert_eq!(StoreType::from_str("tape"), None);
    assert_eq!(StoreType::from_str(""), None);
    assert_eq!(StoreType::default(), StoreType::Memory);
}

#[test]
fn backend_selector_downgrades_network_silently() {
    assert_eq!(
        resolve_backend(StoreType::Network, false),
        StoreType::Memory
    );
    assert_eq!(
        resolve_backend(StoreType::Network, true),
        StoreType::Network
    );
    assert_eq!(resolve_backend(StoreType::Memory, false), StoreType::Memory);
    assert_eq!(resolve_backend(StoreType::Disk, false), StoreType::Disk);
}

#[test]
fn number_rendering() {
    assert_eq!(u64_to_dec(0), "0");
    assert_eq!(u64_to_dec(7), "7");
    assert_eq!(u64_to_dec(12345), "12345");
    assert_eq!(u64_to_dec(u64::MAX), "18446744073709551615");
    assert_eq!(u128_to_hex(0), "0");
    assert_eq!(u128_to_hex(255), "ff");
    assert_eq!(u128_to_hex(0xdeadbeef), "deadbeef");
}

#[test]
fn generated_addresses_carry_their_prefix() {
    let a = generate_address("chunk");
    assert!(a.starts_with("chunk_"));
    assert!(a.len() > "chunk_".len());
}

#[test]
fn current_timestamp_is_a_decimal_numeral() {
    let t = get_current_timestamp();
    assert!(!t.is_empty());
    assert!(t.chars().all(|c| c.is_ascii_digit()));
}

#[test]
fn error_response_shapes() {
    let e = ErrorResponse::new("boom".to_string());
    assert_eq!(e.error, "boom");
    assert!(e.details.is_none());
    let e = ErrorResponse::with_details("boom".to_string(), "details".to_string());
    assert_eq!(e.error, "boom");
    assert_eq!(e.details.as_deref(), Some("details"));
}
